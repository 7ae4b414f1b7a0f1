//! The continuous stdin variant: every incoming line is emitted at once,
//! and the separator cadence is driven by a line countdown instead of by
//! repetition boundaries.

use vstd::prelude::*;
use vstd::arithmetic::div_mod::{
    lemma_fundamental_div_mod, lemma_fundamental_div_mod_converse, lemma_mod_bound,
};
use crate::config::{Separator, sep_emission};
use crate::emit::{views, lemma_views_add, lemma_views_push, push_separator};

verus! {

/// Everything the continuous variant emits for a given incoming stream:
/// each line as it arrives, and the separator's emission whenever the
/// number of lines seen so far reaches a multiple of the limit — also
/// when that multiple ends the stream. A trailing partial group, or an
/// absent limit, emits no separator.
pub open spec fn continuous_output(
    lines: Seq<Seq<char>>,
    top: Option<usize>,
    sep: Separator,
) -> Seq<Seq<char>>
    decreases lines.len(),
{
    if lines.len() == 0 {
        Seq::empty()
    } else {
        continuous_output(lines.drop_last(), top, sep) + seq![lines.last()] + (match top {
            Option::Some(t) => if t >= 1 && lines.len() as int % (t as int) == 0 {
                sep_emission(sep)
            } else {
                Seq::<Seq<char>>::empty()
            },
            Option::None => Seq::<Seq<char>>::empty(),
        })
    }
}

/// How `x % t` moves when `x` grows by one.
proof fn lemma_mod_step(x: int, t: int)
    requires
        t >= 1,
        x >= 0,
    ensures
        x % t == t - 1 ==> (x + 1) % t == 0,
        x % t < t - 1 ==> (x + 1) % t == x % t + 1,
{
    lemma_fundamental_div_mod(x, t);
    lemma_mod_bound(x, t);
    let q = x / t;
    let r = x % t;
    assert(t * q == q * t) by (nonlinear_arith);
    if r == t - 1 {
        assert(x + 1 == (q + 1) * t + 0) by (nonlinear_arith)
            requires
                x == q * t + r,
                r == t - 1,
        ;
        lemma_fundamental_div_mod_converse(x + 1, t, q + 1, 0);
    } else {
        lemma_fundamental_div_mod_converse(x + 1, t, q, r + 1);
    }
}

/// The line countdown behind the continuous cadence: it starts at the
/// limit, falls by one per line, and emits the separator and restarts
/// when it runs out. Without a limit it stays idle and never separates.
pub struct ContinuousEcho {
    /// The configured limit, unchanged over the run.
    pub top: Option<usize>,
    /// Lines still to go before the next separator boundary.
    pub remaining: Option<usize>,
}

impl ContinuousEcho {
    /// The countdown exists exactly when a limit does, and stays within it.
    pub open spec fn wf(self) -> bool {
        match self.top {
            Option::Some(t) => t >= 1 && (self.remaining matches Option::Some(r) && 1 <= r <= t),
            Option::None => self.remaining is None,
        }
    }

    pub fn new(top: Option<usize>) -> (s: Self)
        requires
            top matches Option::Some(t) ==> t >= 1,
        ensures
            s.wf(),
            s.top == top,
            s.remaining == top,
    {
        ContinuousEcho { top, remaining: top }
    }

    /// Feeds one incoming line and returns what to print now: the line
    /// itself, then the separator's emission exactly when this line ends
    /// a full group.
    pub fn step(&mut self, line: &String, sep: &Separator) -> (out: Vec<String>)
        requires
            old(self).wf(),
        ensures
            final(self).wf(),
            final(self).top == old(self).top,
            views(out@) == seq![line@] + (if old(self).remaining == Option::Some(1usize) {
                sep_emission(*sep)
            } else {
                Seq::<Seq<char>>::empty()
            }),
            (match old(self).remaining {
                Option::Some(r) => if r == 1 {
                    final(self).remaining == old(self).top
                } else {
                    final(self).remaining == Option::Some((r - 1) as usize)
                },
                Option::None => final(self).remaining is None,
            }),
    {
        let mut out: Vec<String> = Vec::new();
        let first = line.clone();
        proof {
            lemma_views_push(out@, first);
            assert(views(out@).push(first@) =~= seq![line@]);
        }
        out.push(first);
        match self.remaining {
            Option::Some(r) => {
                if r == 1 {
                    push_separator(&mut out, sep);
                    self.remaining = self.top;
                } else {
                    self.remaining = Option::Some(r - 1);
                    proof {
                        assert(views(out@) =~= seq![line@] + Seq::<Seq<char>>::empty());
                    }
                }
            },
            Option::None => {
                proof {
                    assert(views(out@) =~= seq![line@] + Seq::<Seq<char>>::empty());
                }
            },
        }
        out
    }
}

/// The continuous variant over a whole stream: drives the countdown over
/// every line in order and collects exactly what it prints.
pub fn process_continuous(lines: &Vec<String>, top: Option<usize>, sep: &Separator) -> (r: Vec<
    String,
>)
    requires
        top matches Option::Some(t) ==> t >= 1,
    ensures
        views(r@) == continuous_output(views(lines@), top, *sep),
{
    let ghost vs = views(lines@);
    let mut st = ContinuousEcho::new(top);
    let mut out: Vec<String> = Vec::new();
    proof {
        assert(views(out@) =~= continuous_output(vs.take(0), top, *sep));
    }
    let mut i: usize = 0;
    while i < lines.len()
        invariant
            i <= lines.len(),
            vs == views(lines@),
            vs.len() == lines@.len(),
            st.wf(),
            st.top == top,
            (top matches Option::Some(t) ==> t >= 1),
            (match top {
                Option::Some(t) => st.remaining == Option::Some(
                    (t - (i as int % t as int)) as usize,
                ),
                Option::None => st.remaining is None,
            }),
            views(out@) == continuous_output(vs.take(i as int), top, *sep),
        decreases lines.len() - i,
    {
        let ghost old_remaining = st.remaining;
        let mut piece = st.step(&lines[i], sep);
        proof {
            let next = vs.take(i as int + 1);
            assert(next.drop_last() =~= vs.take(i as int));
            assert(next.last() == vs[i as int]);
            lemma_views_add(out@, piece@);
            match top {
                Option::Some(t) => {
                    lemma_mod_bound(i as int, t as int);
                    lemma_mod_step(i as int, t as int);
                    assert(old_remaining == Option::Some(1usize) <==> (i as int + 1) % (
                    t as int) == 0);
                },
                Option::None => {},
            }
            assert(views(out@) + views(piece@) =~= continuous_output(next, top, *sep));
        }
        out.append(&mut piece);
        i += 1;
    }
    proof {
        assert(vs.take(lines@.len() as int) =~= vs);
    }
    out
}

} // verus!
