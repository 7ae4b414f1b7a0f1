//! The repetition engine: truncation, joining, and repeated emission with
//! separators at interior boundaries.

use vstd::prelude::*;
use vstd::string::StringExecFns;
use crate::config::{Separator, sep_emission, RunConfig};

verus! {

/// The character sequences behind a sequence of owned strings.
pub open spec fn views(lines: Seq<String>) -> Seq<Seq<char>> {
    lines.map_values(|s: String| s@)
}

/// A unit capped to at most `top` lines; an absent limit keeps everything.
/// The cap is exact: with `top = Some(t)` and at least `t` lines available,
/// exactly the first `t` lines survive, in order.
pub open spec fn truncated(lines: Seq<Seq<char>>, top: Option<usize>) -> Seq<Seq<char>> {
    match top {
        Option::None => lines,
        Option::Some(t) => if lines.len() <= t {
            lines
        } else {
            lines.take(t as int)
        },
    }
}

/// A sequence of units joined into one output, with the separator's
/// emission between every two consecutive units: never before the first
/// unit, never after the last.
pub open spec fn joined_units(units: Seq<Seq<Seq<char>>>, sep: Separator) -> Seq<Seq<char>>
    decreases units.len(),
{
    if units.len() == 0 {
        Seq::empty()
    } else if units.len() == 1 {
        units[0]
    } else {
        joined_units(units.drop_last(), sep) + sep_emission(sep) + units.last()
    }
}

/// The same unit repeated `n` times.
pub open spec fn repeat_units(unit: Seq<Seq<char>>, n: nat) -> Seq<Seq<Seq<char>>> {
    Seq::new(n, |i| unit)
}

/// Direct-mode input words joined by single spaces.
pub open spec fn joined_text(inputs: Seq<Seq<char>>) -> Seq<char>
    decreases inputs.len(),
{
    if inputs.len() == 0 {
        Seq::empty()
    } else if inputs.len() == 1 {
        inputs[0]
    } else {
        joined_text(inputs.drop_last()) + seq![' '] + inputs.last()
    }
}

/// Everything direct mode emits: the joined text `n` times, separated.
pub open spec fn direct_output(joined: Seq<char>, n: nat, sep: Separator) -> Seq<Seq<char>> {
    joined_units(repeat_units(seq![joined], n), sep)
}

/// Everything buffered stdin mode emits: the capped buffer `n` times,
/// separated at repetition boundaries.
pub open spec fn stdin_output(
    lines: Seq<Seq<char>>,
    top: Option<usize>,
    n: nat,
    sep: Separator,
) -> Seq<Seq<char>> {
    joined_units(repeat_units(truncated(lines, top), n), sep)
}

/// Appending one more unit extends the joined output by a separator
/// boundary (unless the output was empty) and the unit itself.
pub proof fn lemma_joined_units_push(units: Seq<Seq<Seq<char>>>, u: Seq<Seq<char>>, sep: Separator)
    ensures
        joined_units(units.push(u), sep) == if units.len() == 0 {
            u
        } else {
            joined_units(units, sep) + sep_emission(sep) + u
        },
{
    let p = units.push(u);
    assert(p.drop_last() =~= units);
    assert(p.last() == u);
    if units.len() == 0 {
        assert(joined_units(p, sep) == p[0]);
        assert(p[0] == u);
    }
}

/// Mapping to views commutes with appending one string.
pub proof fn lemma_views_push(lines: Seq<String>, x: String)
    ensures
        views(lines.push(x)) =~= views(lines).push(x@),
{
}

/// Mapping to views commutes with concatenation.
pub proof fn lemma_views_add(a: Seq<String>, b: Seq<String>)
    ensures
        views(a + b) =~= views(a) + views(b),
{
}

/// Appends the separator's emission: nothing, or exactly one line.
pub(crate) fn push_separator(out: &mut Vec<String>, sep: &Separator)
    ensures
        views(final(out)@) == views(old(out)@) + sep_emission(*sep),
{
    match sep {
        Separator::Absent => {
            proof {
                assert(views(out@) =~= views(out@) + sep_emission(*sep));
            }
        },
        Separator::PresentDefault => {
            let blank = String::new();
            proof {
                lemma_views_push(out@, blank);
                assert(views(out@).push(blank@) =~= views(out@) + sep_emission(*sep));
            }
            out.push(blank);
        },
        Separator::PresentText(s) => {
            let line = s.clone();
            proof {
                lemma_views_push(out@, line);
                assert(views(out@).push(line@) =~= views(out@) + sep_emission(*sep));
            }
            out.push(line);
        },
    }
}

/// Appends one unit's surviving lines: the unit capped to `top`.
pub(crate) fn push_unit(out: &mut Vec<String>, unit: &Vec<String>, top: Option<usize>)
    ensures
        views(final(out)@) == views(old(out)@) + truncated(views(unit@), top),
{
    let ghost trunc = truncated(views(unit@), top);
    let limit: usize = match top {
        Option::Some(t) => if t < unit.len() {
            t
        } else {
            unit.len()
        },
        Option::None => unit.len(),
    };
    proof {
        assert(trunc.len() == limit as int);
        assert(views(out@) =~= views(out@) + trunc.take(0));
    }
    let mut j: usize = 0;
    while j < limit
        invariant
            j <= limit,
            limit <= unit.len(),
            trunc == truncated(views(unit@), top),
            trunc.len() == limit as int,
            views(out@) == views(old(out)@) + trunc.take(j as int),
        decreases limit - j,
    {
        let line = unit[j].clone();
        proof {
            lemma_views_push(out@, line);
            assert(trunc[j as int] == views(unit@)[j as int]);
            assert((views(old(out)@) + trunc.take(j as int)).push(line@) =~= views(old(out)@)
                + trunc.take(j as int + 1));
        }
        out.push(line);
        j += 1;
    }
    proof {
        assert(trunc.take(limit as int) =~= trunc);
    }
}

/// The capped lines of one source, in their original order: with a limit
/// of `t`, the first `t` lines (or all of them when fewer exist); without
/// a limit, every line.
pub fn process_input_source(lines: &Vec<String>, top: Option<usize>) -> (r: Vec<String>)
    ensures
        views(r@) == truncated(views(lines@), top),
{
    let mut out: Vec<String> = Vec::new();
    proof {
        assert(views(out@) =~= Seq::<Seq<char>>::empty());
    }
    push_unit(&mut out, lines, top);
    proof {
        assert(Seq::<Seq<char>>::empty() + truncated(views(lines@), top) =~= truncated(
            views(lines@),
            top,
        ));
    }
    out
}

/// The input words joined into one line by single spaces.
pub fn join_inputs(inputs: &Vec<String>) -> (r: String)
    ensures
        r@ == joined_text(views(inputs@)),
{
    let ghost vs = views(inputs@);
    let mut r = String::new();
    let mut i: usize = 0;
    while i < inputs.len()
        invariant
            i <= inputs.len(),
            vs == views(inputs@),
            vs.len() == inputs@.len(),
            r@ == joined_text(vs.take(i as int)),
        decreases inputs.len() - i,
    {
        if i > 0 {
            r.append(" ");
        }
        r.append(inputs[i].as_str());
        proof {
            reveal_strlit(" ");
            assert(" "@ =~= seq![' ']);
            let next = vs.take(i as int + 1);
            assert(next.drop_last() =~= vs.take(i as int));
            assert(next.last() == vs[i as int]);
            if i == 0 {
                assert(r@ =~= vs[0]);
                assert(joined_text(next) == next[0]);
            } else {
                assert(joined_text(next) == joined_text(vs.take(i as int)) + seq![' ']
                    + vs[i as int]);
            }
        }
        i += 1;
    }
    proof {
        assert(vs.take(inputs@.len() as int) =~= vs);
    }
    r
}

/// Direct mode: the joined input printed `number` times, the separator's
/// emission between consecutive repetitions and nowhere else. The line
/// limit plays no part here: a repetition is a single line.
pub fn process_direct_input(c: &RunConfig) -> (r: Vec<String>)
    requires
        c.wf(),
    ensures
        views(r@) == direct_output(joined_text(views(c.inputs@)), c.number as nat, c.separator),
{
    let joined = join_inputs(&c.inputs);
    let ghost unit: Seq<Seq<char>> = seq![joined@];
    let mut out: Vec<String> = Vec::new();
    proof {
        assert(repeat_units(unit, 0) =~= Seq::<Seq<Seq<char>>>::empty());
        assert(views(out@) =~= joined_units(repeat_units(unit, 0), c.separator));
    }
    let mut i: usize = 0;
    while i < c.number
        invariant
            i <= c.number,
            unit == seq![joined@],
            views(out@) == joined_units(repeat_units(unit, i as nat), c.separator),
        decreases c.number - i,
    {
        proof {
            assert(repeat_units(unit, i as nat + 1) =~= repeat_units(unit, i as nat).push(unit));
            lemma_joined_units_push(repeat_units(unit, i as nat), unit, c.separator);
        }
        if i > 0 {
            push_separator(&mut out, &c.separator);
        }
        let line = joined.clone();
        proof {
            lemma_views_push(out@, line);
            if i == 0 {
                assert(views(out@).push(line@) =~= unit);
            } else {
                assert(views(out@).push(line@) =~= joined_units(
                    repeat_units(unit, i as nat),
                    c.separator,
                ) + sep_emission(c.separator) + unit);
            }
        }
        out.push(line);
        i += 1;
    }
    out
}

/// Buffered stdin mode: the buffered lines, capped to the limit, printed
/// `number` times, the separator's emission between consecutive
/// repetitions and nowhere else.
pub fn process_stdin(lines: &Vec<String>, c: &RunConfig) -> (r: Vec<String>)
    requires
        c.wf(),
    ensures
        views(r@) == stdin_output(views(lines@), c.top, c.number as nat, c.separator),
{
    let ghost unit = truncated(views(lines@), c.top);
    let mut out: Vec<String> = Vec::new();
    proof {
        assert(repeat_units(unit, 0) =~= Seq::<Seq<Seq<char>>>::empty());
        assert(views(out@) =~= joined_units(repeat_units(unit, 0), c.separator));
    }
    let mut k: usize = 0;
    while k < c.number
        invariant
            k <= c.number,
            unit == truncated(views(lines@), c.top),
            views(out@) == joined_units(repeat_units(unit, k as nat), c.separator),
        decreases c.number - k,
    {
        proof {
            assert(repeat_units(unit, k as nat + 1) =~= repeat_units(unit, k as nat).push(unit));
            lemma_joined_units_push(repeat_units(unit, k as nat), unit, c.separator);
        }
        if k > 0 {
            push_separator(&mut out, &c.separator);
        }
        push_unit(&mut out, lines, c.top);
        k += 1;
    }
    out
}

} // verus!
