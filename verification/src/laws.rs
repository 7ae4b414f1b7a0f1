//! The laws of the engine, stated over the same spec functions the
//! executable contracts use and proved once and for all.

use vstd::prelude::*;
use crate::config::{Separator, sep_emission};
use crate::emit::{truncated, repeat_units, direct_output};
use crate::files::{
    FileInput, FileRead, all_readable, failure_report, failure_desc, error_line,
    lemma_failure_report_empty,
};
use crate::continuous::continuous_output;

verus! {

/// Where the `i`-th repetition's content line sits in the joined output,
/// when every separator boundary emits `slen` lines.
pub open spec fn block_start(i: int, slen: int) -> int {
    i + i * slen
}

/// Direct mode's shape: the joined text appears exactly `n` times, one
/// separator emission between consecutive appearances and none anywhere
/// else — whatever the separator's tri-state. With `slen` the lines one
/// boundary emits (0 or 1), the output holds `n + (n - 1) * slen` lines,
/// the `i`-th content line at `block_start(i, slen)`, and each boundary's
/// separator line right after the content line it follows.
pub proof fn lemma_direct_repetition(joined: Seq<char>, n: nat, sep: Separator)
    requires
        n >= 1,
    ensures
        direct_output(joined, n, sep).len() == n + (n - 1) * sep_emission(sep).len(),
        forall|i: int|
            0 <= i < n ==> direct_output(joined, n, sep)[#[trigger] block_start(
                i,
                sep_emission(sep).len() as int,
            )] == joined,
        sep_emission(sep).len() == 1 ==> forall|i: int|
            0 <= i < n - 1 ==> direct_output(joined, n, sep)[#[trigger] block_start(i, 1) + 1]
                == sep_emission(sep)[0],
    decreases n,
{
    let s = sep_emission(sep).len() as int;
    let out = direct_output(joined, n, sep);
    let unit: Seq<Seq<char>> = seq![joined];
    assert(s == 0 || s == 1);
    if n == 1 {
        assert(repeat_units(unit, 1).len() == 1);
        assert(out == repeat_units(unit, 1)[0]);
        assert(out.len() == 1);
        assert((1int - 1) * s == 0);
        assert(forall|i: int| 0 <= i < 1 ==> #[trigger] block_start(i, s) == 0);
    } else {
        lemma_direct_repetition(joined, (n - 1) as nat, sep);
        let prev = direct_output(joined, (n - 1) as nat, sep);
        let ru = repeat_units(unit, n);
        assert(ru.drop_last() =~= repeat_units(unit, (n - 1) as nat));
        assert(ru.last() == unit);
        assert(out == prev + sep_emission(sep) + unit);
        if s == 0 {
            assert(prev.len() == n - 1);
            assert(out.len() == n);
            assert((n - 1) * 0 == 0);
            assert forall|i: int| 0 <= i < n implies out[#[trigger] block_start(i, s)]
                == joined by {
                assert(block_start(i, 0) == i);
                if i < n - 1 {
                    assert(out[i] == prev[i]);
                } else {
                    assert(out[n - 1] == unit[0]);
                }
            }
        } else {
            assert(prev.len() == (n - 1) + (n - 2) * 1);
            assert(out.len() == prev.len() + 2);
            assert(out.len() == n + (n - 1) * 1);
            assert forall|i: int| 0 <= i < n implies out[#[trigger] block_start(i, s)]
                == joined by {
                assert(block_start(i, 1) == 2 * i);
                if i < n - 1 {
                    assert(2 * i < prev.len());
                    assert(out[2 * i] == prev[2 * i]);
                } else {
                    assert(2 * (n - 1) == prev.len() + 1);
                    assert(out[prev.len() as int + 1] == unit[0]);
                }
            }
            assert forall|i: int| 0 <= i < n - 1 implies out[#[trigger] block_start(i, 1) + 1]
                == sep_emission(sep)[0] by {
                assert(block_start(i, 1) + 1 == 2 * i + 1);
                if i < n - 2 {
                    assert(2 * i + 1 < prev.len());
                    assert(out[2 * i + 1] == prev[2 * i + 1]);
                } else {
                    assert(2 * i + 1 == prev.len());
                    assert(out[prev.len() as int] == sep_emission(sep)[0]);
                }
            }
        }
    }
}

/// A unit longer than the limit is capped to exactly the limit's worth of
/// lines, the first ones, in their original order.
pub proof fn lemma_truncation_caps(lines: Seq<Seq<char>>, k: usize)
    requires
        lines.len() > k,
    ensures
        truncated(lines, Option::Some(k)).len() == k,
        forall|i: int| 0 <= i < k ==> #[trigger] truncated(lines, Option::Some(k))[i] == lines[i],
{
}

/// A limit at least as large as the unit, or no limit at all, keeps every
/// line.
pub proof fn lemma_truncation_keeps_all(lines: Seq<Seq<char>>, top: Option<usize>)
    requires
        top matches Option::Some(t) ==> t >= lines.len(),
    ensures
        truncated(lines, top) == lines,
{
}

/// The separator tri-state round-trips into emissions: not requested
/// never emits a line, requested-with-default emits exactly one empty
/// line per boundary, requested-with-text emits exactly that text once
/// per boundary. An explicitly empty text is requested, not absent.
pub proof fn lemma_separator_tristate(sep: Separator)
    ensures
        sep is Absent ==> sep_emission(sep) =~= Seq::<Seq<char>>::empty(),
        sep is PresentDefault ==> sep_emission(sep) =~= seq![Seq::<char>::empty()],
        (sep matches Separator::PresentText(s) ==> sep_emission(sep) =~= seq![s@]),
        sep_emission(sep).len() == if sep is Absent {
            0int
        } else {
            1int
        },
{
}

/// Preflight reports every inaccessible path, not just the first: the
/// diagnostic lines are exactly, in input order, one formatted line per
/// failing input; and the report is empty only when every input opened.
pub proof fn lemma_preflight_reports_every_failure(inputs: Seq<FileInput>)
    ensures
        failure_report(inputs) =~= inputs.filter(|x: FileInput| x.read is Failure).map_values(
            |x: FileInput| error_line(x.path@, failure_desc(x)),
        ),
        all_readable(inputs) <==> inputs.filter(|x: FileInput| x.read is Failure).len() == 0,
    decreases inputs.len(),
{
    reveal(Seq::filter);
    let fails = |x: FileInput| x.read is Failure;
    let line_of = |x: FileInput| error_line(x.path@, failure_desc(x));
    lemma_failure_report_empty(inputs);
    if inputs.len() == 0 {
    } else {
        lemma_preflight_reports_every_failure(inputs.drop_last());
        assert(inputs.filter(fails) == if fails(inputs.last()) {
            inputs.drop_last().filter(fails).push(inputs.last())
        } else {
            inputs.drop_last().filter(fails)
        });
        if fails(inputs.last()) {
            assert(inputs.drop_last().filter(fails).push(inputs.last()).map_values(line_of)
                =~= inputs.drop_last().filter(fails).map_values(line_of).push(
                line_of(inputs.last()),
            ));
            assert(failure_report(inputs) =~= failure_report(inputs.drop_last()) + seq![
                line_of(inputs.last()),
            ]);
        }
    }
}

/// The continuous cadence without a limit never emits a separator: the
/// output is exactly the incoming stream.
pub proof fn lemma_continuous_unbounded(lines: Seq<Seq<char>>, sep: Separator)
    ensures
        continuous_output(lines, Option::None, sep) =~= lines,
    decreases lines.len(),
{
    if lines.len() > 0 {
        lemma_continuous_unbounded(lines.drop_last(), sep);
        assert(continuous_output(lines, Option::None, sep) =~= lines.drop_last() + seq![
            lines.last(),
        ]);
    }
}

/// How `x / t` moves when `x` grows by one.
proof fn lemma_div_step(x: int, t: int)
    requires
        t >= 1,
        x >= 0,
    ensures
        (x + 1) % t == 0 ==> (x + 1) / t == x / t + 1,
        (x + 1) % t != 0 ==> (x + 1) / t == x / t,
{
    vstd::arithmetic::div_mod::lemma_fundamental_div_mod(x, t);
    vstd::arithmetic::div_mod::lemma_mod_bound(x, t);
    let q = x / t;
    let r = x % t;
    assert(t * q == q * t) by (nonlinear_arith);
    if r == t - 1 {
        assert(x + 1 == (q + 1) * t + 0) by (nonlinear_arith)
            requires
                x == q * t + r,
                r == t - 1,
        ;
        vstd::arithmetic::div_mod::lemma_fundamental_div_mod_converse(x + 1, t, q + 1, 0);
    } else {
        vstd::arithmetic::div_mod::lemma_fundamental_div_mod_converse(x + 1, t, q, r + 1);
    }
}

/// The continuous cadence with limit `t` emits one separator boundary per
/// completed group of `t` lines — `len / t` of them in all — and none
/// after a trailing partial group: there, the stream's last line is also
/// the output's last line.
pub proof fn lemma_continuous_cadence(lines: Seq<Seq<char>>, t: usize, sep: Separator)
    requires
        t >= 1,
    ensures
        continuous_output(lines, Option::Some(t), sep).len() == lines.len() + (
        lines.len() as int / t as int) * sep_emission(sep).len(),
        lines.len() > 0 && lines.len() as int % t as int != 0 ==> continuous_output(
            lines,
            Option::Some(t),
            sep,
        ).last() == lines.last(),
    decreases lines.len(),
{
    let out = continuous_output(lines, Option::Some(t), sep);
    let s = sep_emission(sep).len() as int;
    let len = lines.len() as int;
    assert(s == 0 || s == 1);
    if lines.len() == 0 {
        assert(0int / t as int == 0) by {
            vstd::arithmetic::div_mod::lemma_fundamental_div_mod_converse(0, t as int, 0, 0);
        }
    } else {
        lemma_continuous_cadence(lines.drop_last(), t, sep);
        lemma_div_step(len - 1, t as int);
        let prev = continuous_output(lines.drop_last(), Option::Some(t), sep);
        if len % (t as int) == 0 {
            assert(out == prev + seq![lines.last()] + sep_emission(sep));
            assert(len / (t as int) == (len - 1) / (t as int) + 1);
            if s == 0 {
                assert((len / (t as int)) * s == 0 && ((len - 1) / (t as int)) * s == 0);
            } else {
                assert((len / (t as int)) * s == len / (t as int)) by (nonlinear_arith)
                    requires
                        s == 1,
                ;
                assert(((len - 1) / (t as int)) * s == (len - 1) / (t as int)) by (nonlinear_arith)
                    requires
                        s == 1,
                ;
            }
        } else {
            assert(out == prev + seq![lines.last()] + Seq::<Seq<char>>::empty());
            assert(out =~= prev + seq![lines.last()]);
            assert(len / (t as int) == (len - 1) / (t as int));
            assert(out.last() == lines.last());
        }
    }
}

} // verus!
