//! File mode: all-or-nothing preflight over the opened inputs, then
//! repeated emission of every file with separators at interior boundaries.

use vstd::prelude::*;
use vstd::string::{StringExecFns, StrSliceExecFns};
use crate::config::{Separator, sep_emission, RunConfig};
use crate::emit::{
    views, truncated, joined_units, lemma_joined_units_push, lemma_views_push, push_separator,
    push_unit,
};

verus! {

/// What reading one input path produced: its lines, or the description of
/// why it could not be opened.
pub enum FileRead {
    Content(Vec<String>),
    Failure(String),
}

/// One input path together with its read outcome.
pub struct FileInput {
    pub path: String,
    pub read: FileRead,
}

/// Column that paths are padded to in diagnostic lines.
pub const PATH_COLUMN: usize = 20;

/// A path padded with spaces to the diagnostic column; longer paths stay
/// as they are.
pub open spec fn padded_path(path: Seq<char>) -> Seq<char> {
    if path.len() >= PATH_COLUMN {
        path
    } else {
        path + Seq::new((PATH_COLUMN - path.len()) as nat, |i| ' ')
    }
}

/// One diagnostic line for one inaccessible path.
pub open spec fn error_line(path: Seq<char>, desc: Seq<char>) -> Seq<char> {
    padded_path(path) + " | Error: "@ + desc
}

/// The failure description of one input; meaningful only for failures.
pub open spec fn failure_desc(x: FileInput) -> Seq<char> {
    match x.read {
        FileRead::Failure(d) => d@,
        FileRead::Content(_) => Seq::empty(),
    }
}

/// Every input opened successfully.
pub open spec fn all_readable(inputs: Seq<FileInput>) -> bool {
    forall|i: int| 0 <= i < inputs.len() ==> inputs[i].read is Content
}

/// The diagnostic report: one line per inaccessible path, in input order,
/// and nothing for readable ones.
pub open spec fn failure_report(inputs: Seq<FileInput>) -> Seq<Seq<char>>
    decreases inputs.len(),
{
    if inputs.len() == 0 {
        Seq::empty()
    } else {
        failure_report(inputs.drop_last()) + (match inputs.last().read {
            FileRead::Failure(d) => seq![error_line(inputs.last().path@, d@)],
            FileRead::Content(_) => Seq::empty(),
        })
    }
}

/// The lines behind each input, as character sequences.
pub open spec fn file_lines_view(x: FileInput) -> Seq<Seq<char>> {
    match x.read {
        FileRead::Content(ls) => views(ls@),
        FileRead::Failure(_) => Seq::empty(),
    }
}

/// The lines of every input, in order.
pub open spec fn content_views(inputs: Seq<FileInput>) -> Seq<Seq<Seq<char>>> {
    inputs.map_values(|x: FileInput| file_lines_view(x))
}

/// The unit sequence of `n` repetitions over the capped files: each
/// repetition walks the whole file list once.
pub open spec fn files_units(
    files: Seq<Seq<Seq<char>>>,
    top: Option<usize>,
    n: nat,
) -> Seq<Seq<Seq<char>>>
    decreases n,
{
    if n == 0 {
        Seq::empty()
    } else {
        files_units(files, top, (n - 1) as nat) + files.map_values(
            |f: Seq<Seq<char>>| truncated(f, top),
        )
    }
}

/// Everything file mode emits once preflight passed: every file capped to
/// the limit, the whole list `n` times, the separator's emission after
/// every file except the very last file of the very last repetition.
pub open spec fn files_output(
    files: Seq<Seq<Seq<char>>>,
    top: Option<usize>,
    n: nat,
    sep: Separator,
) -> Seq<Seq<char>> {
    joined_units(files_units(files, top, n), sep)
}

/// The report is empty exactly when every input opened.
pub proof fn lemma_failure_report_empty(inputs: Seq<FileInput>)
    ensures
        failure_report(inputs).len() == 0 <==> all_readable(inputs),
    decreases inputs.len(),
{
    if inputs.len() > 0 {
        lemma_failure_report_empty(inputs.drop_last());
        if all_readable(inputs) {
            assert(forall|i: int|
                0 <= i < inputs.drop_last().len() ==> inputs.drop_last()[i] == inputs[i]);
        }
        if failure_report(inputs).len() == 0 {
            assert(all_readable(inputs.drop_last()));
            assert(inputs.last().read is Content);
            assert(forall|i: int|
                0 <= i < inputs.len() - 1 ==> inputs[i] == inputs.drop_last()[i]);
        }
    }
}

/// One diagnostic line: the path padded to the fixed column, a divider,
/// and the failure description.
pub fn report_error_line(path: &String, desc: &String) -> (r: String)
    ensures
        r@ == error_line(path@, desc@),
{
    let mut r = String::new();
    r.append(path.as_str());
    let mut n: usize = path.as_str().unicode_len();
    proof {
        assert(r@ =~= path@ + Seq::new(0, |i: int| ' '));
    }
    while n < PATH_COLUMN
        invariant
            path@.len() <= n,
            path@.len() >= PATH_COLUMN ==> n == path@.len(),
            path@.len() < PATH_COLUMN ==> n <= PATH_COLUMN,
            r@ == path@ + Seq::new((n - path@.len()) as nat, |i: int| ' '),
        decreases PATH_COLUMN - n,
    {
        r.append(" ");
        proof {
            reveal_strlit(" ");
            assert(" "@ =~= seq![' ']);
            assert(path@ + Seq::new((n - path@.len()) as nat, |i: int| ' ') + seq![' '] =~= path@
                + Seq::new((n + 1 - path@.len()) as nat, |i: int| ' '));
        }
        n += 1;
    }
    proof {
        if path@.len() >= PATH_COLUMN {
            assert(r@ =~= padded_path(path@));
        } else {
            assert(n == PATH_COLUMN);
            assert(r@ =~= padded_path(path@));
        }
    }
    r.append(" | Error: ");
    r.append(desc.as_str());
    r
}

/// The preflight report: one line, in order, for every path that failed
/// to open, and no line for any other.
pub fn report_errors(inputs: &Vec<FileInput>) -> (r: Vec<String>)
    ensures
        views(r@) == failure_report(inputs@),
{
    let mut out: Vec<String> = Vec::new();
    proof {
        assert(views(out@) =~= failure_report(inputs@.take(0)));
    }
    let mut i: usize = 0;
    while i < inputs.len()
        invariant
            i <= inputs.len(),
            views(out@) == failure_report(inputs@.take(i as int)),
        decreases inputs.len() - i,
    {
        proof {
            let next = inputs@.take(i as int + 1);
            assert(next.drop_last() =~= inputs@.take(i as int));
            assert(next.last() == inputs@[i as int]);
        }
        match &inputs[i].read {
            FileRead::Failure(d) => {
                let line = report_error_line(&inputs[i].path, d);
                proof {
                    lemma_views_push(out@, line);
                    assert(views(out@).push(line@) =~= failure_report(inputs@.take(i as int))
                        + seq![error_line(inputs@[i as int].path@, d@)]);
                }
                out.push(line);
            },
            FileRead::Content(_) => {
                proof {
                    assert(failure_report(inputs@.take(i as int + 1)) =~= failure_report(
                        inputs@.take(i as int),
                    ));
                }
            },
        }
        i += 1;
    }
    proof {
        assert(inputs@.take(inputs@.len() as int) =~= inputs@);
    }
    out
}

/// File mode, all-or-nothing: if any input failed to open, the result is
/// the full diagnostic report (one line per inaccessible path) and no
/// content at all; otherwise it is the complete repeated emission.
pub fn process_files(inputs: &Vec<FileInput>, c: &RunConfig) -> (r: Result<Vec<String>, Vec<String>>)
    requires
        c.wf(),
    ensures
        r is Err <==> !all_readable(inputs@),
        (r matches Err(e) ==> views(e@) == failure_report(inputs@)),
        (r matches Ok(out) ==> views(out@) == files_output(
            content_views(inputs@),
            c.top,
            c.number as nat,
            c.separator,
        )),
{
    let errors = report_errors(inputs);
    proof {
        lemma_failure_report_empty(inputs@);
        assert(views(errors@).len() == errors@.len());
    }
    if errors.len() > 0 {
        return Err(errors);
    }
    let ghost cv = content_views(inputs@);
    let ghost trunc_files = cv.map_values(|f: Seq<Seq<char>>| truncated(f, c.top));
    let mut out: Vec<String> = Vec::new();
    proof {
        assert(views(out@) =~= joined_units(files_units(cv, c.top, 0), c.separator));
    }
    let mut i: usize = 0;
    while i < c.number
        invariant
            i <= c.number,
            c.wf(),
            all_readable(inputs@),
            cv == content_views(inputs@),
            trunc_files == cv.map_values(|f: Seq<Seq<char>>| truncated(f, c.top)),
            views(out@) == joined_units(files_units(cv, c.top, i as nat), c.separator),
        decreases c.number - i,
    {
        let ghost prev_units = files_units(cv, c.top, i as nat);
        let mut k: usize = 0;
        proof {
            assert(prev_units + trunc_files.take(0) =~= prev_units);
        }
        while k < inputs.len()
            invariant
                k <= inputs.len(),
                i < c.number,
                c.wf(),
                all_readable(inputs@),
                cv == content_views(inputs@),
                trunc_files == cv.map_values(|f: Seq<Seq<char>>| truncated(f, c.top)),
                prev_units == files_units(cv, c.top, i as nat),
                cv.len() == inputs@.len(),
                views(out@) == joined_units(prev_units + trunc_files.take(k as int), c.separator),
            decreases inputs.len() - k,
        {
            let ghost sofar = prev_units + trunc_files.take(k as int);
            proof {
                assert(sofar.push(trunc_files[k as int]) =~= prev_units + trunc_files.take(
                    k as int + 1,
                ));
                lemma_joined_units_push(sofar, trunc_files[k as int], c.separator);
            }
            if i > 0 || k > 0 {
                proof {
                    assert(sofar.len() > 0);
                }
                push_separator(&mut out, &c.separator);
            }
            match &inputs[k].read {
                FileRead::Content(ls) => {
                    proof {
                        assert(cv[k as int] == file_lines_view(inputs@[k as int]));
                        assert(trunc_files[k as int] == truncated(views(ls@), c.top));
                    }
                    push_unit(&mut out, ls, c.top);
                },
                FileRead::Failure(_) => {
                    proof {
                        assert(inputs@[k as int].read is Content);
                        assert(false);
                    }
                },
            }
            k += 1;
        }
        proof {
            assert(trunc_files.take(cv.len() as int) =~= trunc_files);
            assert(prev_units + trunc_files =~= files_units(cv, c.top, i as nat + 1));
        }
        i += 1;
    }
    Ok(out)
}

} // verus!
