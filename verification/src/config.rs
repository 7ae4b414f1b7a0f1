//! The run configuration: separator tri-state, mode selection, errors.

use vstd::prelude::*;
use vstd::string::StringExecFns;

verus! {

/// The separator setting carries three states that must stay distinct:
/// not requested at all, requested with the default text (an empty line),
/// or requested with explicit text. "Requested with empty text" is a
/// different value from "not requested" and prints an empty line.
#[derive(Debug)]
pub enum Separator {
    Absent,
    PresentDefault,
    PresentText(String),
}

/// The lines that one separator boundary emits: none when the separator
/// was not requested, otherwise exactly one line.
pub open spec fn sep_emission(sep: Separator) -> Seq<Seq<char>> {
    match sep {
        Separator::Absent => Seq::empty(),
        Separator::PresentDefault => seq![Seq::<char>::empty()],
        Separator::PresentText(s) => seq![s@],
    }
}

/// The three mutually exclusive execution paths.
#[derive(Debug, Clone, Copy, PartialEq, Eq, Structural)]
pub enum Mode {
    Direct,
    Files,
    Stdin,
}

/// Which path a configuration selects: the file flag wins, an empty input
/// list without it means standard input, anything else is direct text.
pub open spec fn spec_mode_of(file: bool, num_inputs: nat) -> Mode {
    if file {
        Mode::Files
    } else if num_inputs == 0 {
        Mode::Stdin
    } else {
        Mode::Direct
    }
}

/// The validated configuration, built once by the argument-parsing shell
/// and read-only afterwards.
pub struct RunConfig {
    /// Literal words (direct mode) or file paths (file mode).
    pub inputs: Vec<String>,
    /// Switches to file mode.
    pub file: bool,
    /// How many times the whole unit is emitted.
    pub number: usize,
    /// Line-count-driven separator cadence for standard input.
    pub continuous: bool,
    /// Tri-state separator setting.
    pub separator: Separator,
    /// Maximum lines emitted per unit; absent means unbounded.
    pub top: Option<usize>,
}

impl RunConfig {
    /// What the argument parser guarantees: at least one repetition, and a
    /// line limit, when given, of at least one.
    pub open spec fn wf(self) -> bool {
        &&& self.number >= 1
        &&& (self.top matches Some(t) ==> t >= 1)
    }
}

/// The two terminal failures a run can report: a read error on an open
/// source, or one or more file-mode paths that would not open.
#[derive(Debug)]
pub enum FechoError {
    IoError(String),
    AccessingFilesError,
}

/// The diagnostic line each failure prints.
pub open spec fn error_message(e: FechoError) -> Seq<char> {
    match e {
        FechoError::IoError(d) => "IO error: "@ + d@,
        FechoError::AccessingFilesError => "Process aborted, see above for details"@,
    }
}

impl FechoError {
    /// Renders this failure as its human-readable diagnostic line.
    pub fn message(&self) -> (r: String)
        ensures
            r@ == error_message(*self),
    {
        match self {
            FechoError::IoError(d) => {
                let mut r = "IO error: ".to_owned();
                r.append(d.as_str());
                r
            },
            FechoError::AccessingFilesError => "Process aborted, see above for details".to_owned(),
        }
    }
}

/// Pure mode dispatch: selects exactly one of the three paths.
pub fn mode_of(c: &RunConfig) -> (m: Mode)
    ensures
        m == spec_mode_of(c.file, c.inputs@.len()),
{
    if c.file {
        Mode::Files
    } else if c.inputs.len() == 0 {
        Mode::Stdin
    } else {
        Mode::Direct
    }
}

} // verus!
