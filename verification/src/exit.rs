//! Why the program ends: the reasons, each with its exit code and with the
//! line that is printed on standard error, if any.

use vstd::prelude::*;

verus! {

/// Why the program ends, and with which exit code.
#[derive(Debug, Clone, PartialEq, Eq)]
pub enum Exit {
    /// The work is done.
    Success,
    /// The version was asked for.
    Version,
    /// The usage text was asked for.
    Help,
    /// A word is no option of this program, or an option lacks its value.
    UnknownOption(String),
    /// No URL was given.
    MissingUrl,
    /// curl could not be run, or its version report was no text; with the
    /// cause.
    Failure(String),
    /// curl failed with this exit code.
    CurlFailed(i32),
}

/// The mathematical value of an [`Exit`].
pub enum ExitView {
    Success,
    Version,
    Help,
    UnknownOption(Seq<char>),
    MissingUrl,
    Failure(Seq<char>),
    CurlFailed(i32),
}

impl View for Exit {
    type V = ExitView;

    open spec fn view(&self) -> ExitView {
        match self {
            Exit::Success => ExitView::Success,
            Exit::Version => ExitView::Version,
            Exit::Help => ExitView::Help,
            Exit::UnknownOption(word) => ExitView::UnknownOption(word@),
            Exit::MissingUrl => ExitView::MissingUrl,
            Exit::Failure(cause) => ExitView::Failure(cause@),
            Exit::CurlFailed(code) => ExitView::CurlFailed(*code),
        }
    }
}

/// The exit code that goes with `exit`: 0 where the user got what was asked
/// for, 1 for a usage error and where curl could not be run, and curl's own
/// code where curl failed.
pub open spec fn exit_code(exit: ExitView) -> i32 {
    match exit {
        ExitView::Success | ExitView::Version | ExitView::Help => 0,
        ExitView::UnknownOption(_) | ExitView::MissingUrl | ExitView::Failure(_) => 1,
        ExitView::CurlFailed(code) => code,
    }
}

/// The line for standard error that goes with `exit`, if there is one.
pub open spec fn exit_diagnostic(exit: ExitView) -> Option<Seq<char>> {
    match exit {
        ExitView::UnknownOption(word) => Some("Unknown option: '"@ + word + "'."@),
        ExitView::MissingUrl => Some("You must provide at least one URL to download."@),
        ExitView::Failure(cause) => Some("Error: "@ + cause),
        _ => None,
    }
}

impl Exit {
    /// The exit code of the process.
    pub fn code(&self) -> (code: i32)
        ensures
            code == exit_code(self@),
    {
        match self {
            Exit::Success | Exit::Version | Exit::Help => 0,
            Exit::UnknownOption(_) | Exit::MissingUrl | Exit::Failure(_) => 1,
            Exit::CurlFailed(code) => *code,
        }
    }

    /// The line to print on standard error before the process ends, if any.
    pub fn diagnostic(&self) -> (line: Option<String>)
        ensures
            line.deep_view() == exit_diagnostic(self@),
    {
        match self {
            Exit::UnknownOption(word) => {
                let mut line = "Unknown option: '".to_owned();
                line.append(word.as_str());
                line.append("'.");
                Some(line)
            },
            Exit::MissingUrl => Some("You must provide at least one URL to download.".to_owned()),
            Exit::Failure(cause) => {
                let mut line = "Error: ".to_owned();
                line.append(cause.as_str());
                Some(line)
            },
            _ => None,
        }
    }
}

} // verus!
