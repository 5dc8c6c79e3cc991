//! The error type shared across the crate's operations. The core's own
//! logic is total; these arise only at the I/O boundary around it, and
//! carry the failure's text.

use vstd::prelude::*;

use vstd::string::StringExecFns;

verus! {

/// An operation's failure: a CLI invocation, a config-handling step,
/// file I/O, or anything else, each with its message.
#[derive(Debug)]
pub enum AppError {
    Cli(String),
    Config(String),
    Io(String),
    Internal(String),
}

/// The display text of an error: its prefix and its message.
pub open spec fn spec_error_message(e: AppError) -> Seq<char> {
    match e {
        AppError::Cli(m) => "CLI error: "@ + m@,
        AppError::Config(m) => "Config error: "@ + m@,
        AppError::Io(m) => "IO error: "@ + m@,
        AppError::Internal(m) => m@,
    }
}

impl AppError {
    /// The display text of this error.
    pub fn message(&self) -> (r: String)
        ensures
            r@ == spec_error_message(*self),
    {
        match self {
            AppError::Cli(m) => {
                let mut s = "CLI error: ".to_owned();
                s.append(m.as_str());
                s
            },
            AppError::Config(m) => {
                let mut s = "Config error: ".to_owned();
                s.append(m.as_str());
                s
            },
            AppError::Io(m) => {
                let mut s = "IO error: ".to_owned();
                s.append(m.as_str());
                s
            },
            AppError::Internal(m) => m.clone(),
        }
    }
}

} // verus!
