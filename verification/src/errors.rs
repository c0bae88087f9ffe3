//! The error value that a failed run carries: one of the four fatal kinds,
//! each with a human-readable detail.

use vstd::prelude::*;

verus! {

use vstd::string::StringExecFns;

/// Why parsing or aggregation stopped.  Every kind is fatal to the whole
/// run: there is no partial success.
#[derive(Debug)]
pub enum LogParserError {
    /// A file could not be opened, or reading from it failed.  Produced by
    /// the surrounding program, which owns the file handles.
    Io(String),
    /// A parameter that must be numeric was present but did not parse as a
    /// non-negative integer; carries the offending text.
    ParseIntError(String),
    /// Malformed input, such as a line without a query string or without an
    /// owner parameter.
    Custom(String),
    /// A checked counter addition would have left the representable range,
    /// within one file or while merging per-file results.
    Overflow(String),
}

impl LogParserError {
    /// The message rendered behind a kind-specific prefix, for contracts.
    pub open spec fn spec_message(&self) -> Seq<char> {
        match self {
            LogParserError::Io(m) => "IO error: "@ + m@,
            LogParserError::ParseIntError(m) => "Parse error: "@ + m@,
            LogParserError::Custom(m) => "Custom error: "@ + m@,
            LogParserError::Overflow(m) => "Overflow error: "@ + m@,
        }
    }

    /// An identical copy of this error.
    pub fn duplicate(&self) -> (r: Self)
        ensures
            r == *self,
    {
        match self {
            LogParserError::Io(m) => LogParserError::Io(m.clone()),
            LogParserError::ParseIntError(m) => LogParserError::ParseIntError(m.clone()),
            LogParserError::Custom(m) => LogParserError::Custom(m.clone()),
            LogParserError::Overflow(m) => LogParserError::Overflow(m.clone()),
        }
    }

    /// Render the error as one line of text, kind first.
    pub fn message(&self) -> (r: String)
        ensures
            r@ == self.spec_message(),
    {
        let mut out = String::new();
        match self {
            LogParserError::Io(m) => {
                out.append("IO error: ");
                out.append(m.as_str());
            }
            LogParserError::ParseIntError(m) => {
                out.append("Parse error: ");
                out.append(m.as_str());
            }
            LogParserError::Custom(m) => {
                out.append("Custom error: ");
                out.append(m.as_str());
            }
            LogParserError::Overflow(m) => {
                out.append("Overflow error: ");
                out.append(m.as_str());
            }
        }
        proof {
            assert(out@ =~= self.spec_message());
        }
        out
    }
}

} // verus!
