//! The report of the settings that are in force for a running process.

use crate::number::{append_decimal, decimal};
use crate::text::{chars_of, trim_bounds, trimmed};
use vstd::prelude::*;
use vstd::string::{StrSliceExecFns, StringExecFns};

verus! {

/// The path of the file through which the system shows and takes the
/// out-of-memory adjustment of the process `pid`.
pub open spec fn oom_score_adj_path_of(pid: int) -> Seq<char> {
    "/proc/"@ + decimal(pid) + "/oom_score_adj"@
}

/// The path of the file through which the system shows and takes the
/// out-of-memory adjustment of the process `pid`.
pub fn oom_score_adj_path(pid: i32) -> (path: String)
    ensures
        path@ == oom_score_adj_path_of(pid as int),
{
    let mut path = String::from_str("/proc/");
    append_decimal(&mut path, pid);
    path.append("/oom_score_adj");
    path
}

/// The report on the process `pid`: its niceness, and its out-of-memory
/// adjustment as the system showed it, less the white space around it.
pub open spec fn status_line(pid: int, niceness: int, oom_shown: Seq<char>) -> Seq<char> {
    "PID "@ + decimal(pid) + ": niceness="@ + decimal(niceness) + ", oom_score_adj="@ + trimmed(
        oom_shown,
    )
}

/// Writes the report on the process `pid` from its niceness and from what
/// the system showed as its out-of-memory adjustment.
pub fn format_status(pid: i32, niceness: i32, oom_shown: &str) -> (line: String)
    ensures
        line@ == status_line(pid as int, niceness as int, oom_shown@),
{
    let mut line = String::from_str("PID ");
    append_decimal(&mut line, pid);
    line.append(": niceness=");
    append_decimal(&mut line, niceness);
    line.append(", oom_score_adj=");
    let chars = chars_of(oom_shown);
    let (from, to) = trim_bounds(chars.as_slice());
    line.append(oom_shown.substring_char(from, to));
    line
}

/// Which of the two readings of a process failed.
#[derive(Clone, Copy, Debug, PartialEq, Eq, Structural)]
pub enum InspectionError {
    /// The niceness could not be read.
    Niceness,
    /// The out-of-memory adjustment could not be read.
    OomScore,
}

impl InspectionError {
    /// The message of the error, with `cause` what the system said of it.
    pub open spec fn text(self, cause: Seq<char>) -> Seq<char> {
        match self {
            InspectionError::Niceness => "Get nice error: "@ + cause,
            InspectionError::OomScore => "Get oom error: "@ + cause,
        }
    }

    /// The message of the error. `cause` is what the system said of it.
    pub fn message(&self, cause: &str) -> (s: String)
        ensures
            s@ == self.text(cause@),
    {
        let mut s = match self {
            InspectionError::Niceness => String::from_str("Get nice error: "),
            InspectionError::OomScore => String::from_str("Get oom error: "),
        };
        s.append(cause);
        s
    }
}

} // verus!
