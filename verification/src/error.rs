//! Error kinds surfaced by the pipeline.

use vstd::prelude::*;
use vstd::string::*;

verus! {

/// An error of the archival pipeline: a transport failure or non-success
/// HTTP status, a structurally absent element in fetched data, or a failed
/// filesystem operation. Each carries the offending URL, text or path.
#[derive(Debug, PartialEq, Eq)]
pub enum NpError {
    Network { url: String },
    Parse { what: String },
    Filesystem { path: String },
}

pub open spec fn describe_spec(e: NpError) -> Seq<char> {
    match e {
        NpError::Network { url } => "network error fetching: "@ + url@,
        NpError::Parse { what } => "error parsing string: "@ + what@,
        NpError::Filesystem { path } => "filesystem error at: "@ + path@,
    }
}

impl NpError {
    /// A human-readable description naming the offending URL, text or path.
    pub fn describe(&self) -> (r: String)
        ensures
            r@ == describe_spec(*self),
    {
        match self {
            NpError::Network { url } => {
                let mut s = "network error fetching: ".to_owned();
                s.append(url.as_str());
                s
            },
            NpError::Parse { what } => {
                let mut s = "error parsing string: ".to_owned();
                s.append(what.as_str());
                s
            },
            NpError::Filesystem { path } => {
                let mut s = "filesystem error at: ".to_owned();
                s.append(path.as_str());
                s
            },
        }
    }
}

} // verus!
