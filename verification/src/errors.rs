//! Error taxonomy of the pipeline.
//!
//! Fatal errors (configuration, connection, transport read) end the session;
//! non-fatal ones (framing, parse, publish) are reported and the receive loop
//! continues.  Failures of outside collaborators reach the library as plain
//! detail strings.

use vstd::prelude::*;
use vstd::string::StringExecFns;

verus! {

/// A fatal application error, carried to the process boundary.
#[derive(Debug)]
pub enum AppError {
    /// A required or malformed environment setting: variable name and detail.
    EnvVar(String, String),
    /// A failure establishing or reading the HTTP stream.
    Reqwest(String),
    /// An input/output failure.
    Io(String),
    /// Text that could not be decoded as a stream record.
    Json(String),
    /// Any other fatal condition, described in full.
    Custom(String),
    /// A failure of the fan-out transport.
    Zmq(String),
}

impl AppError {
    /// The human-readable description of this error.
    pub open spec fn message_spec(&self) -> Seq<char> {
        match self {
            AppError::EnvVar(name, detail) => "Environment variable '"@ + name@ + "' error: "@
                + detail@,
            AppError::Reqwest(detail) => "Request error: "@ + detail@,
            AppError::Io(detail) => "I/O error: "@ + detail@,
            AppError::Json(detail) => "JSON parsing error: "@ + detail@,
            AppError::Custom(detail) => "Custom application error: "@ + detail@,
            AppError::Zmq(detail) => "ZeroMQ error: "@ + detail@,
        }
    }

    /// Renders the error as text.
    pub fn message(&self) -> (r: String)
        ensures
            r@ == self.message_spec(),
    {
        match self {
            AppError::EnvVar(name, detail) => {
                let mut m = "Environment variable '".to_owned();
                m.append(name.as_str());
                m.append("' error: ");
                m.append(detail.as_str());
                m
            },
            AppError::Reqwest(detail) => {
                let mut m = "Request error: ".to_owned();
                m.append(detail.as_str());
                m
            },
            AppError::Io(detail) => {
                let mut m = "I/O error: ".to_owned();
                m.append(detail.as_str());
                m
            },
            AppError::Json(detail) => {
                let mut m = "JSON parsing error: ".to_owned();
                m.append(detail.as_str());
                m
            },
            AppError::Custom(detail) => {
                let mut m = "Custom application error: ".to_owned();
                m.append(detail.as_str());
                m
            },
            AppError::Zmq(detail) => {
                let mut m = "ZeroMQ error: ".to_owned();
                m.append(detail.as_str());
                m
            },
        }
    }
}

/// A non-fatal rejection of one extracted line: the offending text and the
/// reason it was dropped.
#[derive(Debug, Clone)]
pub struct ParseFault {
    /// The trimmed line that failed to decode.
    pub line: String,
    /// Why it was rejected.
    pub diagnostic: String,
}

} // verus!
