//! The error type every tool reports through.
//!
//! All domain errors funnel through here so that tool responses carry
//! consistent, human-readable messages. The most important variant is
//! `SessionExpired`: an HTTP 401 from Monarch maps to it, and its message
//! tells the user to re-authenticate.

use vstd::prelude::*;

use crate::text::append_str;

verus! {

#[verifier::external_type_specification]
#[verifier::external_body]
pub struct ExReqwestError(reqwest::Error);

/// Errors of the advisor's tools.
pub enum MonarchError {
    /// Monarch returned HTTP 401 or signalled an expired session.
    SessionExpired,
    /// The goals file was missing, unreadable, or contained invalid TOML.
    GoalsFile(String),
    /// A GraphQL response contained an `errors` array.
    GraphQL(String),
    /// An HTTP transport or serialization error.
    Http(reqwest::Error),
    /// Caller-supplied input was malformed or logically invalid.
    InvalidInput(String),
    /// Any other unexpected error.
    Internal(String),
}

/// The message text of the session-expired error.
pub open spec fn session_expired_message() -> Seq<char> {
    "Monarch session expired \u{2014} please re-run `monarch-mcp login` to re-authenticate"@
}

/// The message of each error, except that of a transport error, whose tail is
/// the transport library's own description.
pub open spec fn spec_error_message(e: MonarchError, m: Seq<char>) -> bool {
    match e {
        MonarchError::SessionExpired => m == session_expired_message(),
        MonarchError::GoalsFile(s) => m == "Goals file error: "@ + s@,
        MonarchError::GraphQL(s) => m == "Monarch GraphQL error: "@ + s@,
        MonarchError::Http(_) => exists|t: Seq<char>| m == "HTTP error: "@ + t,
        MonarchError::InvalidInput(s) => m == "Invalid input: "@ + s@,
        MonarchError::Internal(s) => m == "Internal error: "@ + s@,
    }
}

/// `e.to_string()` for a transport error.
///
/// Trusted: nothing is claimed of the text, which `reqwest` composes from the
/// failed request.
#[verifier::external_body]
fn transport_error_text(e: &reqwest::Error) -> String {
    e.to_string()
}

impl MonarchError {
    /// Return true when the error indicates the session needs re-authentication.
    pub fn is_auth_error(&self) -> (r: bool)
        ensures
            r == (*self is SessionExpired),
    {
        match self {
            MonarchError::SessionExpired => true,
            _ => false,
        }
    }

    /// The human-readable message of this error.
    pub fn message(&self) -> (r: String)
        ensures
            spec_error_message(*self, r@),
    {
        let mut out = String::new();
        match self {
            MonarchError::SessionExpired => {
                let s = "Monarch session expired \u{2014} please re-run `monarch-mcp login` to re-authenticate";
                append_str(&mut out, s);
                assert(out@ =~= session_expired_message());
            },
            MonarchError::GoalsFile(s) => {
                append_str(&mut out, "Goals file error: ");
                append_str(&mut out, s.as_str());
            },
            MonarchError::GraphQL(s) => {
                append_str(&mut out, "Monarch GraphQL error: ");
                append_str(&mut out, s.as_str());
            },
            MonarchError::Http(e) => {
                append_str(&mut out, "HTTP error: ");
                let t = transport_error_text(e);
                append_str(&mut out, t.as_str());
                assert(out@ == "HTTP error: "@ + t@);
            },
            MonarchError::InvalidInput(s) => {
                append_str(&mut out, "Invalid input: ");
                append_str(&mut out, s.as_str());
            },
            MonarchError::Internal(s) => {
                append_str(&mut out, "Internal error: ");
                append_str(&mut out, s.as_str());
            },
        }
        out
    }
}

/// The answer a tool gives in place of its result when the session has expired.
pub open spec fn session_expired_reply() -> Seq<char> {
    "Session expired \u{2014} re-authenticate by running `monarch-mcp login`"@
}

/// How a tool call that failed with `e` is answered.
///
/// An expired session is not a failure of the call: the tool answers with an
/// `error` payload telling the user to log in again (`Ok`, with that text).
/// Any other error fails the call with the error's message (`Err`).
pub fn tool_error_reply(e: &MonarchError) -> (r: Result<String, String>)
    ensures
        *e is SessionExpired ==> (r matches Ok(m) && m@ == session_expired_reply()),
        !(*e is SessionExpired) ==> (r matches Err(m) && spec_error_message(*e, m@)),
{
    if e.is_auth_error() {
        let mut out = String::new();
        append_str(&mut out, "Session expired \u{2014} re-authenticate by running `monarch-mcp login`");
        Ok(out)
    } else {
        Err(e.message())
    }
}

} // verus!
