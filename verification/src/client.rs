//! Monarch API data shapes and the decisions taken on Monarch's HTTP replies.
//!
//! The HTTP transport itself lives outside the library; it hands the status
//! code and the body text of each reply to [`login_outcome`] and
//! [`graphql_outcome`], which decide what the reply means. Money amounts and
//! balances are floating-point values and travel outside the library; the
//! records here carry the fields the library's logic reads.

use vstd::prelude::*;

use crate::error::MonarchError;
use crate::text::{append_decimal, append_str};

verus! {

/// An account's type, e.g. `depository`, `brokerage`, `credit`.
#[derive(Debug, Clone, PartialEq)]
pub struct AccountType {
    pub name: String,
}

/// An account's subtype, e.g. `st_401k` shown as `401k`.
#[derive(Debug, Clone, PartialEq)]
pub struct AccountSubtype {
    pub name: String,
    pub display: String,
}

/// A household account, as far as classification reads it.
#[derive(Debug, Clone, PartialEq)]
pub struct Account {
    pub id: String,
    pub display_name: String,
    pub account_type: AccountType,
    pub subtype: Option<AccountSubtype>,
    pub is_hidden: bool,
}

/// A transaction's category and the group it belongs to
/// (`expense`, `income`, `transfer`, or unknown).
#[derive(Debug, Clone, PartialEq)]
pub struct Category {
    pub name: String,
    pub group_type: Option<String>,
}

/// A transaction, as far as triage and filtering read it.
#[derive(Debug, Clone, PartialEq)]
pub struct Transaction {
    pub id: String,
    pub date: String,
    pub merchant_name: String,
    pub category: Category,
    pub tags: Vec<String>,
    pub notes: String,
    pub needs_review: bool,
}

/// A transaction tag.
#[derive(Debug, Clone, PartialEq)]
pub struct Tag {
    pub id: String,
    pub name: String,
}

// ---------------------------------------------------------------------------
// Login
// ---------------------------------------------------------------------------

/// Errors specific to the login flow. Callers use this to decide whether to
/// prompt for a TOTP code.
#[derive(Debug)]
pub enum LoginError {
    /// Monarch returned 403 — MFA code required.
    MfaRequired,
    /// Monarch returned 401 — credentials rejected.
    Unauthorized(String),
    /// The response did not contain a token.
    NoToken(String),
    /// Network or HTTP error.
    Http(String),
}

pub open spec fn spec_login_error_message(e: LoginError) -> Seq<char> {
    match e {
        LoginError::MfaRequired => "MFA required"@,
        LoginError::Unauthorized(b) => "unauthorized: "@ + b@,
        LoginError::NoToken(b) => "no token in response: "@ + b@,
        LoginError::Http(s) => "HTTP error: "@ + s@,
    }
}

impl LoginError {
    /// The human-readable message of this error.
    pub fn message(&self) -> (r: String)
        ensures
            r@ == spec_login_error_message(*self),
    {
        let mut out = String::new();
        match self {
            LoginError::MfaRequired => append_str(&mut out, "MFA required"),
            LoginError::Unauthorized(b) => {
                append_str(&mut out, "unauthorized: ");
                append_str(&mut out, b.as_str());
            },
            LoginError::NoToken(b) => {
                append_str(&mut out, "no token in response: ");
                append_str(&mut out, b.as_str());
            },
            LoginError::Http(s) => {
                append_str(&mut out, "HTTP error: ");
                append_str(&mut out, s.as_str());
            },
        }
        out
    }
}

/// The string that `serde_json` finds at key `key` of the JSON object written
/// in `text`; `None` when the text is not JSON, not an object, has no such key,
/// or the value there is not a string.
pub uninterp spec fn json_string_field(text: Seq<char>, key: Seq<char>) -> Option<Seq<char>>;

/// Parse `text` as JSON and read the string at `key`.
///
/// Trusted: `serde_json::from_str::<Value>` then `Value::get` and
/// `Value::as_str`; the result depends on the text and the key alone, and is
/// named rather than spelled out (JSON grammar and escapes).
#[verifier::external_body]
fn read_json_string_field(text: &str, key: &str) -> (r: Option<String>)
    ensures
        r matches Some(s) ==> json_string_field(text@, key@) == Some(s@),
        r is None ==> json_string_field(text@, key@) is None,
{
    match serde_json::from_str::<serde_json::Value>(text) {
        Ok(v) => match v.get(key) {
            Some(field) => field.as_str().map(str::to_owned),
            None => None,
        },
        Err(_) => None,
    }
}

/// `format!("HTTP {status}: {text}")`.
pub open spec fn http_status_text(status: u16, text: Seq<char>) -> Seq<char> {
    "HTTP "@ + crate::text::decimal_digits(status as nat) + ": "@ + text
}

/// Decide what a reply to a login request means, from its HTTP status and
/// body text. On success, returns the session token.
pub fn login_outcome(status: u16, text: &str) -> (r: Result<String, LoginError>)
    ensures
        status == 403 ==> r matches Err(LoginError::MfaRequired),
        status == 401 ==> (r matches Err(LoginError::Unauthorized(b)) && b@ == text@),
        status != 403 && status != 401 && !(200 <= status <= 299) ==> (r matches Err(
            LoginError::Http(s),
        ) && s@ == http_status_text(status, text@)),
        200 <= status <= 299 ==> match json_string_field(text@, "token"@) {
            Some(t) => if t.len() > 0 {
                r matches Ok(tok) && tok@ == t
            } else {
                r matches Err(LoginError::NoToken(b)) && b@ == text@
            },
            None => r matches Err(LoginError::NoToken(b)) && b@ == text@,
        },
{
    if status == 403 {
        return Err(LoginError::MfaRequired);
    }
    if status == 401 {
        return Err(LoginError::Unauthorized(text.to_owned()));
    }
    if !(200 <= status && status <= 299) {
        let mut msg = String::new();
        append_str(&mut msg, "HTTP ");
        append_decimal(&mut msg, status as u64);
        append_str(&mut msg, ": ");
        append_str(&mut msg, text);
        return Err(LoginError::Http(msg));
    }
    match read_json_string_field(text, "token") {
        Some(t) => {
            if t.as_str().is_empty() {
                Err(LoginError::NoToken(text.to_owned()))
            } else {
                Ok(t)
            }
        },
        None => Err(LoginError::NoToken(text.to_owned())),
    }
}

// ---------------------------------------------------------------------------
// GraphQL replies
// ---------------------------------------------------------------------------

/// Whether `text` parses as JSON (per `serde_json`).
pub uninterp spec fn json_parses(text: Seq<char>) -> bool;

/// The message of the `serde_json` error for text that does not parse.
pub uninterp spec fn json_parse_error(text: Seq<char>) -> Seq<char>;

/// The JSON text of the `errors` member of the JSON value written in `text`,
/// when it has one.
pub uninterp spec fn json_errors_member(text: Seq<char>) -> Option<Seq<char>>;

/// The JSON text of the `data` member of the JSON value written in `text`
/// (`null` when it has none).
pub uninterp spec fn json_data_member(text: Seq<char>) -> Seq<char>;

/// Parse a GraphQL reply body into its `errors` member and its `data` member,
/// each as JSON text, or the parse error's message.
///
/// Trusted: `serde_json::from_str::<Value>`, then `Value::get("errors")` and
/// indexing by `"data"`, each written back with `Value::to_string`. Each part
/// depends on the text alone and is named rather than spelled out.
#[verifier::external_body]
fn parse_graphql_reply(text: &str) -> (r: Result<(Option<String>, String), String>)
    ensures
        r is Ok <==> json_parses(text@),
        r matches Err(m) ==> m@ == json_parse_error(text@),
        r matches Ok((errs, data)) ==> data@ == json_data_member(text@) && match errs {
            Some(e) => json_errors_member(text@) == Some(e@),
            None => json_errors_member(text@) is None,
        },
{
    match serde_json::from_str::<serde_json::Value>(text) {
        Ok(v) => {
            let errs = v.get("errors").map(|e| e.to_string());
            let data = v["data"].to_string();
            Ok((errs, data))
        },
        Err(e) => Err(e.to_string()),
    }
}

/// Decide what a reply to a GraphQL request means, from its HTTP status and
/// body text. On success, returns the JSON text of the reply's `data` member.
///
/// HTTP 401 means the session expired; a body that is not JSON is an internal
/// error; a body with an `errors` member is a GraphQL error carrying that
/// member's JSON text.
pub fn graphql_outcome(status: u16, text: &str) -> (r: Result<String, MonarchError>)
    ensures
        status == 401 ==> r matches Err(MonarchError::SessionExpired),
        status != 401 && !json_parses(text@) ==> (r matches Err(MonarchError::Internal(m)) && m@
            == "non-JSON response: "@ + json_parse_error(text@)),
        status != 401 && json_parses(text@) ==> match json_errors_member(text@) {
            Some(e) => r matches Err(MonarchError::GraphQL(m)) && m@ == e,
            None => r matches Ok(data) && data@ == json_data_member(text@),
        },
{
    if status == 401 {
        return Err(MonarchError::SessionExpired);
    }
    match parse_graphql_reply(text) {
        Err(e) => {
            let mut msg = String::new();
            append_str(&mut msg, "non-JSON response: ");
            append_str(&mut msg, e.as_str());
            Err(MonarchError::Internal(msg))
        },
        Ok((Some(errs), _)) => Err(MonarchError::GraphQL(errs)),
        Ok((None, data)) => Ok(data),
    }
}

/// The `Authorization` header value for an authenticated GraphQL request:
/// `"Token "` followed by the session token. Without a session token the
/// request is refused before it is sent, as an internal "not authenticated"
/// error.
pub fn authorization_header(token: Option<&str>) -> (r: Result<String, MonarchError>)
    ensures
        match token {
            Some(t) => r matches Ok(h) && h@ == "Token "@ + t@,
            None => r matches Err(MonarchError::Internal(m)) && m@ == "not authenticated"@,
        },
{
    match token {
        Some(t) => {
            let mut h = String::new();
            append_str(&mut h, "Token ");
            append_str(&mut h, t);
            Ok(h)
        },
        None => Err(MonarchError::Internal("not authenticated".to_owned())),
    }
}

} // verus!
