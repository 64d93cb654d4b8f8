//! Which mode the server starts in, from its command-line arguments, and what
//! the interactive login does after each answer from Monarch.

use vstd::prelude::*;
use vstd::string::StringSliceAdditionalSpecFns;
use vstd::utf8::encode_utf8;

use crate::client::{spec_login_error_message, LoginError};
use crate::text::{append_decimal, append_str, decimal_digits, str_equals};

verus! {

/// Which mode to start the server in.
#[derive(Debug, PartialEq, Eq, Structural)]
pub enum RunMode {
    /// Default: stdio MCP server.
    Stdio,
    /// `login` subcommand: interactive credential capture.
    Login,
    /// `--http` flag: streamable-HTTP MCP server, loopback-only.
    Http,
}

pub open spec fn spec_parse_mode(args: Seq<String>) -> RunMode {
    if args.len() > 1 && args[1]@ == "login"@ {
        RunMode::Login
    } else if args.len() > 1 && args[1]@ == "--http"@ {
        RunMode::Http
    } else {
        RunMode::Stdio
    }
}

/// Parses the command-line arguments (including the program name) into a
/// [`RunMode`]: the first argument after the program name decides.
pub fn parse_mode(args: &[String]) -> (r: RunMode)
    ensures
        r == spec_parse_mode(args@),
{
    if args.len() > 1 {
        let first = args[1].as_str();
        if str_equals(first, "login") {
            return RunMode::Login;
        }
        if str_equals(first, "--http") {
            return RunMode::Http;
        }
    }
    RunMode::Stdio
}

// ---------------------------------------------------------------------------
// Interactive login
// ---------------------------------------------------------------------------

/// Which login attempt Monarch has just answered.
#[derive(Debug, Clone, Copy, PartialEq, Eq, Structural)]
pub enum LoginPhase {
    /// Email and password.
    Password,
    /// Email and password again, with the TOTP code.
    Totp,
}

/// What the interactive login does next.
#[derive(Debug, PartialEq)]
pub enum LoginStep {
    /// Logged in and the session was saved: report this line.
    Succeeded(String),
    /// Monarch wants a second factor: prompt for the TOTP code and try again.
    AskForTotp,
    /// Give up with this message.
    Failed(String),
}

/// The line reporting a successful login with a token of `token_bytes` bytes.
pub open spec fn login_success_line(phase: LoginPhase, token_bytes: nat) -> Seq<char> {
    match phase {
        LoginPhase::Password => "Authenticated. Token length: "@ + decimal_digits(token_bytes),
        LoginPhase::Totp => "Authenticated (MFA). Token length: "@ + decimal_digits(token_bytes),
    }
}

/// Decide the next step of the interactive login from the answer to the
/// attempt of `phase`.
///
/// A token ends the login. An MFA challenge to the password attempt asks for a
/// TOTP code; any other error, and any error of the TOTP attempt, fails the
/// login with `Login failed: ` and the error's message.
pub fn next_login_step(phase: LoginPhase, outcome: &Result<String, LoginError>) -> (r: LoginStep)
    ensures
        match outcome {
            Ok(token) => r matches LoginStep::Succeeded(line) && line@ == login_success_line(
                phase,
                encode_utf8(token@).len(),
            ),
            Err(e) => if phase == LoginPhase::Password && *e is MfaRequired {
                r is AskForTotp
            } else {
                r matches LoginStep::Failed(m) && m@ == "Login failed: "@ + spec_login_error_message(*e)
            },
        },
{
    match outcome {
        Ok(token) => {
            let mut line = String::new();
            match phase {
                LoginPhase::Password => append_str(&mut line, "Authenticated. Token length: "),
                LoginPhase::Totp => append_str(&mut line, "Authenticated (MFA). Token length: "),
            }
            let t = token.as_str();
            let n = t.as_bytes().len();
            assert(n == t.spec_bytes().len());
            append_decimal(&mut line, n as u64);
            LoginStep::Succeeded(line)
        },
        Err(e) => {
            let mfa = match e {
                LoginError::MfaRequired => true,
                _ => false,
            };
            if mfa && phase == LoginPhase::Password {
                LoginStep::AskForTotp
            } else {
                let mut m = String::new();
                append_str(&mut m, "Login failed: ");
                let em = e.message();
                append_str(&mut m, em.as_str());
                LoginStep::Failed(m)
            }
        },
    }
}

} // verus!
