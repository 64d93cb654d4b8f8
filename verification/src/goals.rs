//! What becomes of the household's goals file once it has been read.
//!
//! A missing file, and a file holding only white space, mean that no goals are
//! set. A file that exists but cannot be read is an error. Anything else is
//! TOML text to be parsed.

use vstd::prelude::*;

use crate::error::MonarchError;
use crate::text::{all_white_space, append_str, is_blank};

verus! {

/// The outcome of reading the goals file.
pub enum GoalsFileRead {
    /// There is no file at the path.
    Missing,
    /// The file exists but reading it failed, with the reason.
    Unreadable(String),
    /// The file's contents.
    Contents(String),
}

/// `Ok(None)` when no goals are set, `Ok(Some(text))` for TOML text to parse,
/// or the error that reading the file at `path` produced.
pub fn goals_file_text(path: &str, read: GoalsFileRead) -> (r: Result<Option<String>, MonarchError>)
    ensures
        match read {
            GoalsFileRead::Missing => r matches Ok(None),
            GoalsFileRead::Unreadable(e) => r matches Err(MonarchError::GoalsFile(m)) && m@
                == "cannot read "@ + path@ + ": "@ + e@,
            GoalsFileRead::Contents(c) => if all_white_space(c@) {
                r matches Ok(None)
            } else {
                r matches Ok(Some(t)) && t@ == c@
            },
        },
{
    match read {
        GoalsFileRead::Missing => Ok(None),
        GoalsFileRead::Unreadable(e) => {
            let mut m = String::new();
            append_str(&mut m, "cannot read ");
            append_str(&mut m, path);
            append_str(&mut m, ": ");
            append_str(&mut m, e.as_str());
            Err(MonarchError::GoalsFile(m))
        },
        GoalsFileRead::Contents(c) => {
            if is_blank(c.as_str()) {
                Ok(None)
            } else {
                Ok(Some(c))
            }
        },
    }
}

} // verus!
