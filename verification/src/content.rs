//! Content retrieval: turns the caller's attempt to read one cataloged
//! file into the uniform result envelope, and refuses file names that
//! could resolve outside the sandbox before anything is read.

use vstd::prelude::*;
use crate::model::{ContentResult, content_wf};
use crate::text::{filename_is_safe, safe_name};

verus! {

/// What the caller's attempt to read the requested file produced: the
/// file was absent, reading it failed with a message, or it was read
/// whole as text.
#[derive(Debug)]
pub enum ReadOutcome {
    Missing,
    Failed(String),
    Loaded(String),
}

/// Content retrieval. `filename` is the requested name, resolved by the
/// caller against the sandbox root; `outcome` is what that read
/// produced. A name that could escape the sandbox (a separator, `.` or
/// `..`) is refused outright, whatever the outcome; an absent file
/// reports "File not found"; a failed read reports the failure's
/// message; a read file is returned with its text and its name.
pub fn get_content(filename: String, outcome: ReadOutcome) -> (r: ContentResult)
    ensures
        content_wf(r),
        r.success == (safe_name(filename@) && outcome is Loaded),
        !safe_name(filename@) ==> (match r.error {
            Some(e) => e@ == "Path escapes sandbox root"@,
            None => false,
        }),
        safe_name(filename@) ==> (match outcome {
            ReadOutcome::Missing => (match r.error {
                Some(e) => e@ == "File not found"@,
                None => false,
            }),
            ReadOutcome::Failed(msg) => r.error == Some(msg),
            ReadOutcome::Loaded(text) => r.content == Some(text) && r.filename == Some(filename),
        }),
{
    if !filename_is_safe(filename.as_str()) {
        return ContentResult {
            success: false,
            content: None,
            filename: None,
            error: Some("Path escapes sandbox root".to_owned()),
        };
    }
    match outcome {
        ReadOutcome::Missing => ContentResult {
            success: false,
            content: None,
            filename: None,
            error: Some("File not found".to_owned()),
        },
        ReadOutcome::Failed(msg) => ContentResult {
            success: false,
            content: None,
            filename: None,
            error: Some(msg),
        },
        ReadOutcome::Loaded(text) => ContentResult {
            success: true,
            content: Some(text),
            filename: Some(filename),
            error: None,
        },
    }
}

} // verus!
