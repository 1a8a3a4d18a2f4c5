//! What `git`'s output about one repository comes to.
//!
//! `git fetch` is never run: the tool only looks. `AHEAD/BEHIND` is the
//! difference from the local tracking branch, not from the remote.

use vstd::prelude::*;
use vstd::utf8::{decode_utf8, valid_utf8};

use crate::github_slug::{GithubSlug, parse_remote_url, remote_slug};
use crate::local_state::{LocalState, porcelain_state};
use crate::local_finding::{LocalFinding, LocalFindingView};
use crate::local_report::{LocalReport, LocalReportView};
use crate::porcelain_error::porcelain_message;
use crate::reason::{first_line, lossy_text, reason_of};
use crate::text::utf8_text;

verus! {

/// The reason given when the output of `git status` is not UTF-8.
pub const STATUS_NOT_UTF8: &'static str = "git status の出力が UTF-8 ではない";

/// The reason given when `git` failed by its exit code alone, with nothing on stderr.
pub const STATUS_FAILED: &'static str = "git status が失敗した（理由の出力が無い）";

/// What `git status --porcelain=v2 --branch` came to, given whether it
/// succeeded and what it wrote. A failure is a reason, as a `String`.
pub fn status_of(success: bool, stdout: Vec<u8>, stderr: &[u8]) -> (status: Result<LocalState, String>)
    ensures
        !success ==> (status matches Err(reason) && reason@ == reason_of(lossy_text(stderr@), STATUS_FAILED@)),
        success && !valid_utf8(stdout@) ==> (status matches Err(reason) && reason@ == STATUS_NOT_UTF8@),
        success && valid_utf8(stdout@) ==> match porcelain_state(decode_utf8(stdout@)) {
            Ok(state) => status matches Ok(s) && s@ == state,
            Err((kind, line)) => status matches Err(reason) && reason@ == porcelain_message(kind, line),
        },
{
    if !success {
        return Err(first_line(stderr, STATUS_FAILED));
    }
    let text = match utf8_text(stdout) {
        Some(text) => text,
        None => return Err(String::from_str(STATUS_NOT_UTF8)),
    };
    match crate::local_state::parse_porcelain(text.as_str()) {
        Ok(state) => Ok(state),
        Err(error) => Err(error.to_string()),
    }
}

/// GitHub's owner/name from what `git remote get-url origin` came to.
///
/// A failure is not reported: a repository without an origin is common, and
/// that is an answer (not on GitHub, `n/a`), not an error.
pub fn slug_of(success: bool, stdout: Vec<u8>) -> (slug: Option<GithubSlug>)
    ensures
        !success || !valid_utf8(stdout@) ==> slug is None,
        success && valid_utf8(stdout@) ==> match remote_slug(decode_utf8(stdout@)) {
            Some(found) => slug matches Some(s) && s@ == found,
            None => slug is None,
        },
{
    if !success {
        return None;
    }
    match utf8_text(stdout) {
        Some(text) => parse_remote_url(text.as_str()),
        None => None,
    }
}

/// What asking `git` about one repository found: its state and origin, or
/// the reason it could not be read.
///
/// When `git status` failed, origin is not asked: the GitHub columns of that
/// row are `?` (could not be read), not `n/a` (not on GitHub).
pub fn finding_of(status: Result<LocalState, String>, origin: Option<GithubSlug>) -> (finding: LocalFinding)
    ensures
        status matches Ok(state) ==> finding@ == (LocalFindingView {
            report: LocalReportView::State(state@),
            slug: match origin {
                Some(s) => Some(s@),
                None => None,
            },
            problem: None,
        }),
        status matches Err(problem) ==> finding@ == (LocalFindingView {
            report: LocalReportView::Unavailable,
            slug: None,
            problem: Some(problem@),
        }),
{
    match status {
        Ok(state) => LocalFinding::new(LocalReport::State(state), origin, None),
        Err(problem) => LocalFinding::new(LocalReport::Unavailable, None, Some(problem)),
    }
}

} // verus!
