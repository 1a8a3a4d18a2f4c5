//! What `git` told about one repository.

use vstd::prelude::*;

use crate::github_slug::GithubSlug;
use crate::local_report::{LocalReport, LocalReportView};

verus! {

/// What asking `git` about one repository found.
///
/// The three are kept together: the local state, GitHub's owner/name and the
/// reason of a failure come from the same two runs of `git`. When the report
/// is `Unavailable` the owner/name is `None`: origin is not asked of a
/// repository where `git` does not work.
#[derive(Debug, Clone, PartialEq, Eq)]
pub struct LocalFinding {
    report: LocalReport,
    slug: Option<GithubSlug>,
    problem: Option<String>,
}

/// The meaning of a [`LocalFinding`].
pub struct LocalFindingView {
    pub report: LocalReportView,
    pub slug: Option<(Seq<char>, Seq<char>)>,
    pub problem: Option<Seq<char>>,
}

impl View for LocalFinding {
    type V = LocalFindingView;

    closed spec fn view(&self) -> LocalFindingView {
        LocalFindingView {
            report: self.report@,
            slug: match self.slug {
                Some(slug) => Some(slug@),
                None => None,
            },
            problem: match self.problem {
                Some(problem) => Some(problem@),
                None => None,
            },
        }
    }
}

impl LocalFinding {
    /// From the local state, GitHub's owner/name and the reason of a failure.
    pub fn new(report: LocalReport, slug: Option<GithubSlug>, problem: Option<String>) -> (finding: Self)
        ensures
            finding@ == (LocalFindingView {
                report: report@,
                slug: match slug {
                    Some(s) => Some(s@),
                    None => None,
                },
                problem: match problem {
                    Some(p) => Some(p@),
                    None => None,
                },
            }),
    {
        LocalFinding { report, slug, problem }
    }

    /// GitHub's owner/name; `None` when origin is not on GitHub.
    pub fn slug(&self) -> (slug: Option<&GithubSlug>)
        ensures
            slug matches Some(s) ==> self@.slug == Some(s@),
            slug is None ==> self@.slug is None,
    {
        match &self.slug {
            Some(slug) => Some(slug),
            None => None,
        }
    }

    /// Why it could not be had; shown on stderr in one line.
    pub fn problem(&self) -> (problem: Option<&str>)
        ensures
            problem matches Some(p) ==> self@.problem == Some(p@),
            problem is None ==> self@.problem is None,
    {
        match &self.problem {
            Some(problem) => Some(problem.as_str()),
            None => None,
        }
    }

    /// The local state the table shows.
    pub fn report(&self) -> (report: &LocalReport)
        ensures
            report@ == self@.report,
    {
        &self.report
    }

    /// The local state the table shows, taken out.
    pub fn into_report(self) -> (report: LocalReport)
        ensures
            report@ == self@.report,
    {
        self.report
    }
}

} // verus!
