//! The decisions of a run: what is asked of GitHub, what the answers come to,
//! which reasons are reported, and how the rows are made.
//!
//! A run has two phases, closed in turn: `git` for every repository, then
//! `gh` for those whose origin is on GitHub (the first phase's output is the
//! second's input). A row that could not be read is never dropped: its values
//! are `?`, and the reason is reported on stderr, one line each.

use vstd::prelude::*;

use crate::branch_list::stale_count_of;
use crate::chunk_outcome::{ChunkOutcome, ChunkOutcomeView};
use crate::freshness::Freshness;
use crate::github_access::GithubAccess;
use crate::github_slug::GithubSlug;
use crate::graphql::result_view;
use crate::local_finding::{LocalFinding, LocalFindingView};
use crate::local_report::{LocalReport, LocalReportView};
use crate::outcome::Outcome;
use crate::remote_error::{RemoteError, RemoteErrorView};
use crate::remote_report::{RemoteReport, RemoteReportView};
use crate::remote_state::{RemoteState, RemoteStateView};
use crate::row::{Row, RowView, all_known, cells_of};
use crate::stale_count::StaleCount;
use crate::tally::Tally;
use crate::target::{Target, target_views};

verus! {

/// The reason given for a repository whose branches could not all be counted.
pub const TRUNCATED: &'static str = "枝が 100 本を超えている。STALE は数えていない";

/// The views of `findings`, in order.
pub open spec fn finding_views(findings: Seq<LocalFinding>) -> Seq<LocalFindingView> {
    findings.map_values(|finding: LocalFinding| finding@)
}

/// The views of `reports`, in order.
pub open spec fn report_views(reports: Seq<RemoteReport>) -> Seq<RemoteReportView> {
    reports.map_values(|report: RemoteReport| report@)
}

/// The texts of `names`, in order.
pub open spec fn texts(names: Seq<String>) -> Seq<Seq<char>> {
    names.map_values(|name: String| name@)
}

// ---------------------------------------------------------------------------
// Before asking.

/// How many of `findings` have an origin on GitHub.
pub open spec fn slug_count(findings: Seq<LocalFindingView>) -> nat
    decreases findings.len(),
{
    if findings.len() == 0 {
        0
    } else {
        slug_count(findings.drop_last()) + if findings.last().slug is Some {
            1nat
        } else {
            0nat
        }
    }
}

/// How many repositories GitHub is actually asked about: none with `--no-github`.
pub open spec fn asked_count(findings: Seq<LocalFindingView>, access: GithubAccess) -> nat {
    match access {
        GithubAccess::Skip => 0,
        GithubAccess::Query => slug_count(findings),
    }
}

/// The repositories GitHub is actually asked about.
pub fn asked(findings: &[LocalFinding], access: GithubAccess) -> (count: usize)
    ensures
        count == asked_count(finding_views(findings@), access),
{
    match access {
        GithubAccess::Skip => 0,
        GithubAccess::Query => {
            let ghost all = finding_views(findings@);
            let mut count: usize = 0;
            let mut k: usize = 0;
            while k < findings.len()
                invariant
                    k <= findings@.len(),
                    all == finding_views(findings@),
                    count == slug_count(all.take(k as int)),
                    count <= k,
                decreases findings@.len() - k,
            {
                assert(all.take(k + 1).drop_last() =~= all.take(k as int));
                assert(all[k as int] == findings@[k as int]@);
                if findings[k].slug().is_some() {
                    count = count + 1;
                }
                k = k + 1;
            }
            assert(all.take(findings@.len() as int) =~= all);
            count
        },
    }
}

/// What a row's GitHub side is before asking: `?` for a repository that is to
/// be asked, `n/a` for one whose origin is not on GitHub.
///
/// A repository whose local state could not be read is never `n/a`: its origin
/// was not asked, so all that can be said is that it could not be read.
pub open spec fn unasked_view(finding: LocalFindingView) -> RemoteReportView {
    if finding.slug is Some {
        RemoteReportView::Unavailable
    } else {
        match finding.report {
            LocalReportView::State(_) => RemoteReportView::NotOnGithub,
            LocalReportView::Unavailable => RemoteReportView::Unavailable,
        }
    }
}

/// A row's GitHub side before asking.
pub fn unasked(finding: &LocalFinding) -> (report: RemoteReport)
    ensures
        report@ == unasked_view(finding@),
{
    if finding.slug().is_some() {
        return RemoteReport::Unavailable;
    }
    match finding.report() {
        LocalReport::State(_) => RemoteReport::NotOnGithub,
        LocalReport::Unavailable => RemoteReport::Unavailable,
    }
}

/// Every row's GitHub side before asking: all `n/a` with `--no-github`.
pub open spec fn initial_views(findings: Seq<LocalFindingView>, access: GithubAccess) -> Seq<RemoteReportView> {
    Seq::new(
        findings.len(),
        |k: int|
            match access {
                GithubAccess::Skip => RemoteReportView::NotOnGithub,
                GithubAccess::Query => unasked_view(findings[k]),
            },
    )
}

/// Every row's GitHub side before asking. With `--no-github` nothing will be
/// asked, and every row is `n/a`.
pub fn initial_reports(findings: &[LocalFinding], access: GithubAccess) -> (reports: Vec<RemoteReport>)
    ensures
        report_views(reports@) == initial_views(finding_views(findings@), access),
{
    let ghost wanted = initial_views(finding_views(findings@), access);
    let mut reports: Vec<RemoteReport> = Vec::new();
    let mut k: usize = 0;
    while k < findings.len()
        invariant
            k <= findings@.len(),
            wanted == initial_views(finding_views(findings@), access),
            report_views(reports@) == wanted.take(k as int),
        decreases findings@.len() - k,
    {
        let report = match access {
            GithubAccess::Skip => RemoteReport::NotOnGithub,
            GithubAccess::Query => unasked(&findings[k]),
        };
        let ghost before = reports@;
        reports.push(report);
        assert(report_views(reports@) =~= report_views(before).push(wanted[k as int]));
        assert(wanted.take(k + 1) =~= wanted.take(k as int).push(wanted[k as int]));
        k = k + 1;
    }
    assert(wanted.take(findings@.len() as int) =~= wanted);
    reports
}

/// The repositories to ask about: each finding with an origin on GitHub, with
/// its row, in the order of the rows.
pub open spec fn targets_view(findings: Seq<LocalFindingView>) -> Seq<(usize, (Seq<char>, Seq<char>))>
    decreases findings.len(),
{
    if findings.len() == 0 {
        Seq::empty()
    } else {
        let before = targets_view(findings.drop_last());
        match findings.last().slug {
            Some(slug) => before.push(((findings.len() - 1) as usize, slug)),
            None => before,
        }
    }
}

/// The repositories to ask about, each with the row its answer goes back to.
/// With `--no-github` there are none, so `gh` is never started.
pub fn targets_of(findings: &[LocalFinding], access: GithubAccess) -> (targets: Vec<Target>)
    ensures
        access == GithubAccess::Skip ==> targets@.len() == 0,
        access == GithubAccess::Query ==> target_views(targets@) == targets_view(finding_views(findings@)),
{
    let mut targets: Vec<Target> = Vec::new();
    if access == GithubAccess::Skip {
        return targets;
    }
    let ghost all = finding_views(findings@);
    let mut k: usize = 0;
    while k < findings.len()
        invariant
            k <= findings@.len(),
            all == finding_views(findings@),
            target_views(targets@) == targets_view(all.take(k as int)),
        decreases findings@.len() - k,
    {
        assert(all.take(k + 1).drop_last() =~= all.take(k as int));
        assert(all[k as int] == findings@[k as int]@);
        if let Some(slug) = findings[k].slug() {
            let ghost before = targets@;
            targets.push(Target::new(k, slug.clone()));
            assert(target_views(targets@) =~= target_views(before).push((k, slug@)));
        }
        k = k + 1;
    }
    assert(all.take(findings@.len() as int) =~= all);
    targets
}

/// The owner/names of one chunk, for its query.
pub fn chunk_slugs(chunk: &[Target]) -> (slugs: Vec<GithubSlug>)
    ensures
        slugs@.len() == chunk@.len(),
        forall|k: int| 0 <= k < chunk@.len() ==> #[trigger] slugs@[k]@ == chunk@[k]@.1,
{
    let mut slugs: Vec<GithubSlug> = Vec::new();
    let mut k: usize = 0;
    while k < chunk.len()
        invariant
            k <= chunk@.len(),
            slugs@.len() == k,
            forall|j: int| 0 <= j < k ==> #[trigger] slugs@[j]@ == chunk@[j]@.1,
        decreases chunk@.len() - k,
    {
        slugs.push(chunk[k].slug().clone());
        k = k + 1;
    }
    slugs
}

// ---------------------------------------------------------------------------
// The answers.

/// The meaning of one answer: the state, or the reason as text.
pub open spec fn answer_view(answer: Result<RemoteState, String>) -> Result<RemoteStateView, Seq<char>> {
    match answer {
        Ok(state) => Ok(state@),
        Err(reason) => Err(reason@),
    }
}

/// The views of `answers`, in order.
pub open spec fn answer_views(answers: Seq<Result<RemoteState, String>>) -> Seq<Result<RemoteStateView, Seq<char>>> {
    answers.map_values(|answer: Result<RemoteState, String>| answer_view(answer))
}

/// One line of reason for a repository that failed. What GitHub refused with
/// is GitHub's own sentence, kept as it is; the two others say what went wrong.
pub open spec fn why_text(error: RemoteErrorView) -> Seq<char> {
    match error {
        RemoteErrorView::Rejected(message) => message,
        RemoteErrorView::NotFound => "GitHub にそのリポジトリが無い"@,
        RemoteErrorView::Malformed(path) => "応答の形が想定と違う: "@ + path,
    }
}

/// One line of reason for a repository that failed.
pub fn why(error: &RemoteError) -> (reason: String)
    ensures
        reason@ == why_text(error@),
{
    match error {
        RemoteError::Rejected(message) => message.clone(),
        RemoteError::NotFound => String::from_str("GitHub にそのリポジトリが無い"),
        RemoteError::Malformed(path) => {
            let mut reason = String::from_str("応答の形が想定と違う: ");
            reason.append(path.as_str());
            reason
        },
    }
}

/// Each repository's answer: its state, or the reason as text. A chunk that
/// failed as a whole gives each of its `count` repositories the same reason.
pub open spec fn answers_view(count: nat, outcome: ChunkOutcomeView) -> Seq<Result<RemoteStateView, Seq<char>>> {
    match outcome {
        ChunkOutcomeView::Failed(shared) => Seq::new(count, |k: int| Err(shared)),
        ChunkOutcomeView::Answered(results) => results.map_values(
            |result: Result<RemoteStateView, RemoteErrorView>|
                match result {
                    Ok(state) => Ok(state),
                    Err(error) => Err(why_text(error)),
                },
        ),
    }
}

/// The items of `v` in reverse order.
fn reversed<T>(v: Vec<T>) -> (r: Vec<T>)
    ensures
        r@ == v@.reverse(),
{
    let ghost original = v@;
    let mut v = v;
    let mut r: Vec<T> = Vec::new();
    while v.len() > 0
        invariant
            original == v@ + r@.reverse(),
        decreases v@.len(),
    {
        let ghost before_v = v@;
        let ghost before_r = r@;
        let item = v.pop().unwrap();
        r.push(item);
        assert(r@.reverse() =~= seq![item] + before_r.reverse());
        assert(before_v =~= v@.push(item));
        assert(original =~= v@ + r@.reverse());
    }
    assert(original =~= r@.reverse());
    assert(r@.reverse().reverse() =~= r@);
    r
}

/// Each repository's answer, the chunk's outcome evened out.
pub fn answers(count: usize, outcome: ChunkOutcome) -> (answers: Vec<Result<RemoteState, String>>)
    ensures
        answer_views(answers@) == answers_view(count as nat, outcome@),
{
    let ghost wanted = answers_view(count as nat, outcome@);
    let mut answers: Vec<Result<RemoteState, String>> = Vec::new();
    match outcome {
        ChunkOutcome::Failed(shared) => {
            let mut k: usize = 0;
            while k < count
                invariant
                    k <= count,
                    wanted == Seq::new(count as nat, |j: int| Err::<RemoteStateView, Seq<char>>(shared@)),
                    answer_views(answers@) == wanted.take(k as int),
                decreases count - k,
            {
                let ghost before = answers@;
                answers.push(Err(shared.clone()));
                assert(answer_views(answers@) =~= answer_views(before).push(wanted[k as int]));
                assert(wanted.take(k + 1) =~= wanted.take(k as int).push(wanted[k as int]));
                k = k + 1;
            }
            assert(wanted.take(count as int) =~= wanted);
        },
        ChunkOutcome::Answered(results) => {
            let ghost views = results@.map_values(
                |result: Result<RemoteState, RemoteError>| result_view(result),
            );
            let mut rest = reversed(results);
            let ghost n = views.len();
            while rest.len() > 0
                invariant
                    rest@.len() <= n,
                    views.len() == n,
                    results@.len() == n,
                    forall|j: int| 0 <= j < rest@.len() ==> #[trigger] rest@.reverse()[j] == results@[n - rest@.len() + j],
                    answer_views(answers@) == wanted.take(n - rest@.len()),
                    wanted.len() == n,
                    forall|j: int| 0 <= j < n ==> #[trigger] wanted[j] == match views[j] {
                        Ok(state) => Ok(state),
                        Err(error) => Err(why_text(error)),
                    },
                    forall|j: int| 0 <= j < n ==> #[trigger] views[j] == result_view(results@[j]),
                decreases rest@.len(),
            {
                let ghost before = answers@;
                let ghost at = n - rest@.len();
                let ghost remaining = rest@;
                let result = rest.pop().unwrap();
                proof {
                    assert(remaining.reverse()[0] == result);
                    assert forall|j: int| 0 <= j < rest@.len() implies #[trigger] rest@.reverse()[j] == results@[n - rest@.len() + j] by {
                        assert(rest@.reverse()[j] == remaining.reverse()[j + 1]);
                    }
                }
                let answer = match result {
                    Ok(state) => Ok(state),
                    Err(error) => Err(why(&error)),
                };
                answers.push(answer);
                assert(answer_views(answers@) =~= answer_views(before).push(wanted[at]));
                assert(wanted.take(at + 1) =~= wanted.take(at).push(wanted[at]));
            }
            assert(wanted.take(n as int) =~= wanted);
        },
    }
    answers
}

/// The reason every answer of a chunk shares, when they all failed for the same one.
pub open spec fn common_reason_of(answers: Seq<Result<RemoteStateView, Seq<char>>>) -> Option<Seq<char>> {
    if answers.len() > 0 && answers[0] is Err && forall|k: int|
        0 <= k < answers.len() ==> #[trigger] answers[k] == answers[0] {
        match answers[0] {
            Err(reason) => Some(reason),
            Ok(_) => None,
        }
    } else {
        None
    }
}

/// When every repository of a chunk failed for the same reason, that reason.
pub fn common_reason(answers: &[Result<RemoteState, String>]) -> (reason: Option<&str>)
    ensures
        reason matches Some(r) ==> common_reason_of(answer_views(answers@)) == Some(r@),
        reason is None ==> common_reason_of(answer_views(answers@)) is None,
{
    let ghost views = answer_views(answers@);
    if answers.len() == 0 {
        return None;
    }
    let first = match &answers[0] {
        Err(reason) => reason.as_str(),
        Ok(_) => return None,
    };
    let first_chars = crate::text::chars_of(first);
    let mut k: usize = 1;
    while k < answers.len()
        invariant
            1 <= k <= answers@.len(),
            views == answer_views(answers@),
            views[0] == Err::<RemoteStateView, Seq<char>>(first@),
            first_chars@ == first@,
            forall|j: int| 0 <= j < k ==> #[trigger] views[j] == views[0],
        decreases answers@.len() - k,
    {
        match &answers[k] {
            Err(reason) => {
                if !crate::text::same_chars(&crate::text::chars_of(reason.as_str()), &first_chars) {
                    assert(views[k as int] != views[0]);
                    return None;
                }
            },
            Ok(_) => {
                assert(views[k as int] != views[0]);
                return None;
            },
        }
        k = k + 1;
    }
    Some(first)
}

// ---------------------------------------------------------------------------
// What is reported.

/// The names of the rows of `chunk` (a target whose row does not exist has none).
pub open spec fn chunk_names(names: Seq<Seq<char>>, chunk: Seq<(usize, (Seq<char>, Seq<char>))>) -> Seq<Seq<char>>
    decreases chunk.len(),
{
    if chunk.len() == 0 {
        Seq::empty()
    } else {
        let before = chunk_names(names, chunk.drop_last());
        let index = chunk.last().0;
        if index < names.len() {
            before.push(names[index as int])
        } else {
            before
        }
    }
}

/// One reason per failed repository of the first `n` of a chunk.
pub open spec fn each_reason(
    names: Seq<Seq<char>>,
    chunk: Seq<(usize, (Seq<char>, Seq<char>))>,
    answers: Seq<Result<RemoteStateView, Seq<char>>>,
    n: nat,
) -> Seq<(Seq<Seq<char>>, Seq<char>)>
    decreases n,
{
    if n == 0 {
        Seq::empty()
    } else {
        let before = each_reason(names, chunk, answers, (n - 1) as nat);
        let index = chunk[n - 1].0;
        match answers[n - 1] {
            Err(reason) => if index < names.len() {
                before.push((seq![names[index as int]], reason))
            } else {
                before
            },
            Ok(_) => before,
        }
    }
}

/// The reasons a chunk's answers give: one line for the whole chunk when
/// every repository failed for the same reason, else one per failed repository.
/// With no `gh` installed, twenty lines of the same sentence would be noise.
pub open spec fn tell_view(
    names: Seq<Seq<char>>,
    chunk: Seq<(usize, (Seq<char>, Seq<char>))>,
    answers: Seq<Result<RemoteStateView, Seq<char>>>,
) -> Seq<(Seq<Seq<char>>, Seq<char>)> {
    match common_reason_of(answers) {
        Some(shared) => seq![(chunk_names(names, chunk), shared)],
        None => each_reason(
            names,
            chunk,
            answers,
            if chunk.len() <= answers.len() {
                chunk.len()
            } else {
                answers.len()
            },
        ),
    }
}

/// `problems` names `name`, with `reason`.
pub open spec fn told(problems: Seq<(Seq<Seq<char>>, Seq<char>)>, name: Seq<char>, reason: Seq<char>) -> bool {
    exists|p: int, q: int|
        0 <= p < problems.len() && 0 <= q < problems[p].0.len() && #[trigger] problems[p].0[q] == name
            && problems[p].1 == reason
}

proof fn lemma_chunk_names_hold(names: Seq<Seq<char>>, chunk: Seq<(usize, (Seq<char>, Seq<char>))>, k: int)
    requires
        0 <= k < chunk.len(),
        chunk[k].0 < names.len(),
    ensures
        exists|q: int|
            0 <= q < chunk_names(names, chunk).len() && #[trigger] chunk_names(names, chunk)[q]
                == names[chunk[k].0 as int],
    decreases chunk.len(),
{
    let found = chunk_names(names, chunk);
    let before = chunk_names(names, chunk.drop_last());
    if k == chunk.len() - 1 {
        assert(found[found.len() - 1] == names[chunk[k].0 as int]);
    } else {
        assert(chunk.drop_last()[k] == chunk[k]);
        lemma_chunk_names_hold(names, chunk.drop_last(), k);
        let q = choose|q: int| 0 <= q < before.len() && #[trigger] before[q] == names[chunk[k].0 as int];
        assert(found[q] == before[q]);
    }
}

proof fn lemma_each_reason_holds(
    names: Seq<Seq<char>>,
    chunk: Seq<(usize, (Seq<char>, Seq<char>))>,
    answers: Seq<Result<RemoteStateView, Seq<char>>>,
    n: nat,
    k: int,
    reason: Seq<char>,
)
    requires
        0 <= k < n,
        n <= chunk.len(),
        n <= answers.len(),
        answers[k] == Err::<RemoteStateView, Seq<char>>(reason),
        chunk[k].0 < names.len(),
    ensures
        told(each_reason(names, chunk, answers, n), names[chunk[k].0 as int], reason),
    decreases n,
{
    let found = each_reason(names, chunk, answers, n);
    let before = each_reason(names, chunk, answers, (n - 1) as nat);
    let name = names[chunk[k].0 as int];
    if k == n - 1 {
        assert(found[found.len() - 1] == (seq![name], reason));
        assert(found[found.len() - 1].0[0] == name);
    } else {
        lemma_each_reason_holds(names, chunk, answers, (n - 1) as nat, k, reason);
        let (p, q) = choose|p: int, q: int|
            0 <= p < before.len() && 0 <= q < before[p].0.len() && #[trigger] before[p].0[q] == name
                && before[p].1 == reason;
        assert(found[p] == before[p]);
        assert(found[p].0[q] == name);
    }
}

/// Every repository of a chunk that failed is told, with its reason: a `?`
/// from GitHub always comes with a line on stderr saying why.
pub proof fn law_every_failure_of_a_chunk_is_told(
    names: Seq<Seq<char>>,
    chunk: Seq<(usize, (Seq<char>, Seq<char>))>,
    answers: Seq<Result<RemoteStateView, Seq<char>>>,
    k: int,
    reason: Seq<char>,
)
    requires
        0 <= k < chunk.len(),
        k < answers.len(),
        answers[k] == Err::<RemoteStateView, Seq<char>>(reason),
        chunk[k].0 < names.len(),
    ensures
        told(tell_view(names, chunk, answers), names[chunk[k].0 as int], reason),
{
    let name = names[chunk[k].0 as int];
    match common_reason_of(answers) {
        Some(shared) => {
            assert(answers[k] == answers[0]);
            assert(shared == reason);
            lemma_chunk_names_hold(names, chunk, k);
            let problems = tell_view(names, chunk, answers);
            let q = choose|q: int|
                0 <= q < chunk_names(names, chunk).len() && #[trigger] chunk_names(names, chunk)[q] == name;
            assert(problems[0].0[q] == name);
        },
        None => {
            let n = if chunk.len() <= answers.len() {
                chunk.len()
            } else {
                answers.len()
            };
            lemma_each_reason_holds(names, chunk, answers, n, k, reason);
        },
    }
}

/// The view of one reported problem: the names it is about, and why.
pub open spec fn problem_view(problem: (Vec<String>, String)) -> (Seq<Seq<char>>, Seq<char>) {
    (texts(problem.0@), problem.1@)
}

/// The views of `problems`, in order.
pub open spec fn problem_views(problems: Seq<(Vec<String>, String)>) -> Seq<(Seq<Seq<char>>, Seq<char>)> {
    problems.map_values(|problem: (Vec<String>, String)| problem_view(problem))
}

/// The reasons to report for one chunk: the names they are about, and why.
pub fn tell(names: &[String], chunk: &[Target], answers: &[Result<RemoteState, String>]) -> (problems: Vec<(Vec<String>, String)>)
    ensures
        problem_views(problems@) == tell_view(texts(names@), target_views(chunk@), answer_views(answers@)),
{
    let ghost all = texts(names@);
    let ghost targets = target_views(chunk@);
    let ghost views = answer_views(answers@);
    let mut problems: Vec<(Vec<String>, String)> = Vec::new();
    if let Some(shared) = common_reason(answers) {
        let mut found: Vec<String> = Vec::new();
        let mut k: usize = 0;
        while k < chunk.len()
            invariant
                k <= chunk@.len(),
                all == texts(names@),
                targets == target_views(chunk@),
                texts(found@) == chunk_names(all, targets.take(k as int)),
            decreases chunk@.len() - k,
        {
            assert(targets.take(k + 1).drop_last() =~= targets.take(k as int));
            assert(targets[k as int] == chunk@[k as int]@);
            let index = chunk[k].index();
            if index < names.len() {
                let ghost before = found@;
                found.push(names[index].clone());
                assert(texts(found@) =~= texts(before).push(all[index as int]));
            }
            k = k + 1;
        }
        assert(targets.take(chunk@.len() as int) =~= targets);
        problems.push((found, String::from_str(shared)));
        assert(problem_views(problems@) =~= seq![(chunk_names(all, targets), shared@)]);
        return problems;
    }
    let n: usize = if chunk.len() <= answers.len() {
        chunk.len()
    } else {
        answers.len()
    };
    let mut k: usize = 0;
    while k < n
        invariant
            k <= n,
            n <= chunk@.len(),
            n <= answers@.len(),
            all == texts(names@),
            targets == target_views(chunk@),
            views == answer_views(answers@),
            problem_views(problems@) == each_reason(all, targets, views, k as nat),
        decreases n - k,
    {
        assert(targets[k as int] == chunk@[k as int]@);
        assert(views[k as int] == answer_view(answers@[k as int]));
        let index = chunk[k].index();
        if let Err(reason) = &answers[k] {
            if index < names.len() {
                let mut found: Vec<String> = Vec::new();
                found.push(names[index].clone());
                let ghost before = problems@;
                problems.push((found, reason.clone()));
                assert(texts(found@) =~= seq![all[index as int]]);
                assert(problem_views(problems@) =~= problem_views(before).push(
                    (seq![all[index as int]], reason@),
                ));
            }
        }
        k = k + 1;
    }
    problems
}

/// `names` joined by `, `.
pub open spec fn joined(names: Seq<Seq<char>>) -> Seq<char>
    decreases names.len(),
{
    if names.len() == 0 {
        Seq::empty()
    } else if names.len() == 1 {
        names[0]
    } else {
        joined(names.drop_last()) + ", "@ + names.last()
    }
}

/// The line reported for a problem: `names: why`. Nothing when there is no name.
pub fn problem_line(names: &[String], why: &str) -> (line: Option<String>)
    ensures
        names@.len() == 0 ==> line is None,
        names@.len() > 0 ==> (line matches Some(l) && l@ == joined(texts(names@)) + ": "@ + why@),
{
    if names.len() == 0 {
        return None;
    }
    let ghost all = texts(names@);
    let mut line = names[0].clone();
    let mut k: usize = 1;
    assert(all.take(1).drop_last() =~= Seq::<Seq<char>>::empty());
    while k < names.len()
        invariant
            1 <= k <= names@.len(),
            all == texts(names@),
            line@ == joined(all.take(k as int)),
        decreases names@.len() - k,
    {
        assert(all.take(k + 1).drop_last() =~= all.take(k as int));
        line.append(", ");
        line.append(names[k].as_str());
        k = k + 1;
    }
    assert(all.take(names@.len() as int) =~= all);
    line.append(": ");
    line.append(why);
    Some(line)
}

/// The repositories whose branches could not all be counted, among the first
/// `n` rows. Not a failure, yet a `?`: a `?` always comes with a reason.
pub open spec fn truncated_view(
    names: Seq<Seq<char>>,
    reports: Seq<RemoteReportView>,
    today: nat,
    stale_days: u32,
    n: nat,
) -> Seq<(Seq<Seq<char>>, Seq<char>)>
    decreases n,
{
    if n == 0 {
        Seq::empty()
    } else {
        let before = truncated_view(names, reports, today, stale_days, (n - 1) as nat);
        match reports[n - 1] {
            RemoteReportView::State(state) => if stale_count_of(
                state.branches,
                state.default_branch,
                today,
                stale_days,
            ) is Truncated {
                before.push((seq![names[n - 1]], TRUNCATED@))
            } else {
                before
            },
            _ => before,
        }
    }
}

/// The reasons to report for the rows whose STALE could not be counted.
pub fn warn_truncated(names: &[String], reports: &[RemoteReport], freshness: &Freshness) -> (problems: Vec<(Vec<String>, String)>)
    ensures
        problem_views(problems@) == truncated_view(
            texts(names@),
            report_views(reports@),
            freshness@.0,
            freshness@.1,
            if names@.len() <= reports@.len() {
                names@.len()
            } else {
                reports@.len()
            },
        ),
{
    let ghost all = texts(names@);
    let ghost views = report_views(reports@);
    let n: usize = if names.len() <= reports.len() {
        names.len()
    } else {
        reports.len()
    };
    let mut problems: Vec<(Vec<String>, String)> = Vec::new();
    let mut k: usize = 0;
    while k < n
        invariant
            k <= n,
            n <= names@.len(),
            n <= reports@.len(),
            all == texts(names@),
            views == report_views(reports@),
            problem_views(problems@) == truncated_view(all, views, freshness@.0, freshness@.1, k as nat),
        decreases n - k,
    {
        assert(views[k as int] == reports@[k as int]@);
        assert(all[k as int] == names@[k as int]@);
        if let RemoteReport::State(state) = &reports[k] {
            if let StaleCount::Truncated = state.stale_branches(freshness) {
                let mut found: Vec<String> = Vec::new();
                found.push(names[k].clone());
                let ghost before = problems@;
                problems.push((found, String::from_str(TRUNCATED)));
                assert(texts(found@) =~= seq![all[k as int]]);
                assert(problem_views(problems@) =~= problem_views(before).push(
                    (seq![all[k as int]], TRUNCATED@),
                ));
            }
        }
        k = k + 1;
    }
    problems
}

// ---------------------------------------------------------------------------
// Putting the answers back.

/// The GitHub sides after the first `n` answers of a chunk went back to their rows.
pub open spec fn settled_view(
    reports: Seq<RemoteReportView>,
    chunk: Seq<(usize, (Seq<char>, Seq<char>))>,
    answers: Seq<Result<RemoteStateView, Seq<char>>>,
    n: nat,
) -> Seq<RemoteReportView>
    decreases n,
{
    if n == 0 {
        reports
    } else {
        let before = settled_view(reports, chunk, answers, (n - 1) as nat);
        let index = chunk[n - 1].0;
        if index < before.len() {
            before.update(
                index as int,
                match answers[n - 1] {
                    Ok(state) => RemoteReportView::State(state),
                    Err(_) => RemoteReportView::Unavailable,
                },
            )
        } else {
            before
        }
    }
}

/// Puts a chunk's answers back in the rows they came from: the state, or `?`.
pub fn settle(chunk: &[Target], answers: Vec<Result<RemoteState, String>>, reports: &mut Vec<RemoteReport>)
    ensures
        report_views(final(reports)@) == settled_view(
            report_views(old(reports)@),
            target_views(chunk@),
            answer_views(answers@),
            if chunk@.len() <= answers@.len() {
                chunk@.len()
            } else {
                answers@.len()
            },
        ),
{
    let ghost start = report_views(reports@);
    let ghost targets = target_views(chunk@);
    let ghost views = answer_views(answers@);
    let n: usize = if chunk.len() <= answers.len() {
        chunk.len()
    } else {
        answers.len()
    };
    let ghost total = answers@.len();
    let mut rest = reversed(answers);
    let mut k: usize = 0;
    while k < n
        invariant
            k <= n,
            n <= chunk@.len(),
            n <= total,
            rest@.len() == total - k,
            forall|j: int| 0 <= j < rest@.len() ==> #[trigger] answer_view(rest@.reverse()[j]) == views[k + j],
            views.len() == total,
            targets == target_views(chunk@),
            report_views(reports@) == settled_view(start, targets, views, k as nat),
        decreases n - k,
    {
        let ghost before = rest@;
        let answer = rest.pop().unwrap();
        proof {
            assert(before.reverse()[0] == answer);
            assert(answer_view(before.reverse()[0]) == views[k + 0]);
            assert forall|j: int| 0 <= j < rest@.len() implies #[trigger] answer_view(rest@.reverse()[j]) == views[k + 1 + j] by {
                assert(rest@.reverse()[j] == before.reverse()[j + 1]);
            }
        }
        assert(targets[k as int] == chunk@[k as int]@);
        let index = chunk[k].index();
        if index < reports.len() {
            let report = match answer {
                Ok(state) => RemoteReport::State(state),
                Err(_) => RemoteReport::Unavailable,
            };
            let ghost previous = reports@;
            reports.set(index, report);
            assert(report_views(reports@) =~= report_views(previous).update(index as int, report@));
        }
        k = k + 1;
    }
}

// ---------------------------------------------------------------------------
// The rows.

/// The rows: each repository's name with its two reports, in the order of the
/// repositories (the table orders them by name). The three lists go together
/// one for one; there are as many rows as the shortest has items.
pub fn compose(names: &[String], findings: Vec<LocalFinding>, remotes: Vec<RemoteReport>) -> (rows: Vec<Row>)
    ensures
        rows@.len() == min3(names@.len(), findings@.len(), remotes@.len()),
        forall|k: int|
            0 <= k < rows@.len() ==> #[trigger] rows@[k]@ == (RowView {
                name: names@[k]@,
                local: findings@[k]@.report,
                remote: remotes@[k]@,
            }),
{
    let ghost all_findings = findings@;
    let ghost all_remotes = remotes@;
    let mut n = names.len();
    if findings.len() < n {
        n = findings.len();
    }
    if remotes.len() < n {
        n = remotes.len();
    }
    let ghost f_len = findings@.len();
    let ghost r_len = remotes@.len();
    let mut findings = reversed(findings);
    let mut remotes = reversed(remotes);
    let mut rows: Vec<Row> = Vec::new();
    let mut k: usize = 0;
    while k < n
        invariant
            k <= n,
            n <= names@.len(),
            n <= f_len,
            n <= r_len,
            findings@.len() == f_len - k,
            remotes@.len() == r_len - k,
            all_findings.len() == f_len,
            all_remotes.len() == r_len,
            forall|j: int| 0 <= j < f_len - k ==> #[trigger] findings@.reverse()[j] == all_findings[k + j],
            forall|j: int| 0 <= j < r_len - k ==> #[trigger] remotes@.reverse()[j] == all_remotes[k + j],
            rows@.len() == k,
            forall|j: int|
                0 <= j < k ==> #[trigger] rows@[j]@ == (RowView {
                    name: names@[j]@,
                    local: all_findings[j]@.report,
                    remote: all_remotes[j]@,
                }),
        decreases n - k,
    {
        let ghost before_f = findings@;
        let ghost before_r = remotes@;
        let finding = findings.pop().unwrap();
        let remote = remotes.pop().unwrap();
        proof {
            assert(before_f.reverse()[0] == finding);
            assert(before_r.reverse()[0] == remote);
            assert forall|j: int| 0 <= j < f_len - k - 1 implies #[trigger] findings@.reverse()[j] == all_findings[k + 1 + j] by {
                assert(findings@.reverse()[j] == before_f.reverse()[j + 1]);
            }
            assert forall|j: int| 0 <= j < r_len - k - 1 implies #[trigger] remotes@.reverse()[j] == all_remotes[k + 1 + j] by {
                assert(remotes@.reverse()[j] == before_r.reverse()[j + 1]);
            }
        }
        rows.push(Row::new(names[k].clone(), finding.into_report(), remote));
        k = k + 1;
    }
    rows
}

/// The least of three counts.
pub open spec fn min3(a: nat, b: nat, c: nat) -> nat {
    let ab = if a <= b {
        a
    } else {
        b
    };
    if ab <= c {
        ab
    } else {
        c
    }
}

/// Every row is settled.
pub open spec fn all_complete(rows: Seq<RowView>, today: nat, stale_days: u32) -> bool {
    forall|k: int| 0 <= k < rows.len() ==> #[trigger] all_known(cells_of(rows[k], today, stale_days))
}

/// What the run looked at and how it ended: 0 when every row is settled, 1
/// when some row shows `?` (the table is out, but only part was seen).
pub fn tally_of(rows: &[Row], queried: usize, freshness: &Freshness) -> (tally: Tally)
    ensures
        tally@ == (
            rows@.len() as usize,
            queried,
            if all_complete(rows@.map_values(|row: Row| row@), freshness@.0, freshness@.1) {
                Outcome::Complete
            } else {
                Outcome::Partial
            },
        ),
{
    let ghost views = rows@.map_values(|row: Row| row@);
    let mut complete = true;
    let mut k: usize = 0;
    while k < rows.len()
        invariant
            k <= rows@.len(),
            views == rows@.map_values(|row: Row| row@),
            complete == forall|j: int| 0 <= j < k ==> #[trigger] all_known(cells_of(views[j], freshness@.0, freshness@.1)),
        decreases rows@.len() - k,
    {
        assert(views[k as int] == rows@[k as int]@);
        if !rows[k].is_complete(freshness) {
            complete = false;
        }
        k = k + 1;
    }
    Tally::new(rows.len(), queried, Outcome::of(complete))
}

} // verus!
