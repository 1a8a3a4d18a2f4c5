//! Building the GitHub GraphQL query, and reading its response.
//!
//! One request lists several repositories under aliases. Measured, the more
//! repositories one request holds the slower it gets (42 in 8.87 s, 60 gave HTTP
//! 502); splitting into requests of three and sending them in parallel was the
//! fastest. That three is [`REPOS_PER_QUERY`].
//!
//! `gh api graphql` exits 1 as soon as `errors` holds one entry, while `data`
//! still holds the repositories that succeeded: the exit code does not tell.
//! [`parse_response`] answers `Ok` or `Err` per repository.

use vstd::prelude::*;

use crate::branch_list::{BranchList, BranchListView, stale_among, stale_count_of};
use crate::ci_state::{CiState, ci_state_of};
use crate::day::{Day, iso8601_day_number, lemma_day_numbers_are_natural};
use crate::github_slug::GithubSlug;
use crate::json_value::JsonValue;
use crate::remote_branch::RemoteBranch;
use crate::remote_error::{RemoteError, RemoteErrorView};
use crate::remote_state::{RemoteState, RemoteStateView};
use crate::stale_count::StaleCount;
use crate::text::{chars_of, decimal_string, decimal_text, same_chars};

verus! {

/// How many repositories one query holds.
///
/// A measured value: larger makes GitHub resolve them one after another, smaller
/// makes more requests. 60 repositories, three at a time in 20 parallel requests: 1.4 s.
pub const REPOS_PER_QUERY: usize = 3;

/// The fields asked for, written once as a fragment.
pub const FRAGMENT: &'static str = "fragment RepoFields on Repository { nameWithOwner defaultBranchRef { name target { ... on Commit { committedDate statusCheckRollup { state } } } } pullRequests(states: OPEN) { totalCount } refs(refPrefix: \"refs/heads/\", first: 100) { totalCount nodes { name target { ... on Commit { committedDate } } } } }";

// ---------------------------------------------------------------------------
// The query.

/// The line of one alias: `  rN: repository(owner: "o", name: "n") { ...RepoFields }`.
pub open spec fn alias_line_text(index: nat, owner: Seq<char>, name: Seq<char>) -> Seq<char> {
    "  r"@ + decimal_text(index) + ": repository(owner: \""@ + owner + "\", name: \""@ + name
        + "\") { ...RepoFields }\n"@
}

/// The alias lines of the first `n` slugs.
pub open spec fn alias_lines(slugs: Seq<(Seq<char>, Seq<char>)>, n: nat) -> Seq<char>
    decreases n,
{
    if n == 0 {
        Seq::empty()
    } else {
        alias_lines(slugs, (n - 1) as nat) + alias_line_text(
            (n - 1) as nat,
            slugs[n - 1].0,
            slugs[n - 1].1,
        )
    }
}

/// The whole query for `slugs`: `r0`, `r1`, ... in the order of `slugs`, then the fragment.
pub open spec fn query_text(slugs: Seq<(Seq<char>, Seq<char>)>) -> Seq<char> {
    "query {\n"@ + alias_lines(slugs, slugs.len()) + "}\n"@ + FRAGMENT@ + "\n"@
}

/// Builds the query, with aliases `r0`, `r1`, ... in the order of `slugs`.
///
/// Read the response with [`parse_response`] and the same `slugs`. Owner and
/// name are limited to `[A-Za-z0-9_.-]` by [`GithubSlug`], so they cannot break
/// the query (no quote, no `\`); no escaping is needed.
pub fn build_query(slugs: &[GithubSlug]) -> (query: String)
    ensures
        query@ == query_text(slugs@.map_values(|s: GithubSlug| s@)),
{
    let ghost views = slugs@.map_values(|s: GithubSlug| s@);
    let mut query = String::from_str("query {\n");
    let mut i: usize = 0;
    while i < slugs.len()
        invariant
            i <= slugs@.len(),
            views == slugs@.map_values(|s: GithubSlug| s@),
            query@ == "query {\n"@ + alias_lines(views, i as nat),
        decreases slugs@.len() - i,
    {
        let line = alias_line(i, &slugs[i]);
        query.append(line.as_str());
        proof {
            assert(views[i as int] == slugs@[i as int]@);
        }
        assert(query@ =~= "query {\n"@ + alias_lines(views, (i + 1) as nat));
        i = i + 1;
    }
    query.append("}\n");
    query.append(FRAGMENT);
    query.append("\n");
    query
}

/// The line of one alias.
fn alias_line(index: usize, slug: &GithubSlug) -> (line: String)
    ensures
        line@ == alias_line_text(index as nat, slug@.0, slug@.1),
{
    let mut line = String::from_str("  r");
    let number = decimal_string(index as u64);
    line.append(number.as_str());
    line.append(": repository(owner: \"");
    line.append(slug.owner());
    line.append("\", name: \"");
    line.append(slug.name());
    line.append("\") { ...RepoFields }\n");
    line
}

// ---------------------------------------------------------------------------
// The response.

/// The alias of the `index`-th repository: `r0`, `r1`, ...
pub open spec fn alias_text(index: nat) -> Seq<char> {
    "r"@ + decimal_text(index)
}

/// A `Malformed` error that names where: `<alias>.<path>`.
pub open spec fn malformed_at(alias: Seq<char>, path: Seq<char>) -> RemoteErrorView {
    RemoteErrorView::Malformed(alias + "."@ + path)
}

/// The member `key` of `value`, when `value` is an object that has one.
pub open spec fn member_of(value: Option<JsonValue>, key: Seq<char>) -> Option<JsonValue> {
    match value {
        Some(v) => v.member(key),
        None => None,
    }
}

/// The text of `value`, when it is a string.
pub open spec fn text_of(value: Option<JsonValue>) -> Option<Seq<char>> {
    match value {
        Some(v) => v.text(),
        None => None,
    }
}

/// `errors[0].message`: how GraphQL may report that the whole request failed.
pub open spec fn first_error_message(json: JsonValue) -> Option<Seq<char>> {
    match member_of(Some(json), "errors"@) {
        Some(errors) => match errors.items() {
            Some(items) => if items.len() > 0 {
                text_of(items[0].member("message"@))
            } else {
                None
            },
            None => None,
        },
        None => None,
    }
}

/// The error of every repository when the whole request failed (no `data`):
/// GitHub's `message` (or `errors[0].message`); `Malformed("data")` without one.
pub open spec fn request_error(json: JsonValue) -> RemoteErrorView {
    match text_of(json.member("message"@)) {
        Some(message) => RemoteErrorView::Rejected(message),
        None => match first_error_message(json) {
            Some(message) => RemoteErrorView::Rejected(message),
            None => RemoteErrorView::Malformed("data"@),
        },
    }
}

/// `errors[].path` of `entry` is exactly `[alias]`.
pub open spec fn points_at(entry: JsonValue, alias: Seq<char>) -> bool {
    match member_of(Some(entry), "path"@) {
        Some(path) => match path.items() {
            Some(items) => items.len() == 1 && items[0].text() == Some(alias),
            None => false,
        },
        None => false,
    }
}

/// One entry of `errors[]`, as an error.
pub open spec fn classify(entry: JsonValue) -> RemoteErrorView {
    if text_of(entry.member("type"@)) == Some("NOT_FOUND"@) {
        RemoteErrorView::NotFound
    } else {
        match text_of(entry.member("message"@)) {
            Some(message) => RemoteErrorView::Rejected(message),
            None => RemoteErrorView::Malformed("errors[].message"@),
        }
    }
}

/// The first of `entries[k..]` that points at `alias`.
pub open spec fn first_pointing(entries: Seq<JsonValue>, alias: Seq<char>, k: int) -> Option<JsonValue>
    decreases entries.len() - k,
{
    if k < 0 || k >= entries.len() {
        None
    } else if points_at(entries[k], alias) {
        Some(entries[k])
    } else {
        first_pointing(entries, alias, k + 1)
    }
}

/// The error of a repository whose `data.<alias>` is `null`: the first
/// `errors[]` entry that points at it; `Malformed(alias)` when none does.
pub open spec fn alias_error(json: JsonValue, alias: Seq<char>) -> RemoteErrorView {
    let entries = match member_of(Some(json), "errors"@) {
        Some(errors) => match errors.items() {
            Some(items) => items,
            None => Seq::empty(),
        },
        None => Seq::empty(),
    };
    match first_pointing(entries, alias, 0) {
        Some(entry) => classify(entry),
        None => RemoteErrorView::Malformed(alias),
    }
}

/// `defaultBranchRef`: `null` (an empty repository, not a failure) or an object.
pub open spec fn branch_ref_of(alias: Seq<char>, repository: JsonValue) -> Result<Option<JsonValue>, RemoteErrorView> {
    match repository.member("defaultBranchRef"@) {
        None => Err(malformed_at(alias, "defaultBranchRef"@)),
        Some(value) => if value is Null {
            Ok(None)
        } else if value is Object {
            Ok(Some(value))
        } else {
            Err(malformed_at(alias, "defaultBranchRef"@))
        },
    }
}

/// The default branch's name.
pub open spec fn default_branch_of(alias: Seq<char>, repository: JsonValue) -> Result<Option<Seq<char>>, RemoteErrorView> {
    match branch_ref_of(alias, repository) {
        Err(e) => Err(e),
        Ok(None) => Ok(None),
        Ok(Some(reference)) => match text_of(reference.member("name"@)) {
            Some(name) => Ok(Some(name)),
            None => Err(malformed_at(alias, "defaultBranchRef.name"@)),
        },
    }
}

/// The CI state of the default branch's head commit.
pub open spec fn ci_of(alias: Seq<char>, repository: JsonValue) -> Result<CiState, RemoteErrorView> {
    match branch_ref_of(alias, repository) {
        Err(e) => Err(e),
        Ok(None) => Ok(CiState::Absent),
        Ok(Some(reference)) => match reference.member("target"@) {
            Some(target) if target is Object => match target.member("statusCheckRollup"@) {
                None => Err(malformed_at(alias, "defaultBranchRef.target.statusCheckRollup"@)),
                Some(rollup) => if rollup is Null {
                    Ok(CiState::Absent)
                } else {
                    match text_of(rollup.member("state"@)) {
                        None => Err(
                            malformed_at(alias, "defaultBranchRef.target.statusCheckRollup.state"@),
                        ),
                        Some(state) => match ci_state_of(state) {
                            Some(ci) => Ok(ci),
                            None => Err(
                                malformed_at(
                                    alias,
                                    "defaultBranchRef.target.statusCheckRollup.state"@,
                                ),
                            ),
                        },
                    }
                },
            },
            _ => Err(malformed_at(alias, "defaultBranchRef.target"@)),
        },
    }
}

/// `<field>.totalCount` as a `u32`.
pub open spec fn total_count_of(alias: Seq<char>, container: Option<JsonValue>, field: Seq<char>) -> Result<u32, RemoteErrorView> {
    match member_of(container, "totalCount"@) {
        Some(count) => match count.u64_value() {
            Some(n) => if n <= u32::MAX {
                Ok(n as u32)
            } else {
                Err(malformed_at(alias, field + ".totalCount"@))
            },
            None => Err(malformed_at(alias, field + ".totalCount"@)),
        },
        None => Err(malformed_at(alias, field + ".totalCount"@)),
    }
}

/// One branch node: its name and the day of its head commit.
pub open spec fn branch_of(alias: Seq<char>, node: JsonValue, index: nat) -> Result<(Seq<char>, nat), RemoteErrorView> {
    match text_of(node.member("name"@)) {
        None => Err(malformed_at(alias, "refs.nodes["@ + decimal_text(index) + "].name"@)),
        Some(name) => match text_of(member_of(node.member("target"@), "committedDate"@)) {
            Some(date) => match iso8601_day_number(date) {
                Some(day) => Ok((name, day as nat)),
                None => Err(
                    malformed_at(alias, "refs.nodes["@ + decimal_text(index) + "].target.committedDate"@),
                ),
            },
            None => Err(
                malformed_at(alias, "refs.nodes["@ + decimal_text(index) + "].target.committedDate"@),
            ),
        },
    }
}

/// The branch nodes `k..`, after `acc` was read from the ones before; the first failure wins.
pub open spec fn branches_from(alias: Seq<char>, nodes: Seq<JsonValue>, k: int, acc: Seq<(Seq<char>, nat)>) -> Result<Seq<(Seq<char>, nat)>, RemoteErrorView>
    decreases nodes.len() - k,
{
    if k < 0 || k >= nodes.len() {
        Ok(acc)
    } else {
        match branch_of(alias, nodes[k], k as nat) {
            Err(e) => Err(e),
            Ok(branch) => branches_from(alias, nodes, k + 1, acc.push(branch)),
        }
    }
}

/// The branches: cut short when `refs.totalCount` is more than the nodes fetched.
pub open spec fn branch_list_of(alias: Seq<char>, repository: JsonValue) -> Result<BranchListView, RemoteErrorView> {
    match repository.member("refs"@) {
        Some(refs) if refs is Object => match total_count_of(alias, Some(refs), "refs"@) {
            Err(e) => Err(e),
            Ok(total) => match member_of(Some(refs), "nodes"@) {
                Some(nodes) if nodes is Array => {
                    let items = nodes.items().unwrap();
                    match branches_from(alias, items, 0, Seq::empty()) {
                        Err(e) => Err(e),
                        Ok(branches) => Ok(
                            BranchListView {
                                branches,
                                truncated: total > (if items.len() <= u32::MAX {
                                    items.len()
                                } else {
                                    u32::MAX as nat
                                }),
                            },
                        ),
                    }
                },
                _ => Err(malformed_at(alias, "refs.nodes"@)),
            },
        },
        _ => Err(malformed_at(alias, "refs"@)),
    }
}

/// One repository that came back: the first failure among, in order, the
/// default branch, the CI state, the open pull requests and the branches.
pub open spec fn state_of(alias: Seq<char>, repository: JsonValue) -> Result<RemoteStateView, RemoteErrorView> {
    match default_branch_of(alias, repository) {
        Err(e) => Err(e),
        Ok(default_branch) => match ci_of(alias, repository) {
            Err(e) => Err(e),
            Ok(ci) => match total_count_of(alias, repository.member("pullRequests"@), "pullRequests"@) {
                Err(e) => Err(e),
                Ok(open_pull_requests) => match branch_list_of(alias, repository) {
                    Err(e) => Err(e),
                    Ok(branches) => Ok(
                        RemoteStateView { default_branch, ci, open_pull_requests, branches },
                    ),
                },
            },
        },
    }
}

/// What one branch node of `refs.nodes` says of a branch: its `name` is the
/// branch's name, word for word, and its `target.committedDate` falls on the
/// branch's day.
pub open spec fn node_says(node: JsonValue, branch: (Seq<char>, nat)) -> bool {
    &&& text_of(node.member("name"@)) == Some(branch.0)
    &&& text_of(member_of(node.member("target"@), "committedDate"@)) matches Some(date)
        && iso8601_day_number(date) == Some(branch.1 as int)
}

/// Reading the nodes `k..` appends one branch per node, each the one that its
/// node says, after what was read before.
proof fn lemma_branches_from_reads_each_node(
    alias: Seq<char>,
    nodes: Seq<JsonValue>,
    k: int,
    acc: Seq<(Seq<char>, nat)>,
)
    requires
        0 <= k <= nodes.len(),
    ensures
        branches_from(alias, nodes, k, acc) matches Ok(bs) ==> {
            &&& bs.len() == acc.len() + nodes.len() - k
            &&& forall|i: int| 0 <= i < acc.len() ==> #[trigger] bs[i] == acc[i]
            &&& forall|j: int|
                k <= j < nodes.len() ==> node_says(nodes[j], #[trigger] bs[acc.len() + j - k])
        },
    decreases nodes.len() - k,
{
    if k < nodes.len() {
        if let Ok(branch) = branch_of(alias, nodes[k], k as nat) {
            lemma_branches_from_reads_each_node(alias, nodes, k + 1, acc.push(branch));
            if let Some(date) = text_of(member_of(nodes[k].member("target"@), "committedDate"@)) {
                lemma_day_numbers_are_natural(date);
            }
            if let Ok(bs) = branches_from(alias, nodes, k, acc) {
                assert(bs[acc.len() as int] == acc.push(branch)[acc.len() as int]);
                assert(node_says(nodes[k], branch));
                assert forall|j: int| k <= j < nodes.len() implies node_says(
                    nodes[j],
                    #[trigger] bs[acc.len() + j - k],
                ) by {
                    if j > k {
                        assert(acc.push(branch).len() + j - (k + 1) == acc.len() + j - k);
                    }
                }
                assert forall|i: int| 0 <= i < acc.len() implies #[trigger] bs[i] == acc[i] by {
                    assert(bs[i] == acc.push(branch)[i]);
                }
            }
        }
    }
}

/// A repository that is read keeps what its response says: the default branch
/// is the text of `defaultBranchRef.name` (none when `defaultBranchRef` is
/// `null`), and the branches are the nodes of `refs.nodes`, one per node, in
/// their order, each with the node's `name` as it stands and the day of its
/// `target.committedDate`.
pub proof fn law_each_branch_is_read_from_its_node(alias: Seq<char>, repository: JsonValue)
    ensures
        state_of(alias, repository) matches Ok(st) ==> {
            &&& st.default_branch == text_of(
                member_of(repository.member("defaultBranchRef"@), "name"@),
            )
            &&& member_of(repository.member("refs"@), "nodes"@) matches Some(nodes)
            &&& nodes.items() matches Some(items)
            &&& st.branches.branches.len() == items.len()
            &&& forall|j: int|
                0 <= j < items.len() ==> node_says(items[j], #[trigger] st.branches.branches[j])
        },
{
    if let Ok(st) = state_of(alias, repository) {
        let refs = repository.member("refs"@)->Some_0;
        let nodes = refs.member("nodes"@)->Some_0;
        let items = nodes.items()->Some_0;
        lemma_branches_from_reads_each_node(alias, items, 0, Seq::empty());
        let bs = st.branches.branches;
        assert forall|j: int| 0 <= j < items.len() implies node_says(
            items[j],
            #[trigger] st.branches.branches[j],
        ) by {
            assert(bs[Seq::<(Seq<char>, nat)>::empty().len() + j - 0] == bs[j]);
        }
    }
}

/// No branch named as the default branch counts as stale.
proof fn lemma_default_named_branches_are_never_stale(
    branches: Seq<(Seq<char>, nat)>,
    default_branch: Seq<char>,
    today: nat,
    stale_days: u32,
)
    requires
        forall|i: int| 0 <= i < branches.len() ==> (#[trigger] branches[i]).0 == default_branch,
    ensures
        stale_among(branches, Some(default_branch), today, stale_days) == 0,
    decreases branches.len(),
{
    if branches.len() > 0 {
        let rest = branches.drop_last();
        assert forall|i: int| 0 <= i < rest.len() implies (#[trigger] rest[i]).0 == default_branch by {
            assert(rest[i] == branches[i]);
        }
        lemma_default_named_branches_are_never_stale(rest, default_branch, today, stale_days);
        assert(branches.last() == branches[branches.len() - 1]);
    }
}

/// A repository whose branches are all named as its default branch has no
/// stale branch, however old they are: the default branch is never counted.
/// (The list still shows as cut short when it was.)
pub proof fn law_the_default_branch_is_never_counted_stale(
    alias: Seq<char>,
    repository: JsonValue,
    today: nat,
    stale_days: u32,
)
    requires
        state_of(alias, repository) is Ok,
        member_of(repository.member("refs"@), "nodes"@) matches Some(nodes) && nodes.items() matches Some(items)
            && forall|j: int|
            0 <= j < items.len() ==> text_of((#[trigger] items[j]).member("name"@)) == text_of(
                member_of(repository.member("defaultBranchRef"@), "name"@),
            ),
    ensures
        state_of(alias, repository) matches Ok(st) && stale_count_of(
            st.branches,
            st.default_branch,
            today,
            stale_days,
        ) == (if st.branches.truncated {
            StaleCount::Truncated
        } else {
            StaleCount::Known(0)
        }),
{
    law_each_branch_is_read_from_its_node(alias, repository);
    let st = state_of(alias, repository)->Ok_0;
    let items = member_of(repository.member("refs"@), "nodes"@)->Some_0.items()->Some_0;
    let bs = st.branches.branches;
    if items.len() > 0 {
        assert(node_says(items[0], bs[0]));
        assert(st.default_branch is Some);
    }
    if let Some(d) = st.default_branch {
        assert forall|i: int| 0 <= i < bs.len() implies (#[trigger] bs[i]).0 == d by {
            assert(node_says(items[i], bs[i]));
        }
        lemma_default_named_branches_are_never_stale(bs, d, today, stale_days);
    } else {
        assert(bs.len() == 0);
        assert(stale_among(bs, None, today, stale_days) == 0);
    }
}

/// The answer for the `index`-th repository, given the `data` object.
pub open spec fn alias_result(repositories: JsonValue, json: JsonValue, index: nat) -> Result<RemoteStateView, RemoteErrorView> {
    let alias = alias_text(index);
    match repositories.member(alias) {
        None => Err(RemoteErrorView::Malformed(alias)),
        Some(value) => if value is Null {
            Err(alias_error(json, alias))
        } else if !(value is Object) {
            Err(RemoteErrorView::Malformed(alias))
        } else {
            state_of(alias, value)
        },
    }
}

/// The answer for the `index`-th of the repositories asked for.
pub open spec fn response_result(json: JsonValue, index: nat) -> Result<RemoteStateView, RemoteErrorView> {
    match json.member("data"@) {
        Some(data) if data is Object => alias_result(data, json, index),
        _ => Err(request_error(json)),
    }
}

/// The meaning of one answer.
pub open spec fn result_view(result: Result<RemoteState, RemoteError>) -> Result<RemoteStateView, RemoteErrorView> {
    match result {
        Ok(state) => Ok(state@),
        Err(error) => Err(error@),
    }
}

/// Reads the response: one answer per slug, **as many and in the same order**.
///
/// A repository that failed is not dropped: its [`RemoteError`] stays in its
/// place, and the table shows `?`. Without `data` (the form
/// `{"message":"Bad credentials"}`) the whole request failed, and every answer is
/// [`RemoteError::Rejected`].
pub fn parse_response(json: &JsonValue, slugs: &[GithubSlug]) -> (answers: Vec<Result<RemoteState, RemoteError>>)
    ensures
        answers@.len() == slugs@.len(),
        forall|i: int| 0 <= i < slugs@.len() ==> #[trigger] result_view(answers@[i]) == response_result(*json, i as nat),
{
    let mut answers: Vec<Result<RemoteState, RemoteError>> = Vec::new();
    let data = match json.get("data") {
        Some(value) if value.as_object().is_some() => value,
        _ => {
            let mut i: usize = 0;
            while i < slugs.len()
                invariant
                    i <= slugs@.len(),
                    answers@.len() == i,
                    match json.member("data"@) {
                        Some(data) if data is Object => false,
                        _ => true,
                    },
                    forall|k: int| 0 <= k < i ==> #[trigger] result_view(answers@[k]) == response_result(*json, k as nat),
                decreases slugs@.len() - i,
            {
                answers.push(Err(rejected_all(json)));
                i = i + 1;
            }
            return answers;
        },
    };
    let mut i: usize = 0;
    while i < slugs.len()
        invariant
            i <= slugs@.len(),
            answers@.len() == i,
            json.member("data"@) == Some(*data),
            data is Object,
            forall|k: int| 0 <= k < i ==> #[trigger] result_view(answers@[k]) == response_result(*json, k as nat),
        decreases slugs@.len() - i,
    {
        answers.push(read_alias(data, json, i));
        i = i + 1;
    }
    answers
}

/// The error of every repository, when the whole request failed.
fn rejected_all(json: &JsonValue) -> (error: RemoteError)
    ensures
        error@ == request_error(*json),
{
    let message = match json.get("message") {
        Some(value) => value.as_str(),
        None => None,
    };
    let message = match message {
        Some(text) => Some(text),
        None => first_error_message_of(json),
    };
    match message {
        Some(text) => RemoteError::Rejected(String::from_str(text)),
        None => RemoteError::Malformed(String::from_str("data")),
    }
}

/// `errors[0].message`.
fn first_error_message_of(json: &JsonValue) -> (message: Option<&str>)
    ensures
        message matches Some(m) ==> first_error_message(*json) == Some(m@),
        message is None ==> first_error_message(*json) is None,
{
    let errors = match json.get("errors") {
        Some(errors) => errors,
        None => return None,
    };
    let items = match errors.as_array() {
        Some(items) => items,
        None => return None,
    };
    if items.len() == 0 {
        return None;
    }
    match items[0].get("message") {
        Some(value) => value.as_str(),
        None => None,
    }
}

/// Reads the answer for one alias.
fn read_alias(repositories: &JsonValue, json: &JsonValue, index: usize) -> (answer: Result<RemoteState, RemoteError>)
    requires
        repositories is Object,
    ensures
        result_view(answer) == alias_result(*repositories, *json, index as nat),
{
    let alias = alias_of(index);
    let value = match repositories.get(alias.as_str()) {
        Some(value) => value,
        None => return Err(RemoteError::Malformed(alias)),
    };
    if value.is_null() {
        return Err(error_for(json, &alias));
    }
    if value.as_object().is_none() {
        return Err(RemoteError::Malformed(alias));
    }
    read_state(&alias, value)
}

/// `rN`.
fn alias_of(index: usize) -> (alias: String)
    ensures
        alias@ == alias_text(index as nat),
{
    let mut alias = String::from_str("r");
    let number = decimal_string(index as u64);
    alias.append(number.as_str());
    alias
}

/// When `data.rN` is `null`, finds that repository's failure in `errors`.
fn error_for(json: &JsonValue, alias: &String) -> (error: RemoteError)
    ensures
        error@ == alias_error(*json, alias@),
{
    let ghost entries = match member_of(Some(*json), "errors"@) {
        Some(errors) => match errors.items() {
            Some(items) => items,
            None => Seq::empty(),
        },
        None => Seq::empty(),
    };
    let empty: Vec<JsonValue> = Vec::new();
    let list: &[JsonValue] = match json.get("errors") {
        Some(errors) => match errors.as_array() {
            Some(items) => items,
            None => empty.as_slice(),
        },
        None => empty.as_slice(),
    };
    assert(list@ == entries);
    let mut k: usize = 0;
    while k < list.len()
        invariant
            k <= list@.len(),
            list@ == entries,
            first_pointing(entries, alias@, 0) == first_pointing(entries, alias@, k as int),
            alias_error(*json, alias@) == match first_pointing(entries, alias@, 0) {
                Some(entry) => classify(entry),
                None => RemoteErrorView::Malformed(alias@),
            },
        decreases list@.len() - k,
    {
        if points_at_exec(&list[k], alias) {
            assert(first_pointing(entries, alias@, k as int) == Some(entries[k as int]));
            return classify_exec(&list[k]);
        }
        k = k + 1;
    }
    // `null` with no reason: the response does not hold together.
    RemoteError::Malformed(alias.clone())
}

/// Whether `errors[].path` of `entry` is exactly `[alias]`.
fn points_at_exec(entry: &JsonValue, alias: &String) -> (points: bool)
    ensures
        points == points_at(*entry, alias@),
{
    let path = match entry.get("path") {
        Some(path) => path,
        None => return false,
    };
    let items = match path.as_array() {
        Some(items) => items,
        None => return false,
    };
    if items.len() != 1 {
        return false;
    }
    match items[0].as_str() {
        Some(text) => same_chars(&chars_of(text), &chars_of(alias.as_str())),
        None => false,
    }
}

/// One entry of `errors[]`, as an error.
fn classify_exec(entry: &JsonValue) -> (error: RemoteError)
    ensures
        error@ == classify(*entry),
{
    let kind = match entry.get("type") {
        Some(value) => value.as_str(),
        None => None,
    };
    if let Some(kind) = kind {
        if same_chars(&chars_of(kind), &chars_of("NOT_FOUND")) {
            return RemoteError::NotFound;
        }
    }
    let message = match entry.get("message") {
        Some(value) => value.as_str(),
        None => None,
    };
    match message {
        Some(text) => RemoteError::Rejected(String::from_str(text)),
        None => RemoteError::Malformed(String::from_str("errors[].message")),
    }
}

/// A `Malformed` error at `<alias>.<path>`.
fn malformed(alias: &String, path: &str) -> (error: RemoteError)
    ensures
        error@ == malformed_at(alias@, path@),
{
    let mut text = alias.clone();
    text.append(".");
    text.append(path);
    RemoteError::Malformed(text)
}

/// Reads one repository that came back.
fn read_state(alias: &String, repository: &JsonValue) -> (answer: Result<RemoteState, RemoteError>)
    ensures
        result_view(answer) == state_of(alias@, *repository),
{
    let default_branch = match read_default_branch(alias, repository) {
        Ok(found) => found,
        Err(error) => return Err(error),
    };
    let ci = match read_ci(alias, repository) {
        Ok(found) => found,
        Err(error) => return Err(error),
    };
    let open_pull_requests = match read_total_count(alias, repository.get("pullRequests"), "pullRequests") {
        Ok(found) => found,
        Err(error) => return Err(error),
    };
    let branches = match read_branches(alias, repository) {
        Ok(found) => found,
        Err(error) => return Err(error),
    };
    Ok(RemoteState::new(default_branch, ci, open_pull_requests, branches))
}

/// `defaultBranchRef`. `null` is an empty repository, not a failure to read.
fn branch_ref<'a>(alias: &String, repository: &'a JsonValue) -> (reference: Result<Option<&'a JsonValue>, RemoteError>)
    ensures
        reference matches Ok(Some(r)) ==> branch_ref_of(alias@, *repository) == Ok::<Option<JsonValue>, RemoteErrorView>(Some(*r)),
        reference matches Ok(None) ==> branch_ref_of(alias@, *repository) == Ok::<Option<JsonValue>, RemoteErrorView>(None),
        reference matches Err(e) ==> branch_ref_of(alias@, *repository) == Err::<Option<JsonValue>, RemoteErrorView>(e@),
{
    let value = match repository.get("defaultBranchRef") {
        Some(value) => value,
        None => return Err(malformed(alias, "defaultBranchRef")),
    };
    if value.is_null() {
        return Ok(None);
    }
    if value.as_object().is_none() {
        return Err(malformed(alias, "defaultBranchRef"));
    }
    Ok(Some(value))
}

/// The default branch's name.
fn read_default_branch(alias: &String, repository: &JsonValue) -> (name: Result<Option<String>, RemoteError>)
    ensures
        name matches Ok(Some(n)) ==> default_branch_of(alias@, *repository) == Ok::<Option<Seq<char>>, RemoteErrorView>(Some(n@)),
        name matches Ok(None) ==> default_branch_of(alias@, *repository) == Ok::<Option<Seq<char>>, RemoteErrorView>(None),
        name matches Err(e) ==> default_branch_of(alias@, *repository) == Err::<Option<Seq<char>>, RemoteErrorView>(e@),
{
    let reference = match branch_ref(alias, repository) {
        Ok(Some(reference)) => reference,
        Ok(None) => return Ok(None),
        Err(error) => return Err(error),
    };
    let name = match reference.get("name") {
        Some(value) => value.as_str(),
        None => None,
    };
    match name {
        Some(text) => Ok(Some(String::from_str(text))),
        None => Err(malformed(alias, "defaultBranchRef.name")),
    }
}

/// The CI state of the default branch's head commit.
fn read_ci(alias: &String, repository: &JsonValue) -> (ci: Result<CiState, RemoteError>)
    ensures
        ci matches Ok(c) ==> ci_of(alias@, *repository) == Ok::<CiState, RemoteErrorView>(c),
        ci matches Err(e) ==> ci_of(alias@, *repository) == Err::<CiState, RemoteErrorView>(e@),
{
    let reference = match branch_ref(alias, repository) {
        Ok(Some(reference)) => reference,
        Ok(None) => return Ok(CiState::Absent),
        Err(error) => return Err(error),
    };
    let target = match reference.get("target") {
        Some(target) if target.as_object().is_some() => target,
        _ => return Err(malformed(alias, "defaultBranchRef.target")),
    };
    let rollup = match target.get("statusCheckRollup") {
        Some(rollup) => rollup,
        None => return Err(malformed(alias, "defaultBranchRef.target.statusCheckRollup")),
    };
    if rollup.is_null() {
        return Ok(CiState::Absent);
    }
    let state = match rollup.get("state") {
        Some(value) => value.as_str(),
        None => None,
    };
    let state = match state {
        Some(text) => text,
        None => return Err(malformed(alias, "defaultBranchRef.target.statusCheckRollup.state")),
    };
    match CiState::parse(state) {
        Some(ci) => Ok(ci),
        None => Err(malformed(alias, "defaultBranchRef.target.statusCheckRollup.state")),
    }
}

/// `<field>.totalCount` as a `u32`. A count that does not fit is refused, not cut.
fn read_total_count(alias: &String, container: Option<&JsonValue>, field: &str) -> (count: Result<u32, RemoteError>)
    ensures
        count matches Ok(c) ==> total_count_of(
            alias@,
            match container {
                Some(v) => Some(*v),
                None => None,
            },
            field@,
        ) == Ok::<u32, RemoteErrorView>(c),
        count matches Err(e) ==> total_count_of(
            alias@,
            match container {
                Some(v) => Some(*v),
                None => None,
            },
            field@,
        ) == Err::<u32, RemoteErrorView>(e@),
{
    let mut path = String::from_str(field);
    path.append(".totalCount");
    let count = match container {
        Some(value) => match value.get("totalCount") {
            Some(found) => match found.as_number() {
                Some(number) => number.as_u64(),
                None => None,
            },
            None => None,
        },
        None => None,
    };
    match count {
        Some(n) => {
            if n <= u32::MAX as u64 {
                Ok(n as u32)
            } else {
                Err(malformed(alias, path.as_str()))
            }
        },
        None => Err(malformed(alias, path.as_str())),
    }
}

/// The branches. Cut short when `refs.totalCount` is more than the nodes fetched.
fn read_branches(alias: &String, repository: &JsonValue) -> (list: Result<BranchList, RemoteError>)
    ensures
        list matches Ok(l) ==> branch_list_of(alias@, *repository) == Ok::<BranchListView, RemoteErrorView>(l@),
        list matches Err(e) ==> branch_list_of(alias@, *repository) == Err::<BranchListView, RemoteErrorView>(e@),
{
    let refs = match repository.get("refs") {
        Some(refs) if refs.as_object().is_some() => refs,
        _ => return Err(malformed(alias, "refs")),
    };
    let total = match read_total_count(alias, Some(refs), "refs") {
        Ok(total) => total,
        Err(error) => return Err(error),
    };
    let nodes_value = match refs.get("nodes") {
        Some(nodes) => nodes,
        None => return Err(malformed(alias, "refs.nodes")),
    };
    let nodes = match nodes_value.as_array() {
        Some(items) => items,
        None => return Err(malformed(alias, "refs.nodes")),
    };
    let ghost items = nodes@;
    let mut branches: Vec<RemoteBranch> = Vec::new();
    assert(branches@.map_values(|b: RemoteBranch| b@) =~= Seq::<(Seq<char>, nat)>::empty());
    let mut k: usize = 0;
    while k < nodes.len()
        invariant
            k <= nodes@.len(),
            items == nodes@,
            repository.member("refs"@) == Some(*refs),
            refs is Object,
            total_count_of(alias@, Some(*refs), "refs"@) == Ok::<u32, RemoteErrorView>(total),
            refs.member("nodes"@) == Some(*nodes_value),
            nodes_value is Array,
            nodes_value.items() == Some(items),
            branches_from(alias@, items, 0, Seq::empty()) == branches_from(
                alias@,
                items,
                k as int,
                branches@.map_values(|b: RemoteBranch| b@),
            ),
        decreases nodes@.len() - k,
    {
        let branch = match read_branch(alias, &nodes[k], k) {
            Ok(branch) => branch,
            Err(error) => {
                assert(branches_from(alias@, items, k as int, branches@.map_values(|b: RemoteBranch| b@))
                    == Err::<Seq<(Seq<char>, nat)>, RemoteErrorView>(error@));
                return Err(error);
            },
        };
        let ghost before = branches@;
        branches.push(branch);
        assert(branches@.map_values(|b: RemoteBranch| b@) =~= before.map_values(|b: RemoteBranch| b@).push(branch@));
        k = k + 1;
    }
    let taken: u32 = if nodes.len() <= u32::MAX as usize {
        nodes.len() as u32
    } else {
        u32::MAX
    };
    Ok(BranchList::new(branches, total > taken))
}

/// One branch.
fn read_branch(alias: &String, node: &JsonValue, index: usize) -> (branch: Result<RemoteBranch, RemoteError>)
    ensures
        branch matches Ok(b) ==> branch_of(alias@, *node, index as nat) == Ok::<(Seq<char>, nat), RemoteErrorView>(b@),
        branch matches Err(e) ==> branch_of(alias@, *node, index as nat) == Err::<(Seq<char>, nat), RemoteErrorView>(e@),
{
    let name = match node.get("name") {
        Some(value) => value.as_str(),
        None => None,
    };
    let name = match name {
        Some(text) => text,
        None => return Err(malformed(alias, node_path(index, "].name").as_str())),
    };
    let date = match node.get("target") {
        Some(target) => match target.get("committedDate") {
            Some(value) => value.as_str(),
            None => None,
        },
        None => None,
    };
    let committed = match date {
        Some(text) => Day::parse_iso8601(text),
        None => None,
    };
    match committed {
        Some(day) => Ok(RemoteBranch::new(String::from_str(name), day)),
        None => Err(malformed(alias, node_path(index, "].target.committedDate").as_str())),
    }
}

/// `refs.nodes[<index><rest>`.
fn node_path(index: usize, rest: &str) -> (path: String)
    ensures
        path@ == "refs.nodes["@ + decimal_text(index as nat) + rest@,
{
    let mut path = String::from_str("refs.nodes[");
    let number = decimal_string(index as u64);
    path.append(number.as_str());
    path.append(rest);
    path
}

} // verus!
