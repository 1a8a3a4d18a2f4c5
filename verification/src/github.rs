//! Asking GitHub, one chunk per request: the chunks, and what a request's
//! output comes to.
//!
//! The exit code of `gh api graphql` does not tell: it is 1 as soon as
//! `errors` holds one entry, while stdout's `data` holds the repositories that
//! succeeded. Dropping the output on exit code 1 would lose them all.

use vstd::prelude::*;
use vstd::utf8::{decode_utf8, valid_utf8};

use crate::chunk_outcome::{ChunkOutcome, ChunkOutcomeView};
use crate::github_slug::GithubSlug;
use crate::graphql::{REPOS_PER_QUERY, parse_response, response_result};
use crate::json_error::json_message;
use crate::json_parser::{json_text, parse_json};
use crate::json_value::JsonValue;
use crate::reason::{first_line, lossy_text, reason_of};
use crate::target::{Target, target_views};
use crate::text::utf8_text;

verus! {

/// The reason given when `gh`'s output is not UTF-8.
pub const NOT_UTF8: &'static str = "gh output is not UTF-8";

/// The `k`-th chunk of `targets`: `REPOS_PER_QUERY` of them, the last one shorter.
pub open spec fn chunk_of<T>(targets: Seq<T>, k: int) -> Seq<T> {
    let start = k * REPOS_PER_QUERY;
    let end = if start + REPOS_PER_QUERY <= targets.len() {
        start + REPOS_PER_QUERY
    } else {
        targets.len() as int
    };
    targets.subrange(start, end)
}

/// How many chunks `n` targets make.
pub open spec fn chunk_count(n: nat) -> nat {
    (n + REPOS_PER_QUERY - 1) as nat / REPOS_PER_QUERY as nat
}

/// Splits the repositories to ask about into chunks of [`REPOS_PER_QUERY`].
///
/// Packing more into one request makes it slower (42 repositories in one
/// request took 8.87 s, 60 gave HTTP 502); three at a time in parallel took
/// 1.4 s for 60. No targets, no chunk: `gh` is not started.
pub fn chunk(targets: &[Target]) -> (chunks: Vec<Vec<Target>>)
    ensures
        chunks@.len() == chunk_count(targets@.len()),
        forall|k: int|
            0 <= k < chunks@.len() ==> #[trigger] target_views(chunks@[k]@) == chunk_of(target_views(targets@), k),
{
    let ghost all = target_views(targets@);
    let mut chunks: Vec<Vec<Target>> = Vec::new();
    let mut start: usize = 0;
    while start < targets.len()
        invariant
            all == target_views(targets@),
            start <= targets@.len(),
            start < targets@.len() ==> start == chunks@.len() * REPOS_PER_QUERY,
            chunks@.len() == chunk_count(start as nat),
            forall|k: int|
                0 <= k < chunks@.len() ==> #[trigger] target_views(chunks@[k]@) == chunk_of(all, k),
        decreases targets@.len() - start,
    {
        let end: usize = if targets.len() - start >= REPOS_PER_QUERY {
            start + REPOS_PER_QUERY
        } else {
            targets.len()
        };
        let mut part: Vec<Target> = Vec::new();
        let mut i: usize = start;
        while i < end
            invariant
                start <= i <= end <= targets@.len(),
                all == target_views(targets@),
                target_views(part@) == all.subrange(start as int, i as int),
            decreases end - i,
        {
            let ghost before = part@;
            part.push(targets[i].clone());
            assert(target_views(part@) =~= target_views(before).push(all[i as int]));
            assert(all.subrange(start as int, i + 1) =~= all.subrange(start as int, i as int).push(all[i as int]));
            i = i + 1;
        }
        proof {
            assert(target_views(part@) == chunk_of(all, chunks@.len() as int));
        }
        chunks.push(part);
        start = end;
    }
    chunks
}

/// The first `m` chunks of `targets`, one after the other.
pub open spec fn chunks_joined<T>(targets: Seq<T>, m: nat) -> Seq<T>
    decreases m,
{
    if m == 0 {
        Seq::empty()
    } else {
        chunks_joined(targets, (m - 1) as nat) + chunk_of(targets, m - 1)
    }
}

proof fn lemma_chunks_joined<T>(targets: Seq<T>, m: nat)
    requires
        m * REPOS_PER_QUERY <= targets.len() + REPOS_PER_QUERY - 1,
    ensures
        chunks_joined(targets, m) == targets.take(
            if m * REPOS_PER_QUERY <= targets.len() {
                (m * REPOS_PER_QUERY) as int
            } else {
                targets.len() as int
            },
        ),
    decreases m,
{
    if m > 0 {
        lemma_chunks_joined(targets, (m - 1) as nat);
        let start = (m - 1) * REPOS_PER_QUERY;
        assert(start <= targets.len());
        assert(targets.take(start) + chunk_of(targets, m - 1) =~= targets.take(
            if m * REPOS_PER_QUERY <= targets.len() {
                (m * REPOS_PER_QUERY) as int
            } else {
                targets.len() as int
            },
        ));
    } else {
        assert(targets.take(0) =~= Seq::<T>::empty());
    }
}

/// The chunks, one after the other, are the targets in their order: every
/// repository asked about is in exactly one chunk, and none is added.
pub proof fn law_the_chunks_hold_every_target_in_order<T>(targets: Seq<T>)
    ensures
        chunks_joined(targets, chunk_count(targets.len())) == targets,
{
    let m = chunk_count(targets.len());
    assert(m * REPOS_PER_QUERY <= targets.len() + REPOS_PER_QUERY - 1);
    assert(m * REPOS_PER_QUERY >= targets.len());
    lemma_chunks_joined(targets, m);
    assert(targets.take(targets.len() as int) =~= targets);
}

/// What one request's output comes to: the answer per repository when
/// stdout is JSON; else the chunk failed, and the reason is the first line
/// `gh` wrote on stderr (the JSON error when it wrote none).
pub fn read_answer(stdout: Vec<u8>, stderr: &[u8], slugs: &[GithubSlug]) -> (outcome: ChunkOutcome)
    ensures
        !valid_utf8(stdout@) ==> outcome@ == ChunkOutcomeView::Failed(NOT_UTF8@),
        valid_utf8(stdout@) ==> match json_text(decode_utf8(stdout@)) {
            Ok(model) => outcome@ matches ChunkOutcomeView::Answered(answers) && exists|json: JsonValue|
                json.model() == model && answers == Seq::new(
                    slugs@.len(),
                    |i: int| response_result(json, i as nat),
                ),
            Err((offset, kind)) => outcome@ matches ChunkOutcomeView::Failed(reason) && reason
                == reason_of(lossy_text(stderr@), json_message(offset, kind)),
        },
{
    let text = match utf8_text(stdout) {
        Some(text) => text,
        None => return ChunkOutcome::Failed(String::from_str(NOT_UTF8)),
    };
    match parse_json(text.as_str()) {
        Ok(json) => {
            let answers = parse_response(&json, slugs);
            let ghost views = Seq::new(slugs@.len(), |i: int| response_result(json, i as nat));
            let outcome = ChunkOutcome::Answered(answers);
            assert(outcome@ matches ChunkOutcomeView::Answered(found) && found =~= views);
            outcome
        },
        Err(error) => {
            let fallback = error.to_string();
            ChunkOutcome::Failed(first_line(stderr, fallback.as_str()))
        },
    }
}

} // verus!
