//! The state of a local repository, read from `git status --porcelain=v2 --branch`.

use vstd::prelude::*;

use crate::divergence::Divergence;
use crate::head::{Head, HeadView};
use crate::porcelain_error::PorcelainError;
use crate::porcelain_error_kind::PorcelainErrorKind;
use crate::porcelain_line::{LineMeaning, PorcelainLine, line_meaning};
use crate::text::{
    chars_of, find_char, first_index, is_first_index, lemma_first_index, lemma_no_first_index, slice_chars,
};

verus! {

/// The state of a local repository.
///
/// The fields are private; values come only from [`parse_porcelain`]. The git
/// output is not kept, only what was read from it.
#[derive(Debug, Clone, PartialEq, Eq)]
pub struct LocalState {
    head: Head,
    upstream: Option<String>,
    divergence: Divergence,
    dirty: u32,
}

/// The meaning of a [`LocalState`].
pub struct LocalStateView {
    pub head: HeadView,
    pub upstream: Option<Seq<char>>,
    pub ahead: u32,
    pub behind: u32,
    pub dirty: u32,
}

impl View for LocalState {
    type V = LocalStateView;

    closed spec fn view(&self) -> LocalStateView {
        LocalStateView {
            head: self.head@,
            upstream: match self.upstream {
                Some(name) => Some(name@),
                None => None,
            },
            ahead: self.divergence@.0,
            behind: self.divergence@.1,
            dirty: self.dirty,
        }
    }
}

/// What the lines read so far have said.
pub struct Reading {
    pub head: Option<HeadView>,
    pub upstream: Option<Seq<char>>,
    pub ahead: u32,
    pub behind: u32,
    pub dirty: u32,
}

/// Before any line: no head, no upstream, 0 and 0, nothing dirty.
pub open spec fn initial_reading() -> Reading {
    Reading { head: None, upstream: None, ahead: 0, behind: 0, dirty: 0 }
}

/// What a line changes. A later header wins over an earlier one; the dirty
/// count stops at `u32::MAX`.
pub open spec fn apply_line(reading: Reading, meaning: LineMeaning) -> Reading {
    match meaning {
        LineMeaning::Head(head) => Reading { head: Some(head), ..reading },
        LineMeaning::Upstream(name) => Reading { upstream: Some(name), ..reading },
        LineMeaning::Divergence(a, b) => Reading { ahead: a, behind: b, ..reading },
        LineMeaning::Dirty => Reading {
            dirty: if reading.dirty < u32::MAX {
                (reading.dirty + 1) as u32
            } else {
                u32::MAX
            },
            ..reading
        },
        LineMeaning::Ignored => reading,
    }
}

/// A line without the `\r` of a `\r\n` ending.
pub open spec fn without_cr(line: Seq<char>) -> Seq<char> {
    if line.len() > 0 && line.last() == '\r' {
        line.drop_last()
    } else {
        line
    }
}

/// The line that starts at `at`, as `str::lines` gives it: the text up to `\n`
/// (without `\r\n` or `\n`), or the rest of the input when no `\n` follows;
/// and where the next line starts.
pub open spec fn line_at(src: Seq<char>, at: int) -> (Seq<char>, int) {
    let rest = src.subrange(at, src.len() as int);
    match first_index(rest, '\n') {
        Some(i) => (without_cr(rest.take(i)), at + i + 1),
        None => (rest, src.len() as int),
    }
}

/// A line number as reported: from 1, stopping at `u32::MAX`.
pub open spec fn line_number(n: nat) -> u32 {
    if n <= u32::MAX {
        n as u32
    } else {
        u32::MAX
    }
}

/// Reads the lines from `at` on, after `number` lines gave `reading`: the
/// final reading, or the first line that cannot be read, with its number.
pub open spec fn read_lines(src: Seq<char>, at: int, number: nat, reading: Reading) -> Result<Reading, (PorcelainErrorKind, u32)>
    decreases src.len() - at,
{
    if at < 0 || at >= src.len() {
        Ok(reading)
    } else {
        let (line, next) = line_at(src, at);
        proof {
            let rest = src.subrange(at, src.len() as int);
            if first_index(rest, '\n') is Some {
                let i = choose|i: int| crate::text::is_first_index(rest, '\n', i);
                assert(crate::text::is_first_index(rest, '\n', i));
            }
        }
        match line_meaning(line) {
            Err(kind) => Err((kind, line_number(number + 1))),
            Ok(meaning) => read_lines(src, next, number + 1, apply_line(reading, meaning)),
        }
    }
}

/// What the whole output says: the state, or the kind of failure and its line
/// (0 when no line is at fault: there was no `# branch.head`).
pub open spec fn porcelain_state(src: Seq<char>) -> Result<LocalStateView, (PorcelainErrorKind, u32)> {
    match read_lines(src, 0, 0, initial_reading()) {
        Err(e) => Err(e),
        Ok(reading) => match reading.head {
            None => Err((PorcelainErrorKind::MissingHead, 0u32)),
            Some(head) => Ok(
                LocalStateView {
                    head,
                    upstream: reading.upstream,
                    ahead: reading.ahead,
                    behind: reading.behind,
                    dirty: reading.dirty,
                },
            ),
        },
    }
}

proof fn lemma_read_with_ending(src: Seq<char>, ending: Seq<char>, at: int, number: nat, reading: Reading)
    requires
        src.last() != '\n',
        src.last() != '\r',
        ending == seq!['\n'] || ending == seq!['\r', '\n'],
        0 <= at < src.len(),
    ensures
        read_lines(src + ending, at, number, reading) == read_lines(src, at, number, reading),
    decreases src.len() - at,
{
    let t = src + ending;
    let rest = src.subrange(at, src.len() as int);
    let rest_t = t.subrange(at, t.len() as int);
    assert(rest_t =~= rest + ending);
    match first_index(rest, '\n') {
        Some(i) => {
            assert(is_first_index(rest, '\n', i));
            assert(is_first_index(rest_t, '\n', i));
            lemma_first_index(rest_t, '\n', i);
            assert(rest_t.take(i) =~= rest.take(i));
            assert(src[at + i] == '\n');
            assert(at + i + 1 < src.len());
            assert(line_at(t, at) == line_at(src, at));
            let line = without_cr(rest.take(i));
            match line_meaning(line) {
                Ok(meaning) => {
                    lemma_read_with_ending(src, ending, at + i + 1, number + 1, apply_line(reading, meaning));
                },
                Err(_) => {},
            }
        },
        None => {
            lemma_no_first_index(rest, '\n');
            let j = rest.len() + ending.len() - 1;
            assert forall|k: int| 0 <= k < j implies rest_t[k] != '\n' by {
                if k < rest.len() {
                    assert(rest_t[k] == rest[k]);
                }
            }
            assert(is_first_index(rest_t, '\n', j));
            lemma_first_index(rest_t, '\n', j);
            assert(rest.last() == src.last());
            assert(without_cr(rest_t.take(j)) =~= rest);
            assert(line_at(t, at) == (rest, t.len() as int));
            assert(line_at(src, at) == (rest, src.len() as int));
            match line_meaning(rest) {
                Ok(meaning) => {
                    let after = apply_line(reading, meaning);
                    assert(read_lines(t, t.len() as int, number + 1, after) == Ok::<Reading, (PorcelainErrorKind, u32)>(after));
                    assert(read_lines(src, src.len() as int, number + 1, after) == Ok::<Reading, (PorcelainErrorKind, u32)>(after));
                },
                Err(_) => {},
            }
        },
    }
}

/// A final line break is optional, and may be `\r\n`: the output reads the
/// same with one as without.
///
/// Stated for output that does not already end in `\n` or `\r`: after a
/// line break, another one adds an empty line, which is not porcelain; and a
/// lone `\r` at the very end is part of the line (as `str::lines` reads it).
pub proof fn law_a_final_line_break_is_optional(src: Seq<char>, crlf: bool)
    requires
        src.len() > 0,
        src.last() != '\n',
        src.last() != '\r',
    ensures
        porcelain_state(src + (if crlf {
            seq!['\r', '\n']
        } else {
            seq!['\n']
        })) == porcelain_state(src),
{
    let ending = if crlf {
        seq!['\r', '\n']
    } else {
        seq!['\n']
    };
    lemma_read_with_ending(src, ending, 0, 0, initial_reading());
}

/// `lines`, each followed by `end`.
pub open spec fn lines_ending_with(lines: Seq<Seq<char>>, end: Seq<char>) -> Seq<char>
    decreases lines.len(),
{
    if lines.len() == 0 {
        Seq::empty()
    } else {
        lines[0] + end + lines_ending_with(lines.drop_first(), end)
    }
}

proof fn lemma_read_suffix(x: Seq<char>, y: Seq<char>, at: int, number: nat, reading: Reading)
    requires
        0 <= at,
    ensures
        read_lines(x + y, x.len() + at, number, reading) == read_lines(y, at, number, reading),
    decreases y.len() - at,
{
    let all = x + y;
    if at < y.len() {
        let rest = y.subrange(at, y.len() as int);
        assert(all.subrange(x.len() + at, all.len() as int) =~= rest);
        match first_index(rest, '\n') {
            Some(i) => {
                assert(is_first_index(rest, '\n', i));
                let line = without_cr(rest.take(i));
                match line_meaning(line) {
                    Ok(meaning) => lemma_read_suffix(x, y, at + i + 1, number + 1, apply_line(reading, meaning)),
                    Err(_) => {},
                }
            },
            None => {
                match line_meaning(rest) {
                    Ok(meaning) => {
                        let after = apply_line(reading, meaning);
                        assert(read_lines(all, all.len() as int, number + 1, after) == Ok::<Reading, (PorcelainErrorKind, u32)>(after));
                        assert(read_lines(y, y.len() as int, number + 1, after) == Ok::<Reading, (PorcelainErrorKind, u32)>(after));
                    },
                    Err(_) => {},
                }
            },
        }
    }
}

proof fn lemma_read_crlf_lines(lines: Seq<Seq<char>>, number: nat, reading: Reading)
    requires
        forall|k: int, i: int| 0 <= k < lines.len() && 0 <= i < lines[k].len() ==> #[trigger] lines[k][i] != '\n',
        forall|k: int| 0 <= k < lines.len() && lines[k].len() > 0 ==> #[trigger] lines[k].last() != '\r',
    ensures
        read_lines(lines_ending_with(lines, seq!['\r', '\n']), 0, number, reading) == read_lines(
            lines_ending_with(lines, seq!['\n']),
            0,
            number,
            reading,
        ),
    decreases lines.len(),
{
    if lines.len() > 0 {
        let first = lines[0];
        let rest = lines.drop_first();
        assert forall|k: int, i: int| 0 <= k < rest.len() && 0 <= i < rest[k].len() implies #[trigger] rest[k][i] != '\n' by {
            assert(rest[k] == lines[k + 1]);
        }
        assert forall|k: int| 0 <= k < rest.len() && rest[k].len() > 0 implies #[trigger] rest[k].last() != '\r' by {
            assert(rest[k] == lines[k + 1]);
        }
        let crlf = lines_ending_with(lines, seq!['\r', '\n']);
        let lf = lines_ending_with(lines, seq!['\n']);
        let crlf_rest = lines_ending_with(rest, seq!['\r', '\n']);
        let lf_rest = lines_ending_with(rest, seq!['\n']);
        let crlf_head = first + seq!['\r', '\n'];
        let lf_head = first + seq!['\n'];
        assert(crlf == crlf_head + crlf_rest);
        assert(lf == lf_head + lf_rest);
        assert(crlf.subrange(0, crlf.len() as int) =~= crlf);
        assert(lf.subrange(0, lf.len() as int) =~= lf);
        assert forall|i: int| 0 <= i < first.len() implies first[i] != '\n' by {
            assert(lines[0][i] != '\n');
        }
        assert(is_first_index(crlf, '\n', first.len() as int + 1));
        lemma_first_index(crlf, '\n', first.len() as int + 1);
        assert(is_first_index(lf, '\n', first.len() as int));
        lemma_first_index(lf, '\n', first.len() as int);
        assert(crlf.take(first.len() as int + 1) =~= first.push('\r'));
        assert(without_cr(first.push('\r')) =~= first);
        assert(lf.take(first.len() as int) =~= first);
        assert(without_cr(first) == first);
        match line_meaning(first) {
            Ok(meaning) => {
                let after = apply_line(reading, meaning);
                lemma_read_suffix(crlf_head, crlf_rest, 0, number + 1, after);
                lemma_read_suffix(lf_head, lf_rest, 0, number + 1, after);
                lemma_read_crlf_lines(rest, number + 1, after);
            },
            Err(_) => {},
        }
    }
}

/// A line may end in `\r\n` as well as in `\n`: the output reads the same.
///
/// Stated for lines that hold no `\n` and do not end in `\r` (a `\r` right
/// before the line break would be taken with the `\r\n`).
pub proof fn law_crlf_reads_like_lf(lines: Seq<Seq<char>>)
    requires
        forall|k: int, i: int| 0 <= k < lines.len() && 0 <= i < lines[k].len() ==> #[trigger] lines[k][i] != '\n',
        forall|k: int| 0 <= k < lines.len() && lines[k].len() > 0 ==> #[trigger] lines[k].last() != '\r',
    ensures
        porcelain_state(lines_ending_with(lines, seq!['\r', '\n'])) == porcelain_state(
            lines_ending_with(lines, seq!['\n']),
        ),
{
    lemma_read_crlf_lines(lines, 0, initial_reading());
}

/// The reading that the values built so far stand for.
pub open spec fn reading_of(head: Option<Head>, upstream: Option<String>, divergence: Divergence, dirty: u32) -> Reading {
    Reading {
        head: match head {
            Some(h) => Some(h@),
            None => None,
        },
        upstream: match upstream {
            Some(name) => Some(name@),
            None => None,
        },
        ahead: divergence@.0,
        behind: divergence@.1,
        dirty,
    }
}

impl LocalState {
    /// Makes a state from what was read.
    pub fn new(head: Head, upstream: Option<String>, divergence: Divergence, dirty: u32) -> (state: Self)
        ensures
            state@ == (LocalStateView {
                head: head@,
                upstream: match upstream {
                    Some(name) => Some(name@),
                    None => None,
                },
                ahead: divergence@.0,
                behind: divergence@.1,
                dirty,
            }),
    {
        LocalState { head, upstream, divergence, dirty }
    }

    /// Where the working tree is (a branch, or detached).
    pub fn head(&self) -> (head: &Head)
        ensures
            head@ == self@.head,
    {
        &self.head
    }

    /// The upstream tracking branch (`# branch.upstream`); `None` when none is set.
    pub fn upstream(&self) -> (upstream: Option<&str>)
        ensures
            upstream matches Some(name) ==> self@.upstream == Some(name@),
            upstream is None ==> self@.upstream is None,
    {
        match &self.upstream {
            Some(name) => Some(name.as_str()),
            None => None,
        }
    }

    /// Commits ahead of the upstream; 0 without one.
    pub fn ahead(&self) -> (ahead: u32)
        ensures
            ahead == self@.ahead,
    {
        self.divergence.ahead()
    }

    /// Commits behind the upstream; 0 without one.
    pub fn behind(&self) -> (behind: u32)
        ensures
            behind == self@.behind,
    {
        self.divergence.behind()
    }

    /// How many entries are changed, renamed, conflicted or untracked. Ignored
    /// files are not counted.
    pub fn dirty(&self) -> (dirty: u32)
        ensures
            dirty == self@.dirty,
    {
        self.dirty
    }
}

/// Reads the output of `git status --porcelain=v2 --branch`.
///
/// A final line break is optional, and `\r\n` is read like `\n` (as `str::lines` does).
///
/// Fails when there is no `# branch.head`, when a `#` header's value cannot be
/// read, or when a line is not a porcelain v2 line. The error always carries a
/// line number.
#[verifier::rlimit(40)]
pub fn parse_porcelain(source: &str) -> (parsed: Result<LocalState, PorcelainError>)
    ensures
        parsed matches Ok(state) ==> porcelain_state(source@) == Ok::<
            LocalStateView,
            (PorcelainErrorKind, u32),
        >(state@),
        parsed matches Err(e) ==> porcelain_state(source@) == Err::<
            LocalStateView,
            (PorcelainErrorKind, u32),
        >((e.spec_kind(), e.spec_line())),
{
    let chars = chars_of(source);
    let ghost src = chars@;
    let mut head: Option<Head> = None;
    let mut upstream: Option<String> = None;
    // Without a `# branch.ab` line (no upstream) both are 0.
    let mut divergence = Divergence::new(0, 0);
    let mut dirty: u32 = 0;
    let mut at: usize = 0;
    let mut number: usize = 0;
    assert(reading_of(head, upstream, divergence, dirty) == initial_reading());
    while at < chars.len()
        invariant
            src == chars@,
            src == source@,
            src.len() == chars.len(),
            at <= src.len(),
            number <= at,
            read_lines(src, 0, 0, initial_reading()) == read_lines(
                src,
                at as int,
                number as nat,
                reading_of(head, upstream, divergence, dirty),
            ),
        decreases src.len() - at,
    {
        let ghost rest = src.subrange(at as int, src.len() as int);
        let (end, next) = match find_char(&chars, at, chars.len(), '\n') {
            Some(i) => {
                if i > 0 && chars[at + i - 1] == '\r' {
                    (at + i - 1, at + i + 1)
                } else {
                    (at + i, at + i + 1)
                }
            },
            None => (chars.len(), chars.len()),
        };
        let line = slice_chars(&chars, at, end);
        proof {
            let (l, n) = line_at(src, at as int);
            if first_index(rest, '\n') is Some {
                let i = first_index(rest, '\n')->0;
                assert(rest.take(i) =~= src.subrange(at as int, at + i));
                if i > 0 {
                    assert(rest.take(i).drop_last() =~= src.subrange(at as int, at + i - 1));
                }
            } else {
                assert(rest =~= src.subrange(at as int, src.len() as int));
            }
            assert(l == line@);
            assert(n == next);
        }
        let ghost before = number;
        let ghost reading = reading_of(head, upstream, divergence, dirty);
        number = number + 1;
        let read = match PorcelainLine::read_chars(&line) {
            Ok(read) => read,
            Err(kind) => {
                let line_no = if number <= u32::MAX as usize {
                    number as u32
                } else {
                    u32::MAX
                };
                assert(line_no == line_number((before + 1) as nat));
                assert(read_lines(src, at as int, before as nat, reading) == Err::<
                    Reading,
                    (PorcelainErrorKind, u32),
                >((kind, line_number((before + 1) as nat))));
                return Err(PorcelainError::new(kind, line_no));
            },
        };
        match read {
            PorcelainLine::Head(found) => head = Some(found),
            PorcelainLine::Upstream(name) => upstream = Some(name),
            PorcelainLine::Divergence(found) => divergence = found,
            PorcelainLine::Dirty => dirty = if dirty < u32::MAX {
                dirty + 1
            } else {
                u32::MAX
            },
            PorcelainLine::Ignored => {},
        }
        at = next;
    }
    match head {
        Some(head) => Ok(LocalState::new(head, upstream, divergence, dirty)),
        None => Err(PorcelainError::new(PorcelainErrorKind::MissingHead, 0)),
    }
}

} // verus!
