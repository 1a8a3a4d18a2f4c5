//! What one line of porcelain v2 says.

use vstd::prelude::*;

use crate::divergence::Divergence;
use crate::head::{Head, HeadView};
use crate::porcelain_error_kind::PorcelainErrorKind;
use crate::text::{
    bounded_decimal, chars_of, decimal_u64, find_char, first_index, has_prefix, same_chars,
    slice_chars, starts_with, string_of,
};

verus! {

/// What one line of `git status --porcelain=v2 --branch` says.
///
/// Reading a line and building the state are kept apart: a line is first
/// turned into this enum, and only then applied to the state.
#[derive(Debug, Clone, PartialEq, Eq)]
pub enum PorcelainLine {
    /// `# branch.head <name>`.
    Head(Head),
    /// `# branch.upstream <name>`.
    Upstream(String),
    /// `# branch.ab +A -B`.
    Divergence(Divergence),
    /// A changed, untracked or conflicted entry (a line starting `1`, `2`, `u` or `?`).
    Dirty,
    /// A line not counted (`# branch.oid`, an unknown `# branch.*`, `# stash`, an
    /// ignored `!` file).
    Ignored,
}

/// The meaning of a [`PorcelainLine`].
pub enum LineMeaning {
    Head(HeadView),
    Upstream(Seq<char>),
    Divergence(u32, u32),
    Dirty,
    Ignored,
}

impl View for PorcelainLine {
    type V = LineMeaning;

    open spec fn view(&self) -> LineMeaning {
        match self {
            PorcelainLine::Head(head) => LineMeaning::Head(head@),
            PorcelainLine::Upstream(name) => LineMeaning::Upstream(name@),
            PorcelainLine::Divergence(d) => LineMeaning::Divergence(d@.0, d@.1),
            PorcelainLine::Dirty => LineMeaning::Dirty,
            PorcelainLine::Ignored => LineMeaning::Ignored,
        }
    }
}

/// A decimal count: digits only, no sign, at most `u32::MAX`.
pub open spec fn count_value(s: Seq<char>) -> Option<u32> {
    match bounded_decimal(s, u32::MAX as nat) {
        Some(v) => Some(v as u32),
        None => None,
    }
}

/// The value of `# branch.head`.
pub open spec fn head_meaning(value: Seq<char>) -> Result<LineMeaning, PorcelainErrorKind> {
    if value.len() == 0 {
        Err(PorcelainErrorKind::MalformedHeader)
    } else if value == "(detached)"@ {
        Ok(LineMeaning::Head(HeadView::Detached))
    } else {
        Ok(LineMeaning::Head(HeadView::Branch(value)))
    }
}

/// The value of `# branch.upstream`.
pub open spec fn upstream_meaning(value: Seq<char>) -> Result<LineMeaning, PorcelainErrorKind> {
    if value.len() == 0 {
        Err(PorcelainErrorKind::MalformedHeader)
    } else {
        Ok(LineMeaning::Upstream(value))
    }
}

/// The value of `# branch.ab`: `+A -B`.
pub open spec fn divergence_meaning(value: Seq<char>) -> Result<LineMeaning, PorcelainErrorKind> {
    match first_index(value, ' ') {
        None => Err(PorcelainErrorKind::MalformedHeader),
        Some(i) => {
            let ahead = value.take(i);
            let behind = value.skip(i + 1);
            if ahead.len() > 0 && ahead[0] == '+' && behind.len() > 0 && behind[0] == '-' {
                match (count_value(ahead.skip(1)), count_value(behind.skip(1))) {
                    (Some(a), Some(b)) => Ok(LineMeaning::Divergence(a, b)),
                    _ => Err(PorcelainErrorKind::MalformedHeader),
                }
            } else {
                Err(PorcelainErrorKind::MalformedHeader)
            }
        },
    }
}

/// A header line, after its `#`.
///
/// Unknown `# branch.*` headers and `# stash` are ignored (git adds headers
/// over time); any other `#` line is not porcelain v2 and is refused.
pub open spec fn header_meaning(rest: Seq<char>) -> Result<LineMeaning, PorcelainErrorKind> {
    if !(rest.len() > 0 && rest[0] == ' ') {
        Err(PorcelainErrorKind::UnexpectedLine)
    } else {
        let body = rest.skip(1);
        if starts_with(body, "branch."@) {
            let field = body.skip("branch."@.len() as int);
            let (key, value) = match first_index(field, ' ') {
                Some(i) => (field.take(i), field.skip(i + 1)),
                None => (field, Seq::<char>::empty()),
            };
            if key == "head"@ {
                head_meaning(value)
            } else if key == "upstream"@ {
                upstream_meaning(value)
            } else if key == "ab"@ {
                divergence_meaning(value)
            } else {
                Ok(LineMeaning::Ignored)
            }
        } else if starts_with(body, "stash"@) {
            Ok(LineMeaning::Ignored)
        } else {
            Err(PorcelainErrorKind::UnexpectedLine)
        }
    }
}

/// A line that is not a header: its first character decides.
pub open spec fn entry_meaning(line: Seq<char>) -> Result<LineMeaning, PorcelainErrorKind> {
    if line.len() == 0 {
        Err(PorcelainErrorKind::UnexpectedLine)
    } else if line[0] == '1' || line[0] == '2' || line[0] == 'u' || line[0] == '?' {
        Ok(LineMeaning::Dirty)
    } else if line[0] == '!' {
        Ok(LineMeaning::Ignored)
    } else {
        Err(PorcelainErrorKind::UnexpectedLine)
    }
}

/// What one line says.
pub open spec fn line_meaning(line: Seq<char>) -> Result<LineMeaning, PorcelainErrorKind> {
    if line.len() > 0 && line[0] == '#' {
        header_meaning(line.skip(1))
    } else {
        entry_meaning(line)
    }
}

impl PorcelainLine {
    /// Reads one line. The caller numbers it (this function sees only its text).
    pub fn read(line: &str) -> (read: Result<Self, PorcelainErrorKind>)
        ensures
            read matches Ok(l) ==> line_meaning(line@) == Ok::<LineMeaning, PorcelainErrorKind>(l@),
            read matches Err(k) ==> line_meaning(line@) == Err::<LineMeaning, PorcelainErrorKind>(k),
    {
        let chars = chars_of(line);
        Self::read_chars(&chars)
    }

    /// Reads one line, given as characters.
    pub fn read_chars(line: &Vec<char>) -> (read: Result<Self, PorcelainErrorKind>)
        ensures
            read matches Ok(l) ==> line_meaning(line@) == Ok::<LineMeaning, PorcelainErrorKind>(l@),
            read matches Err(k) ==> line_meaning(line@) == Err::<LineMeaning, PorcelainErrorKind>(k),
    {
        if line.len() > 0 && line[0] == '#' {
            let rest = slice_chars(line, 1, line.len());
            assert(rest@ =~= line@.skip(1));
            read_header(&rest)
        } else {
            read_entry(line)
        }
    }
}

/// Reads a header line, after its `#`.
fn read_header(rest: &Vec<char>) -> (read: Result<PorcelainLine, PorcelainErrorKind>)
    ensures
        read matches Ok(l) ==> header_meaning(rest@) == Ok::<LineMeaning, PorcelainErrorKind>(l@),
        read matches Err(k) ==> header_meaning(rest@) == Err::<LineMeaning, PorcelainErrorKind>(k),
{
    if !(rest.len() > 0 && rest[0] == ' ') {
        return Err(PorcelainErrorKind::UnexpectedLine);
    }
    let body = slice_chars(rest, 1, rest.len());
    assert(body@ =~= rest@.skip(1));
    let branch = chars_of("branch.");
    if !has_prefix(&body, &branch) {
        if has_prefix(&body, &chars_of("stash")) {
            return Ok(PorcelainLine::Ignored);
        }
        return Err(PorcelainErrorKind::UnexpectedLine);
    }
    let field = slice_chars(&body, branch.len(), body.len());
    assert(field@ =~= body@.skip("branch."@.len() as int));
    let (key, value) = match find_char(&field, 0, field.len(), ' ') {
        Some(i) => {
            assert(field@.subrange(0, field@.len() as int) =~= field@);
            let key = slice_chars(&field, 0, i);
            let value = slice_chars(&field, i + 1, field.len());
            assert(key@ =~= field@.take(i as int));
            assert(value@ =~= field@.skip(i + 1));
            (key, value)
        },
        None => {
            assert(field@.subrange(0, field@.len() as int) =~= field@);
            let value: Vec<char> = Vec::new();
            assert(value@ =~= Seq::<char>::empty());
            (field, value)
        },
    };
    if same_chars(&key, &chars_of("head")) {
        read_head(&value)
    } else if same_chars(&key, &chars_of("upstream")) {
        read_upstream(&value)
    } else if same_chars(&key, &chars_of("ab")) {
        read_divergence(&value)
    } else {
        Ok(PorcelainLine::Ignored)
    }
}

/// Reads the value of `# branch.head`. The name is kept as git wrote it, `/` and all.
fn read_head(value: &Vec<char>) -> (read: Result<PorcelainLine, PorcelainErrorKind>)
    ensures
        read matches Ok(l) ==> head_meaning(value@) == Ok::<LineMeaning, PorcelainErrorKind>(l@),
        read matches Err(k) ==> head_meaning(value@) == Err::<LineMeaning, PorcelainErrorKind>(k),
{
    if value.len() == 0 {
        return Err(PorcelainErrorKind::MalformedHeader);
    }
    if same_chars(value, &chars_of("(detached)")) {
        return Ok(PorcelainLine::Head(Head::Detached));
    }
    let name = string_of(value, 0, value.len());
    assert(name@ =~= value@);
    Ok(PorcelainLine::Head(Head::Branch(name)))
}

/// Reads the value of `# branch.upstream`.
fn read_upstream(value: &Vec<char>) -> (read: Result<PorcelainLine, PorcelainErrorKind>)
    ensures
        read matches Ok(l) ==> upstream_meaning(value@) == Ok::<LineMeaning, PorcelainErrorKind>(l@),
        read matches Err(k) ==> upstream_meaning(value@) == Err::<LineMeaning, PorcelainErrorKind>(k),
{
    if value.len() == 0 {
        return Err(PorcelainErrorKind::MalformedHeader);
    }
    let name = string_of(value, 0, value.len());
    assert(name@ =~= value@);
    Ok(PorcelainLine::Upstream(name))
}

/// Reads the value of `# branch.ab` (`+A -B`); any other shape is `MalformedHeader`.
fn read_divergence(value: &Vec<char>) -> (read: Result<PorcelainLine, PorcelainErrorKind>)
    ensures
        read matches Ok(l) ==> divergence_meaning(value@) == Ok::<LineMeaning, PorcelainErrorKind>(l@),
        read matches Err(k) ==> divergence_meaning(value@) == Err::<LineMeaning, PorcelainErrorKind>(k),
{
    let i = match find_char(value, 0, value.len(), ' ') {
        Some(i) => i,
        None => {
            assert(value@.subrange(0, value@.len() as int) =~= value@);
            return Err(PorcelainErrorKind::MalformedHeader);
        },
    };
    assert(value@.subrange(0, value@.len() as int) =~= value@);
    let ghost ahead = value@.take(i as int);
    let ghost behind = value@.skip(i + 1);
    if !(i > 0 && value[0] == '+' && i + 1 < value.len() && value[i + 1] == '-') {
        return Err(PorcelainErrorKind::MalformedHeader);
    }
    assert(value@.subrange(1, i as int) =~= ahead.skip(1));
    assert(value@.subrange(i + 2, value@.len() as int) =~= behind.skip(1));
    let a = match count(value, 1, i) {
        Some(a) => a,
        None => return Err(PorcelainErrorKind::MalformedHeader),
    };
    let b = match count(value, i + 2, value.len()) {
        Some(b) => b,
        None => return Err(PorcelainErrorKind::MalformedHeader),
    };
    Ok(PorcelainLine::Divergence(Divergence::new(a, b)))
}

/// A decimal count in `chars[from..to]`.
///
/// Signs are refused: `str::parse` would let `+1` through, and `++1 -0` would read.
fn count(chars: &Vec<char>, from: usize, to: usize) -> (value: Option<u32>)
    requires
        from <= to <= chars@.len(),
    ensures
        value == count_value(chars@.subrange(from as int, to as int)),
{
    match decimal_u64(chars, from, to) {
        Some(v) => {
            if v <= u32::MAX as u64 {
                Some(v as u32)
            } else {
                None
            }
        },
        None => None,
    }
}

/// Reads a line that is not a header. Its first character alone decides the kind.
fn read_entry(line: &Vec<char>) -> (read: Result<PorcelainLine, PorcelainErrorKind>)
    ensures
        read matches Ok(l) ==> entry_meaning(line@) == Ok::<LineMeaning, PorcelainErrorKind>(l@),
        read matches Err(k) ==> entry_meaning(line@) == Err::<LineMeaning, PorcelainErrorKind>(k),
{
    if line.len() == 0 {
        return Err(PorcelainErrorKind::UnexpectedLine);
    }
    let first = line[0];
    if first == '1' || first == '2' || first == 'u' || first == '?' {
        Ok(PorcelainLine::Dirty)
    } else if first == '!' {
        Ok(PorcelainLine::Ignored)
    } else {
        Err(PorcelainErrorKind::UnexpectedLine)
    }
}

} // verus!
