//! GitHub's `owner/name`.

use vstd::prelude::*;

use crate::text::{
    chars_of, find_char, first_index, has_prefix, slice_chars, starts_with, string_of, trim, trimmed,
};

verus! {

/// The `owner/name` of a repository on GitHub.
///
/// The fields are private; values come only from [`GithubSlug::new`]. A slug
/// cannot hold a bad shape, so whoever receives one need not check it again.
#[derive(Debug, PartialEq, Eq)]
pub struct GithubSlug {
    owner: String,
    name: String,
}

impl View for GithubSlug {
    /// `(owner, name)`.
    type V = (Seq<char>, Seq<char>);

    closed spec fn view(&self) -> (Seq<char>, Seq<char>) {
        (self.owner@, self.name@)
    }
}

/// A character allowed in an owner or a name: `[A-Za-z0-9_.-]`.
pub open spec fn is_slug_char(c: char) -> bool {
    ('a' <= c && c <= 'z') || ('A' <= c && c <= 'Z') || ('0' <= c && c <= '9') || c == '_' || c
        == '.' || c == '-'
}

/// An owner or a name: not empty, not `.` or `..` (which resolve as paths),
/// and only `[A-Za-z0-9_.-]`.
pub open spec fn is_segment(s: Seq<char>) -> bool {
    &&& s.len() > 0
    &&& s != seq!['.']
    &&& s != seq!['.', '.']
    &&& forall|i: int| 0 <= i < s.len() ==> #[trigger] is_slug_char(s[i])
}

/// What follows the first GitHub prefix that `url` starts with:
/// `https://github.com/`, `ssh://git@github.com/`, `git@github.com:`.
pub open spec fn after_github_host(url: Seq<char>) -> Option<Seq<char>> {
    if starts_with(url, "https://github.com/"@) {
        Some(url.skip("https://github.com/"@.len() as int))
    } else if starts_with(url, "ssh://git@github.com/"@) {
        Some(url.skip("ssh://git@github.com/"@.len() as int))
    } else if starts_with(url, "git@github.com:"@) {
        Some(url.skip("git@github.com:"@.len() as int))
    } else {
        None
    }
}

/// `s` without one final `c`, if it has one.
pub open spec fn without_last(s: Seq<char>, c: char) -> Seq<char> {
    if s.len() > 0 && s.last() == c {
        s.drop_last()
    } else {
        s
    }
}

/// `s` without one final `.git`, if it has one.
pub open spec fn without_git(s: Seq<char>) -> Seq<char> {
    if s.len() >= 4 && s.subrange(s.len() - 4, s.len() as int) == seq!['.', 'g', 'i', 't'] {
        s.subrange(0, s.len() - 4)
    } else {
        s
    }
}

/// The `(owner, name)` that a remote URL names: trimmed, on GitHub, with at
/// most one final `/` and one `.git` taken off, split at the first `/`.
pub open spec fn remote_slug(url: Seq<char>) -> Option<(Seq<char>, Seq<char>)> {
    match after_github_host(trimmed(url)) {
        None => None,
        Some(path) => {
            let bare = without_git(without_last(path, '/'));
            match first_index(bare, '/') {
                None => None,
                Some(i) => {
                    let owner = bare.take(i);
                    let name = bare.skip(i + 1);
                    if is_segment(owner) && is_segment(name) {
                        Some((owner, name))
                    } else {
                        None
                    }
                },
            }
        },
    }
}

/// The characters of an owner or a name, listed one by one: the 26 lower- and
/// 26 upper-case ASCII letters, the ten ASCII digits, and `_`, `.`, `-`.
pub open spec fn slug_chars() -> Seq<char> {
    seq![
        'a', 'b', 'c', 'd', 'e', 'f', 'g', 'h', 'i', 'j', 'k', 'l', 'm',
        'n', 'o', 'p', 'q', 'r', 's', 't', 'u', 'v', 'w', 'x', 'y', 'z',
        'A', 'B', 'C', 'D', 'E', 'F', 'G', 'H', 'I', 'J', 'K', 'L', 'M',
        'N', 'O', 'P', 'Q', 'R', 'S', 'T', 'U', 'V', 'W', 'X', 'Y', 'Z',
        '0', '1', '2', '3', '4', '5', '6', '7', '8', '9',
        '_', '.', '-',
    ]
}

/// A character may stand in an owner or a name exactly when it is one of
/// [`slug_chars`]: an ASCII letter of either case, an ASCII digit, `_`, `.` or
/// `-`, and nothing else.
pub proof fn law_slug_chars_are_ascii_alphanumerics_and_three_marks(c: char)
    ensures
        is_slug_char(c) <==> slug_chars().contains(c),
{
    assert(slug_chars().len() == 65);
    assert forall|i: int| 0 <= i < 65 implies is_slug_char(#[trigger] slug_chars()[i]) by {
        if i == 0 {
            assert(slug_chars()[0] == 'a');
        } else if i == 1 {
            assert(slug_chars()[1] == 'b');
        } else if i == 2 {
            assert(slug_chars()[2] == 'c');
        } else if i == 3 {
            assert(slug_chars()[3] == 'd');
        } else if i == 4 {
            assert(slug_chars()[4] == 'e');
        } else if i == 5 {
            assert(slug_chars()[5] == 'f');
        } else if i == 6 {
            assert(slug_chars()[6] == 'g');
        } else if i == 7 {
            assert(slug_chars()[7] == 'h');
        } else if i == 8 {
            assert(slug_chars()[8] == 'i');
        } else if i == 9 {
            assert(slug_chars()[9] == 'j');
        } else if i == 10 {
            assert(slug_chars()[10] == 'k');
        } else if i == 11 {
            assert(slug_chars()[11] == 'l');
        } else if i == 12 {
            assert(slug_chars()[12] == 'm');
        } else if i == 13 {
            assert(slug_chars()[13] == 'n');
        } else if i == 14 {
            assert(slug_chars()[14] == 'o');
        } else if i == 15 {
            assert(slug_chars()[15] == 'p');
        } else if i == 16 {
            assert(slug_chars()[16] == 'q');
        } else if i == 17 {
            assert(slug_chars()[17] == 'r');
        } else if i == 18 {
            assert(slug_chars()[18] == 's');
        } else if i == 19 {
            assert(slug_chars()[19] == 't');
        } else if i == 20 {
            assert(slug_chars()[20] == 'u');
        } else if i == 21 {
            assert(slug_chars()[21] == 'v');
        } else if i == 22 {
            assert(slug_chars()[22] == 'w');
        } else if i == 23 {
            assert(slug_chars()[23] == 'x');
        } else if i == 24 {
            assert(slug_chars()[24] == 'y');
        } else if i == 25 {
            assert(slug_chars()[25] == 'z');
        } else if i == 26 {
            assert(slug_chars()[26] == 'A');
        } else if i == 27 {
            assert(slug_chars()[27] == 'B');
        } else if i == 28 {
            assert(slug_chars()[28] == 'C');
        } else if i == 29 {
            assert(slug_chars()[29] == 'D');
        } else if i == 30 {
            assert(slug_chars()[30] == 'E');
        } else if i == 31 {
            assert(slug_chars()[31] == 'F');
        } else if i == 32 {
            assert(slug_chars()[32] == 'G');
        } else if i == 33 {
            assert(slug_chars()[33] == 'H');
        } else if i == 34 {
            assert(slug_chars()[34] == 'I');
        } else if i == 35 {
            assert(slug_chars()[35] == 'J');
        } else if i == 36 {
            assert(slug_chars()[36] == 'K');
        } else if i == 37 {
            assert(slug_chars()[37] == 'L');
        } else if i == 38 {
            assert(slug_chars()[38] == 'M');
        } else if i == 39 {
            assert(slug_chars()[39] == 'N');
        } else if i == 40 {
            assert(slug_chars()[40] == 'O');
        } else if i == 41 {
            assert(slug_chars()[41] == 'P');
        } else if i == 42 {
            assert(slug_chars()[42] == 'Q');
        } else if i == 43 {
            assert(slug_chars()[43] == 'R');
        } else if i == 44 {
            assert(slug_chars()[44] == 'S');
        } else if i == 45 {
            assert(slug_chars()[45] == 'T');
        } else if i == 46 {
            assert(slug_chars()[46] == 'U');
        } else if i == 47 {
            assert(slug_chars()[47] == 'V');
        } else if i == 48 {
            assert(slug_chars()[48] == 'W');
        } else if i == 49 {
            assert(slug_chars()[49] == 'X');
        } else if i == 50 {
            assert(slug_chars()[50] == 'Y');
        } else if i == 51 {
            assert(slug_chars()[51] == 'Z');
        } else if i == 52 {
            assert(slug_chars()[52] == '0');
        } else if i == 53 {
            assert(slug_chars()[53] == '1');
        } else if i == 54 {
            assert(slug_chars()[54] == '2');
        } else if i == 55 {
            assert(slug_chars()[55] == '3');
        } else if i == 56 {
            assert(slug_chars()[56] == '4');
        } else if i == 57 {
            assert(slug_chars()[57] == '5');
        } else if i == 58 {
            assert(slug_chars()[58] == '6');
        } else if i == 59 {
            assert(slug_chars()[59] == '7');
        } else if i == 60 {
            assert(slug_chars()[60] == '8');
        } else if i == 61 {
            assert(slug_chars()[61] == '9');
        } else if i == 62 {
            assert(slug_chars()[62] == '_');
        } else if i == 63 {
            assert(slug_chars()[63] == '.');
        } else if i == 64 {
            assert(slug_chars()[64] == '-');
        }
    }
    if 'a' <= c && c <= 'z' {
        let k = c as int - 'a' as int;
        if k == 0 {
            assert(slug_chars()[0] == 'a');
            assert(slug_chars()[0] == c);
        } else if k == 1 {
            assert(slug_chars()[1] == 'b');
            assert(slug_chars()[1] == c);
        } else if k == 2 {
            assert(slug_chars()[2] == 'c');
            assert(slug_chars()[2] == c);
        } else if k == 3 {
            assert(slug_chars()[3] == 'd');
            assert(slug_chars()[3] == c);
        } else if k == 4 {
            assert(slug_chars()[4] == 'e');
            assert(slug_chars()[4] == c);
        } else if k == 5 {
            assert(slug_chars()[5] == 'f');
            assert(slug_chars()[5] == c);
        } else if k == 6 {
            assert(slug_chars()[6] == 'g');
            assert(slug_chars()[6] == c);
        } else if k == 7 {
            assert(slug_chars()[7] == 'h');
            assert(slug_chars()[7] == c);
        } else if k == 8 {
            assert(slug_chars()[8] == 'i');
            assert(slug_chars()[8] == c);
        } else if k == 9 {
            assert(slug_chars()[9] == 'j');
            assert(slug_chars()[9] == c);
        } else if k == 10 {
            assert(slug_chars()[10] == 'k');
            assert(slug_chars()[10] == c);
        } else if k == 11 {
            assert(slug_chars()[11] == 'l');
            assert(slug_chars()[11] == c);
        } else if k == 12 {
            assert(slug_chars()[12] == 'm');
            assert(slug_chars()[12] == c);
        } else if k == 13 {
            assert(slug_chars()[13] == 'n');
            assert(slug_chars()[13] == c);
        } else if k == 14 {
            assert(slug_chars()[14] == 'o');
            assert(slug_chars()[14] == c);
        } else if k == 15 {
            assert(slug_chars()[15] == 'p');
            assert(slug_chars()[15] == c);
        } else if k == 16 {
            assert(slug_chars()[16] == 'q');
            assert(slug_chars()[16] == c);
        } else if k == 17 {
            assert(slug_chars()[17] == 'r');
            assert(slug_chars()[17] == c);
        } else if k == 18 {
            assert(slug_chars()[18] == 's');
            assert(slug_chars()[18] == c);
        } else if k == 19 {
            assert(slug_chars()[19] == 't');
            assert(slug_chars()[19] == c);
        } else if k == 20 {
            assert(slug_chars()[20] == 'u');
            assert(slug_chars()[20] == c);
        } else if k == 21 {
            assert(slug_chars()[21] == 'v');
            assert(slug_chars()[21] == c);
        } else if k == 22 {
            assert(slug_chars()[22] == 'w');
            assert(slug_chars()[22] == c);
        } else if k == 23 {
            assert(slug_chars()[23] == 'x');
            assert(slug_chars()[23] == c);
        } else if k == 24 {
            assert(slug_chars()[24] == 'y');
            assert(slug_chars()[24] == c);
        } else if k == 25 {
            assert(slug_chars()[25] == 'z');
            assert(slug_chars()[25] == c);
        }
    }
    if 'A' <= c && c <= 'Z' {
        let k = c as int - 'A' as int;
        if k == 0 {
            assert(slug_chars()[26] == 'A');
            assert(slug_chars()[26] == c);
        } else if k == 1 {
            assert(slug_chars()[27] == 'B');
            assert(slug_chars()[27] == c);
        } else if k == 2 {
            assert(slug_chars()[28] == 'C');
            assert(slug_chars()[28] == c);
        } else if k == 3 {
            assert(slug_chars()[29] == 'D');
            assert(slug_chars()[29] == c);
        } else if k == 4 {
            assert(slug_chars()[30] == 'E');
            assert(slug_chars()[30] == c);
        } else if k == 5 {
            assert(slug_chars()[31] == 'F');
            assert(slug_chars()[31] == c);
        } else if k == 6 {
            assert(slug_chars()[32] == 'G');
            assert(slug_chars()[32] == c);
        } else if k == 7 {
            assert(slug_chars()[33] == 'H');
            assert(slug_chars()[33] == c);
        } else if k == 8 {
            assert(slug_chars()[34] == 'I');
            assert(slug_chars()[34] == c);
        } else if k == 9 {
            assert(slug_chars()[35] == 'J');
            assert(slug_chars()[35] == c);
        } else if k == 10 {
            assert(slug_chars()[36] == 'K');
            assert(slug_chars()[36] == c);
        } else if k == 11 {
            assert(slug_chars()[37] == 'L');
            assert(slug_chars()[37] == c);
        } else if k == 12 {
            assert(slug_chars()[38] == 'M');
            assert(slug_chars()[38] == c);
        } else if k == 13 {
            assert(slug_chars()[39] == 'N');
            assert(slug_chars()[39] == c);
        } else if k == 14 {
            assert(slug_chars()[40] == 'O');
            assert(slug_chars()[40] == c);
        } else if k == 15 {
            assert(slug_chars()[41] == 'P');
            assert(slug_chars()[41] == c);
        } else if k == 16 {
            assert(slug_chars()[42] == 'Q');
            assert(slug_chars()[42] == c);
        } else if k == 17 {
            assert(slug_chars()[43] == 'R');
            assert(slug_chars()[43] == c);
        } else if k == 18 {
            assert(slug_chars()[44] == 'S');
            assert(slug_chars()[44] == c);
        } else if k == 19 {
            assert(slug_chars()[45] == 'T');
            assert(slug_chars()[45] == c);
        } else if k == 20 {
            assert(slug_chars()[46] == 'U');
            assert(slug_chars()[46] == c);
        } else if k == 21 {
            assert(slug_chars()[47] == 'V');
            assert(slug_chars()[47] == c);
        } else if k == 22 {
            assert(slug_chars()[48] == 'W');
            assert(slug_chars()[48] == c);
        } else if k == 23 {
            assert(slug_chars()[49] == 'X');
            assert(slug_chars()[49] == c);
        } else if k == 24 {
            assert(slug_chars()[50] == 'Y');
            assert(slug_chars()[50] == c);
        } else if k == 25 {
            assert(slug_chars()[51] == 'Z');
            assert(slug_chars()[51] == c);
        }
    }
    if '0' <= c && c <= '9' {
        let k = c as int - '0' as int;
        if k == 0 {
            assert(slug_chars()[52] == '0');
            assert(slug_chars()[52] == c);
        } else if k == 1 {
            assert(slug_chars()[53] == '1');
            assert(slug_chars()[53] == c);
        } else if k == 2 {
            assert(slug_chars()[54] == '2');
            assert(slug_chars()[54] == c);
        } else if k == 3 {
            assert(slug_chars()[55] == '3');
            assert(slug_chars()[55] == c);
        } else if k == 4 {
            assert(slug_chars()[56] == '4');
            assert(slug_chars()[56] == c);
        } else if k == 5 {
            assert(slug_chars()[57] == '5');
            assert(slug_chars()[57] == c);
        } else if k == 6 {
            assert(slug_chars()[58] == '6');
            assert(slug_chars()[58] == c);
        } else if k == 7 {
            assert(slug_chars()[59] == '7');
            assert(slug_chars()[59] == c);
        } else if k == 8 {
            assert(slug_chars()[60] == '8');
            assert(slug_chars()[60] == c);
        } else if k == 9 {
            assert(slug_chars()[61] == '9');
            assert(slug_chars()[61] == c);
        }
    }
    if c == '_' {
        assert(slug_chars()[62] == c);
    }
    if c == '.' {
        assert(slug_chars()[63] == c);
    }
    if c == '-' {
        assert(slug_chars()[64] == c);
    }
}

/// An owner or a name can stand in a GraphQL string as it is: it holds no
/// quote, no backslash and no line break, so nothing needs escaping.
pub proof fn law_a_segment_needs_no_escaping(s: Seq<char>)
    requires
        is_segment(s),
    ensures
        forall|i: int| 0 <= i < s.len() ==> s[i] != '"' && s[i] != '\\' && s[i] != '\n',
{
    assert forall|i: int| 0 <= i < s.len() implies s[i] != '"' && s[i] != '\\' && s[i] != '\n' by {
        assert(is_slug_char(s[i]));
    }
}

impl Clone for GithubSlug {
    fn clone(&self) -> (copy: Self)
        ensures
            copy@ == self@,
    {
        proof {
            use_type_invariant(self);
        }
        GithubSlug { owner: self.owner.clone(), name: self.name.clone() }
    }
}

impl GithubSlug {
    /// Every slug holds two segments.
    #[verifier::type_invariant]
    spec fn well_formed(self) -> bool {
        is_segment(self.owner@) && is_segment(self.name@)
    }

    /// Makes one from `owner` and `name`.
    ///
    /// `None` when either is empty, holds anything outside `[A-Za-z0-9_.-]`,
    /// or is `.` or `..` (names that resolve as paths).
    pub fn new(owner: &str, name: &str) -> (slug: Option<Self>)
        ensures
            slug matches Some(s) ==> is_segment(owner@) && is_segment(name@) && s@ == (owner@, name@),
            slug is None ==> !(is_segment(owner@) && is_segment(name@)),
    {
        let owner_chars = chars_of(owner);
        let name_chars = chars_of(name);
        if !(is_segment_chars(&owner_chars) && is_segment_chars(&name_chars)) {
            return None;
        }
        Some(GithubSlug { owner: String::from_str(owner), name: String::from_str(name) })
    }

    /// The owner (a user or an organization).
    pub fn owner(&self) -> (owner: &str)
        ensures
            owner@ == self@.0,
            is_segment(owner@),
    {
        proof {
            use_type_invariant(self);
        }
        self.owner.as_str()
    }

    /// The repository name.
    pub fn name(&self) -> (name: &str)
        ensures
            name@ == self@.1,
            is_segment(name@),
    {
        proof {
            use_type_invariant(self);
        }
        self.name.as_str()
    }
}

/// Reads `owner/name` from the output of `git remote get-url origin`.
///
/// Surrounding whitespace and line breaks are dropped. At most one final `/`
/// and one `.git` are taken off. Another host, an owner alone, or a deeper
/// path gives `None`.
pub fn parse_remote_url(url: &str) -> (slug: Option<GithubSlug>)
    ensures
        slug matches Some(s) ==> remote_slug(url@) == Some(s@),
        slug is None ==> remote_slug(url@) is None,
{
    let all = chars_of(url);
    let trimmed_chars = trim(&all);
    let path = match strip_host(&trimmed_chars) {
        Some(path) => path,
        None => return None,
    };
    let ghost p = path@;
    let mut end = path.len();
    if end > 0 && path[end - 1] == '/' {
        end = end - 1;
    }
    proof {
        assert(without_last(p, '/') =~= p.subrange(0, end as int));
    }
    if end >= 4 && path[end - 4] == '.' && path[end - 3] == 'g' && path[end - 2] == 'i' && path[end
        - 1] == 't' {
        proof {
            let s = p.subrange(0, end as int);
            assert(s.subrange(s.len() - 4, s.len() as int) =~= seq!['.', 'g', 'i', 't']);
            assert(s.subrange(0, s.len() - 4) =~= p.subrange(0, end - 4));
        }
        end = end - 4;
    } else {
        proof {
            let s = p.subrange(0, end as int);
            if s.len() >= 4 {
                assert(s.subrange(s.len() - 4, s.len() as int)[0] == p[end - 4]);
                assert(s.subrange(s.len() - 4, s.len() as int)[1] == p[end - 3]);
                assert(s.subrange(s.len() - 4, s.len() as int)[2] == p[end - 2]);
                assert(s.subrange(s.len() - 4, s.len() as int)[3] == p[end - 1]);
            }
        }
    }
    let ghost bare = p.subrange(0, end as int);
    assert(without_git(without_last(p, '/')) == bare);
    let i = match find_char(&path, 0, end, '/') {
        Some(i) => i,
        None => return None,
    };
    let owner = slice_chars(&path, 0, i);
    let name = slice_chars(&path, i + 1, end);
    proof {
        assert(owner@ =~= bare.take(i as int));
        assert(name@ =~= bare.skip(i + 1));
    }
    if !(is_segment_chars(&owner) && is_segment_chars(&name)) {
        return None;
    }
    let owner_text = string_of(&owner, 0, owner.len());
    let name_text = string_of(&name, 0, name.len());
    proof {
        assert(owner_text@ =~= owner@);
        assert(name_text@ =~= name@);
    }
    Some(GithubSlug { owner: owner_text, name: name_text })
}

/// Drops GitHub's host part and returns the `owner/name` part.
///
/// A URL of another shape is not guessed at: an origin elsewhere makes the
/// three GitHub columns `n/a`, and a guessed owner/name would put a false row in the table.
fn strip_host(url: &Vec<char>) -> (path: Option<Vec<char>>)
    ensures
        path matches Some(p) ==> after_github_host(url@) == Some(p@),
        path is None ==> after_github_host(url@) is None,
{
    let prefixes = [
        chars_of("https://github.com/"),
        chars_of("ssh://git@github.com/"),
        chars_of("git@github.com:"),
    ];
    let mut k: usize = 0;
    while k < 3
        invariant
            k <= 3,
            prefixes@.len() == 3,
            prefixes@[0]@ == "https://github.com/"@,
            prefixes@[1]@ == "ssh://git@github.com/"@,
            prefixes@[2]@ == "git@github.com:"@,
            forall|j: int| 0 <= j < k ==> !starts_with(url@, #[trigger] prefixes@[j]@),
        decreases 3 - k,
    {
        if has_prefix(url, &prefixes[k]) {
            let rest = slice_chars(url, prefixes[k].len(), url.len());
            assert(rest@ =~= url@.skip(prefixes@[k as int]@.len() as int));
            return Some(rest);
        }
        k = k + 1;
    }
    None
}

/// Whether `chars` is an owner or a name.
fn is_segment_chars(chars: &Vec<char>) -> (segment: bool)
    ensures
        segment == is_segment(chars@),
{
    if chars.len() == 0 {
        return false;
    }
    if chars.len() == 1 && chars[0] == '.' {
        assert(chars@ =~= seq!['.']);
        return false;
    }
    if chars.len() == 2 && chars[0] == '.' && chars[1] == '.' {
        assert(chars@ =~= seq!['.', '.']);
        return false;
    }
    assert(chars@ != seq!['.'] && chars@ != seq!['.', '.']) by {
        if chars@.len() == 1 {
            assert(chars@[0] != seq!['.'][0]);
        }
        if chars@.len() == 2 {
            assert(chars@[0] != seq!['.', '.'][0] || chars@[1] != seq!['.', '.'][1]);
        }
    }
    let mut i: usize = 0;
    while i < chars.len()
        invariant
            i <= chars@.len(),
            forall|k: int| 0 <= k < i ==> #[trigger] is_slug_char(chars@[k]),
        decreases chars@.len() - i,
    {
        let c = chars[i];
        if !(('a' <= c && c <= 'z') || ('A' <= c && c <= 'Z') || ('0' <= c && c <= '9') || c == '_'
            || c == '.' || c == '-') {
            assert(!is_slug_char(chars@[i as int]));
            return false;
        }
        i = i + 1;
    }
    true
}

} // verus!
