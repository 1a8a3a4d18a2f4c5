//! Reading the command line. Written by hand: the arguments are only
//! `[DIR] [--stale-days N] [--no-github]`.

use vstd::prelude::*;

use crate::argument::{Argument, ArgumentView, argument_of};
use crate::github_access::GithubAccess;
use crate::invocation::{Invocation, InvocationView};
use crate::options::{Options, OptionsView};
use crate::text::{bounded_decimal, chars_of, decimal_u64, same_chars};
use crate::usage_error::{UsageError, UsageErrorView};

verus! {

/// The default of `--stale-days`.
pub const DEFAULT_STALE_DAYS: u32 = 30;

/// The directory surveyed when none is given: where the command runs.
pub const DEFAULT_DIRECTORY: &'static str = ".";

/// A number of days as `u32::from_str` reads it: an optional `+`, then one or
/// more ASCII digits, at most `u32::MAX`.
pub open spec fn u32_of(text: Seq<char>) -> Option<u32> {
    let digits = if text.len() > 0 && text[0] == '+' {
        text.drop_first()
    } else {
        text
    };
    match bounded_decimal(digits, u32::MAX as nat) {
        Some(n) => Some(n as u32),
        None => None,
    }
}

/// Where the first `--` is; the arguments before it are read as flags.
pub open spec fn separator_of(arguments: Seq<Seq<char>>) -> Option<int> {
    if exists|i: int| 0 <= i < arguments.len() && arguments[i] == "--"@ {
        Some(
            choose|i: int|
                0 <= i < arguments.len() && arguments[i] == "--"@ && forall|j: int|
                    0 <= j < i ==> arguments[j] != "--"@,
        )
    } else {
        None
    }
}

/// What has been read of the arguments before `--`.
pub struct Reading {
    pub stale_days: Option<u32>,
    pub github: GithubAccess,
    pub positional: Seq<Seq<char>>,
}

/// How reading the arguments before `--` ends.
pub enum Ending {
    Read(Reading),
    Help,
    Version,
}

/// Reads `head[i..]` after `reading`. `--help` and `--version` win over what
/// follows them; an error stops the reading.
pub open spec fn read_from(head: Seq<Seq<char>>, i: int, reading: Reading) -> Result<Ending, UsageErrorView>
    decreases head.len() - i,
{
    if i < 0 || i >= head.len() {
        Ok(Ending::Read(reading))
    } else {
        match argument_of(head[i]) {
            ArgumentView::StaleDays => if reading.stale_days is Some {
                Err(UsageErrorView::RepeatedStaleDays)
            } else if i + 1 >= head.len() {
                Err(UsageErrorView::StaleDaysWithoutValue)
            } else {
                match u32_of(head[i + 1]) {
                    Some(days) => read_from(head, i + 2, Reading { stale_days: Some(days), ..reading }),
                    None => Err(UsageErrorView::StaleDaysNotANumber(head[i + 1])),
                }
            },
            ArgumentView::NoGithub => read_from(head, i + 1, Reading { github: GithubAccess::Skip, ..reading }),
            ArgumentView::Help => Ok(Ending::Help),
            ArgumentView::Version => Ok(Ending::Version),
            ArgumentView::Positional(text) => read_from(
                head,
                i + 1,
                Reading { positional: reading.positional.push(text), ..reading },
            ),
            ArgumentView::Unknown => Err(UsageErrorView::Arguments),
        }
    }
}

/// Nothing read yet.
pub open spec fn first_reading() -> Reading {
    Reading { stale_days: None, github: GithubAccess::Query, positional: Seq::empty() }
}

/// What the arguments ask for.
pub open spec fn invocation_of(arguments: Seq<Seq<char>>) -> Result<InvocationView, UsageErrorView> {
    let (head, tail) = match separator_of(arguments) {
        Some(at) => (arguments.take(at), arguments.skip(at + 1)),
        None => (arguments, Seq::empty()),
    };
    finish(read_from(head, 0, first_reading()), tail)
}

/// What the arguments ask for, once those before `--` are read: the places
/// are what was read as such and all that follows `--`.
pub open spec fn finish(read: Result<Ending, UsageErrorView>, tail: Seq<Seq<char>>) -> Result<InvocationView, UsageErrorView> {
    match read {
        Err(error) => Err(error),
        Ok(Ending::Help) => Ok(InvocationView::Help),
        Ok(Ending::Version) => Ok(InvocationView::Version),
        Ok(Ending::Read(reading)) => {
            let places = reading.positional + tail;
            let stale_days = match reading.stale_days {
                Some(days) => days,
                None => DEFAULT_STALE_DAYS,
            };
            if places.len() == 0 {
                Ok(
                    InvocationView::Report(
                        OptionsView { directory: DEFAULT_DIRECTORY@, stale_days, github: reading.github },
                    ),
                )
            } else if places.len() == 1 {
                Ok(
                    InvocationView::Report(
                        OptionsView { directory: places[0], stale_days, github: reading.github },
                    ),
                )
            } else {
                Err(UsageErrorView::Arguments)
            }
        },
    }
}

/// `read` with `before` put in front of the places it read.
pub open spec fn with_places_before(read: Result<Ending, UsageErrorView>, before: Seq<Seq<char>>) -> Result<Ending, UsageErrorView> {
    match read {
        Ok(Ending::Read(r)) => Ok(Ending::Read(Reading { positional: before + r.positional, ..r })),
        other => other,
    }
}

/// `read` with `place` added after the places it read.
pub open spec fn with_place_after(read: Result<Ending, UsageErrorView>, place: Seq<char>) -> Result<Ending, UsageErrorView> {
    match read {
        Ok(Ending::Read(r)) => Ok(Ending::Read(Reading { positional: r.positional.push(place), ..r })),
        other => other,
    }
}

proof fn lemma_read_shifted(x: Seq<Seq<char>>, head: Seq<Seq<char>>, i: int, reading: Reading)
    requires
        0 <= i,
    ensures
        read_from(x + head, x.len() + i, reading) == read_from(head, i, reading),
    decreases head.len() - i,
{
    let all = x + head;
    if i < head.len() {
        assert(all[x.len() + i] == head[i]);
        if i + 1 < head.len() {
            assert(all[x.len() + i + 1] == head[i + 1]);
        }
        match argument_of(head[i]) {
            ArgumentView::StaleDays => {
                if !(reading.stale_days is Some) && i + 1 < head.len() {
                    match u32_of(head[i + 1]) {
                        Some(days) => lemma_read_shifted(x, head, i + 2, Reading { stale_days: Some(days), ..reading }),
                        None => {},
                    }
                }
            },
            ArgumentView::NoGithub => lemma_read_shifted(x, head, i + 1, Reading { github: GithubAccess::Skip, ..reading }),
            ArgumentView::Positional(text) => lemma_read_shifted(
                x,
                head,
                i + 1,
                Reading { positional: reading.positional.push(text), ..reading },
            ),
            _ => {},
        }
    }
}

proof fn lemma_places_before(head: Seq<Seq<char>>, i: int, reading: Reading, before: Seq<Seq<char>>)
    requires
        0 <= i,
    ensures
        read_from(head, i, Reading { positional: before + reading.positional, ..reading })
            == with_places_before(read_from(head, i, reading), before),
    decreases head.len() - i,
{
    let shifted = Reading { positional: before + reading.positional, ..reading };
    if i < head.len() {
        match argument_of(head[i]) {
            ArgumentView::StaleDays => {
                if !(reading.stale_days is Some) && i + 1 < head.len() {
                    match u32_of(head[i + 1]) {
                        Some(days) => {
                            lemma_places_before(head, i + 2, Reading { stale_days: Some(days), ..reading }, before);
                            assert(Reading { stale_days: Some(days), ..shifted } == Reading {
                                positional: before + reading.positional,
                                ..Reading { stale_days: Some(days), ..reading }
                            });
                        },
                        None => {},
                    }
                }
            },
            ArgumentView::NoGithub => {
                lemma_places_before(head, i + 1, Reading { github: GithubAccess::Skip, ..reading }, before);
                assert(Reading { github: GithubAccess::Skip, ..shifted } == Reading {
                    positional: before + reading.positional,
                    ..Reading { github: GithubAccess::Skip, ..reading }
                });
            },
            ArgumentView::Positional(text) => {
                let next = Reading { positional: reading.positional.push(text), ..reading };
                lemma_places_before(head, i + 1, next, before);
                assert(shifted.positional.push(text) =~= before + next.positional);
                assert(Reading { positional: shifted.positional.push(text), ..shifted } == Reading {
                    positional: before + next.positional,
                    ..next
                });
            },
            _ => {},
        }
    } else {
        assert(with_places_before(Ok(Ending::Read(reading)), before) == Ok::<Ending, UsageErrorView>(
            Ending::Read(shifted),
        ));
    }
}

proof fn lemma_place_after(head: Seq<Seq<char>>, i: int, reading: Reading, place: Seq<char>)
    requires
        0 <= i <= head.len(),
        argument_of(place) is Positional,
        read_from(head, i, reading) != Err::<Ending, UsageErrorView>(UsageErrorView::StaleDaysWithoutValue),
    ensures
        read_from(head.push(place), i, reading) == with_place_after(read_from(head, i, reading), place),
    decreases head.len() - i,
{
    let longer = head.push(place);
    if i < head.len() {
        assert(longer[i] == head[i]);
        if i + 1 < head.len() {
            assert(longer[i + 1] == head[i + 1]);
        }
        match argument_of(head[i]) {
            ArgumentView::StaleDays => {
                if !(reading.stale_days is Some) && i + 1 < head.len() {
                    match u32_of(head[i + 1]) {
                        Some(days) => lemma_place_after(head, i + 2, Reading { stale_days: Some(days), ..reading }, place),
                        None => {},
                    }
                }
            },
            ArgumentView::NoGithub => lemma_place_after(head, i + 1, Reading { github: GithubAccess::Skip, ..reading }, place),
            ArgumentView::Positional(text) => lemma_place_after(
                head,
                i + 1,
                Reading { positional: reading.positional.push(text), ..reading },
                place,
            ),
            _ => {},
        }
    } else {
        assert(longer[i] == place);
        let next = Reading { positional: reading.positional.push(place), ..reading };
        assert(read_from(longer, i + 1, next) == Ok::<Ending, UsageErrorView>(Ending::Read(next)));
    }
}

/// A directory may stand before the flags or after them: the run is the same.
///
/// Stated for flags that hold no `--` and that read on their own without a
/// `--stale-days` missing its value: `--stale-days` followed by the directory
/// reads the directory as the number of days (and refuses it, or takes it).
pub proof fn law_the_directory_may_come_before_or_after_the_flags(place: Seq<char>, flags: Seq<Seq<char>>)
    requires
        argument_of(place) is Positional,
        forall|i: int| 0 <= i < flags.len() ==> flags[i] != "--"@,
        read_from(flags, 0, first_reading()) != Err::<Ending, UsageErrorView>(
            UsageErrorView::StaleDaysWithoutValue,
        ),
    ensures
        invocation_of(seq![place] + flags) == invocation_of(flags.push(place)),
{
    reveal_strlit("--");
    reveal_strlit("--stale-days");
    reveal_strlit("--no-github");
    reveal_strlit("-h");
    reveal_strlit("--help");
    reveal_strlit("-V");
    reveal_strlit("--version");
    let first = seq![place] + flags;
    let last = flags.push(place);
    assert("--"@.len() == 2 && "--"@[0] == '-' && "--"@[1] == '-');
    assert("--"@ != "--stale-days"@ && "--"@ != "--no-github"@ && "--"@ != "--help"@ && "--"@ != "--version"@);
    assert("-h"@[1] == 'h' && "-V"@[1] == 'V');
    assert("--"@ != "-h"@ && "--"@ != "-V"@);
    assert(argument_of("--"@) is Unknown);
    assert(place != "--"@);
    assert(!exists|i: int| 0 <= i < first.len() && first[i] == "--"@) by {
        assert forall|i: int| 0 <= i < first.len() implies first[i] != "--"@ by {
            if i > 0 {
                assert(first[i] == flags[i - 1]);
            }
        }
    }
    assert(!exists|i: int| 0 <= i < last.len() && last[i] == "--"@) by {
        assert forall|i: int| 0 <= i < last.len() implies last[i] != "--"@ by {
            if i < flags.len() {
                assert(last[i] == flags[i]);
            }
        }
    }
    let start = Reading { positional: seq![place], ..first_reading() };
    assert(first[0] == place);
    assert(read_from(first, 0, first_reading()) == read_from(first, 1, start));
    lemma_read_shifted(seq![place], flags, 0, start);
    lemma_places_before(flags, 0, first_reading(), seq![place]);
    assert(start == Reading { positional: seq![place] + first_reading().positional, ..first_reading() });
    lemma_place_after(flags, 0, first_reading(), place);
    let read = read_from(flags, 0, first_reading());
    match read {
        Ok(Ending::Read(r)) => {
            let a = seq![place] + r.positional;
            let b = r.positional.push(place);
            assert(a.len() == b.len());
            if a.len() == 1 {
                assert(a =~= b);
            }
            assert(a + Seq::<Seq<char>>::empty() =~= a);
            assert(b + Seq::<Seq<char>>::empty() =~= b);
        },
        _ => {},
    }
}

/// The view of a parse result.
pub open spec fn parsed_view(parsed: Result<Invocation, UsageError>) -> Result<InvocationView, UsageErrorView> {
    match parsed {
        Ok(invocation) => Ok(invocation@),
        Err(error) => Err(error@),
    }
}

/// Reads the arguments (without the program's name).
///
/// After `--` nothing is read as a flag; before it, flags may stand anywhere.
/// Without a directory, the place where the command runs (`.`) is surveyed.
///
/// An unknown flag, two or more directories, and a `--stale-days` without a
/// value, with a value that is not a number, or given twice, are usage errors.
pub fn parse(arguments: &[String]) -> (parsed: Result<Invocation, UsageError>)
    ensures
        parsed_view(parsed) == invocation_of(arguments@.map_values(|a: String| a@)),
{
    let ghost all = arguments@.map_values(|a: String| a@);
    let (head_len, tail_start) = split_at_separator(arguments);
    let ghost head = all.take(head_len as int);
    let ghost tail = all.skip(tail_start as int);
    proof {
        match separator_of(all) {
            Some(at) => {
                assert(head_len == at && tail_start == at + 1);
            },
            None => {
                assert(head =~= all);
                assert(tail =~= Seq::<Seq<char>>::empty());
            },
        }
    }
    let mut stale_days: Option<u32> = None;
    let mut github = GithubAccess::Query;
    let mut positional: Vec<String> = Vec::new();
    assert(positional@.map_values(|p: String| p@) =~= Seq::<Seq<char>>::empty());
    let mut i: usize = 0;
    while i < head_len
        invariant
            head_len <= arguments@.len(),
            all == arguments@.map_values(|a: String| a@),
            head == all.take(head_len as int),
            tail == all.skip(tail_start as int),
            tail_start <= arguments@.len(),
            invocation_of(all) == finish(read_from(head, 0, first_reading()), tail),
            i <= head_len,
            read_from(head, 0, first_reading()) == read_from(
                head,
                i as int,
                Reading {
                    stale_days,
                    github,
                    positional: positional@.map_values(|p: String| p@),
                },
            ),
        decreases head_len - i,
    {
        let ghost reading = Reading {
            stale_days,
            github,
            positional: positional@.map_values(|p: String| p@),
        };
        assert(head[i as int] == arguments@[i as int]@);
        let argument = arguments[i].as_str();
        match Argument::read(argument) {
            Argument::StaleDays => {
                if stale_days.is_some() {
                    return Err(UsageError::RepeatedStaleDays);
                }
                if i + 1 >= head_len {
                    return Err(UsageError::StaleDaysWithoutValue);
                }
                assert(head[i + 1] == arguments@[i + 1]@);
                let text = arguments[i + 1].as_str();
                match read_u32(text) {
                    Some(days) => {
                        stale_days = Some(days);
                    },
                    None => {
                        return Err(UsageError::StaleDaysNotANumber(arguments[i + 1].clone()));
                    },
                }
                i = i + 2;
            },
            Argument::NoGithub => {
                github = GithubAccess::Skip;
                i = i + 1;
            },
            Argument::Help => {
                return Ok(Invocation::Help);
            },
            Argument::Version => {
                return Ok(Invocation::Version);
            },
            Argument::Positional(text) => {
                let ghost before = positional@;
                positional.push(arguments[i].clone());
                assert(positional@.map_values(|p: String| p@) =~= before.map_values(|p: String| p@).push(
                    text@,
                ));
                i = i + 1;
            },
            Argument::Unknown => {
                return Err(UsageError::Arguments);
            },
        }
    }
    let mut k: usize = tail_start;
    let ghost read = positional@.map_values(|p: String| p@);
    while k < arguments.len()
        invariant
            tail_start <= k <= arguments@.len(),
            all == arguments@.map_values(|a: String| a@),
            tail == all.skip(tail_start as int),
            invocation_of(all) == finish(read_from(head, 0, first_reading()), tail),
            read_from(head, 0, first_reading()) == read_from(
                head,
                head_len as int,
                Reading { stale_days, github, positional: read },
            ),
            head_len == head.len(),
            positional@.map_values(|p: String| p@) == read + tail.take(k - tail_start),
        decreases arguments@.len() - k,
    {
        let ghost before = positional@;
        positional.push(arguments[k].clone());
        assert(tail.take(k + 1 - tail_start) =~= tail.take(k - tail_start).push(arguments@[k as int]@));
        assert(positional@.map_values(|p: String| p@) =~= before.map_values(|p: String| p@).push(
            arguments@[k as int]@,
        ));
        k = k + 1;
    }
    assert(tail.take(arguments@.len() - tail_start) =~= tail);
    let directory = match place(positional) {
        Ok(directory) => directory,
        Err(error) => return Err(error),
    };
    let days = match stale_days {
        Some(days) => days,
        None => DEFAULT_STALE_DAYS,
    };
    proof {
        reveal_strlit(".");
    }
    Ok(Invocation::Report(Options::new(directory, days, github)))
}

/// The value of `--stale-days`, as `u32::from_str` reads it.
fn read_u32(text: &str) -> (days: Option<u32>)
    ensures
        days == u32_of(text@),
{
    let chars = chars_of(text);
    let from: usize = if chars.len() > 0 && chars[0] == '+' {
        1
    } else {
        0
    };
    let ghost digits = if text@.len() > 0 && text@[0] == '+' {
        text@.drop_first()
    } else {
        text@
    };
    assert(chars@.subrange(from as int, chars@.len() as int) =~= digits);
    match decimal_u64(&chars, from, chars.len()) {
        Some(value) => {
            if value <= u32::MAX as u64 {
                Some(value as u32)
            } else {
                None
            }
        },
        None => None,
    }
}

/// The place to survey: `.` when none is given; two or more are an error.
///
/// The tool looks at the repositories lying directly in one directory. With
/// two places, two rows could bear the same name and the order would mean nothing.
fn place(paths: Vec<String>) -> (directory: Result<String, UsageError>)
    ensures
        paths@.len() == 0 ==> (directory matches Ok(d) && d@ == DEFAULT_DIRECTORY@),
        paths@.len() == 1 ==> (directory matches Ok(d) && d@ == paths@[0]@),
        paths@.len() > 1 ==> (directory matches Err(e) && e@ == UsageErrorView::Arguments),
{
    if paths.len() == 0 {
        Ok(String::from_str(DEFAULT_DIRECTORY))
    } else if paths.len() == 1 {
        Ok(paths[0].clone())
    } else {
        Err(UsageError::Arguments)
    }
}

/// Splits at the first `--`: the arguments before it, and where those after it
/// start. Without one, all are before it.
fn split_at_separator(arguments: &[String]) -> (split: (usize, usize))
    ensures
        separator_of(arguments@.map_values(|a: String| a@)) matches Some(at) ==> split.0 == at
            && split.1 == at + 1,
        separator_of(arguments@.map_values(|a: String| a@)) is None ==> split.0 == arguments@.len()
            && split.1 == arguments@.len(),
        split.0 <= arguments@.len(),
        split.1 <= arguments@.len(),
{
    let ghost all = arguments@.map_values(|a: String| a@);
    let separator = chars_of("--");
    let mut i: usize = 0;
    while i < arguments.len()
        invariant
            i <= arguments@.len(),
            all == arguments@.map_values(|a: String| a@),
            separator@ == "--"@,
            forall|j: int| 0 <= j < i ==> all[j] != "--"@,
        decreases arguments@.len() - i,
    {
        assert(all[i as int] == arguments@[i as int]@);
        if same_chars(&chars_of(arguments[i].as_str()), &separator) {
            let ghost at = i as int;
            assert(0 <= at < all.len() && all[at] == "--"@ && forall|j: int| 0 <= j < at ==> all[j] != "--"@);
            let ghost chosen = choose|c: int|
                0 <= c < all.len() && all[c] == "--"@ && forall|j: int| 0 <= j < c ==> all[j] != "--"@;
            assert(chosen == at) by {
                if chosen < at {
                    assert(all[chosen] != "--"@);
                } else if chosen > at {
                    assert(all[at] != "--"@);
                }
            }
            return (i, i + 1);
        }
        i = i + 1;
    }
    (arguments.len(), arguments.len())
}

} // verus!
