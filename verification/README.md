# fleet-top

The state of dozens of git repositories on one screen: for every repository
directly under a directory, the branch, the uncommitted entries, how far it is
from its upstream, the open pull requests, the CI state of the default branch,
and the stale branches.

```text
REPO   BRANCH      DIRTY  AHEAD/BEHIND  PR   CI    STALE
alpha  main        -      -             -    ok    -
beta   feat/login  3      +2/-1         1    FAIL  2
gamma  (detached)  -      (none)        n/a  n/a   n/a
```

`-` is zero or nothing to report, `n/a` a repository whose origin is not on
GitHub, `?` a value that could not be read (with one line on stderr saying
why; the row is kept). The exit code is 0 when no `?` is shown, 1 when one is,
and 2 for a usage error or an unreadable directory or clock.

## Layout

- `src/` is the library, written in Verus and verified: the porcelain v2 reader
  for `git status`, the JSON reader and the GraphQL query and response for
  GitHub, the calendar, the table, the command line, and the decisions of a
  run (what is asked, what the answers come to, which reasons are reported).
  Each public function states its result in its contract; the properties that
  span functions are public proof functions named `law_*`.
- `app/` is the program around it: the arguments, the clock, listing the
  directory, running `git` and `gh` in parallel, and printing.
- `tests/` runs the library on concrete inputs.
