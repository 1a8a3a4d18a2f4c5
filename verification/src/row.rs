//! One line of the table (one repository).

use vstd::prelude::*;

use crate::ci_state::CiState;
use crate::freshness::Freshness;
use crate::head::{Head, HeadView};
use crate::local_report::{LocalReport, LocalReportView};
use crate::remote_report::{RemoteReport, RemoteReportView};
use crate::branch_list::stale_count_of;
use crate::stale_count::StaleCount;
use crate::text::{decimal_string, decimal_text};

verus! {

/// How many columns the table has.
pub const COLUMN_COUNT: usize = 7;

/// One line of the table: a directory name and the two reports.
///
/// A row holds what was asked, not what came back: the row of a failed
/// repository is not dropped, so there are as many rows as repositories.
#[derive(Debug, Clone, PartialEq, Eq)]
pub struct Row {
    name: String,
    local: LocalReport,
    remote: RemoteReport,
}

/// The meaning of a [`Row`].
pub struct RowView {
    pub name: Seq<char>,
    pub local: LocalReportView,
    pub remote: RemoteReportView,
}

impl View for Row {
    type V = RowView;

    closed spec fn view(&self) -> RowView {
        RowView { name: self.name@, local: self.local@, remote: self.remote@ }
    }
}

/// The mark of what could not be had.
pub open spec fn unknown_mark() -> Seq<char> {
    "?"@
}

/// The mark of what was not asked (a repository that is not on GitHub).
pub open spec fn not_applicable_mark() -> Seq<char> {
    "n/a"@
}

/// The mark of zero, or of nothing to show.
pub open spec fn nothing_mark() -> Seq<char> {
    "-"@
}

/// A count: `-` for 0, else the number.
pub open spec fn count_text(count: u32) -> Seq<char> {
    if count == 0 {
        nothing_mark()
    } else {
        decimal_text(count as nat)
    }
}

/// The `BRANCH` column.
pub open spec fn branch_text(local: LocalReportView) -> Seq<char> {
    match local {
        LocalReportView::State(state) => match state.head {
            HeadView::Branch(name) => name,
            HeadView::Detached => "(detached)"@,
        },
        LocalReportView::Unavailable => unknown_mark(),
    }
}

/// The `DIRTY` column.
pub open spec fn dirty_text(local: LocalReportView) -> Seq<char> {
    match local {
        LocalReportView::State(state) => count_text(state.dirty),
        LocalReportView::Unavailable => unknown_mark(),
    }
}

/// `+2/-1`; one side alone when the other is 0; `-` when both are.
pub open spec fn divergence_text(ahead: u32, behind: u32) -> Seq<char> {
    if ahead == 0 && behind == 0 {
        nothing_mark()
    } else if behind == 0 {
        "+"@ + decimal_text(ahead as nat)
    } else if ahead == 0 {
        "-"@ + decimal_text(behind as nat)
    } else {
        "+"@ + decimal_text(ahead as nat) + "/-"@ + decimal_text(behind as nat)
    }
}

/// The `AHEAD/BEHIND` column: `(none)` without an upstream.
pub open spec fn divergence_column(local: LocalReportView) -> Seq<char> {
    match local {
        LocalReportView::State(state) => match state.upstream {
            Some(_) => divergence_text(state.ahead, state.behind),
            None => "(none)"@,
        },
        LocalReportView::Unavailable => unknown_mark(),
    }
}

/// The `PR` column.
pub open spec fn pull_request_text(remote: RemoteReportView) -> Seq<char> {
    match remote {
        RemoteReportView::State(state) => count_text(state.open_pull_requests),
        RemoteReportView::NotOnGithub => not_applicable_mark(),
        RemoteReportView::Unavailable => unknown_mark(),
    }
}

/// The mark of a CI state.
pub open spec fn ci_mark(ci: CiState) -> Seq<char> {
    match ci {
        CiState::Success => "ok"@,
        CiState::Failure => "FAIL"@,
        CiState::Pending => "..."@,
        CiState::Absent => nothing_mark(),
    }
}

/// The `CI` column.
pub open spec fn ci_text(remote: RemoteReportView) -> Seq<char> {
    match remote {
        RemoteReportView::State(state) => ci_mark(state.ci),
        RemoteReportView::NotOnGithub => not_applicable_mark(),
        RemoteReportView::Unavailable => unknown_mark(),
    }
}

/// The `STALE` column: `?` when the branches could not all be counted.
pub open spec fn stale_text(remote: RemoteReportView, today: nat, stale_days: u32) -> Seq<char> {
    match remote {
        RemoteReportView::State(state) => match stale_count_of(
            state.branches,
            state.default_branch,
            today,
            stale_days,
        ) {
            StaleCount::Known(count) => count_text(count),
            StaleCount::Truncated => unknown_mark(),
        },
        RemoteReportView::NotOnGithub => not_applicable_mark(),
        RemoteReportView::Unavailable => unknown_mark(),
    }
}

/// The cells of a row, in the order `REPO BRANCH DIRTY AHEAD/BEHIND PR CI STALE`.
pub open spec fn cells_of(row: RowView, today: nat, stale_days: u32) -> Seq<Seq<char>> {
    seq![
        row.name,
        branch_text(row.local),
        dirty_text(row.local),
        divergence_column(row.local),
        pull_request_text(row.remote),
        ci_text(row.remote),
        stale_text(row.remote, today, stale_days),
    ]
}

/// No cell of `cells` is `?`.
pub open spec fn all_known(cells: Seq<Seq<char>>) -> bool {
    forall|c: int| 0 <= c < cells.len() ==> cells[c] != unknown_mark()
}

impl Row {
    /// Makes a row from a directory name and the two reports.
    pub fn new(name: String, local: LocalReport, remote: RemoteReport) -> (row: Self)
        ensures
            row@ == (RowView { name: name@, local: local@, remote: remote@ }),
    {
        Row { name, local, remote }
    }

    /// The directory name. The rows are ordered by it.
    pub fn name(&self) -> (name: &str)
        ensures
            name@ == self@.name,
    {
        self.name.as_str()
    }

    /// Whether this row is settled: it shows no `?`.
    ///
    /// Decided by the text the table shows, so that the table and the exit
    /// code cannot drift apart.
    pub fn is_complete(&self, freshness: &Freshness) -> (complete: bool)
        ensures
            complete == all_known(cells_of(self@, freshness@.0, freshness@.1)),
    {
        let cells = self.cells(freshness);
        let ghost views = cells_of(self@, freshness@.0, freshness@.1);
        let mut c: usize = 0;
        while c < cells.len()
            invariant
                c <= cells@.len(),
                views == cells_of(self@, freshness@.0, freshness@.1),
                cells@.len() == views.len(),
                forall|k: int| 0 <= k < cells@.len() ==> #[trigger] cells@[k]@ == views[k],
                forall|k: int| 0 <= k < c ==> views[k] != unknown_mark(),
            decreases cells@.len() - c,
        {
            if is_unknown(cells[c].as_str()) {
                assert(views[c as int] == unknown_mark());
                return false;
            }
            c = c + 1;
        }
        true
    }

    /// The text of each column, in the order `REPO BRANCH DIRTY AHEAD/BEHIND PR CI STALE`.
    pub fn cells(&self, freshness: &Freshness) -> (cells: Vec<String>)
        ensures
            cells@.len() == COLUMN_COUNT,
            forall|c: int|
                0 <= c < cells@.len() ==> #[trigger] cells@[c]@ == cells_of(
                    self@,
                    freshness@.0,
                    freshness@.1,
                )[c],
    {
        let mut cells: Vec<String> = Vec::new();
        cells.push(self.name.clone());
        cells.push(branch_cell(&self.local));
        cells.push(dirty_cell(&self.local));
        cells.push(divergence_cell(&self.local));
        cells.push(pull_request_cell(&self.remote));
        cells.push(ci_cell(&self.remote));
        cells.push(stale_cell(&self.remote, freshness));
        cells
    }
}

/// Whether `cell` is the mark `?`.
fn is_unknown(cell: &str) -> (unknown: bool)
    ensures
        unknown == (cell@ == unknown_mark()),
{
    proof {
        reveal_strlit("?");
    }
    if cell.unicode_len() != 1 {
        return false;
    }
    let first = cell.get_char(0);
    if first == '?' {
        assert(cell@ =~= unknown_mark());
        true
    } else {
        assert(unknown_mark()[0] == '?');
        false
    }
}

/// `-` for 0, else the number.
fn count_cell(count: u32) -> (cell: String)
    ensures
        cell@ == count_text(count),
{
    if count == 0 {
        return String::from_str("-");
    }
    decimal_string(count as u64)
}

/// The `BRANCH` column.
fn branch_cell(local: &LocalReport) -> (cell: String)
    ensures
        cell@ == branch_text(local@),
{
    match local {
        LocalReport::State(state) => match state.head() {
            Head::Branch(name) => name.clone(),
            Head::Detached => String::from_str("(detached)"),
        },
        LocalReport::Unavailable => String::from_str("?"),
    }
}

/// The `DIRTY` column.
fn dirty_cell(local: &LocalReport) -> (cell: String)
    ensures
        cell@ == dirty_text(local@),
{
    match local {
        LocalReport::State(state) => count_cell(state.dirty()),
        LocalReport::Unavailable => String::from_str("?"),
    }
}

/// The `AHEAD/BEHIND` column. `(none)` without an upstream.
fn divergence_cell(local: &LocalReport) -> (cell: String)
    ensures
        cell@ == divergence_column(local@),
{
    match local {
        LocalReport::State(state) => match state.upstream() {
            Some(_) => divergence_cell_text(state.ahead(), state.behind()),
            None => String::from_str("(none)"),
        },
        LocalReport::Unavailable => String::from_str("?"),
    }
}

/// `+2/-1`; one side alone when the other is 0; `-` when both are.
fn divergence_cell_text(ahead: u32, behind: u32) -> (cell: String)
    ensures
        cell@ == divergence_text(ahead, behind),
{
    if ahead == 0 && behind == 0 {
        String::from_str("-")
    } else if behind == 0 {
        let mut cell = String::from_str("+");
        let number = decimal_string(ahead as u64);
        cell.append(number.as_str());
        cell
    } else if ahead == 0 {
        let mut cell = String::from_str("-");
        let number = decimal_string(behind as u64);
        cell.append(number.as_str());
        cell
    } else {
        let mut cell = String::from_str("+");
        let number = decimal_string(ahead as u64);
        cell.append(number.as_str());
        cell.append("/-");
        let number = decimal_string(behind as u64);
        cell.append(number.as_str());
        cell
    }
}

/// The `PR` column.
fn pull_request_cell(remote: &RemoteReport) -> (cell: String)
    ensures
        cell@ == pull_request_text(remote@),
{
    match remote {
        RemoteReport::State(state) => count_cell(state.open_pull_requests()),
        RemoteReport::NotOnGithub => String::from_str("n/a"),
        RemoteReport::Unavailable => String::from_str("?"),
    }
}

/// The `CI` column.
fn ci_cell(remote: &RemoteReport) -> (cell: String)
    ensures
        cell@ == ci_text(remote@),
{
    match remote {
        RemoteReport::State(state) => match state.ci() {
            CiState::Success => String::from_str("ok"),
            CiState::Failure => String::from_str("FAIL"),
            CiState::Pending => String::from_str("..."),
            CiState::Absent => String::from_str("-"),
        },
        RemoteReport::NotOnGithub => String::from_str("n/a"),
        RemoteReport::Unavailable => String::from_str("?"),
    }
}

/// The `STALE` column. `?` when the branches could not all be counted.
fn stale_cell(remote: &RemoteReport, freshness: &Freshness) -> (cell: String)
    ensures
        cell@ == stale_text(remote@, freshness@.0, freshness@.1),
{
    match remote {
        RemoteReport::State(state) => match state.stale_branches(freshness) {
            StaleCount::Known(count) => count_cell(count),
            StaleCount::Truncated => String::from_str("?"),
        },
        RemoteReport::NotOnGithub => String::from_str("n/a"),
        RemoteReport::Unavailable => String::from_str("?"),
    }
}

} // verus!
