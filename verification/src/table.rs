//! Laying out the table: column widths and the order of the rows.

use vstd::prelude::*;

use crate::freshness::Freshness;
use crate::branch_list::stale_count_of;
use crate::remote_report::RemoteReportView;
use crate::row::{COLUMN_COUNT, Row, RowView, cells_of, count_text};
use crate::stale_count::StaleCount;
use crate::text::decimal_text;
use crate::text::chars_of;

verus! {

/// The headings. The columns always come in this order.
pub open spec fn headings() -> Seq<Seq<char>> {
    seq!["REPO"@, "BRANCH"@, "DIRTY"@, "AHEAD/BEHIND"@, "PR"@, "CI"@, "STALE"@]
}

// ---------------------------------------------------------------------------
// The order of the rows.

/// `a` comes before `b`: compared character by character by code point, a
/// proper prefix first. On UTF-8 text this is the order of the bytes.
pub open spec fn name_less(a: Seq<char>, b: Seq<char>) -> bool
    decreases a.len(),
{
    if a.len() == 0 {
        b.len() > 0
    } else if b.len() == 0 {
        false
    } else if a[0] != b[0] {
        b[0] > a[0]
    } else {
        name_less(a.drop_first(), b.drop_first())
    }
}

/// The row at `i` comes before the row at `j`: by name, and rows with the same
/// name in the order they were given.
pub open spec fn row_before(names: Seq<Seq<char>>, i: int, j: int) -> bool {
    name_less(names[i], names[j]) || (names[i] == names[j] && i < j)
}

/// `order` lists each of the first `n` rows once, each before the ones after it.
pub open spec fn is_order_of(names: Seq<Seq<char>>, order: Seq<int>, n: int) -> bool {
    &&& order.len() == n
    &&& forall|k: int| 0 <= k < n ==> 0 <= #[trigger] order[k] < n
    &&& forall|j: int| 0 <= j < n ==> #[trigger] order.contains(j)
    &&& forall|k1: int, k2: int|
        0 <= k1 < k2 < n ==> row_before(names, #[trigger] order[k1], #[trigger] order[k2])
}

/// `order` is the order of the table's rows: sorted by name, stable.
pub open spec fn is_table_order(names: Seq<Seq<char>>, order: Seq<int>) -> bool {
    is_order_of(names, order, names.len() as int)
}

/// The order of the table's rows (there is exactly one: see [`law_the_order_is_unique`]).
pub open spec fn table_order(names: Seq<Seq<char>>) -> Seq<int> {
    choose|order: Seq<int>| is_table_order(names, order)
}

/// The names of `rows`.
pub open spec fn names_of(rows: Seq<RowView>) -> Seq<Seq<char>> {
    rows.map_values(|row: RowView| row.name)
}

/// The texts of `names`.
pub open spec fn texts_of(names: Seq<String>) -> Seq<Seq<char>> {
    names.map_values(|name: String| name@)
}

proof fn lemma_name_less_irreflexive(a: Seq<char>)
    ensures
        !name_less(a, a),
    decreases a.len(),
{
    if a.len() > 0 {
        lemma_name_less_irreflexive(a.drop_first());
    }
}

proof fn lemma_name_less_asymmetric(a: Seq<char>, b: Seq<char>)
    ensures
        name_less(a, b) ==> !name_less(b, a),
    decreases a.len(),
{
    if a.len() > 0 && b.len() > 0 && a[0] == b[0] {
        lemma_name_less_asymmetric(a.drop_first(), b.drop_first());
    }
}

proof fn lemma_name_less_transitive(a: Seq<char>, b: Seq<char>, c: Seq<char>)
    ensures
        name_less(a, b) && name_less(b, c) ==> name_less(a, c),
    decreases a.len(),
{
    if a.len() > 0 && b.len() > 0 && c.len() > 0 {
        lemma_name_less_transitive(a.drop_first(), b.drop_first(), c.drop_first());
    }
}

proof fn lemma_name_less_total(a: Seq<char>, b: Seq<char>)
    ensures
        a != b ==> name_less(a, b) || name_less(b, a),
    decreases a.len(),
{
    if a.len() == 0 && b.len() == 0 {
        assert(a =~= b);
    }
    if a.len() > 0 && b.len() > 0 && a[0] == b[0] {
        lemma_name_less_total(a.drop_first(), b.drop_first());
        if a.drop_first() == b.drop_first() {
            assert(a =~= b) by {
                assert forall|i: int| 0 <= i < a.len() implies a[i] == b[i] by {
                    if i > 0 {
                        assert(a[i] == a.drop_first()[i - 1]);
                        assert(b[i] == b.drop_first()[i - 1]);
                    }
                }
            }
        }
    }
}

proof fn lemma_row_before_transitive(names: Seq<Seq<char>>, i: int, j: int, k: int)
    requires
        row_before(names, i, j),
        row_before(names, j, k),
    ensures
        row_before(names, i, k),
{
    lemma_name_less_transitive(names[i], names[j], names[k]);
}

proof fn lemma_row_before_asymmetric(names: Seq<Seq<char>>, i: int, j: int)
    ensures
        row_before(names, i, j) ==> !row_before(names, j, i),
{
    lemma_name_less_asymmetric(names[i], names[j]);
    lemma_name_less_irreflexive(names[i]);
}

proof fn lemma_order_prefix(names: Seq<Seq<char>>, o1: Seq<int>, o2: Seq<int>, k: int)
    requires
        is_table_order(names, o1),
        is_table_order(names, o2),
        0 <= k < names.len(),
    ensures
        forall|m: int| 0 <= m <= k ==> o1[m] == o2[m],
    decreases k,
{
    let n = names.len() as int;
    if k > 0 {
        lemma_order_prefix(names, o1, o2, k - 1);
    }
    let a = o1[k];
    let b = o2[k];
    if a != b {
        assert(o2.contains(a));
        let p = choose|p: int| 0 <= p < o2.len() && o2[p] == a;
        assert(o1.contains(b));
        let q = choose|q: int| 0 <= q < o1.len() && o1[q] == b;
        lemma_row_before_asymmetric(names, a, a);
        lemma_row_before_asymmetric(names, b, b);
        if p < k {
            assert(o1[p] == a);
            assert(row_before(names, o1[p], o1[k]));
        }
        if q < k {
            assert(o2[q] == b);
            assert(row_before(names, o2[q], o2[k]));
        }
        assert(row_before(names, o2[k], o2[p]));
        assert(row_before(names, o1[k], o1[q]));
        lemma_row_before_asymmetric(names, a, b);
    }
}

/// There is one order of the rows, whatever way it is found: sorting by name
/// and keeping rows of the same name in the order given leaves no choice.
pub proof fn law_the_order_is_unique(names: Seq<Seq<char>>, o1: Seq<int>, o2: Seq<int>)
    requires
        is_table_order(names, o1),
        is_table_order(names, o2),
    ensures
        o1 == o2,
{
    if names.len() > 0 {
        lemma_order_prefix(names, o1, o2, names.len() - 1);
    }
    assert(o1 =~= o2);
}

/// Where `x` goes in `order[k..]`: before the first row whose name comes after its own.
pub open spec fn insert_position(names: Seq<Seq<char>>, order: Seq<int>, x: int, k: int) -> int
    decreases order.len() - k,
{
    if k < 0 || k >= order.len() {
        order.len() as int
    } else if name_less(names[x], names[order[k]]) {
        k
    } else {
        insert_position(names, order, x, k + 1)
    }
}

proof fn lemma_insert_position(names: Seq<Seq<char>>, order: Seq<int>, x: int, k: int)
    requires
        0 <= k <= order.len(),
    ensures
        k <= insert_position(names, order, x, k) <= order.len(),
        forall|m: int|
            k <= m < insert_position(names, order, x, k) ==> !name_less(names[x], names[#[trigger] order[m]]),
        insert_position(names, order, x, k) < order.len() ==> name_less(
            names[x],
            names[order[insert_position(names, order, x, k)]],
        ),
    decreases order.len() - k,
{
    if k < order.len() && !name_less(names[x], names[order[k]]) {
        lemma_insert_position(names, order, x, k + 1);
    }
}

/// An order of the first `n` rows, built by insertion.
proof fn lemma_an_order(names: Seq<Seq<char>>, n: int) -> (order: Seq<int>)
    requires
        0 <= n <= names.len(),
    ensures
        is_order_of(names, order, n),
    decreases n,
{
    if n == 0 {
        Seq::empty()
    } else {
        let x = n - 1;
        let before = lemma_an_order(names, x);
        lemma_insert_position(names, before, x, 0);
        let p = insert_position(names, before, x, 0);
        let after = before.insert(p, x);
        if p > 0 {
            lemma_name_less_total(names[x], names[before[p - 1]]);
        }
        assert forall|k: int| 0 <= k < n implies 0 <= #[trigger] after[k] < n by {
            if k < p {
                assert(after[k] == before[k]);
            } else if k > p {
                assert(after[k] == before[k - 1]);
            }
        }
        assert forall|j: int| 0 <= j < n implies #[trigger] after.contains(j) by {
            if j == x {
                assert(after[p] == j);
            } else {
                assert(before.contains(j));
                let q = choose|q: int| 0 <= q < before.len() && before[q] == j;
                if q < p {
                    assert(after[q] == j);
                } else {
                    assert(after[q + 1] == j);
                }
            }
        }
        assert forall|k1: int, k2: int| 0 <= k1 < k2 < n implies row_before(
            names,
            #[trigger] after[k1],
            #[trigger] after[k2],
        ) by {
            if k2 < p {
                assert(after[k1] == before[k1] && after[k2] == before[k2]);
            } else if k1 > p {
                assert(after[k1] == before[k1 - 1] && after[k2] == before[k2 - 1]);
            } else if k1 < p && k2 > p {
                assert(after[k1] == before[k1] && after[k2] == before[k2 - 1]);
            } else if k1 == p {
                assert(after[k2] == before[k2 - 1]);
                assert(name_less(names[x], names[before[p]]));
                if k2 - 1 > p {
                    assert(row_before(names, before[p], before[k2 - 1]));
                    lemma_name_less_transitive(names[x], names[before[p]], names[before[k2 - 1]]);
                }
            } else {
                assert(after[k1] == before[k1]);
                assert(after[k2] == x);
                assert(before[p - 1] < x);
                assert(!name_less(names[x], names[before[p - 1]]));
                assert(row_before(names, before[p - 1], x));
                if k1 < p - 1 {
                    assert(row_before(names, before[k1], before[p - 1]));
                    lemma_row_before_transitive(names, before[k1], before[p - 1], x);
                }
            }
        }
        after
    }
}

/// Every list of rows has its table order.
pub proof fn lemma_table_order(names: Seq<Seq<char>>)
    ensures
        is_table_order(names, table_order(names)),
{
    let order = lemma_an_order(names, names.len() as int);
    assert(is_table_order(names, order));
}

/// Whether `a` comes before `b` by [`name_less`].
fn precedes(a: &str, b: &str) -> (before: bool)
    ensures
        before == name_less(a@, b@),
{
    let left = chars_of(a);
    let right = chars_of(b);
    let mut i: usize = 0;
    assert(a@.skip(0) =~= a@);
    assert(b@.skip(0) =~= b@);
    while i < left.len() && i < right.len()
        invariant
            i <= left@.len(),
            i <= right@.len(),
            left@ == a@,
            right@ == b@,
            name_less(a@, b@) == name_less(a@.skip(i as int), b@.skip(i as int)),
        decreases left@.len() - i,
    {
        let x = left[i];
        let y = right[i];
        assert(a@.skip(i as int)[0] == x);
        assert(b@.skip(i as int)[0] == y);
        if x != y {
            return y > x;
        }
        assert(a@.skip(i as int).drop_first() =~= a@.skip(i + 1));
        assert(b@.skip(i as int).drop_first() =~= b@.skip(i + 1));
        i = i + 1;
    }
    i < right.len()
}

/// The order of the table's rows, given their names: by insertion, a name
/// going after the equal names that came before it. The positions of `names`,
/// in that order.
pub fn name_order(names: &[String]) -> (order: Vec<usize>)
    ensures
        is_table_order(texts_of(names@), order@.map_values(|i: usize| i as int)),
{
    let rows = names;
    let ghost names = texts_of(rows@);
    let mut order: Vec<usize> = Vec::new();
    let mut i: usize = 0;
    assert(order@.map_values(|x: usize| x as int) =~= Seq::<int>::empty());
    while i < rows.len()
        invariant
            i <= rows@.len(),
            names == texts_of(rows@),
            names.len() == rows@.len(),
            is_order_of(names, order@.map_values(|x: usize| x as int), i as int),
        decreases rows@.len() - i,
    {
        let ghost before = order@.map_values(|x: usize| x as int);
        let name = rows[i].as_str();
        assert(name@ == names[i as int]);
        let mut p: usize = order.len();
        assert forall|m: int| 0 <= m < i implies #[trigger] order@[m] < i by {
            assert(before[m] == order@[m] as int);
        }
        while p > 0 && precedes(name, rows[order[p - 1]].as_str())
            invariant
                p <= order@.len(),
                order@.len() == i,
                before == order@.map_values(|x: usize| x as int),
                names == texts_of(rows@),
                names.len() == rows@.len(),
                i < rows@.len(),
                name@ == names[i as int],
                is_order_of(names, before, i as int),
                forall|m: int| 0 <= m < i ==> #[trigger] order@[m] < i,
                forall|m: int| p <= m < i ==> #[trigger] name_less(names[i as int], names[before[m]]),
            decreases p,
        {
            assert(rows[order[p - 1] as int]@ == names[before[p - 1]]);
            p = p - 1;
        }
        proof {
            if p > 0 {
                assert(rows[order[p - 1] as int]@ == names[before[p - 1]]);
                lemma_name_less_total(names[i as int], names[before[p - 1]]);
            }
        }
        order.insert(p, i);
        let ghost after = order@.map_values(|x: usize| x as int);
        proof {
            assert(after =~= before.insert(p as int, i as int));
            assert forall|k: int| 0 <= k < i + 1 implies 0 <= #[trigger] after[k] < i + 1 by {
                if k < p {
                    assert(after[k] == before[k]);
                } else if k > p {
                    assert(after[k] == before[k - 1]);
                }
            }
            assert forall|j: int| 0 <= j < i + 1 implies #[trigger] after.contains(j) by {
                if j == i {
                    assert(after[p as int] == j);
                } else {
                    assert(before.contains(j));
                    let q = choose|q: int| 0 <= q < before.len() && before[q] == j;
                    if q < p {
                        assert(after[q] == j);
                    } else {
                        assert(after[q + 1] == j);
                    }
                }
            }
            assert forall|k1: int, k2: int| 0 <= k1 < k2 < i + 1 implies row_before(
                names,
                #[trigger] after[k1],
                #[trigger] after[k2],
            ) by {
                if k2 < p {
                    assert(after[k1] == before[k1] && after[k2] == before[k2]);
                } else if k1 > p {
                    assert(after[k1] == before[k1 - 1] && after[k2] == before[k2 - 1]);
                } else if k1 < p && k2 > p {
                    assert(after[k1] == before[k1] && after[k2] == before[k2 - 1]);
                } else if k1 == p {
                    assert(after[k2] == before[k2 - 1]);
                    assert(name_less(names[i as int], names[before[k2 - 1]]));
                } else {
                    // k2 == p and k1 < p: the new row goes after the one just before it.
                    assert(after[k1] == before[k1]);
                    assert(after[k2] == i);
                    assert(before[p - 1] < i);
                    assert(row_before(names, before[p - 1], i as int));
                    if k1 < p - 1 {
                        assert(row_before(names, before[k1], before[p - 1]));
                        lemma_row_before_transitive(names, before[k1], before[p - 1], i as int);
                    }
                }
            }
        }
        i = i + 1;
    }
    order
}

// ---------------------------------------------------------------------------
// The text.

/// The cells of each line: the headings, then each row in the table's order.
pub open spec fn table_lines(rows: Seq<RowView>, today: nat, stale_days: u32) -> Seq<Seq<Seq<char>>> {
    let order = table_order(names_of(rows));
    seq![headings()] + Seq::new(
        rows.len(),
        |k: int| cells_of(rows[order[k]], today, stale_days),
    )
}

/// The width of column `c` over the first `n` lines: its longest cell, in characters.
pub open spec fn column_width(lines: Seq<Seq<Seq<char>>>, c: int, n: nat) -> nat
    decreases n,
{
    if n == 0 {
        0
    } else {
        let before = column_width(lines, c, (n - 1) as nat);
        let here = lines[n - 1][c].len();
        if here > before {
            here
        } else {
            before
        }
    }
}

/// The width of every column.
pub open spec fn column_widths(lines: Seq<Seq<Seq<char>>>) -> Seq<nat> {
    Seq::new(COLUMN_COUNT as nat, |c: int| column_width(lines, c, lines.len()))
}

/// `n` spaces (none when `n` is not positive).
pub open spec fn spaces(n: int) -> Seq<char> {
    Seq::new(
        if n > 0 {
            n as nat
        } else {
            0
        },
        |i: int| ' ',
    )
}

/// The first `m` columns of a line: two spaces between columns, each cell but
/// the last padded with spaces to its column's width.
pub open spec fn columns_text(cells: Seq<Seq<char>>, widths: Seq<nat>, m: nat) -> Seq<char>
    decreases m,
{
    if m == 0 {
        Seq::empty()
    } else {
        let c = m - 1;
        columns_text(cells, widths, c as nat) + (if c == 0 {
            Seq::<char>::empty()
        } else {
            "  "@
        }) + cells[c] + (if c == COLUMN_COUNT - 1 {
            Seq::<char>::empty()
        } else {
            spaces(widths[c] - cells[c].len())
        })
    }
}

/// One line of the table, ending in `\n`. The last column is not padded, so
/// no line ends in a space.
pub open spec fn line_text(cells: Seq<Seq<char>>, widths: Seq<nat>) -> Seq<char> {
    columns_text(cells, widths, COLUMN_COUNT as nat) + "\n"@
}

/// The first `n` lines.
pub open spec fn lines_text(lines: Seq<Seq<Seq<char>>>, widths: Seq<nat>, n: nat) -> Seq<char>
    decreases n,
{
    if n == 0 {
        Seq::empty()
    } else {
        lines_text(lines, widths, (n - 1) as nat) + line_text(lines[n - 1], widths)
    }
}

/// The table of `rows`.
pub open spec fn render_text(rows: Seq<RowView>, today: nat, stale_days: u32) -> Seq<char> {
    let lines = table_lines(rows, today, stale_days);
    lines_text(lines, column_widths(lines), lines.len())
}

/// Lays out the table. The rows are ordered by name (the order of the bytes of
/// UTF-8, which is that of the characters).
///
/// The table does not depend on the order of the input: results gathered in
/// parallel come in any order, and an unsorted table would change from run to
/// run. Rows with the same name stay in the order given (a stable sort).
///
/// A column is as wide as its longest cell in characters (headings included);
/// the last column is not padded. Each line ends in `\n`, without a trailing
/// space. With no rows the headings are still there.
pub fn render(rows: &[Row], freshness: &Freshness) -> (table: String)
    ensures
        table@ == render_text(rows@.map_values(|row: Row| row@), freshness@.0, freshness@.1),
{
    let ghost views = rows@.map_values(|row: Row| row@);
    let ghost names = names_of(views);
    let mut row_names: Vec<String> = Vec::new();
    let mut r: usize = 0;
    while r < rows.len()
        invariant
            r <= rows@.len(),
            views == rows@.map_values(|row: Row| row@),
            texts_of(row_names@) == names_of(views).take(r as int),
        decreases rows@.len() - r,
    {
        let ghost before = row_names@;
        row_names.push(String::from_str(rows[r].name()));
        assert(texts_of(row_names@) =~= texts_of(before).push(views[r as int].name));
        assert(names_of(views).take(r + 1) =~= names_of(views).take(r as int).push(views[r as int].name));
        r = r + 1;
    }
    assert(names_of(views).take(rows@.len() as int) =~= names_of(views));
    let order = name_order(&row_names);
    let ghost ordering = order@.map_values(|i: usize| i as int);
    proof {
        law_the_order_is_unique(names, ordering, table_order(names));
    }
    let ghost lines = table_lines(views, freshness@.0, freshness@.1);
    let mut cells: Vec<Vec<String>> = Vec::new();
    cells.push(heading_cells());
    let mut k: usize = 0;
    while k < order.len()
        invariant
            k <= order@.len(),
            order@.len() == rows@.len(),
            ordering == order@.map_values(|i: usize| i as int),
            views == rows@.map_values(|row: Row| row@),
            is_table_order(names_of(views), ordering),
            ordering == table_order(names_of(views)),
            lines == table_lines(views, freshness@.0, freshness@.1),
            cells@.len() == k + 1,
            forall|l: int, c: int|
                0 <= l < k + 1 && 0 <= c < COLUMN_COUNT ==> #[trigger] cells@[l]@[c]@ == lines[l][c],
            forall|l: int| 0 <= l < k + 1 ==> #[trigger] cells@[l]@.len() == COLUMN_COUNT,
        decreases order@.len() - k,
    {
        let index = order[k];
        assert(ordering[k as int] == index as int);
        let line = rows[index].cells(freshness);
        assert(views[index as int] == rows@[index as int]@);
        cells.push(line);
        k = k + 1;
    }
    let ghost n = lines.len();
    assert(n == cells@.len());
    let widths = widths_of(&cells, Ghost(lines));
    assert forall|m: int| 0 <= m < n implies #[trigger] lines[m].len() == COLUMN_COUNT by {
        if m > 0 {
            assert(lines[m] == cells_of(views[ordering[m - 1]], freshness@.0, freshness@.1));
        }
    }
    let mut table = String::new();
    let mut l: usize = 0;
    while l < cells.len()
        invariant
            l <= cells@.len(),
            n == cells@.len(),
            n == lines.len(),
            widths@.len() == COLUMN_COUNT,
            forall|c: int| 0 <= c < COLUMN_COUNT ==> #[trigger] widths@[c] == column_widths(lines)[c],
            forall|m: int, c: int|
                0 <= m < n && 0 <= c < COLUMN_COUNT ==> #[trigger] cells@[m]@[c]@ == lines[m][c],
            forall|m: int| 0 <= m < n ==> #[trigger] cells@[m]@.len() == COLUMN_COUNT,
            forall|m: int| 0 <= m < n ==> #[trigger] lines[m].len() == COLUMN_COUNT,
            table@ == lines_text(lines, column_widths(lines), l as nat),
        decreases cells@.len() - l,
    {
        push_line(&mut table, &cells[l], &widths, Ghost(lines[l as int]), Ghost(column_widths(lines)));
        l = l + 1;
    }
    table
}

/// The headings, as the first line's cells.
fn heading_cells() -> (cells: Vec<String>)
    ensures
        cells@.len() == COLUMN_COUNT,
        forall|c: int| 0 <= c < COLUMN_COUNT ==> #[trigger] cells@[c]@ == headings()[c],
{
    let mut cells: Vec<String> = Vec::new();
    cells.push(String::from_str("REPO"));
    cells.push(String::from_str("BRANCH"));
    cells.push(String::from_str("DIRTY"));
    cells.push(String::from_str("AHEAD/BEHIND"));
    cells.push(String::from_str("PR"));
    cells.push(String::from_str("CI"));
    cells.push(String::from_str("STALE"));
    cells
}

/// The width of each column: its longest cell, counted in characters, not bytes.
fn widths_of(cells: &Vec<Vec<String>>, Ghost(lines): Ghost<Seq<Seq<Seq<char>>>>) -> (widths: Vec<usize>)
    requires
        cells@.len() == lines.len(),
        forall|m: int, c: int|
            0 <= m < lines.len() && 0 <= c < COLUMN_COUNT ==> #[trigger] cells@[m]@[c]@ == lines[m][c],
        forall|m: int| 0 <= m < lines.len() ==> #[trigger] cells@[m]@.len() == COLUMN_COUNT,
    ensures
        widths@.len() == COLUMN_COUNT,
        forall|c: int| 0 <= c < COLUMN_COUNT ==> #[trigger] widths@[c] == column_widths(lines)[c],
{
    let mut widths: Vec<usize> = Vec::new();
    let mut c: usize = 0;
    while c < COLUMN_COUNT
        invariant
            c <= COLUMN_COUNT,
            widths@.len() == c,
            forall|d: int| 0 <= d < c ==> #[trigger] widths@[d] == column_width(lines, d, 0),
        decreases COLUMN_COUNT - c,
    {
        widths.push(0);
        c = c + 1;
    }
    let mut m: usize = 0;
    while m < cells.len()
        invariant
            m <= cells@.len(),
            cells@.len() == lines.len(),
            forall|k: int, d: int|
                0 <= k < lines.len() && 0 <= d < COLUMN_COUNT ==> #[trigger] cells@[k]@[d]@ == lines[k][d],
            forall|k: int| 0 <= k < lines.len() ==> #[trigger] cells@[k]@.len() == COLUMN_COUNT,
            widths@.len() == COLUMN_COUNT,
            forall|d: int| 0 <= d < COLUMN_COUNT ==> #[trigger] widths@[d] == column_width(lines, d, m as nat),
        decreases cells@.len() - m,
    {
        let mut d: usize = 0;
        while d < COLUMN_COUNT
            invariant
                d <= COLUMN_COUNT,
                m < cells@.len(),
                cells@.len() == lines.len(),
                cells@[m as int]@.len() == COLUMN_COUNT,
                forall|e: int| 0 <= e < COLUMN_COUNT ==> #[trigger] cells@[m as int]@[e]@ == lines[m as int][e],
                widths@.len() == COLUMN_COUNT,
                forall|e: int| 0 <= e < d ==> #[trigger] widths@[e] == column_width(lines, e, (m + 1) as nat),
                forall|e: int| d <= e < COLUMN_COUNT ==> #[trigger] widths@[e] == column_width(lines, e, m as nat),
            decreases COLUMN_COUNT - d,
        {
            let length = cells[m][d].as_str().unicode_len();
            if length > widths[d] {
                widths.set(d, length);
            }
            d = d + 1;
        }
        m = m + 1;
    }
    widths
}

/// Writes one line. The last column is not padded, so the line does not end in a space.
fn push_line(
    table: &mut String,
    cells: &Vec<String>,
    widths: &Vec<usize>,
    Ghost(line): Ghost<Seq<Seq<char>>>,
    Ghost(spec_widths): Ghost<Seq<nat>>,
)
    requires
        cells@.len() == COLUMN_COUNT,
        widths@.len() == COLUMN_COUNT,
        line.len() == COLUMN_COUNT,
        spec_widths.len() == COLUMN_COUNT,
        forall|c: int| 0 <= c < COLUMN_COUNT ==> #[trigger] cells@[c]@ == line[c],
        forall|c: int| 0 <= c < COLUMN_COUNT ==> #[trigger] widths@[c] == spec_widths[c],
    ensures
        final(table)@ == old(table)@ + line_text(line, spec_widths),
{
    let ghost start = table@;
    let mut c: usize = 0;
    while c < COLUMN_COUNT
        invariant
            c <= COLUMN_COUNT,
            cells@.len() == COLUMN_COUNT,
            widths@.len() == COLUMN_COUNT,
            forall|d: int| 0 <= d < COLUMN_COUNT ==> #[trigger] cells@[d]@ == line[d],
            forall|d: int| 0 <= d < COLUMN_COUNT ==> #[trigger] widths@[d] == spec_widths[d],
            table@ == start + columns_text(line, spec_widths, c as nat),
        decreases COLUMN_COUNT - c,
    {
        let ghost before = table@;
        if c != 0 {
            table.append("  ");
        }
        let cell = cells[c].as_str();
        table.append(cell);
        let ghost middle = table@;
        if c != COLUMN_COUNT - 1 {
            let length = cell.unicode_len();
            let pad = if widths[c] > length {
                widths[c] - length
            } else {
                0
            };
            let mut s: usize = 0;
            while s < pad
                invariant
                    s <= pad,
                    table@ == middle + spaces(s as int),
                decreases pad - s,
            {
                proof {
                    reveal_strlit(" ");
                }
                table.append(" ");
                assert(spaces(s as int).push(' ') =~= spaces(s + 1));
                s = s + 1;
            }
            assert(spaces(pad as int) =~= spaces(spec_widths[c as int] - line[c as int].len()));
        }
        proof {
            reveal_strlit("  ");
            reveal_strlit(" ");
        }
        assert(table@ =~= start + columns_text(line, spec_widths, (c + 1) as nat));
        c = c + 1;
    }
    table.append("\n");
    assert(table@ =~= start + line_text(line, spec_widths));
}

// ---------------------------------------------------------------------------
// What holds of every table.

/// `perm` lists each of `0..n` once.
pub open spec fn is_permutation(perm: Seq<int>, n: nat) -> bool {
    &&& perm.len() == n
    &&& forall|k: int| 0 <= k < n ==> 0 <= #[trigger] perm[k] < n
    &&& forall|j: int| 0 <= j < n ==> #[trigger] perm.contains(j)
    &&& forall|k1: int, k2: int| 0 <= k1 < k2 < n ==> #[trigger] perm[k1] != #[trigger] perm[k2]
}

/// No two of `names` are the same.
pub open spec fn distinct_names(names: Seq<Seq<char>>) -> bool {
    forall|i: int, j: int| 0 <= i < j < names.len() ==> #[trigger] names[i] != #[trigger] names[j]
}

/// `perm` keeps rows of equal name in the order they had: of two places
/// whose rows share a name, the earlier one takes the earlier row.
pub open spec fn keeps_equal_names_in_order(names: Seq<Seq<char>>, perm: Seq<int>) -> bool {
    forall|k1: int, k2: int|
        0 <= k1 < k2 < perm.len() && names[perm[k1]] == names[perm[k2]] ==> #[trigger] perm[k1] < #[trigger] perm[k2]
}

/// The table does not depend on the order in which the rows are given, as long
/// as rows of the same name keep their order among themselves (the sort is
/// stable, so only that order is seen): `shuffled` holds the rows of `rows`,
/// the `k`-th being `rows[perm[k]]`.
pub proof fn law_a_stable_reordering_gives_the_same_table(
    rows: Seq<RowView>,
    shuffled: Seq<RowView>,
    perm: Seq<int>,
    today: nat,
    stale_days: u32,
)
    requires
        shuffled.len() == rows.len(),
        is_permutation(perm, rows.len()),
        forall|k: int| 0 <= k < shuffled.len() ==> #[trigger] shuffled[k] == rows[perm[k]],
        keeps_equal_names_in_order(names_of(rows), perm),
    ensures
        render_text(shuffled, today, stale_days) == render_text(rows, today, stale_days),
{
    let n = rows.len() as int;
    let names = names_of(rows);
    let shuffled_names = names_of(shuffled);
    lemma_table_order(shuffled_names);
    let o2 = table_order(shuffled_names);
    let o = Seq::new(n as nat, |k: int| perm[o2[k]]);
    assert forall|k: int| 0 <= k < n implies 0 <= #[trigger] o[k] < n by {
        assert(0 <= o2[k] < n);
    }
    assert forall|j: int| 0 <= j < n implies #[trigger] o.contains(j) by {
        assert(perm.contains(j));
        let q = choose|q: int| 0 <= q < perm.len() && perm[q] == j;
        assert(o2.contains(q));
        let k = choose|k: int| 0 <= k < o2.len() && o2[k] == q;
        assert(o[k] == j);
    }
    assert forall|k1: int, k2: int| 0 <= k1 < k2 < n implies row_before(
        names,
        #[trigger] o[k1],
        #[trigger] o[k2],
    ) by {
        let a = o2[k1];
        let b = o2[k2];
        assert(row_before(shuffled_names, a, b));
        assert(0 <= a < n && 0 <= b < n);
        assert(shuffled_names[a] == names[perm[a]]);
        assert(shuffled_names[b] == names[perm[b]]);
        if !name_less(shuffled_names[a], shuffled_names[b]) {
            assert(shuffled_names[a] == shuffled_names[b] && a < b);
            assert(perm[a] < perm[b]);
        }
    }
    assert(is_table_order(names, o));
    lemma_table_order(names);
    law_the_order_is_unique(names, o, table_order(names));
    let lines = table_lines(rows, today, stale_days);
    let shuffled_lines = table_lines(shuffled, today, stale_days);
    assert forall|k: int| 0 <= k < shuffled_lines.len() implies #[trigger] shuffled_lines[k] == lines[k] by {
        if k > 0 {
            assert(shuffled[o2[k - 1]] == rows[o[k - 1]]);
        }
    }
    assert(shuffled_lines =~= lines);
}

/// With no two rows of the same name, any order of the rows gives the same table.
pub proof fn law_the_input_order_does_not_matter(
    rows: Seq<RowView>,
    shuffled: Seq<RowView>,
    perm: Seq<int>,
    today: nat,
    stale_days: u32,
)
    requires
        shuffled.len() == rows.len(),
        is_permutation(perm, rows.len()),
        forall|k: int| 0 <= k < shuffled.len() ==> #[trigger] shuffled[k] == rows[perm[k]],
        distinct_names(names_of(rows)),
    ensures
        render_text(shuffled, today, stale_days) == render_text(rows, today, stale_days),
{
    let names = names_of(rows);
    assert forall|k1: int, k2: int|
        0 <= k1 < k2 < perm.len() && names[perm[k1]] == names[perm[k2]] implies #[trigger] perm[k1] < #[trigger] perm[k2] by {
        if perm[k1] < perm[k2] {
        } else if perm[k1] > perm[k2] {
            assert(names[perm[k2]] != names[perm[k1]]);
        } else {
            assert(perm[k1] != perm[k2]);
        }
    }
    law_a_stable_reordering_gives_the_same_table(rows, shuffled, perm, today, stale_days);
}

/// One line per row, and every row has its line: the rows are taken in the
/// table's order, which lists each row once.
pub proof fn law_one_line_per_row(rows: Seq<RowView>, today: nat, stale_days: u32)
    ensures
        table_lines(rows, today, stale_days).len() == rows.len() + 1,
        table_lines(rows, today, stale_days)[0] == headings(),
        is_table_order(names_of(rows), table_order(names_of(rows))),
        forall|k: int|
            0 <= k < rows.len() ==> #[trigger] table_lines(rows, today, stale_days)[k + 1] == cells_of(
                rows[table_order(names_of(rows))[k]],
                today,
                stale_days,
            ),
{
    lemma_table_order(names_of(rows));
}

/// The last character before the end of a line is not a space.
pub open spec fn ends_visibly(line: Seq<char>) -> bool {
    line.len() >= 2 && line.last() == '\n' && line[line.len() - 2] != ' '
}

proof fn lemma_decimal_ends_in_a_digit(n: nat)
    ensures
        decimal_text(n).len() > 0,
        decimal_text(n).last() != ' ',
    decreases n,
{
    if n >= 10 {
        lemma_decimal_ends_in_a_digit(n / 10);
    }
}

proof fn lemma_count_ends_visibly(count: u32)
    ensures
        count_text(count).len() > 0,
        count_text(count).last() != ' ',
{
    reveal_strlit("-");
    if count != 0 {
        lemma_decimal_ends_in_a_digit(count as nat);
    }
}

/// No line of the table ends in a space: the last column is not padded, and
/// what it holds (`STALE`, a count, `-`, `?`, `n/a`) never ends in one.
pub proof fn law_no_line_ends_in_a_space(rows: Seq<RowView>, today: nat, stale_days: u32, l: int)
    requires
        0 <= l < rows.len() + 1,
    ensures
        ends_visibly(
            line_text(
                table_lines(rows, today, stale_days)[l],
                column_widths(table_lines(rows, today, stale_days)),
            ),
        ),
{
    let lines = table_lines(rows, today, stale_days);
    let widths = column_widths(lines);
    let cells = lines[l];
    let last = cells[COLUMN_COUNT - 1];
    reveal_strlit("STALE");
    reveal_strlit("?");
    reveal_strlit("n/a");
    reveal_strlit("\n");
    if l > 0 {
        lemma_table_order(names_of(rows));
        let row = rows[table_order(names_of(rows))[l - 1]];
        assert(cells == cells_of(row, today, stale_days));
        match row.remote {
            RemoteReportView::State(state) => match stale_count_of(
                state.branches,
                state.default_branch,
                today,
                stale_days,
            ) {
                StaleCount::Known(count) => lemma_count_ends_visibly(count),
                StaleCount::Truncated => {},
            },
            _ => {},
        }
    }
    assert(last.len() > 0 && last.last() != ' ');
    let head = columns_text(cells, widths, (COLUMN_COUNT - 1) as nat) + "  "@;
    assert(columns_text(cells, widths, COLUMN_COUNT as nat) == head + last + Seq::<char>::empty());
    let text = line_text(cells, widths);
    assert(text == head + last + Seq::<char>::empty() + "\n"@);
    assert(text[text.len() - 2] == last.last());
}

} // verus!
