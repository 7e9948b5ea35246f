//! The result table: sorting by a column, the header buttons that choose the
//! sort, and which rows and cells a page shows.
use crate::app::{QueryResultsPanel, ROSEMARY_SORT_COL_STR};
use crate::postgres::{
    cell_order, cell_text, cell_text_spec, compare_cells, holds_integer, lemma_cell_order_antisym,
    lemma_cell_order_trans, lemma_integer_cells_in_numeric_order, CellValue,
};
use crate::postgres::str_equals;
use crate::text::{append_str, strings_view};
use vstd::prelude::*;

verus! {

/// The order of two rows by their cells in column `col`, reversed when
/// `reversed` holds: -1, 0 or 1.
pub open spec fn row_order(a: Vec<CellValue>, b: Vec<CellValue>, col: int, reversed: bool) -> int {
    if reversed {
        cell_order(b@[col], a@[col])
    } else {
        cell_order(a@[col], b@[col])
    }
}

/// Row `a`, which stood at position `ia`, comes before row `b`, which stood
/// at `ib`, in a stable sort: by `row_order`, and by position where the
/// order makes them equal.
pub open spec fn goes_before(
    a: Vec<CellValue>,
    ia: int,
    b: Vec<CellValue>,
    ib: int,
    col: int,
    reversed: bool,
) -> bool {
    row_order(a, b, col, reversed) < 0 || (row_order(a, b, col, reversed) == 0 && ia < ib)
}

/// Every row has a cell in column `col`.
pub open spec fn rows_have_column(rows: Seq<Vec<CellValue>>, col: int) -> bool {
    forall|i: int| 0 <= i < rows.len() ==> 0 <= col < (#[trigger] rows[i])@.len()
}

/// `out` holds the rows of `inp`, row `i` of `out` being row `p[i]` of `inp`,
/// in the order of `goes_before`.
pub open spec fn arranged_by(
    out: Seq<Vec<CellValue>>,
    inp: Seq<Vec<CellValue>>,
    p: Seq<int>,
    col: int,
    reversed: bool,
) -> bool {
    &&& out.len() == inp.len()
    &&& p.len() == inp.len()
    &&& forall|i: int| 0 <= i < p.len() ==> 0 <= #[trigger] p[i] < inp.len()
    &&& forall|i: int| 0 <= i < p.len() ==> #[trigger] out[i] == inp[p[i]]
    &&& forall|i: int, j: int|
        0 <= i < j < p.len() ==> goes_before(
            #[trigger] out[i],
            p[i],
            #[trigger] out[j],
            p[j],
            col,
            reversed,
        )
}

/// `out` is the stable sort of `inp` by column `col` (descending when
/// `reversed`).
pub open spec fn stable_sorted(
    out: Seq<Vec<CellValue>>,
    inp: Seq<Vec<CellValue>>,
    col: int,
    reversed: bool,
) -> bool {
    exists|p: Seq<int>| arranged_by(out, inp, p, col, reversed)
}

proof fn lemma_row_order(a: Vec<CellValue>, b: Vec<CellValue>, c: Vec<CellValue>, col: int, reversed: bool)
    ensures
        -1 <= row_order(a, b, col, reversed) <= 1,
        row_order(a, b, col, reversed) == -row_order(b, a, col, reversed),
        row_order(a, b, col, reversed) <= 0 && row_order(b, c, col, reversed) <= 0 ==> row_order(
            a,
            c,
            col,
            reversed,
        ) <= 0,
{
    lemma_cell_order_antisym(a@[col], b@[col]);
    if row_order(a, b, col, reversed) <= 0 && row_order(b, c, col, reversed) <= 0 {
        if reversed {
            lemma_cell_order_trans(c@[col], b@[col], a@[col]);
        } else {
            lemma_cell_order_trans(a@[col], b@[col], c@[col]);
        }
    }
}

/// `goes_before` is transitive.
pub proof fn lemma_goes_before_trans(
    a: Vec<CellValue>,
    ia: int,
    b: Vec<CellValue>,
    ib: int,
    c: Vec<CellValue>,
    ic: int,
    col: int,
    reversed: bool,
)
    requires
        goes_before(a, ia, b, ib, col, reversed),
        goes_before(b, ib, c, ic, col, reversed),
    ensures
        goes_before(a, ia, c, ic, col, reversed),
{
    lemma_row_order(a, b, c, col, reversed);
    lemma_row_order(b, c, a, col, reversed);
    lemma_row_order(c, a, b, col, reversed);
    lemma_row_order(a, c, b, col, reversed);
    lemma_row_order(b, a, c, col, reversed);
    lemma_row_order(c, b, a, col, reversed);
}

/// Compares two rows by `row_order`.
fn compare_rows(a: &Vec<CellValue>, b: &Vec<CellValue>, col: usize, reversed: bool) -> (r: i8)
    requires
        col < a@.len(),
        col < b@.len(),
    ensures
        r as int == row_order(*a, *b, col as int, reversed),
{
    if reversed {
        compare_cells(&b[col], &a[col])
    } else {
        compare_cells(&a[col], &b[col])
    }
}

/// Whether `out` is in the order of `goes_before` under the positions `p`.
pub open spec fn chained(out: Seq<Vec<CellValue>>, p: Seq<int>, col: int, reversed: bool) -> bool {
    forall|i: int, j: int|
        0 <= i < j < p.len() ==> goes_before(
            #[trigger] out[i],
            p[i],
            #[trigger] out[j],
            p[j],
            col,
            reversed,
        )
}

fn merge(
    l: Vec<Vec<CellValue>>,
    r: Vec<Vec<CellValue>>,
    col: usize,
    reversed: bool,
    Ghost(pl): Ghost<Seq<int>>,
    Ghost(pr): Ghost<Seq<int>>,
    Ghost(inp): Ghost<Seq<Vec<CellValue>>>,
) -> (res: (Vec<Vec<CellValue>>, Ghost<Seq<int>>))
    requires
        pl.len() == l@.len(),
        pr.len() == r@.len(),
        inp.len() == l@.len() + r@.len(),
        rows_have_column(l@, col as int),
        rows_have_column(r@, col as int),
        forall|i: int| 0 <= i < pl.len() ==> 0 <= #[trigger] pl[i] < inp.len(),
        forall|i: int| 0 <= i < pr.len() ==> 0 <= #[trigger] pr[i] < inp.len(),
        forall|i: int| 0 <= i < pl.len() ==> #[trigger] l@[i] == inp[pl[i]],
        forall|i: int| 0 <= i < pr.len() ==> #[trigger] r@[i] == inp[pr[i]],
        forall|i: int, j: int| 0 <= i < pl.len() && 0 <= j < pr.len() ==> #[trigger] pl[i] < #[trigger] pr[j],
        chained(l@, pl, col as int, reversed),
        chained(r@, pr, col as int, reversed),
    ensures
        arranged_by(res.0@, inp, res.1@, col as int, reversed),
{
    let mut l = l;
    let mut r = r;
    let ghost l0 = l@;
    let ghost r0 = r@;
    let nl = l.len();
    let nr = r.len();
    let mut out: Vec<Vec<CellValue>> = Vec::new();
    let ghost mut p: Seq<int> = Seq::empty();
    let mut a: usize = 0;
    let mut b: usize = 0;
    while a < nl || b < nr
        invariant
            nl == l@.len() == l0.len() == pl.len(),
            nr == r@.len() == r0.len() == pr.len(),
            inp.len() == nl + nr,
            a <= nl,
            b <= nr,
            out@.len() == a + b,
            p.len() == a + b,
            rows_have_column(l0, col as int),
            rows_have_column(r0, col as int),
            forall|k: int| a <= k < nl ==> #[trigger] l@[k] == l0[k],
            forall|k: int| b <= k < nr ==> #[trigger] r@[k] == r0[k],
            forall|i: int| 0 <= i < pl.len() ==> 0 <= #[trigger] pl[i] < inp.len(),
            forall|i: int| 0 <= i < pr.len() ==> 0 <= #[trigger] pr[i] < inp.len(),
            forall|i: int| 0 <= i < pl.len() ==> #[trigger] l0[i] == inp[pl[i]],
            forall|i: int| 0 <= i < pr.len() ==> #[trigger] r0[i] == inp[pr[i]],
            forall|i: int, j: int| 0 <= i < pl.len() && 0 <= j < pr.len() ==> #[trigger] pl[i] < #[trigger] pr[j],
            chained(l0, pl, col as int, reversed),
            chained(r0, pr, col as int, reversed),
            forall|i: int| 0 <= i < p.len() ==> 0 <= #[trigger] p[i] < inp.len(),
            forall|i: int| 0 <= i < p.len() ==> #[trigger] out@[i] == inp[p[i]],
            chained(out@, p, col as int, reversed),
            forall|i: int, k: int|
                0 <= i < p.len() && a <= k < nl ==> goes_before(
                    #[trigger] out@[i],
                    p[i],
                    #[trigger] l0[k],
                    pl[k],
                    col as int,
                    reversed,
                ),
            forall|i: int, k: int|
                0 <= i < p.len() && b <= k < nr ==> goes_before(
                    #[trigger] out@[i],
                    p[i],
                    #[trigger] r0[k],
                    pr[k],
                    col as int,
                    reversed,
                ),
        decreases nl + nr - a - b,
    {
        let take_left = if a < nl && b < nr {
            compare_rows(&l[a], &r[b], col, reversed) <= 0
        } else {
            a < nl
        };
        if take_left {
            let ghost x = l0[a as int];
            let ghost ix = pl[a as int];
            let mut row: Vec<CellValue> = Vec::new();
            std::mem::swap(&mut row, &mut l[a]);
            proof {
                assert forall|k: int| a < k < nl implies goes_before(
                    x,
                    ix,
                    #[trigger] l0[k],
                    pl[k],
                    col as int,
                    reversed,
                ) by {
                    assert(goes_before(l0[a as int], pl[a as int], l0[k], pl[k], col as int, reversed));
                }
                if b < nr {
                    assert(goes_before(x, ix, r0[b as int], pr[b as int], col as int, reversed));
                    assert forall|k: int| b <= k < nr implies goes_before(
                        x,
                        ix,
                        #[trigger] r0[k],
                        pr[k],
                        col as int,
                        reversed,
                    ) by {
                        if k > b {
                            assert(goes_before(
                                r0[b as int],
                                pr[b as int],
                                r0[k],
                                pr[k],
                                col as int,
                                reversed,
                            ));
                            lemma_goes_before_trans(
                                x,
                                ix,
                                r0[b as int],
                                pr[b as int],
                                r0[k],
                                pr[k],
                                col as int,
                                reversed,
                            );
                        }
                    }
                }
            }
            out.push(row);
            proof {
                p = p.push(ix);
            }
            a = a + 1;
        } else {
            let ghost y = r0[b as int];
            let ghost iy = pr[b as int];
            let mut row: Vec<CellValue> = Vec::new();
            std::mem::swap(&mut row, &mut r[b]);
            proof {
                assert forall|k: int| b < k < nr implies goes_before(
                    y,
                    iy,
                    #[trigger] r0[k],
                    pr[k],
                    col as int,
                    reversed,
                ) by {
                    assert(goes_before(r0[b as int], pr[b as int], r0[k], pr[k], col as int, reversed));
                }
                if a < nl {
                    lemma_row_order(l0[a as int], y, y, col as int, reversed);
                    assert(goes_before(y, iy, l0[a as int], pl[a as int], col as int, reversed));
                    assert forall|k: int| a <= k < nl implies goes_before(
                        y,
                        iy,
                        #[trigger] l0[k],
                        pl[k],
                        col as int,
                        reversed,
                    ) by {
                        if k > a {
                            assert(goes_before(
                                l0[a as int],
                                pl[a as int],
                                l0[k],
                                pl[k],
                                col as int,
                                reversed,
                            ));
                            lemma_goes_before_trans(
                                y,
                                iy,
                                l0[a as int],
                                pl[a as int],
                                l0[k],
                                pl[k],
                                col as int,
                                reversed,
                            );
                        }
                    }
                }
            }
            out.push(row);
            proof {
                p = p.push(iy);
            }
            b = b + 1;
        }
    }
    (out, Ghost(p))
}

fn merge_sort(v: Vec<Vec<CellValue>>, col: usize, reversed: bool) -> (res: (
    Vec<Vec<CellValue>>,
    Ghost<Seq<int>>,
))
    requires
        rows_have_column(v@, col as int),
    ensures
        arranged_by(res.0@, v@, res.1@, col as int, reversed),
    decreases v@.len(),
{
    let n = v.len();
    if n <= 1 {
        let ghost p: Seq<int> = Seq::new(n as nat, |i: int| i);
        return (v, Ghost(p));
    }
    let ghost v0 = v@;
    let mid = n / 2;
    let mut left = v;
    let right = left.split_off(mid);
    let (ls, Ghost(pl)) = merge_sort(left, col, reversed);
    let (rs, Ghost(pr0)) = merge_sort(right, col, reversed);
    let ghost pr: Seq<int> = pr0.map_values(|x: int| x + mid);
    proof {
        assert forall|i: int| 0 <= i < pl.len() implies #[trigger] ls@[i] == v0[pl[i]] by {
            assert(ls@[i] == v0.subrange(0, mid as int)[pl[i]]);
        }
        assert forall|i: int| 0 <= i < pr.len() implies #[trigger] rs@[i] == v0[pr[i]] by {
            assert(rs@[i] == v0.subrange(mid as int, n as int)[pr0[i]]);
        }
        assert forall|i: int, j: int| 0 <= i < j < pr.len() implies goes_before(
            #[trigger] rs@[i],
            pr[i],
            #[trigger] rs@[j],
            pr[j],
            col as int,
            reversed,
        ) by {
            assert(goes_before(rs@[i], pr0[i], rs@[j], pr0[j], col as int, reversed));
        }
        assert forall|i: int| 0 <= i < ls@.len() implies 0 <= col < (#[trigger] ls@[i])@.len() by {
            assert(ls@[i] == v0[pl[i]]);
        }
        assert forall|i: int| 0 <= i < rs@.len() implies 0 <= col < (#[trigger] rs@[i])@.len() by {
            assert(rs@[i] == v0[pr[i]]);
        }
    }
    merge(ls, rs, col, reversed, Ghost(pl), Ghost(pr), Ghost(v0))
}

/// Sorts `rows` by their cells in column `col`, descending when `reversed`,
/// keeping rows that compare equal in the order they had (`slice::sort_by`
/// is stable).
pub fn sort_rows(rows: &mut Vec<Vec<CellValue>>, col: usize, reversed: bool)
    requires
        rows_have_column(old(rows)@, col as int),
    ensures
        stable_sorted(final(rows)@, old(rows)@, col as int, reversed),
{
    let mut v: Vec<Vec<CellValue>> = Vec::new();
    std::mem::swap(&mut v, rows);
    let (sorted, Ghost(p)) = merge_sort(v, col, reversed);
    *rows = sorted;
    assert(arranged_by(rows@, old(rows)@, p, col as int, reversed));
}


// ------------------------------------------------------------------
// The header buttons
// ------------------------------------------------------------------

/// The sort after a click on the header button of column `clicked`: a new
/// column sorts ascending, a second click descending, a third returns to
/// the order of arrival.
pub open spec fn next_sort(sort_col: Seq<char>, reversed: bool, clicked: Seq<char>) -> (Seq<char>, bool) {
    if sort_col != clicked {
        (clicked, false)
    } else if !reversed {
        (sort_col, true)
    } else {
        (ROSEMARY_SORT_COL_STR@, false)
    }
}

/// The first position of `name` among `cols`.
pub open spec fn column_position(cols: Seq<Seq<char>>, name: Seq<char>) -> Option<int>
    decreases cols.len(),
{
    if cols.len() == 0 {
        None
    } else {
        match column_position(cols.drop_last(), name) {
            Some(i) => Some(i),
            None => if cols.last() == name {
                Some(cols.len() - 1)
            } else {
                None
            },
        }
    }
}

proof fn lemma_column_position_prefix(cols: Seq<Seq<char>>, name: Seq<char>, k: int)
    requires
        0 <= k <= cols.len(),
        column_position(cols.take(k), name) is Some,
    ensures
        column_position(cols, name) == column_position(cols.take(k), name),
    decreases cols.len() - k,
{
    if k < cols.len() {
        assert(cols.drop_last().take(k) =~= cols.take(k));
        lemma_column_position_prefix(cols.drop_last(), name, k);
    } else {
        assert(cols.take(k) =~= cols);
    }
}

proof fn lemma_column_position_bounds(cols: Seq<Seq<char>>, name: Seq<char>)
    ensures
        column_position(cols, name) matches Some(i) ==> 0 <= i < cols.len() && cols[i] == name,
    decreases cols.len(),
{
    if cols.len() > 0 {
        lemma_column_position_bounds(cols.drop_last(), name);
    }
}

/// The position of the column named `name`.
pub fn find_column(cols: &Vec<String>, name: &str) -> (r: Option<usize>)
    ensures
        match r {
            Some(i) => column_position(strings_view(cols@), name@) == Some(i as int),
            None => column_position(strings_view(cols@), name@) is None,
        },
{
    let ghost v = strings_view(cols@);
    let n = cols.len();
    let mut i: usize = 0;
    assert(v.take(0) =~= Seq::<Seq<char>>::empty());
    while i < n
        invariant
            n == cols@.len() == v.len(),
            v == strings_view(cols@),
            i <= n,
            column_position(v.take(i as int), name@) is None,
        decreases n - i,
    {
        assert(v.take(i + 1).drop_last() =~= v.take(i as int));
        if str_equals(cols[i].as_str(), name) {
            proof {
                assert(v.take(i + 1).last() == name@);
                lemma_column_position_prefix(v, name@, i + 1);
            }
            return Some(i);
        }
        i = i + 1;
    }
    assert(v.take(n as int) =~= v);
    None
}

/// `new_p` is `old_p` after a click on the header button of column
/// `column_name`: the sort moves on (see `next_sort`) and, where the column
/// sorted by is one of the table's columns, the rows are sorted by it
/// (descending when reversed); nothing else changes.
pub open spec fn sort_click(
    old_p: QueryResultsPanel,
    new_p: QueryResultsPanel,
    column_name: Seq<char>,
) -> bool {
    &&& (new_p.sort_by_col@, new_p.reversed) == next_sort(
        old_p.sort_by_col@,
        old_p.reversed,
        column_name,
    )
    &&& new_p == (QueryResultsPanel {
        sort_by_col: new_p.sort_by_col,
        reversed: new_p.reversed,
        parsed_res_rows: new_p.parsed_res_rows,
        ..old_p
    })
    &&& new_p.parsed_res_rows@.len() == old_p.parsed_res_rows@.len()
    &&& match column_position(strings_view(old_p.res_columns@), new_p.sort_by_col@) {
        Some(i) => stable_sorted(new_p.parsed_res_rows@, old_p.parsed_res_rows@, i, new_p.reversed),
        None => new_p.parsed_res_rows == old_p.parsed_res_rows,
    }
}

/// A click on the header button of column `column_name`: the sort moves on
/// (see `next_sort`) and, where the column sorted by is one of the table's
/// columns, the rows are sorted by it (descending when reversed).
pub fn click_sort_header(panel: &mut QueryResultsPanel, column_name: &str)
    requires
        old(panel).rows_fit_columns(),
    ensures
        final(panel).rows_fit_columns(),
        old(panel).wf() ==> final(panel).wf(),
        sort_click(*old(panel), *final(panel), column_name@),
{
    if !str_equals(panel.sort_by_col.as_str(), column_name) {
        let mut s = String::new();
        append_str(&mut s, column_name);
        panel.sort_by_col = s;
        panel.reversed = false;
    } else if !panel.reversed {
        panel.reversed = true;
    } else {
        panel.reversed = false;
        let mut s = String::new();
        append_str(&mut s, ROSEMARY_SORT_COL_STR);
        panel.sort_by_col = s;
    }
    let pos = find_column(&panel.res_columns, panel.sort_by_col.as_str());
    if let Some(idx) = pos {
        proof {
            lemma_column_position_bounds(strings_view(panel.res_columns@), panel.sort_by_col@);
        }
        let ghost before = panel.parsed_res_rows@;
        let reversed = panel.reversed;
        sort_rows(&mut panel.parsed_res_rows, idx, reversed);
        proof {
            let p = choose|p: Seq<int>| arranged_by(panel.parsed_res_rows@, before, p, idx as int, reversed);
            assert forall|i: int| 0 <= i < panel.parsed_res_rows@.len() implies (
            #[trigger] panel.parsed_res_rows@[i])@.len() == panel.res_columns@.len() by {
                assert(panel.parsed_res_rows@[i] == before[p[i]]);
            }
        }
    }
}

/// The text of the header button of column `column_name`: an up arrow when
/// the table is sorted by it descending, a down arrow when ascending, both
/// otherwise.
pub open spec fn sort_button_text(panel: QueryResultsPanel, column_name: Seq<char>) -> Seq<char> {
    if panel.reversed && panel.sort_by_col@ == column_name {
        "\u{2b06}"@
    } else if panel.sort_by_col@ == column_name {
        "\u{2b07}"@
    } else {
        "\u{2b06}\u{2b07}"@
    }
}

/// The text of the header button of column `column_name`.
pub fn sort_button_label(panel: &QueryResultsPanel, column_name: &str) -> (s: String)
    ensures
        s@ == sort_button_text(*panel, column_name@),
{
    let same = str_equals(panel.sort_by_col.as_str(), column_name);
    let mut s = String::new();
    if panel.reversed && same {
        append_str(&mut s, "\u{2b06}");
    } else if same {
        append_str(&mut s, "\u{2b07}");
    } else {
        append_str(&mut s, "\u{2b06}\u{2b07}");
    }
    s
}

/// The names of the columns that the table shows: all but the hidden
/// numbering column.
pub open spec fn shown_columns(cols: Seq<Seq<char>>) -> Seq<Seq<char>>
    decreases cols.len(),
{
    if cols.len() == 0 {
        Seq::empty()
    } else {
        let rest = shown_columns(cols.drop_last());
        if cols.last() == ROSEMARY_SORT_COL_STR@ {
            rest
        } else {
            rest.push(cols.last())
        }
    }
}

/// The names of the columns that the table shows.
pub fn visible_columns(panel: &QueryResultsPanel) -> (v: Vec<String>)
    ensures
        strings_view(v@) == shown_columns(strings_view(panel.res_columns@)),
{
    let ghost cols = strings_view(panel.res_columns@);
    let n = panel.res_columns.len();
    let mut out: Vec<String> = Vec::new();
    let mut i: usize = 0;
    assert(cols.take(0) =~= Seq::<Seq<char>>::empty());
    assert(strings_view(out@) =~= Seq::<Seq<char>>::empty());
    while i < n
        invariant
            n == panel.res_columns@.len() == cols.len(),
            cols == strings_view(panel.res_columns@),
            i <= n,
            strings_view(out@) == shown_columns(cols.take(i as int)),
        decreases n - i,
    {
        assert(cols.take(i + 1).drop_last() =~= cols.take(i as int));
        if !str_equals(panel.res_columns[i].as_str(), ROSEMARY_SORT_COL_STR) {
            let name = panel.res_columns[i].clone();
            out.push(name);
            assert(strings_view(out@) =~= shown_columns(cols.take(i as int)).push(cols[i as int]));
        }
        i = i + 1;
    }
    assert(cols.take(n as int) =~= cols);
    out
}

// ------------------------------------------------------------------
// The rows of the page shown
// ------------------------------------------------------------------

/// The first row of the page shown and the number of rows it shows: at
/// most one page, and no more than there are from its first row on (none
/// for a page that starts at the end of the rows).
pub fn page_bounds(panel: &QueryResultsPanel) -> (r: (usize, usize))
    requires
        panel.page_in_range(),
    ensures
        r.0 == panel.current_page * panel.rows_per_page,
        r.0 + r.1 <= panel.parsed_res_rows@.len(),
        r.1 == (if panel.parsed_res_rows@.len() - r.0 < panel.rows_per_page {
            panel.parsed_res_rows@.len() - r.0
        } else {
            panel.rows_per_page as int
        }),
{
    let len = panel.parsed_res_rows.len();
    let start = panel.current_page * panel.rows_per_page;
    let left = len - start;
    let count = if left < panel.rows_per_page {
        left
    } else {
        panel.rows_per_page
    };
    (start, count)
}

/// The texts of the cells of a row that the table shows: all but the last
/// of `ncols` (the hidden numbering column).
pub fn row_cell_texts(row: &Vec<CellValue>, ncols: usize) -> (v: Vec<String>)
    requires
        ncols >= 1,
    ensures
        v@.len() == (if row@.len() < ncols - 1 {
            row@.len() as int
        } else {
            ncols - 1
        }),
        forall|i: int| 0 <= i < v@.len() ==> (#[trigger] v@[i])@ == cell_text_spec(row@[i]),
{
    let shown = ncols - 1;
    let n = if row.len() < shown {
        row.len()
    } else {
        shown
    };
    let mut out: Vec<String> = Vec::new();
    let mut i: usize = 0;
    while i < n
        invariant
            n <= row@.len(),
            i <= n,
            out@.len() == i,
            forall|k: int| 0 <= k < i ==> (#[trigger] out@[k])@ == cell_text_spec(row@[k]),
        decreases n - i,
    {
        out.push(cell_text(&row[i]));
        i = i + 1;
    }
    out
}


// ------------------------------------------------------------------
// Laws of sorting
// ------------------------------------------------------------------

/// `a` holds the rows of `b` rearranged, each row of `b` at most once
/// (and, the lengths being equal, exactly once).
pub open spec fn rearranged(a: Seq<Vec<CellValue>>, b: Seq<Vec<CellValue>>) -> bool {
    &&& a.len() == b.len()
    &&& exists|q: Seq<int>| rearranged_by(a, b, q)
}

/// `a[i]` is `b[q[i]]`, and no position of `b` is used twice.
pub open spec fn rearranged_by(a: Seq<Vec<CellValue>>, b: Seq<Vec<CellValue>>, q: Seq<int>) -> bool {
    &&& q.len() == a.len()
    &&& forall|i: int| 0 <= i < q.len() ==> 0 <= #[trigger] q[i] < b.len()
    &&& forall|i: int| 0 <= i < q.len() ==> #[trigger] a[i] == b[q[i]]
    &&& forall|i: int, j: int| 0 <= i < j < q.len() ==> #[trigger] q[i] != #[trigger] q[j]
}

proof fn lemma_row_order_self(a: Vec<CellValue>, col: int, reversed: bool)
    ensures
        row_order(a, a, col, reversed) == 0,
{
    lemma_cell_order_antisym(a@[col], a@[col]);
}

/// Sorting keeps every row: the sorted rows are the rows sorted,
/// rearranged, none of them lost or repeated.
pub proof fn lemma_sort_rearranges(
    out: Seq<Vec<CellValue>>,
    inp: Seq<Vec<CellValue>>,
    col: int,
    reversed: bool,
)
    requires
        stable_sorted(out, inp, col, reversed),
    ensures
        rearranged(out, inp),
{
    let p = choose|p: Seq<int>| arranged_by(out, inp, p, col, reversed);
    assert forall|i: int, j: int| 0 <= i < j < p.len() implies #[trigger] p[i] != #[trigger] p[j] by {
        assert(goes_before(out[i], p[i], out[j], p[j], col, reversed));
        if p[i] == p[j] {
            lemma_row_order_self(out[i], col, reversed);
        }
    }
    assert(rearranged_by(out, inp, p));
}

/// Rearranging a rearrangement is a rearrangement.
pub proof fn lemma_rearranged_trans(
    a: Seq<Vec<CellValue>>,
    b: Seq<Vec<CellValue>>,
    c: Seq<Vec<CellValue>>,
)
    requires
        rearranged(a, b),
        rearranged(b, c),
    ensures
        rearranged(a, c),
{
    let q1 = choose|q: Seq<int>| rearranged_by(a, b, q);
    let q2 = choose|q: Seq<int>| rearranged_by(b, c, q);
    let q = Seq::new(q1.len(), |i: int| q2[q1[i]]);
    assert forall|i: int, j: int| 0 <= i < j < q.len() implies #[trigger] q[i] != #[trigger] q[j] by {
        assert(q1[i] != q1[j]);
        if q1[i] < q1[j] {
            assert(q2[q1[i]] != q2[q1[j]]);
        } else {
            assert(q2[q1[j]] != q2[q1[i]]);
        }
    }
    assert forall|i: int| 0 <= i < q.len() implies #[trigger] a[i] == c[q[i]] by {
        assert(a[i] == b[q1[i]]);
        assert(b[q1[i]] == c[q2[q1[i]]]);
    }
    assert(rearranged_by(a, c, q));
}

/// The rows carry their arrival numbers in column `col`: row `k` holds
/// `BigInt(k)` there.
pub open spec fn numbered(rows: Seq<Vec<CellValue>>, col: int) -> bool {
    forall|k: int|
        0 <= k < rows.len() ==> col < (#[trigger] rows[k])@.len() && rows[k]@[col]
            == CellValue::BigInt(k as i64)
}

proof fn lemma_increasing_in_range_is_identity(r: Seq<int>, n: int)
    requires
        r.len() == n,
        forall|i: int| 0 <= i < n ==> 0 <= #[trigger] r[i] < n,
        forall|i: int, j: int| 0 <= i < j < n ==> #[trigger] r[i] < #[trigger] r[j],
    ensures
        forall|i: int| 0 <= i < n ==> #[trigger] r[i] == i,
    decreases n,
{
    if n > 0 {
        let s = r.drop_last();
        assert forall|i: int| 0 <= i < n - 1 implies 0 <= #[trigger] s[i] < n - 1 by {
            assert(r[i] < r[n - 1]);
        }
        lemma_increasing_in_range_is_identity(s, n - 1);
        assert forall|i: int| 0 <= i < n - 1 implies #[trigger] r[i] == i by {
            assert(r[i] == s[i]);
        }
        if n > 1 {
            assert(r[n - 2] == s[n - 2]);
            assert(r[n - 2] < r[n - 1]);
        }
        assert(r[n - 1] == n - 1);
    }
}

/// Sorting by the arrival numbers, ascending, gives the rows back in the
/// order in which they arrived, however they were rearranged before.
pub proof fn lemma_sort_by_number_restores_arrival_order(
    orig: Seq<Vec<CellValue>>,
    inp: Seq<Vec<CellValue>>,
    out: Seq<Vec<CellValue>>,
    col: int,
)
    requires
        orig.len() <= i64::MAX,
        numbered(orig, col),
        rearranged(inp, orig),
        stable_sorted(out, inp, col, false),
    ensures
        out == orig,
{
    lemma_sort_rearranges(out, inp, col, false);
    let p = choose|p: Seq<int>| arranged_by(out, inp, p, col, false);
    let q = choose|q: Seq<int>| rearranged_by(inp, orig, q);
    let n = orig.len() as int;
    let r = Seq::new(out.len(), |i: int| q[p[i]]);
    assert forall|i: int| 0 <= i < n implies 0 <= #[trigger] r[i] < n && out[i] == orig[r[i]] by {
        assert(out[i] == inp[p[i]]);
        assert(inp[p[i]] == orig[q[p[i]]]);
    }
    assert forall|i: int, j: int| 0 <= i < j < n implies #[trigger] r[i] < #[trigger] r[j] by {
        assert(goes_before(out[i], p[i], out[j], p[j], col, false));
        assert(out[i] == orig[r[i]]);
        assert(out[j] == orig[r[j]]);
        assert(orig[r[i]]@[col] == CellValue::BigInt(r[i] as i64));
        assert(orig[r[j]]@[col] == CellValue::BigInt(r[j] as i64));
        if r[i] == r[j] {
            // the same row of `orig` twice: the positions in `inp` agree
            if p[i] < p[j] {
                assert(q[p[i]] != q[p[j]]);
            } else if p[i] > p[j] {
                assert(q[p[j]] != q[p[i]]);
            }
            assert(p[i] == p[j]);
            lemma_row_order_self(out[i], col, false);
        }
    }
    lemma_increasing_in_range_is_identity(r, n);
    assert forall|i: int| 0 <= i < n implies #[trigger] out[i] == orig[i] by {
        assert(out[i] == orig[r[i]]);
        assert(r[i] == i);
    }
    assert(out =~= orig);
}

proof fn lemma_goes_before_asym(
    a: Vec<CellValue>,
    ia: int,
    b: Vec<CellValue>,
    ib: int,
    col: int,
    reversed: bool,
)
    requires
        goes_before(a, ia, b, ib, col, reversed),
    ensures
        !goes_before(b, ib, a, ia, col, reversed),
{
    lemma_row_order(a, b, a, col, reversed);
}

proof fn lemma_arranged_onto(out: Seq<Vec<CellValue>>, inp: Seq<Vec<CellValue>>, p: Seq<int>, col: int, reversed: bool, j: int)
    requires
        arranged_by(out, inp, p, col, reversed),
        0 <= j < inp.len(),
    ensures
        exists|i: int| 0 <= i < p.len() && p[i] == j,
{
    lemma_sort_rearranges(out, inp, col, reversed);
    assert forall|i: int, k: int| 0 <= i < k < p.len() implies #[trigger] p[i] != #[trigger] p[k] by {
        assert(goes_before(out[i], p[i], out[k], p[k], col, reversed));
        if p[i] == p[k] {
            lemma_row_order_self(out[i], col, reversed);
        }
    }
    let n = inp.len() as int;
    let dom = vstd::set_lib::set_int_range(0, n);
    let f = |i: int| p[i];
    vstd::set_lib::lemma_int_range(0, n);
    assert(vstd::relations::injective_on(f, dom)) by {
        assert forall|x: int, y: int| dom.contains(x) && dom.contains(y) && #[trigger] f(x) == #[trigger] f(y) implies x == y by {
            if x < y {
                assert(p[x] != p[y]);
            } else if y < x {
                assert(p[y] != p[x]);
            }
        }
    }
    let img = dom.map(f);
    vstd::set_lib::lemma_map_size(dom, img, f);
    assert(img.subset_of(dom)) by {
        assert forall|v: int| img.contains(v) implies dom.contains(v) by {
            let x = choose|x: int| dom.contains(x) && f(x) == v;
        }
    }
    vstd::set_lib::lemma_subset_equality(img, dom);
    assert(dom.contains(j));
    assert(img.contains(j));
    let x = choose|x: int| dom.contains(x) && f(x) == j;
    assert(0 <= x < p.len() && p[x] == j);
}


proof fn lemma_positions_agree(
    out1: Seq<Vec<CellValue>>,
    out2: Seq<Vec<CellValue>>,
    inp: Seq<Vec<CellValue>>,
    p1: Seq<int>,
    p2: Seq<int>,
    col: int,
    reversed: bool,
    k: int,
)
    requires
        0 <= k <= inp.len(),
        arranged_by(out1, inp, p1, col, reversed),
        arranged_by(out2, inp, p2, col, reversed),
        forall|i: int, m: int| 0 <= i < m < inp.len() ==> #[trigger] p1[i] != #[trigger] p1[m],
        forall|i: int, m: int| 0 <= i < m < inp.len() ==> #[trigger] p2[i] != #[trigger] p2[m],
    ensures
        forall|i: int| 0 <= i < k ==> #[trigger] p1[i] == p2[i],
    decreases k,
{
    if k > 0 {
        let k = k - 1;
        lemma_positions_agree(out1, out2, inp, p1, p2, col, reversed, k);
        let a = p1[k];
        let b = p2[k];
        if a != b {
            lemma_arranged_onto(out2, inp, p2, col, reversed, a);
            let m = choose|i: int| 0 <= i < p2.len() && p2[i] == a;
            lemma_arranged_onto(out1, inp, p1, col, reversed, b);
            let m1 = choose|i: int| 0 <= i < p1.len() && p1[i] == b;
            if m < k {
                assert(p1[m] == p2[m]);
                assert(p1[m] != p1[k]);
            }
            if m1 < k {
                assert(p2[m1] == p1[m1]);
                assert(p2[m1] != p2[k]);
            }
            assert(m > k && m1 > k);
            assert(goes_before(out2[k], p2[k], out2[m], p2[m], col, reversed));
            assert(goes_before(out1[k], p1[k], out1[m1], p1[m1], col, reversed));
            assert(out2[k] == inp[b] && out2[m] == inp[a]);
            assert(out1[k] == inp[a] && out1[m1] == inp[b]);
            lemma_goes_before_asym(inp[b], b, inp[a], a, col, reversed);
        }
    }
}

/// The stable sort is unique: two stable sorts of the same rows by the same
/// column and direction are the same rows in the same order.
pub proof fn lemma_stable_sort_unique(
    out1: Seq<Vec<CellValue>>,
    out2: Seq<Vec<CellValue>>,
    inp: Seq<Vec<CellValue>>,
    col: int,
    reversed: bool,
)
    requires
        stable_sorted(out1, inp, col, reversed),
        stable_sorted(out2, inp, col, reversed),
    ensures
        out1 == out2,
{
    let p1 = choose|p: Seq<int>| arranged_by(out1, inp, p, col, reversed);
    let p2 = choose|p: Seq<int>| arranged_by(out2, inp, p, col, reversed);
    let n = inp.len() as int;
    lemma_sort_rearranges(out1, inp, col, reversed);
    lemma_sort_rearranges(out2, inp, col, reversed);
    assert forall|i: int, k: int| 0 <= i < k < n implies #[trigger] p1[i] != #[trigger] p1[k] by {
        assert(goes_before(out1[i], p1[i], out1[k], p1[k], col, reversed));
        if p1[i] == p1[k] {
            lemma_row_order_self(out1[i], col, reversed);
        }
    }
    assert forall|i: int, k: int| 0 <= i < k < n implies #[trigger] p2[i] != #[trigger] p2[k] by {
        assert(goes_before(out2[i], p2[i], out2[k], p2[k], col, reversed));
        if p2[i] == p2[k] {
            lemma_row_order_self(out2[i], col, reversed);
        }
    }
    lemma_positions_agree(out1, out2, inp, p1, p2, col, reversed, n);
    assert forall|i: int| 0 <= i < n implies #[trigger] out1[i] == out2[i] by {
        assert(out1[i] == inp[p1[i]]);
        assert(out2[i] == inp[p2[i]]);
    }
    assert(out1 =~= out2);
}

/// Three clicks on the header of a column that the table is not sorted by
/// sort it ascending, then descending, then return to the order of arrival.
pub proof fn lemma_three_clicks_return_to_arrival_order(
    sort_col: Seq<char>,
    reversed: bool,
    clicked: Seq<char>,
)
    requires
        sort_col != clicked,
    ensures
        next_sort(sort_col, reversed, clicked) == (clicked, false),
        next_sort(clicked, false, clicked) == (clicked, true),
        next_sort(clicked, true, clicked) == (ROSEMARY_SORT_COL_STR@, false),
{
}


/// Sorting a column of integers puts their values in order: ascending, or
/// descending when reversed (so -5 comes before 3 ascending).
pub proof fn lemma_sorted_integers_in_order(
    out: Seq<Vec<CellValue>>,
    inp: Seq<Vec<CellValue>>,
    col: int,
    reversed: bool,
    i: int,
    j: int,
    x: int,
    y: int,
)
    requires
        stable_sorted(out, inp, col, reversed),
        0 <= i < j < out.len(),
        holds_integer(out[i]@[col], x),
        holds_integer(out[j]@[col], y),
    ensures
        !reversed ==> x <= y,
        reversed ==> y <= x,
{
    let p = choose|p: Seq<int>| arranged_by(out, inp, p, col, reversed);
    assert(goes_before(out[i], p[i], out[j], p[j], col, reversed));
    lemma_integer_cells_in_numeric_order(out[i]@[col], out[j]@[col], x, y);
    lemma_integer_cells_in_numeric_order(out[j]@[col], out[i]@[col], y, x);
}

} // verus!
