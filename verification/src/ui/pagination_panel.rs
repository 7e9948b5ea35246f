//! Paging through a result table.
use crate::app::{QueryResultsPanel, Rosemary};
use crate::text::{append_str, decimal, u128_to_decimal};
use vstd::prelude::*;

verus! {

/// The pager shows once a result table holds more than this many rows.
pub const PAGINATION_THRESHOLD: usize = 1000;

/// Whether the pager shows: the first table, or the second while it is
/// shown, holds more rows than the threshold.
pub open spec fn pagination_visible(app: Rosemary) -> bool {
    app.query_results@[0].parsed_res_rows@.len() > PAGINATION_THRESHOLD || (
    app.split_results_table && app.query_results@[1].parsed_res_rows@.len()
        > PAGINATION_THRESHOLD)
}

/// Whether the pager shows.
pub fn pagination_shown(app: &Rosemary) -> (b: bool)
    requires
        app.wf(),
    ensures
        b == pagination_visible(*app),
{
    app.query_results[0].parsed_res_rows.len() > PAGINATION_THRESHOLD || (app.split_results_table
        && app.query_results[1].parsed_res_rows.len() > PAGINATION_THRESHOLD)
}

/// Whether the second table's controls show: the tables are split and the
/// second holds more rows than the threshold.
pub open spec fn second_pager_visible(app: Rosemary) -> bool {
    app.split_results_table && app.query_results@[1].parsed_res_rows@.len() > PAGINATION_THRESHOLD
}

/// Which tables' Previous/Page/Next controls the pager draws: the first
/// table's whenever the pager shows, the second's only when the tables are
/// split and it holds more rows than the threshold (then the pager shows
/// too).
pub fn pagers_shown(app: &Rosemary) -> (r: (bool, bool))
    requires
        app.wf(),
    ensures
        r.0 == pagination_visible(*app),
        r.1 == second_pager_visible(*app),
        r.1 ==> r.0,
{
    let first = pagination_shown(app);
    let second = app.split_results_table && app.query_results[1].parsed_res_rows.len()
        > PAGINATION_THRESHOLD;
    (first, second)
}

/// The page after Previous: one back, unless on the first page.
pub open spec fn previous_page_of(page: usize) -> usize {
    if page > 0 {
        (page - 1) as usize
    } else {
        page
    }
}

/// The page after Next: one on, where the next page starts within the rows.
pub open spec fn next_page_of(page: usize, rows_per_page: usize, len: nat) -> usize {
    if (page + 1) * rows_per_page < len {
        (page + 1) as usize
    } else {
        page
    }
}

/// The Previous button: one page back, from any page but the first.
pub fn previous_page(panel: &mut QueryResultsPanel)
    ensures
        *final(panel) == (QueryResultsPanel {
            current_page: previous_page_of(old(panel).current_page),
            ..*old(panel)
        }),
        old(panel).wf() ==> final(panel).wf(),
        old(panel).page_in_range() ==> final(panel).page_in_range(),
{
    if panel.current_page > 0 {
        let ghost p = panel.current_page as int;
        let rpp = panel.rows_per_page;
        assert((p - 1) * rpp <= p * rpp) by (nonlinear_arith)
            requires
                p >= 1,
                rpp >= 0,
        ;
        panel.current_page = panel.current_page - 1;
    }
}

/// The Next button: one page on, from any page, where the next page starts
/// within the rows. A page size of zero is accepted on every page but the
/// last that `usize` counts, where counting one page on overflows.
pub fn next_page(panel: &mut QueryResultsPanel)
    requires
        old(panel).rows_per_page > 0 || old(panel).current_page < usize::MAX,
    ensures
        *final(panel) == (QueryResultsPanel {
            current_page: next_page_of(
                old(panel).current_page,
                old(panel).rows_per_page,
                old(panel).parsed_res_rows@.len(),
            ),
            ..*old(panel)
        }),
        old(panel).wf() ==> final(panel).wf(),
        old(panel).page_in_range() || final(panel).current_page != old(panel).current_page
            ==> final(panel).page_in_range(),
{
    let len = panel.parsed_res_rows.len();
    let rpp = panel.rows_per_page;
    let page = panel.current_page;
    let ghost p = page as int;
    proof {
        if rpp >= 1 {
            assert((p + 1) * rpp >= p + 1) by (nonlinear_arith)
                requires
                    p >= 0,
                    rpp >= 1,
            ;
        }
    }
    match page.checked_add(1) {
        Some(q) => {
            match q.checked_mul(rpp) {
                Some(start) => {
                    if start < len {
                        panel.current_page = q;
                    }
                },
                None => {},
            }
        },
        None => {},
    }
}

/// The number of pages of `len` rows.
pub open spec fn page_count(len: int, rows_per_page: int) -> int {
    (len + rows_per_page - 1) / rows_per_page
}

/// The pager's label: `Page n/m`, n counted from 1, m the number of pages.
pub open spec fn page_label_text(panel: QueryResultsPanel) -> Seq<char> {
    "Page "@ + decimal((panel.current_page + 1) as nat) + "/"@ + decimal(
        page_count(panel.parsed_res_rows@.len() as int, panel.rows_per_page as int) as nat,
    )
}

/// The pager's label.
pub fn page_label(panel: &QueryResultsPanel) -> (s: String)
    requires
        panel.rows_per_page > 0,
    ensures
        s@ == page_label_text(*panel),
{
    let len = panel.parsed_res_rows.len();
    let rpp = panel.rows_per_page;
    let page: u128 = panel.current_page as u128 + 1;
    let q = len / rpp;
    let count = if len % rpp != 0 {
        assert((len as int) / (rpp as int) < len as int) by (nonlinear_arith)
            requires
                (len as int) % (rpp as int) != 0,
                rpp >= 1,
        ;
        q + 1
    } else {
        q
    };
    proof {
        let l = len as int;
        let r = rpp as int;
        assert((l + r - 1) / r == l / r + (if l % r != 0 {
            1int
        } else {
            0int
        })) by (nonlinear_arith)
            requires
                l >= 0,
                r >= 1,
        ;
    }
    let mut s = String::new();
    append_str(&mut s, "Page ");
    let a = u128_to_decimal(page);
    append_str(&mut s, a.as_str());
    append_str(&mut s, "/");
    let b = u128_to_decimal(count as u128);
    append_str(&mut s, b.as_str());
    s
}

/// Paging back and forth: Next followed by Previous returns to the page
/// one started from when Next moved on; Previous followed by Next returns
/// to it when Previous moved back from a page that starts within the rows.
pub proof fn lemma_next_previous_inverse(page: usize, rows_per_page: usize, len: nat)
    requires
        rows_per_page > 0,
        len <= usize::MAX,
    ensures
        next_page_of(page, rows_per_page, len) != page ==> previous_page_of(
            next_page_of(page, rows_per_page, len),
        ) == page,
        page > 0 && page * rows_per_page < len ==> next_page_of(
            previous_page_of(page),
            rows_per_page,
            len,
        ) == page,
{
    if page > 0 {
        assert(((page - 1) + 1) * rows_per_page == page * rows_per_page);
    }
    if next_page_of(page, rows_per_page, len) != page {
        assert((page + 1) * rows_per_page >= page + 1) by (nonlinear_arith)
            requires
                rows_per_page >= 1,
        ;
    }
}

} // verus!
