//! The running-queries window.
use crate::app::Rosemary;
use crate::query_functions::pg_data::{running_query_cells, running_query_texts};
use crate::text::strings_view;
use vstd::prelude::*;

verus! {

/// The rows of the running-queries table: one per running query, in order,
/// each with its nine cells.
pub fn running_query_rows(app: &Rosemary) -> (rows: Vec<Vec<String>>)
    ensures
        rows@.len() == app.running_queries@.len(),
        forall|i: int|
            0 <= i < rows@.len() ==> strings_view((#[trigger] rows@[i])@) == running_query_texts(
                app.running_queries@[i],
            ),
{
    let n = app.running_queries.len();
    let mut rows: Vec<Vec<String>> = Vec::new();
    let mut i: usize = 0;
    while i < n
        invariant
            n == app.running_queries@.len(),
            i <= n,
            rows@.len() == i,
            forall|k: int|
                0 <= k < i ==> strings_view((#[trigger] rows@[k])@) == running_query_texts(
                    app.running_queries@[k],
                ),
        decreases n - i,
    {
        let cells = running_query_cells(&app.running_queries[i]);
        assert(strings_view(cells@) =~= running_query_texts(app.running_queries@[i as int]));
        rows.push(cells);
        i = i + 1;
    }
    rows
}

} // verus!
