//! The state of the application and the decisions it takes between frames:
//! connecting, fetching the catalogue lists, choosing and starting a query,
//! and taking in its result.
use crate::postgres::CellValue;
use crate::ui::pagination_panel::{next_page, next_page_of, previous_page, previous_page_of};
use crate::ui::results_table_panel::{arranged_by, click_sort_header, column_position, sort_click};
use crate::query_functions::pg_data::{DatabaseNames, PublicTable, RunningQueriesData};
use crate::query_functions::pg_query_handlers::{editor_formatted, format_sql};
use crate::text::{
    append_str, is_blank, split_statements, statements_of, strings_view, trim_seq,
};
use vstd::prelude::*;

verus! {

/// The name of the hidden last column that numbers the rows of a result in
/// the order they arrived.
pub const ROSEMARY_SORT_COL_STR: &'static str = "__rosemary_default_sort_by_col";

/// The number of rows that one page of a result table shows.
pub const ROWS_PER_PAGE: usize = 1000;

/// One result table: its columns, its rows, the page shown, the sort, and
/// how long the query took. The execution time in seconds is held in
/// hundredths of a second, as rounded to two decimals.
#[derive(Debug)]
pub struct QueryResultsPanel {
    pub current_page: usize,
    pub rows_per_page: usize,
    pub res_columns: Vec<String>,
    pub parsed_res_rows: Vec<Vec<CellValue>>,
    pub reversed: bool,
    pub sort_by_col: String,
    pub query_execution_time_ms: u128,
    pub query_execution_time_centisec: u64,
}

/// A saved connection.
#[derive(Debug, Clone)]
pub struct SavedConnection {
    pub connection_name: String,
    pub db_host: String,
    pub db_port: String,
    pub db_user: String,
    pub db_password: String,
    pub db_name: String,
}

impl QueryResultsPanel {
    /// Every row has one cell for each column, there is at least one column,
    /// and a page holds at least one row.
    pub open spec fn wf(&self) -> bool {
        &&& self.rows_per_page > 0
        &&& self.res_columns@.len() >= 1
        &&& self.rows_fit_columns()
    }

    /// Every row has one cell for each column.
    pub open spec fn rows_fit_columns(&self) -> bool {
        forall|i: int|
            0 <= i < self.parsed_res_rows@.len() ==> (#[trigger] self.parsed_res_rows@[i])@.len()
                == self.res_columns@.len()
    }

    /// The page shown starts within the rows or right at their end.
    pub open spec fn page_in_range(&self) -> bool {
        self.current_page * self.rows_per_page <= self.parsed_res_rows@.len()
    }

    /// The panel as it is before any result: one empty column name, no rows,
    /// the first page, sorted by arrival.
    pub open spec fn is_reset(&self) -> bool {
        &&& self.res_columns@.len() == 1
        &&& self.res_columns@[0]@ == Seq::<char>::empty()
        &&& self.parsed_res_rows@.len() == 0
        &&& self.current_page == 0
        &&& self.rows_per_page == ROWS_PER_PAGE
        &&& self.reversed
        &&& self.sort_by_col@ == ROSEMARY_SORT_COL_STR@
        &&& self.query_execution_time_ms == 0
        &&& self.query_execution_time_centisec == 0
    }

    /// A panel before any result.
    pub fn new() -> (p: Self)
        ensures
            p.is_reset(),
            p.wf(),
            p.page_in_range(),
    {
        let mut cols: Vec<String> = Vec::new();
        cols.push(String::new());
        let mut sort = String::new();
        append_str(&mut sort, ROSEMARY_SORT_COL_STR);
        QueryResultsPanel {
            res_columns: cols,
            parsed_res_rows: Vec::new(),
            current_page: 0,
            rows_per_page: ROWS_PER_PAGE,
            reversed: true,
            sort_by_col: sort,
            query_execution_time_ms: 0,
            query_execution_time_centisec: 0,
        }
    }
}

/// The state of the application: the connection form, the saved
/// connections, the database chosen, the catalogue lists, the editor, the
/// two result tables and which windows are open. `connected` tells whether a
/// connection pool is held.
pub struct Rosemary {
    pub connection_name: String,
    pub db_host: String,
    pub db_port: String,
    pub db_user: String,
    pub db_password: String,
    pub db_name: String,
    pub connection_list: Vec<SavedConnection>,
    pub connect_to_idx: usize,
    pub selected_db: String,
    pub connected: bool,
    pub connection_modal_open: bool,
    pub db_select_modal_open: bool,
    pub databases: Vec<DatabaseNames>,
    pub code: String,
    pub query_to_execute: u8,
    pub split_results_table: bool,
    pub query_results: Vec<QueryResultsPanel>,
    pub tables: Vec<PublicTable>,
    pub should_fetch_table_list: bool,
    pub table_filter: String,
    pub show_table_list: bool,
    pub table_queries_are_additive: bool,
    pub running_queries: Vec<RunningQueriesData>,
    pub running_queries_modal_open: bool,
}

/// The statement chosen to run from the editor's text: the statement in
/// slot `slot` (counted from 1), or the last one for slot 0 or a slot with
/// no statement; nothing when there is no statement.
pub open spec fn chosen_statement(code: Seq<char>, slot: u8) -> Seq<char> {
    let st = statements_of(code);
    if slot != 0 && (slot - 1) < st.len() {
        st[slot - 1]
    } else if st.len() == 0 {
        Seq::empty()
    } else {
        st.last()
    }
}

/// The highest of the first `n` keys that is pressed.
pub open spec fn highest_pressed(pressed: Seq<bool>, n: int) -> Option<int>
    decreases n,
{
    if n <= 0 {
        None
    } else if pressed[n - 1] {
        Some(n - 1)
    } else {
        highest_pressed(pressed, n - 1)
    }
}

/// The address `connect_to_db` connects to.
pub open spec fn database_url(conn: SavedConnection, database: Seq<char>) -> Seq<char> {
    "postgresql://"@ + conn.db_user@ + ":"@ + conn.db_password@ + "@"@ + conn.db_host@ + ":"@
        + conn.db_port@ + "/"@ + database + "?application_name=Rosemary"@
}

impl Rosemary {
    /// The invariant that every state operation keeps: two result tables,
    /// each with pages of `ROWS_PER_PAGE` rows, at least one column, and every
    /// row as wide as its table's column list.
    pub open spec fn wf(&self) -> bool {
        &&& self.query_results@.len() == 2
        &&& forall|i: int|
            0 <= i < 2 ==> (#[trigger] self.query_results@[i]).wf()
                && self.query_results@[i].rows_per_page == ROWS_PER_PAGE
    }

    /// Everything but the result tables is as in `other`.
    pub open spec fn same_but_results(&self, other: &Rosemary) -> bool {
        *self == (Rosemary { query_results: self.query_results, ..*other })
    }

    /// Resets the table list and asks for it to be fetched again.
    pub fn reset_table_data(&mut self)
        ensures
            final(self).tables@.len() == 0,
            *final(self) == (Rosemary {
                tables: final(self).tables,
                should_fetch_table_list: true,
                ..*old(self)
            }),
    {
        self.tables = Vec::new();
        self.should_fetch_table_list = true;
    }

    /// Resets result table `idx`.
    pub fn reset_query_result_data(&mut self, idx: usize)
        requires
            old(self).wf(),
            idx < 2,
        ensures
            final(self).wf(),
            final(self).query_results@[idx as int].is_reset(),
            final(self).query_results@[idx as int].page_in_range(),
            final(self).query_results@[1 - idx] == old(self).query_results@[1 - idx],
            final(self).same_but_results(&*old(self)),
            reset_step(*old(self), *final(self), idx as int),
    {
        let mut fresh = QueryResultsPanel::new();
        std::mem::swap(&mut self.query_results[idx], &mut fresh);
        assert(self.query_results@ =~= old(self).query_results@.update(idx as int, self.query_results@[idx as int]));
    }

    /// The database `connect_to_db` opens: the one chosen from the list,
    /// unless that is blank, else the saved connection's.
    pub open spec fn target_database(&self) -> Seq<char> {
        if trim_seq(self.selected_db@).len() != 0 {
            self.selected_db@
        } else {
            self.connection_list@[self.connect_to_idx as int].db_name@
        }
    }

    /// The address of the database to connect to, for the saved connection
    /// `connect_to_idx`.
    pub fn connection_url(&self) -> (url: String)
        requires
            self.connect_to_idx < self.connection_list@.len(),
        ensures
            url@ == database_url(
                self.connection_list@[self.connect_to_idx as int],
                self.target_database(),
            ),
    {
        let conn = &self.connection_list[self.connect_to_idx];
        let mut url = String::new();
        append_str(&mut url, "postgresql://");
        append_str(&mut url, conn.db_user.as_str());
        append_str(&mut url, ":");
        append_str(&mut url, conn.db_password.as_str());
        append_str(&mut url, "@");
        append_str(&mut url, conn.db_host.as_str());
        append_str(&mut url, ":");
        append_str(&mut url, conn.db_port.as_str());
        append_str(&mut url, "/");
        if !is_blank(self.selected_db.as_str()) {
            append_str(&mut url, self.selected_db.as_str());
        } else {
            append_str(&mut url, conn.db_name.as_str());
        }
        append_str(&mut url, "?application_name=Rosemary");
        url
    }

    /// What follows a successful connection: the pool is held, the
    /// connection window closes, the table list is fetched anew and both
    /// result tables are reset.
    pub fn finish_connect(&mut self)
        requires
            old(self).wf(),
        ensures
            final(self).wf(),
            final(self).tables@.len() == 0,
            final(self).query_results@[0].is_reset(),
            final(self).query_results@[1].is_reset(),
            all_reset_step(*old(self), *final(self)),
            *final(self) == (Rosemary {
                connected: true,
                connection_modal_open: false,
                tables: final(self).tables,
                should_fetch_table_list: true,
                query_results: final(self).query_results,
                ..*old(self)
            }),
    {
        self.connected = true;
        self.connection_modal_open = false;
        self.reset_table_data();
        self.reset_query_result_data(0);
        self.reset_query_result_data(1);
    }

    /// The start of a frame: without a connection the connection window
    /// opens; with one, and a table list to fetch, the fetch is due (and no
    /// longer asked for). Returns whether to fetch the table list.
    pub fn begin_frame(&mut self) -> (fetch_tables: bool)
        ensures
            fetch_tables == (old(self).connected && old(self).should_fetch_table_list),
            *final(self) == (Rosemary {
                connection_modal_open: old(self).connection_modal_open || !old(self).connected,
                should_fetch_table_list: old(self).should_fetch_table_list && !fetch_tables,
                ..*old(self)
            }),
    {
        if !self.connected {
            self.connection_modal_open = true;
        }
        let fetch = self.connected && self.should_fetch_table_list;
        if fetch {
            self.should_fetch_table_list = false;
        }
        fetch
    }

    /// Takes in the fetched table list; an empty list leaves the old one.
    pub fn apply_table_rows(&mut self, rows: Vec<PublicTable>)
        ensures
            final(self).tables@ == (if rows@.len() == 0 {
                old(self).tables@
            } else {
                rows@
            }),
            *final(self) == (Rosemary { tables: final(self).tables, ..*old(self) }),
    {
        if rows.len() != 0 {
            self.tables = rows;
        }
    }

    /// Opens the database window and empties the database list before it
    /// is fetched. Returns whether to fetch it (only with a connection).
    pub fn open_databases(&mut self) -> (fetch: bool)
        ensures
            fetch == old(self).connected,
            final(self).databases@.len() == 0,
            *final(self) == (Rosemary {
                db_select_modal_open: true,
                databases: final(self).databases,
                ..*old(self)
            }),
    {
        self.db_select_modal_open = true;
        self.databases = Vec::new();
        self.connected
    }

    /// Takes in the fetched database list; an empty list leaves the list
    /// empty as it was.
    pub fn apply_database_rows(&mut self, rows: Vec<DatabaseNames>)
        ensures
            final(self).databases@ == (if rows@.len() == 0 {
                old(self).databases@
            } else {
                rows@
            }),
            *final(self) == (Rosemary { databases: final(self).databases, ..*old(self) }),
    {
        if rows.len() != 0 {
            self.databases = rows;
        }
    }

    /// Opens the running-queries window and empties the list before it is
    /// fetched. Returns whether to fetch it (only with a connection).
    pub fn open_running_queries(&mut self) -> (fetch: bool)
        ensures
            fetch == old(self).connected,
            final(self).running_queries@.len() == 0,
            *final(self) == (Rosemary {
                running_queries_modal_open: true,
                running_queries: final(self).running_queries,
                ..*old(self)
            }),
    {
        self.running_queries_modal_open = true;
        self.running_queries = Vec::new();
        self.connected
    }

    /// Takes in the fetched running queries; an empty list leaves the list
    /// as it was.
    pub fn apply_running_queries(&mut self, rows: Vec<RunningQueriesData>)
        ensures
            final(self).running_queries@ == (if rows@.len() == 0 {
                old(self).running_queries@
            } else {
                rows@
            }),
            *final(self) == (Rosemary { running_queries: final(self).running_queries, ..*old(self) }),
    {
        if rows.len() != 0 {
            self.running_queries = rows;
        }
    }

    /// Ctrl and a digit key choose the statement slot to run.
    pub fn select_query_slot(&mut self, key: u8)
        requires
            key <= 9,
        ensures
            *final(self) == (Rosemary { query_to_execute: key, ..*old(self) }),
    {
        self.query_to_execute = key;
    }

    /// The frame's digit keys, each pressed with Ctrl or Command: keys are
    /// looked at from 0 to 9, so the highest digit pressed chooses the slot;
    /// with none pressed the slot stays.
    pub fn select_pressed_slot(&mut self, pressed: &[bool; 10])
        ensures
            *final(self) == (Rosemary {
                query_to_execute: match highest_pressed(pressed@, 10) {
                    Some(k) => k as u8,
                    None => old(self).query_to_execute,
                },
                ..*old(self)
            }),
    {
        let mut key: usize = 0;
        while key < 10
            invariant
                key <= 10,
                *self == (Rosemary {
                    query_to_execute: match highest_pressed(pressed@, key as int) {
                        Some(k) => k as u8,
                        None => old(self).query_to_execute,
                    },
                    ..*old(self)
                }),
            decreases 10 - key,
        {
            if pressed[key] {
                self.select_query_slot(key as u8);
            }
            key = key + 1;
        }
    }

    /// A request to run the chosen statement (Ctrl+Enter or the Execute
    /// button): with Shift it goes to the second table, which is then
    /// shown; otherwise to the first. Returns (first, second).
    pub fn request_execution(&mut self, shift: bool) -> (r: (bool, bool))
        ensures
            r == (!shift, shift),
            *final(self) == (Rosemary {
                split_results_table: old(self).split_results_table || shift,
                ..*old(self)
            }),
    {
        if shift {
            self.split_results_table = true;
            (false, true)
        } else {
            (true, false)
        }
    }

    /// The statement to run from the editor's text (see `chosen_statement`).
    pub fn query_to_run(&self) -> (q: String)
        ensures
            q@ == chosen_statement(self.code@, self.query_to_execute),
    {
        let st = split_statements(self.code.as_str());
        let slot = self.query_to_execute;
        proof {
            assert(strings_view(st@).len() == st@.len());
        }
        if slot != 0 && ((slot - 1) as usize) < st.len() {
            let q = st[(slot - 1) as usize].clone();
            assert(q@ == strings_view(st@)[slot - 1]);
            q
        } else if st.len() == 0 {
            String::new()
        } else {
            let q = st[st.len() - 1].clone();
            assert(q@ == strings_view(st@)[st@.len() - 1]);
            q
        }
    }

    /// Starts running a statement when one was asked for and the editor is
    /// not blank: the target table (the first unless only the second was
    /// asked for) is reset, and the table and the statement are returned.
    pub fn prepare_execution(&mut self, first: bool, second: bool) -> (r: Option<(usize, String)>)
        requires
            old(self).wf(),
        ensures
            final(self).wf(),
            final(self).same_but_results(&*old(self)),
            r is Some <==> ((first || second) && trim_seq(old(self).code@).len() != 0),
            r is None ==> results_kept(*old(self), *final(self)),
            r matches Some((idx, q)) ==> {
                &&& idx == (if first {
                    0usize
                } else {
                    1usize
                })
                &&& q@ == chosen_statement(old(self).code@, old(self).query_to_execute)
                &&& final(self).query_results@[idx as int].is_reset()
                &&& final(self).query_results@[idx as int].page_in_range()
                &&& final(self).query_results@[1 - idx] == old(self).query_results@[1 - idx]
                &&& reset_step(*old(self), *final(self), idx as int)
            },
    {
        if (first || second) && !is_blank(self.code.as_str()) {
            let q = self.query_to_run();
            let idx: usize = if first {
                0
            } else {
                1
            };
            self.reset_query_result_data(idx);
            Some((idx, q))
        } else {
            None
        }
    }

    /// The editor's Format button: the text is replaced by its formatting.
    pub fn format_code(&mut self)
        ensures
            final(self).code@ == editor_formatted(old(self).code@),
            *final(self) == (Rosemary { code: final(self).code, ..*old(self) }),
    {
        self.code = format_sql(self.code.as_str());
    }

    /// Takes in what a query gave into the first result table (results of
    /// either request land there): the execution times always; then, for an
    /// error, a single row holding the message; else, for a non-empty result,
    /// the columns followed by the hidden numbering column, and the rows, each
    /// followed by its number. An empty result without error changes nothing
    /// more.
    pub fn apply_query_result(
        &mut self,
        error_message: String,
        columns: Vec<String>,
        rows: Vec<Vec<CellValue>>,
        ms: u128,
        centisec: u64,
    )
        requires
            old(self).wf(),
            forall|i: int| 0 <= i < rows@.len() ==> (#[trigger] rows@[i])@.len() == columns@.len(),
        ensures
            final(self).wf(),
            final(self).same_but_results(&*old(self)),
            final(self).query_results@[1] == old(self).query_results@[1],
            received_step(*old(self), *final(self), error_message, columns@, rows@, ms, centisec),
    {
        let mut panel = QueryResultsPanel::new();
        std::mem::swap(&mut panel, &mut self.query_results[0]);
        let ghost o = panel;
        panel.query_execution_time_ms = ms;
        panel.query_execution_time_centisec = centisec;
        if !error_message.as_str().is_empty() {
            let mut cols: Vec<String> = Vec::new();
            let mut c0 = String::new();
            append_str(&mut c0, "error_message");
            cols.push(c0);
            let mut c1 = String::new();
            append_str(&mut c1, ROSEMARY_SORT_COL_STR);
            cols.push(c1);
            let mut row: Vec<CellValue> = Vec::new();
            row.push(CellValue::Text(error_message));
            row.push(CellValue::BigInt(0));
            let mut new_rows: Vec<Vec<CellValue>> = Vec::new();
            new_rows.push(row);
            panel.res_columns = cols;
            panel.parsed_res_rows = new_rows;
            assert(strings_view(panel.res_columns@) =~= seq!["error_message"@, ROSEMARY_SORT_COL_STR@]);
            assert(panel.parsed_res_rows@[0]@ =~= seq![CellValue::Text(error_message), CellValue::BigInt(0)]);
        } else if rows.len() != 0 {
            let mut cols = columns;
            let ghost cols0 = cols@;
            let mut last = String::new();
            append_str(&mut last, ROSEMARY_SORT_COL_STR);
            cols.push(last);
            assert(strings_view(cols@) =~= strings_view(cols0).push(ROSEMARY_SORT_COL_STR@));
            let mut rows = rows;
            let ghost rows0 = rows@;
            let n = rows.len();
            let mut numbered: Vec<Vec<CellValue>> = Vec::new();
            let mut i: usize = 0;
            while i < n
                invariant
                    n == rows@.len() == rows0.len(),
                    i <= n,
                    numbered@.len() == i,
                    cols@.len() == cols0.len() + 1,
                    forall|k: int| i <= k < n ==> #[trigger] rows@[k] == rows0[k],
                    forall|k: int| 0 <= k < n ==> (#[trigger] rows0[k])@.len() == cols0.len(),
                    forall|k: int| 0 <= k < i ==> (#[trigger] numbered@[k])@
                        == rows0[k]@.push(CellValue::BigInt(k as i64)),
                decreases n - i,
            {
                let mut row: Vec<CellValue> = Vec::new();
                std::mem::swap(&mut row, &mut rows[i]);
                row.push(CellValue::BigInt(i as i64));
                numbered.push(row);
                i = i + 1;
            }
            panel.res_columns = cols;
            panel.parsed_res_rows = numbered;
        }
        std::mem::swap(&mut panel, &mut self.query_results[0]);
        assert(self.query_results@ =~= old(self).query_results@.update(0, self.query_results@[0]));
    }
}


impl Rosemary {
    /// The state at first start: the connection form with `localhost` and
    /// port `5432`, no connection, an empty editor, the table list shown,
    /// additive table queries, and two result tables before any result.
    pub open spec fn is_initial(&self) -> bool {
        &&& self.wf()
        &&& self.code@ == Seq::<char>::empty()
        &&& self.query_to_execute == 0
        &&& !self.connected
        &&& self.tables@.len() == 0
        &&& self.databases@.len() == 0
        &&& !self.should_fetch_table_list
        &&& self.table_filter@ == Seq::<char>::empty()
        &&& self.show_table_list
        &&& !self.connection_modal_open
        &&& !self.db_select_modal_open
        &&& self.connection_name@ == Seq::<char>::empty()
        &&& self.db_host@ == "localhost"@
        &&& self.db_port@ == "5432"@
        &&& self.db_user@ == Seq::<char>::empty()
        &&& self.db_password@ == Seq::<char>::empty()
        &&& self.db_name@ == Seq::<char>::empty()
        &&& self.selected_db@ == Seq::<char>::empty()
        &&& self.connection_list@.len() == 0
        &&& self.connect_to_idx == 0
        &&& self.table_queries_are_additive
        &&& !self.split_results_table
        &&& self.query_results@[0].is_reset()
        &&& self.query_results@[1].is_reset()
        &&& self.running_queries@.len() == 0
        &&& !self.running_queries_modal_open
    }
}

impl Default for Rosemary {
    fn default() -> (r: Self)
        ensures
            r.is_initial(),
    {
        let mut host = String::new();
        append_str(&mut host, "localhost");
        let mut port = String::new();
        append_str(&mut port, "5432");
        let mut results: Vec<QueryResultsPanel> = Vec::new();
        results.push(QueryResultsPanel::new());
        results.push(QueryResultsPanel::new());
        Rosemary {
            code: String::new(),
            query_to_execute: 0,
            connected: false,
            tables: Vec::new(),
            databases: Vec::new(),
            should_fetch_table_list: false,
            table_filter: String::new(),
            show_table_list: true,
            connection_modal_open: false,
            db_select_modal_open: false,
            connection_name: String::new(),
            db_host: host,
            db_port: port,
            db_user: String::new(),
            db_password: String::new(),
            db_name: String::new(),
            selected_db: String::new(),
            connection_list: Vec::new(),
            connect_to_idx: 0,
            table_queries_are_additive: true,
            split_results_table: false,
            query_results: results,
            running_queries: Vec::new(),
            running_queries_modal_open: false,
        }
    }
}


/// The rows that a result brings carry their arrival numbers in the hidden
/// last column, so that sorting by it restores the order of arrival (see
/// `lemma_sort_by_number_restores_arrival_order`).
pub proof fn lemma_arrived_rows_numbered(
    out: Seq<Vec<CellValue>>,
    rows: Seq<Vec<CellValue>>,
    ncols: int,
)
    requires
        out.len() == rows.len(),
        forall|i: int| 0 <= i < rows.len() ==> (#[trigger] rows[i])@.len() == ncols,
        forall|i: int| 0 <= i < rows.len() ==> (#[trigger] out[i])@ == rows[i]@.push(CellValue::BigInt(i as i64)),
    ensures
        crate::ui::results_table_panel::numbered(out, ncols),
{
    assert forall|k: int| 0 <= k < out.len() implies ncols < (#[trigger] out[k])@.len() && out[k]@[ncols]
        == CellValue::BigInt(k as i64) by {
        assert(out[k]@ == rows[k]@.push(CellValue::BigInt(k as i64)));
        assert(rows[k]@.len() == ncols);
    }
}


impl Rosemary {
    /// A click on the header button of column `column_name` of result table
    /// `table` (see `sort_click`).
    pub fn sort_table_by_header(&mut self, table: usize, column_name: &str)
        requires
            old(self).wf(),
            table < 2,
        ensures
            final(self).wf(),
            final(self).same_but_results(&*old(self)),
            final(self).query_results@[1 - table] == old(self).query_results@[1 - table],
            sort_click(
                old(self).query_results@[table as int],
                final(self).query_results@[table as int],
                column_name@,
            ),
            sort_step(*old(self), *final(self), table as int, column_name@),
    {
        let mut panel = QueryResultsPanel::new();
        std::mem::swap(&mut panel, &mut self.query_results[table]);
        click_sort_header(&mut panel, column_name);
        std::mem::swap(&mut panel, &mut self.query_results[table]);
        assert(self.query_results@ =~= old(self).query_results@.update(table as int, self.query_results@[table as int]));
    }

    /// The Previous button of result table `table`.
    pub fn previous_table_page(&mut self, table: usize)
        requires
            old(self).wf(),
            table < 2,
        ensures
            final(self).wf(),
            final(self).same_but_results(&*old(self)),
            final(self).query_results@[1 - table] == old(self).query_results@[1 - table],
            final(self).query_results@[table as int] == (QueryResultsPanel {
                current_page: previous_page_of(old(self).query_results@[table as int].current_page),
                ..old(self).query_results@[table as int]
            }),
            page_step(*old(self), *final(self), table as int),
    {
        let mut panel = QueryResultsPanel::new();
        std::mem::swap(&mut panel, &mut self.query_results[table]);
        previous_page(&mut panel);
        std::mem::swap(&mut panel, &mut self.query_results[table]);
        assert(self.query_results@ =~= old(self).query_results@.update(table as int, self.query_results@[table as int]));
    }

    /// The Next button of result table `table`.
    pub fn next_table_page(&mut self, table: usize)
        requires
            old(self).wf(),
            table < 2,
        ensures
            final(self).wf(),
            final(self).same_but_results(&*old(self)),
            final(self).query_results@[1 - table] == old(self).query_results@[1 - table],
            final(self).query_results@[table as int] == (QueryResultsPanel {
                current_page: next_page_of(
                    old(self).query_results@[table as int].current_page,
                    old(self).query_results@[table as int].rows_per_page,
                    old(self).query_results@[table as int].parsed_res_rows@.len(),
                ),
                ..old(self).query_results@[table as int]
            }),
            page_step(*old(self), *final(self), table as int),
    {
        let mut panel = QueryResultsPanel::new();
        std::mem::swap(&mut panel, &mut self.query_results[table]);
        next_page(&mut panel);
        std::mem::swap(&mut panel, &mut self.query_results[table]);
        assert(self.query_results@ =~= old(self).query_results@.update(table as int, self.query_results@[table as int]));
    }
}


// ------------------------------------------------------------------
// The steps of a frame
// ------------------------------------------------------------------

/// `t` has the result tables of `s`: what every step does that leaves them
/// alone (the editor, the catalogue lists, the windows, the slot, the
/// flags, and the fields that the window edits itself).
pub open spec fn results_kept(s: Rosemary, t: Rosemary) -> bool {
    t.query_results == s.query_results
}

/// `t` has the result tables of `s` but table `idx`, which is `p`.
pub open spec fn table_replaced(s: Rosemary, t: Rosemary, idx: int, p: QueryResultsPanel) -> bool {
    &&& 0 <= idx < s.query_results@.len()
    &&& t.query_results@ == s.query_results@.update(idx, p)
}

/// Result table `idx` is reset (a statement is started on it).
pub open spec fn reset_step(s: Rosemary, t: Rosemary, idx: int) -> bool {
    &&& table_replaced(s, t, idx, t.query_results@[idx])
    &&& t.query_results@[idx].is_reset()
}

/// Both result tables are reset (a connection is made).
pub open spec fn all_reset_step(s: Rosemary, t: Rosemary) -> bool {
    &&& t.query_results@.len() == s.query_results@.len()
    &&& forall|i: int| 0 <= i < t.query_results@.len() ==> (#[trigger] t.query_results@[i]).is_reset()
}

/// Result table `p` is `o` after taking in what a query gave: the
/// execution times always; then, for an error, a single row holding the
/// message; else, for a non-empty result, the columns followed by the hidden
/// numbering column, and the rows, each followed by its number; an empty
/// result without error changes nothing more.
pub open spec fn received(
    o: QueryResultsPanel,
    p: QueryResultsPanel,
    error_message: String,
    columns: Seq<String>,
    rows: Seq<Vec<CellValue>>,
    ms: u128,
    centisec: u64,
) -> bool {
    &&& p.query_execution_time_ms == ms
    &&& p.query_execution_time_centisec == centisec
    &&& p.current_page == o.current_page
    &&& p.rows_per_page == o.rows_per_page
    &&& p.reversed == o.reversed
    &&& p.sort_by_col == o.sort_by_col
    &&& if error_message@.len() != 0 {
        &&& strings_view(p.res_columns@) == seq!["error_message"@, ROSEMARY_SORT_COL_STR@]
        &&& p.parsed_res_rows@.len() == 1
        &&& p.parsed_res_rows@[0]@ == seq![CellValue::Text(error_message), CellValue::BigInt(0)]
    } else if rows.len() != 0 {
        &&& strings_view(p.res_columns@) == strings_view(columns).push(ROSEMARY_SORT_COL_STR@)
        &&& p.parsed_res_rows@.len() == rows.len()
        &&& forall|i: int| 0 <= i < rows.len() ==> (#[trigger] p.parsed_res_rows@[i])@
            == rows[i]@.push(CellValue::BigInt(i as i64))
    } else {
        &&& p.res_columns == o.res_columns
        &&& p.parsed_res_rows == o.parsed_res_rows
    }
}

/// What a query gave, with every row as wide as its column list, is taken
/// into the first result table.
pub open spec fn received_step(
    s: Rosemary,
    t: Rosemary,
    error_message: String,
    columns: Seq<String>,
    rows: Seq<Vec<CellValue>>,
    ms: u128,
    centisec: u64,
) -> bool {
    &&& forall|i: int| 0 <= i < rows.len() ==> (#[trigger] rows[i])@.len() == columns.len()
    &&& table_replaced(s, t, 0, t.query_results@[0])
    &&& received(s.query_results@[0], t.query_results@[0], error_message, columns, rows, ms, centisec)
}

/// A click on the header button of column `column_name` of result table
/// `table`.
pub open spec fn sort_step(s: Rosemary, t: Rosemary, table: int, column_name: Seq<char>) -> bool {
    &&& table_replaced(s, t, table, t.query_results@[table])
    &&& sort_click(s.query_results@[table], t.query_results@[table], column_name)
}

/// Result table `table` shows another page; nothing else of it changes.
pub open spec fn page_step(s: Rosemary, t: Rosemary, table: int) -> bool {
    &&& table_replaced(s, t, table, t.query_results@[table])
    &&& t.query_results@[table] == (QueryResultsPanel {
        current_page: t.query_results@[table].current_page,
        ..s.query_results@[table]
    })
}

/// One step of a frame: the state `s` becomes `t` by one of the library's
/// operations, or by the window editing a field outside the result tables.
pub open spec fn frame_step(s: Rosemary, t: Rosemary) -> bool {
    ||| results_kept(s, t)
    ||| all_reset_step(s, t)
    ||| exists|idx: int| reset_step(s, t, idx)
    ||| exists|e: String, c: Seq<String>, r: Seq<Vec<CellValue>>, ms: u128, cs: u64|
        received_step(s, t, e, c, r, ms, cs)
    ||| exists|table: int, name: Seq<char>| sort_step(s, t, table, name)
    ||| exists|table: int| page_step(s, t, table)
}

/// Step `k` of the run of states `run` is a step of a frame.
pub open spec fn step_at(run: Seq<Rosemary>, k: int) -> bool {
    frame_step(run[k], run[k + 1])
}

/// One step of a frame keeps the state well formed.
pub proof fn lemma_frame_step_keeps_wf(s: Rosemary, t: Rosemary)
    requires
        s.wf(),
        frame_step(s, t),
    ensures
        t.wf(),
{
    if results_kept(s, t) {
    } else if all_reset_step(s, t) {
    } else if exists|idx: int| reset_step(s, t, idx) {
        let idx = choose|idx: int| reset_step(s, t, idx);
        assert forall|i: int| 0 <= i < 2 implies (#[trigger] t.query_results@[i]).wf()
            && t.query_results@[i].rows_per_page == ROWS_PER_PAGE by {
            if i != idx {
                assert(t.query_results@[i] == s.query_results@[i]);
            }
        }
    } else if exists|e: String, c: Seq<String>, r: Seq<Vec<CellValue>>, ms: u128, cs: u64|
        received_step(s, t, e, c, r, ms, cs) {
        let (e, c, r, ms, cs) = choose|
            e: String,
            c: Seq<String>,
            r: Seq<Vec<CellValue>>,
            ms: u128,
            cs: u64,
        | received_step(s, t, e, c, r, ms, cs);
        let o = s.query_results@[0];
        let p = t.query_results@[0];
        assert(p.res_columns@.len() == strings_view(p.res_columns@).len());
        if e@.len() != 0 {
            assert(p.parsed_res_rows@[0]@.len() == 2);
        } else if r.len() != 0 {
            assert(strings_view(c).len() == c.len());
            assert forall|i: int| 0 <= i < p.parsed_res_rows@.len() implies (
            #[trigger] p.parsed_res_rows@[i])@.len() == p.res_columns@.len() by {
                assert(p.parsed_res_rows@[i]@ == r[i]@.push(CellValue::BigInt(i as i64)));
            }
        }
        assert(p.wf());
        assert(t.query_results@[1] == s.query_results@[1]);
    } else if exists|table: int, name: Seq<char>| sort_step(s, t, table, name) {
        let (table, name) = choose|table: int, name: Seq<char>| sort_step(s, t, table, name);
        let o = s.query_results@[table];
        let p = t.query_results@[table];
        match column_position(strings_view(o.res_columns@), p.sort_by_col@) {
            Some(col) => {
                let q = choose|q: Seq<int>|
                    arranged_by(p.parsed_res_rows@, o.parsed_res_rows@, q, col, p.reversed);
                assert forall|i: int| 0 <= i < p.parsed_res_rows@.len() implies (
                #[trigger] p.parsed_res_rows@[i])@.len() == p.res_columns@.len() by {
                    assert(p.parsed_res_rows@[i] == o.parsed_res_rows@[q[i]]);
                }
            },
            None => {},
        }
        assert(p.wf());
        assert forall|i: int| 0 <= i < 2 implies (#[trigger] t.query_results@[i]).wf()
            && t.query_results@[i].rows_per_page == ROWS_PER_PAGE by {
            if i != table {
                assert(t.query_results@[i] == s.query_results@[i]);
            }
        }
    } else {
        let table = choose|table: int| page_step(s, t, table);
        assert forall|i: int| 0 <= i < 2 implies (#[trigger] t.query_results@[i]).wf()
            && t.query_results@[i].rows_per_page == ROWS_PER_PAGE by {
            if i != table {
                assert(t.query_results@[i] == s.query_results@[i]);
            }
        }
    }
}

/// The state invariant across frames: in a run of states where each state
/// comes from the one before by a step of a frame (the library's operations
/// on the result tables — starting a statement, taking in a result, sorting,
/// paging, connecting — or any change outside the result tables), every
/// state is well formed when the first is: two result tables, pages of
/// `ROWS_PER_PAGE` rows, a column at least, and every row as wide as its
/// table's column list.
pub proof fn lemma_frames_keep_state_well_formed(run: Seq<Rosemary>)
    requires
        run.len() >= 1,
        run[0].wf(),
        forall|k: int| 0 <= k < run.len() - 1 ==> #[trigger] step_at(run, k),
    ensures
        forall|k: int| 0 <= k < run.len() ==> (#[trigger] run[k]).wf(),
    decreases run.len(),
{
    if run.len() > 1 {
        let prefix = run.drop_last();
        assert forall|k: int| 0 <= k < prefix.len() - 1 implies #[trigger] step_at(prefix, k) by {
            assert(step_at(run, k));
        }
        lemma_frames_keep_state_well_formed(prefix);
        let n = run.len() - 1;
        assert(prefix[n - 1] == run[n - 1]);
        assert(step_at(run, n - 1));
        lemma_frame_step_keeps_wf(run[n - 1], run[n]);
        assert forall|k: int| 0 <= k < run.len() implies (#[trigger] run[k]).wf() by {
            if k < n {
                assert(prefix[k] == run[k]);
            }
        }
    }
}

} // verus!
