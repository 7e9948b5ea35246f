//! The rows that the catalogue queries return, the statement that stops a
//! running query, and the texts of a row of the running-queries table.
use crate::text::{append_str, decimal, i128_to_decimal, signed_decimal, u128_to_decimal};
use vstd::prelude::*;

verus! {

/// A table of the database: its name, its type and its schema.
#[derive(Debug, Clone)]
pub struct PublicTable {
    pub table_name: Option<String>,
    pub table_type: Option<String>,
    pub table_schema: Option<String>,
}

/// The name of a database of the server.
#[derive(Debug, Clone)]
pub struct DatabaseNames {
    pub datname: Option<String>,
}

/// The process id of the server backend that runs a query.
#[derive(Debug, Clone, Copy)]
pub struct QueryPID {
    pub pg_backend_pid: Option<i32>,
}

/// One active query of the server. The object identifiers are held by
/// their numbers.
#[derive(Debug, Clone)]
pub struct RunningQueriesData {
    pub datid: Option<u32>,
    pub datname: Option<String>,
    pub pid: Option<i32>,
    pub state: Option<String>,
    pub query: Option<String>,
    pub usesysid: Option<u32>,
    pub usename: Option<String>,
    pub application_name: Option<String>,
    pub client_port: Option<i32>,
}

/// The statement that terminates the backend `pid`, where `pid` is positive.
pub open spec fn cancel_statement(pid: i32) -> Option<Seq<char>> {
    if pid > 0 {
        Some("SELECT pg_terminate_backend("@ + signed_decimal(pid as int) + ")"@)
    } else {
        None
    }
}

/// The statement that `cancel_query` runs for `pid`: none unless `pid` is
/// positive.
pub fn cancel_query_statement(pid: i32) -> (r: Option<String>)
    ensures
        match r {
            Some(s) => cancel_statement(pid) == Some(s@),
            None => cancel_statement(pid) is None,
        },
{
    if pid > 0 {
        let mut s = String::new();
        append_str(&mut s, "SELECT pg_terminate_backend(");
        let n = i128_to_decimal(pid as i128);
        append_str(&mut s, n.as_str());
        append_str(&mut s, ")");
        Some(s)
    } else {
        None
    }
}

/// The text shown for an optional text field: the text, or `N/A`.
pub open spec fn text_or_na(v: Option<String>) -> Seq<char> {
    match v {
        Some(s) => s@,
        None => "N/A"@,
    }
}

/// The debug form of an object identifier, `Oid(n)`; a missing one shows as
/// `Oid(0)`.
pub open spec fn oid_text(v: Option<u32>) -> Seq<char> {
    let n: u32 = match v {
        Some(x) => x,
        None => 0,
    };
    "Oid("@ + decimal(n as nat) + ")"@
}

/// The text shown for an optional integer field; a missing one shows as `0`.
pub open spec fn int_or_zero_text(v: Option<i32>) -> Seq<char> {
    match v {
        Some(x) => signed_decimal(x as int),
        None => decimal(0),
    }
}

/// The cells of one row of the running-queries table, in column order:
/// datid, datname, pid, state, query, usesysid, usename, application_name,
/// client_port.
pub open spec fn running_query_texts(q: RunningQueriesData) -> Seq<Seq<char>> {
    seq![
        oid_text(q.datid),
        text_or_na(q.datname),
        int_or_zero_text(q.pid),
        text_or_na(q.state),
        text_or_na(q.query),
        oid_text(q.usesysid),
        text_or_na(q.usename),
        text_or_na(q.application_name),
        int_or_zero_text(q.client_port),
    ]
}

fn show_text_or_na(v: &Option<String>) -> (s: String)
    ensures
        s@ == text_or_na(*v),
{
    match v {
        Some(x) => x.clone(),
        None => {
            let mut s = String::new();
            append_str(&mut s, "N/A");
            s
        },
    }
}

fn show_oid(v: Option<u32>) -> (s: String)
    ensures
        s@ == oid_text(v),
{
    let n: u32 = match v {
        Some(x) => x,
        None => 0,
    };
    let mut s = String::new();
    append_str(&mut s, "Oid(");
    let d = u128_to_decimal(n as u128);
    append_str(&mut s, d.as_str());
    append_str(&mut s, ")");
    s
}

fn show_int_or_zero(v: Option<i32>) -> (s: String)
    ensures
        s@ == int_or_zero_text(v),
{
    match v {
        Some(x) => i128_to_decimal(x as i128),
        None => u128_to_decimal(0),
    }
}

/// The cells of one row of the running-queries table.
pub fn running_query_cells(q: &RunningQueriesData) -> (v: Vec<String>)
    ensures
        v@.len() == 9,
        forall|i: int| 0 <= i < 9 ==> #[trigger] v@[i]@ == running_query_texts(*q)[i],
{
    let mut v: Vec<String> = Vec::new();
    v.push(show_oid(q.datid));
    v.push(show_text_or_na(&q.datname));
    v.push(show_int_or_zero(q.pid));
    v.push(show_text_or_na(&q.state));
    v.push(show_text_or_na(&q.query));
    v.push(show_oid(q.usesysid));
    v.push(show_text_or_na(&q.usename));
    v.push(show_text_or_na(&q.application_name));
    v.push(show_int_or_zero(q.client_port));
    v
}

} // verus!
