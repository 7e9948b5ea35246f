//! The line under the result tables: how many rows came back and how long
//! the query took.
use crate::app::{QueryResultsPanel, Rosemary};
use crate::text::{append_str, decimal, digit, digit_char, push_char, u128_to_decimal};
use num_format::ToFormattedString;
use vstd::prelude::*;

verus! {

/// The three decimal digits of `m` (below 1000), leading zeros kept.
pub open spec fn three_digits(m: nat) -> Seq<char> {
    seq![digit_char(m / 100), digit_char((m / 10) % 10), digit_char(m % 10)]
}

/// The decimal digits of `n` grouped by threes with commas, as English
/// writes numbers: 1,234,567.
pub open spec fn grouped_decimal(n: nat) -> Seq<char>
    decreases n,
{
    if n < 1000 {
        decimal(n)
    } else {
        grouped_decimal(n / 1000) + seq![','] + three_digits(n % 1000)
    }
}

/// A count written with num_format's English locale
/// (`n.to_formatted_string(&Locale::en)`): that locale groups digits by
/// threes with a comma as separator, which is `grouped_decimal`.
#[verifier::external_body]
fn formatted_count(n: usize) -> (s: String)
    ensures
        s@ == grouped_decimal(n as nat),
{
    n.to_formatted_string(&num_format::Locale::en)
}

/// "Row" for one row, "Rows" otherwise, after the grouped count.
pub open spec fn row_count_text(n: nat) -> Seq<char> {
    grouped_decimal(n) + " "@ + (if n == 1 {
        "Row"@
    } else {
        "Rows"@
    })
}

/// The decimal text of a time in hundredths of a second as seconds, as
/// `Display` writes an `f64` rounded to two decimals: no fraction for a
/// whole number, else without trailing zeros.
pub open spec fn seconds_text(centis: nat) -> Seq<char> {
    let whole = centis / 100;
    let frac = centis % 100;
    if frac == 0 {
        decimal(whole)
    } else if frac % 10 == 0 {
        decimal(whole) + seq!['.', digit_char(frac / 10)]
    } else {
        decimal(whole) + seq!['.', digit_char(frac / 10), digit_char(frac % 10)]
    }
}

/// The metrics of one result table: the row count and, above one second,
/// the time in seconds, otherwise in milliseconds.
pub open spec fn metrics_text(panel: QueryResultsPanel) -> Seq<char> {
    let rows = row_count_text(panel.parsed_res_rows@.len());
    if panel.query_execution_time_centisec > 100 {
        rows + " || Execution time: "@ + seconds_text(panel.query_execution_time_centisec as nat)
            + " sec"@
    } else {
        rows + " || Execution time: "@ + decimal(panel.query_execution_time_ms as nat) + " ms"@
    }
}

/// The row count with its noun.
pub fn row_count_label(n: usize) -> (s: String)
    ensures
        s@ == row_count_text(n as nat),
{
    let mut s = formatted_count(n);
    append_str(&mut s, " ");
    if n == 1 {
        append_str(&mut s, "Row");
    } else {
        append_str(&mut s, "Rows");
    }
    s
}

/// The seconds of a time in hundredths of a second.
pub fn seconds_label(centis: u64) -> (s: String)
    ensures
        s@ == seconds_text(centis as nat),
{
    let whole = centis / 100;
    let frac = centis % 100;
    let mut s = u128_to_decimal(whole as u128);
    if frac != 0 {
        push_char(&mut s, '.');
        push_char(&mut s, digit((frac / 10) as u8));
        if frac % 10 != 0 {
            push_char(&mut s, digit((frac % 10) as u8));
        }
    }
    s
}

/// The metrics of one result table.
pub fn metrics_label(panel: &QueryResultsPanel) -> (s: String)
    ensures
        s@ == metrics_text(*panel),
{
    let mut s = row_count_label(panel.parsed_res_rows.len());
    append_str(&mut s, " || Execution time: ");
    if panel.query_execution_time_centisec > 100 {
        let t = seconds_label(panel.query_execution_time_centisec);
        append_str(&mut s, t.as_str());
        append_str(&mut s, " sec");
    } else {
        let t = u128_to_decimal(panel.query_execution_time_ms);
        append_str(&mut s, t.as_str());
        append_str(&mut s, " ms");
    }
    s
}

/// The metrics line: the first table's, and the second's while it is shown.
pub fn metrics_labels(app: &Rosemary) -> (r: (String, Option<String>))
    requires
        app.wf(),
    ensures
        r.0@ == metrics_text(app.query_results@[0]),
        match r.1 {
            Some(t) => app.split_results_table && t@ == metrics_text(app.query_results@[1]),
            None => !app.split_results_table,
        },
{
    let first = metrics_label(&app.query_results[0]);
    if app.split_results_table {
        (first, Some(metrics_label(&app.query_results[1])))
    } else {
        (first, None)
    }
}

} // verus!
