//! SQL formatting for the editor.
use vstd::prelude::*;

verus! {

/// The editor indents formatted SQL by this many spaces.
pub const FORMAT_INDENT_SPACES: u8 = 2;

/// The editor writes keywords of formatted SQL in upper case.
pub const FORMAT_UPPERCASE: bool = true;

/// The editor puts this many line breaks after each formatted query.
pub const FORMAT_LINES_BETWEEN_QUERIES: u8 = 1;

/// What `sqlformat::format` gives for `sql` with no parameters, indentation
/// of `indent_spaces` spaces, keywords in upper case when `uppercase`, and
/// `lines_between_queries` line breaks after each query.
pub uninterp spec fn formatted_sql(
    sql: Seq<char>,
    indent_spaces: u8,
    uppercase: bool,
    lines_between_queries: u8,
) -> Seq<char>;

/// The editor's formatting of `sql`: two-space indentation, upper-case
/// keywords, one line between queries.
pub open spec fn editor_formatted(sql: Seq<char>) -> Seq<char> {
    formatted_sql(sql, FORMAT_INDENT_SPACES, FORMAT_UPPERCASE, FORMAT_LINES_BETWEEN_QUERIES)
}

/// Formats `sql` with `sqlformat::format`, no parameters, and the options
/// given (`Indent::Spaces(indent_spaces)`, `uppercase`,
/// `lines_between_queries`). The result is the named `formatted_sql` of the
/// arguments.
#[verifier::external_body]
fn sqlformat_format(
    sql: &str,
    indent_spaces: u8,
    uppercase: bool,
    lines_between_queries: u8,
) -> (s: String)
    ensures
        s@ == formatted_sql(sql@, indent_spaces, uppercase, lines_between_queries),
{
    sqlformat::format(
        sql,
        &sqlformat::QueryParams::None,
        sqlformat::FormatOptions {
            indent: sqlformat::Indent::Spaces(indent_spaces),
            uppercase,
            lines_between_queries,
        },
    )
}

/// The editor's formatting of `sql`.
pub fn format_sql(sql: &str) -> (s: String)
    ensures
        s@ == editor_formatted(sql@),
{
    sqlformat_format(sql, FORMAT_INDENT_SPACES, FORMAT_UPPERCASE, FORMAT_LINES_BETWEEN_QUERIES)
}

} // verus!
