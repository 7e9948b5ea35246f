//! The buttons under the editor.
use crate::app::Rosemary;
use crate::text::append_str;
use vstd::prelude::*;

verus! {

/// The text of the button that hides or shows the table list.
pub open spec fn table_list_button_text(show_table_list: bool) -> Seq<char> {
    if show_table_list {
        "\u{2b07}  Hide tables"@
    } else {
        "\u{2b06}  Show tables"@
    }
}

/// The text of the button that hides or shows the table list.
pub fn table_list_button_label(app: &Rosemary) -> (s: String)
    ensures
        s@ == table_list_button_text(app.show_table_list),
{
    let mut s = String::new();
    if app.show_table_list {
        append_str(&mut s, "\u{2b07}  Hide tables");
    } else {
        append_str(&mut s, "\u{2b06}  Show tables");
    }
    s
}

/// The text of the button that splits or merges the result tables.
pub open spec fn split_button_text(split: bool) -> Seq<char> {
    if split {
        "Merge"@
    } else {
        "Split"@
    }
}

/// The text of the button that splits or merges the result tables.
pub fn split_button_label(app: &Rosemary) -> (s: String)
    ensures
        s@ == split_button_text(app.split_results_table),
{
    let mut s = String::new();
    if app.split_results_table {
        append_str(&mut s, "Merge");
    } else {
        append_str(&mut s, "Split");
    }
    s
}

/// The hide/show tables button.
pub fn toggle_table_list(app: &mut Rosemary)
    ensures
        *final(app) == (Rosemary { show_table_list: !old(app).show_table_list, ..*old(app) }),
{
    app.show_table_list = !app.show_table_list;
}

/// The split/merge button.
pub fn toggle_split(app: &mut Rosemary)
    ensures
        *final(app) == (Rosemary {
            split_results_table: !old(app).split_results_table,
            ..*old(app)
        }),
{
    app.split_results_table = !app.split_results_table;
}

} // verus!
