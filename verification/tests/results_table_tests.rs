use rosemary::app::{QueryResultsPanel, ROSEMARY_SORT_COL_STR};
use rosemary::postgres::CellValue;
use rosemary::ui::results_table_panel::{
    click_sort_header, find_column, page_bounds, row_cell_texts, sort_button_label, sort_rows,
    visible_columns,
};

fn text(s: &str) -> CellValue {
    CellValue::Text(s.to_string())
}

fn key(row: &Vec<CellValue>, col: usize) -> String {
    rosemary::postgres::cell_text(&row[col])
}

fn sample_panel() -> QueryResultsPanel {
    let mut p = QueryResultsPanel::new();
    p.res_columns = vec!["name".to_string(), "age".to_string(), ROSEMARY_SORT_COL_STR.to_string()];
    p.parsed_res_rows = vec![
        vec![text("carol"), CellValue::MedInt(30), CellValue::BigInt(0)],
        vec![text("alice"), CellValue::MedInt(25), CellValue::BigInt(1)],
        vec![text("bob"), CellValue::MedInt(30), CellValue::BigInt(2)],
        vec![CellValue::Null, CellValue::MedInt(25), CellValue::BigInt(3)],
    ];
    p
}

fn column(p: &QueryResultsPanel, col: usize) -> Vec<String> {
    p.parsed_res_rows.iter().map(|r| key(r, col)).collect()
}

#[test]
fn sort_ascending_keeps_ties_in_order() {
    let mut p = sample_panel();
    sort_rows(&mut p.parsed_res_rows, 1, false);
    assert_eq!(column(&p, 2), vec!["1", "3", "0", "2"]);
}

#[test]
fn sort_descending_keeps_ties_in_order() {
    let mut p = sample_panel();
    sort_rows(&mut p.parsed_res_rows, 1, true);
    assert_eq!(column(&p, 2), vec!["0", "2", "1", "3"]);
}

#[test]
fn text_sorts_after_numbers_and_before_others() {
    let mut rows = vec![
        vec![CellValue::Null],
        vec![text("b")],
        vec![CellValue::BigInt(10)],
        vec![text("a")],
        vec![CellValue::SmallInt(-1)],
    ];
    sort_rows(&mut rows, 0, false);
    let got: Vec<String> = rows.iter().map(|r| key(r, 0)).collect();
    assert_eq!(got, vec!["-1", "10", "a", "b", "NULL"]);
}

#[test]
fn sort_matches_std_stable_sort() {
    let mut rows: Vec<Vec<CellValue>> = Vec::new();
    for i in 0..200i64 {
        rows.push(vec![CellValue::BigInt((i * 37) % 11), CellValue::BigInt(i)]);
    }
    let mut expected: Vec<(i64, i64)> = (0..200i64).map(|i| ((i * 37) % 11, i)).collect();
    expected.sort_by(|a, b| a.0.cmp(&b.0));
    sort_rows(&mut rows, 0, false);
    let got: Vec<(i64, i64)> = rows
        .iter()
        .map(|r| match (&r[0], &r[1]) {
            (CellValue::BigInt(a), CellValue::BigInt(b)) => (*a, *b),
            _ => panic!("unexpected cell"),
        })
        .collect();
    assert_eq!(got, expected);
}

#[test]
fn header_clicks_cycle_and_restore_arrival_order() {
    let mut p = sample_panel();
    click_sort_header(&mut p, "name");
    assert_eq!(p.sort_by_col, "name");
    assert!(!p.reversed);
    assert_eq!(column(&p, 0), vec!["alice", "bob", "carol", "NULL"]);
    click_sort_header(&mut p, "name");
    assert!(p.reversed);
    assert_eq!(column(&p, 0), vec!["NULL", "carol", "bob", "alice"]);
    click_sort_header(&mut p, "name");
    assert_eq!(p.sort_by_col, ROSEMARY_SORT_COL_STR);
    assert!(!p.reversed);
    assert_eq!(column(&p, 2), vec!["0", "1", "2", "3"]);
}

#[test]
fn clicking_another_column_sorts_by_it() {
    let mut p = sample_panel();
    click_sort_header(&mut p, "name");
    click_sort_header(&mut p, "age");
    assert_eq!(p.sort_by_col, "age");
    assert!(!p.reversed);
    assert_eq!(column(&p, 0), vec!["alice", "NULL", "bob", "carol"]);
}

#[test]
fn unknown_column_changes_only_the_sort_state() {
    let mut p = sample_panel();
    click_sort_header(&mut p, "nope");
    assert_eq!(p.sort_by_col, "nope");
    assert_eq!(column(&p, 2), vec!["0", "1", "2", "3"]);
}

#[test]
fn button_labels() {
    let mut p = sample_panel();
    assert_eq!(sort_button_label(&p, "name"), "⬆⬇");
    click_sort_header(&mut p, "name");
    assert_eq!(sort_button_label(&p, "name"), "⬇");
    click_sort_header(&mut p, "name");
    assert_eq!(sort_button_label(&p, "name"), "⬆");
    assert_eq!(sort_button_label(&p, "age"), "⬆⬇");
}

#[test]
fn visible_columns_hide_the_numbering_column() {
    let p = sample_panel();
    assert_eq!(visible_columns(&p), vec!["name".to_string(), "age".to_string()]);
    assert_eq!(find_column(&p.res_columns, "age"), Some(1));
    assert_eq!(find_column(&p.res_columns, "x"), None);
}

#[test]
fn page_bounds_of_pages() {
    let mut p = QueryResultsPanel::new();
    p.res_columns = vec!["v".to_string()];
    p.parsed_res_rows = (0..2500).map(|i| vec![CellValue::BigInt(i)]).collect();
    assert_eq!(page_bounds(&p), (0, 1000));
    p.current_page = 2;
    assert_eq!(page_bounds(&p), (2000, 500));
    let empty = QueryResultsPanel::new();
    assert_eq!(page_bounds(&empty), (0, 0));
}

#[test]
fn shown_cells_leave_out_the_numbering_column() {
    let row = vec![text("a"), CellValue::SmallInt(2), CellValue::BigInt(0)];
    assert_eq!(row_cell_texts(&row, 3), vec!["a".to_string(), "2".to_string()]);
    assert_eq!(row_cell_texts(&row, 1), Vec::<String>::new());
}

#[test]
fn page_bounds_at_the_end_of_the_rows() {
    let mut p = QueryResultsPanel::new();
    p.res_columns = vec!["v".to_string()];
    p.parsed_res_rows = (0..1000).map(|i| vec![CellValue::BigInt(i)]).collect();
    p.current_page = 1;
    assert_eq!(page_bounds(&p), (1000, 0));
    p.parsed_res_rows = (0..2000).map(|i| vec![CellValue::BigInt(i)]).collect();
    p.current_page = 2;
    assert_eq!(page_bounds(&p), (2000, 0));
    p.current_page = 1;
    assert_eq!(page_bounds(&p), (1000, 1000));
}

#[test]
fn sorting_does_not_need_a_page_size() {
    let mut p = sample_panel();
    p.rows_per_page = 0;
    click_sort_header(&mut p, "age");
    assert_eq!(p.sort_by_col, "age");
    assert_eq!(column(&p, 2), vec!["1", "3", "0", "2"]);
    assert_eq!(p.rows_per_page, 0);
}
