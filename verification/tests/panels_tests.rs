use rosemary::app::{QueryResultsPanel, Rosemary};
use rosemary::postgres::CellValue;
use rosemary::query_functions::pg_data::{
    cancel_query_statement, running_query_cells, DatabaseNames, PublicTable, RunningQueriesData,
};
use rosemary::themes::{rosemary_dark, Rgb, WidgetColors, WidgetState, SHADOW_ALPHA};
use rosemary::ui::databases_panel::{
    choose_database, close_database_window, database_label, database_window_shown,
};
use rosemary::ui::editor_panel::{split_button_label, table_list_button_label, toggle_split, toggle_table_list};
use rosemary::ui::pagination_panel::{next_page, page_label, pagers_shown, pagination_shown, previous_page};
use rosemary::ui::query_metrics_panel::{metrics_label, metrics_labels, row_count_label, seconds_label};
use rosemary::ui::running_queries_panel::running_query_rows;
use rosemary::ui::tables_panel::{
    clear_filter, click_table, filter_tables, group_tables_by_schema, normalize_filter,
    schema_heading, select_all_statement, table_button_label,
};

fn rows(n: i64) -> Vec<Vec<CellValue>> {
    (0..n).map(|i| vec![CellValue::BigInt(i)]).collect()
}

fn panel_with(n: i64) -> QueryResultsPanel {
    let mut p = QueryResultsPanel::new();
    p.res_columns = vec!["v".to_string()];
    p.parsed_res_rows = rows(n);
    p
}

#[test]
fn paging_forward_and_back() {
    let mut p = panel_with(2500);
    assert_eq!(page_label(&p), "Page 1/3");
    previous_page(&mut p);
    assert_eq!(p.current_page, 0);
    next_page(&mut p);
    next_page(&mut p);
    assert_eq!(p.current_page, 2);
    next_page(&mut p);
    assert_eq!(p.current_page, 2);
    assert_eq!(page_label(&p), "Page 3/3");
    previous_page(&mut p);
    assert_eq!(p.current_page, 1);
}

#[test]
fn paging_at_an_exact_multiple() {
    let mut p = panel_with(2000);
    assert_eq!(page_label(&p), "Page 1/2");
    next_page(&mut p);
    next_page(&mut p);
    assert_eq!(p.current_page, 1);
    let empty = QueryResultsPanel::new();
    assert_eq!(page_label(&empty), "Page 1/0");
}

#[test]
fn pager_shows_above_a_thousand_rows() {
    let mut app = Rosemary::default();
    assert!(!pagination_shown(&app));
    app.query_results[1].res_columns = vec!["v".to_string()];
    app.query_results[1].parsed_res_rows = rows(1001);
    assert!(!pagination_shown(&app));
    app.split_results_table = true;
    assert!(pagination_shown(&app));
    app.query_results[0].res_columns = vec!["v".to_string()];
    app.query_results[0].parsed_res_rows = rows(1000);
    app.split_results_table = false;
    assert!(!pagination_shown(&app));
}

#[test]
fn row_counts_are_grouped() {
    assert_eq!(row_count_label(0), "0 Rows");
    assert_eq!(row_count_label(1), "1 Row");
    assert_eq!(row_count_label(999), "999 Rows");
    assert_eq!(row_count_label(1000), "1,000 Rows");
    assert_eq!(row_count_label(1234567), "1,234,567 Rows");
    assert_eq!(row_count_label(1005), "1,005 Rows");
}

#[test]
fn seconds_are_written_as_display_writes_them() {
    for c in [0u64, 1, 5, 10, 99, 100, 101, 110, 150, 199, 200, 1234, 100000, 123456789] {
        assert_eq!(seconds_label(c), format!("{}", c as f64 / 100.0), "centiseconds {}", c);
    }
    for c in 0u64..100_000 {
        assert_eq!(seconds_label(c), format!("{}", c as f64 / 100.0), "centiseconds {}", c);
    }
}

#[test]
fn metrics_lines() {
    let mut p = panel_with(3);
    p.query_execution_time_ms = 42;
    p.query_execution_time_centisec = 4;
    assert_eq!(metrics_label(&p), "3 Rows || Execution time: 42 ms");
    p.query_execution_time_ms = 1500;
    p.query_execution_time_centisec = 150;
    assert_eq!(metrics_label(&p), "3 Rows || Execution time: 1.5 sec");
    p.query_execution_time_centisec = 100;
    p.query_execution_time_ms = 1000;
    assert_eq!(metrics_label(&p), "3 Rows || Execution time: 1000 ms");
    let mut app = Rosemary::default();
    assert_eq!(metrics_labels(&app), ("0 Rows || Execution time: 0 ms".to_string(), None));
    app.split_results_table = true;
    assert!(metrics_labels(&app).1.is_some());
}

fn table(name: Option<&str>, ty: Option<&str>, schema: Option<&str>) -> PublicTable {
    PublicTable {
        table_name: name.map(String::from),
        table_type: ty.map(String::from),
        table_schema: schema.map(String::from),
    }
}

#[test]
fn tables_are_grouped_by_schema_in_order() {
    let tables = vec![
        table(Some("users"), Some("BASE TABLE"), Some("public")),
        table(Some("pg_class"), Some("VIEW"), Some("pg_catalog")),
        table(Some("orphan"), None, None),
        table(Some("orders"), Some("BASE TABLE"), Some("public")),
        table(Some("cols"), Some("VIEW"), Some("information_schema")),
        table(Some("Zed"), Some("VIEW"), Some("Zschema")),
    ];
    let groups = group_tables_by_schema(&tables);
    let names: Vec<&str> = groups.iter().map(|g| g.schema.as_str()).collect();
    assert_eq!(names, vec!["Zschema", "information_schema", "pg_catalog", "public"]);
    assert_eq!(groups[3].tables, vec![0, 3]);
    assert_eq!(groups[2].tables, vec![1]);
    let mut std_order: Vec<&str> = names.clone();
    std_order.sort();
    assert_eq!(names, std_order);
}

#[test]
fn the_filter_matches_lower_cased_names() {
    let tables = vec![
        table(Some("Users"), None, Some("public")),
        table(Some("orders"), None, Some("public")),
        table(None, None, Some("public")),
    ];
    let idx = vec![0, 1, 2];
    assert_eq!(filter_tables(&tables, &idx, "  "), vec![0, 1, 2]);
    assert_eq!(filter_tables(&tables, &idx, "user"), vec![0]);
    assert_eq!(filter_tables(&tables, &idx, "ers"), vec![0, 1]);
    assert_eq!(filter_tables(&tables, &idx, "null"), vec![2]);
    assert_eq!(filter_tables(&tables, &idx, "User"), Vec::<usize>::new());
    let mut app = Rosemary::default();
    app.table_filter = "UsErS".into();
    normalize_filter(&mut app);
    assert_eq!(app.table_filter, "users");
    clear_filter(&mut app);
    assert!(app.table_filter.is_empty());
}

#[test]
fn table_labels_and_statements() {
    let t = table(Some("users"), Some("BASE TABLE"), Some("public"));
    assert_eq!(table_button_label(&t), "users [BASE TABLE]");
    assert_eq!(select_all_statement(&t), "SELECT * FROM public.users;");
    let u = table(None, None, None);
    assert_eq!(table_button_label(&u), "NULL [NULL]");
    assert_eq!(select_all_statement(&u), "SELECT * FROM NULL.NULL;");
    assert_eq!(schema_heading("public", 12), "public ( 12 )");
}

fn formatted(sql: &str) -> String {
    sqlformat::format(
        sql,
        &sqlformat::QueryParams::None,
        sqlformat::FormatOptions { indent: sqlformat::Indent::Spaces(2), uppercase: true, lines_between_queries: 1 },
    )
}

#[test]
fn clicking_a_table() {
    let mut app = Rosemary::default();
    app.tables.push(table(Some("users"), Some("BASE TABLE"), Some("public")));
    app.code = "select 1;".into();
    assert_eq!(click_table(&mut app, 0, false), (true, false));
    assert_eq!(app.code, formatted("select 1;SELECT * FROM public.users;"));
    assert!(!app.split_results_table);
    app.table_queries_are_additive = false;
    assert_eq!(click_table(&mut app, 0, true), (false, true));
    assert_eq!(app.code, formatted("SELECT * FROM public.users;"));
    assert!(app.split_results_table);
}

#[test]
fn choosing_a_database() {
    let mut app = Rosemary::default();
    app.databases = vec![DatabaseNames { datname: Some("shop".into()) }, DatabaseNames { datname: None }];
    assert_eq!(database_label(&app.databases[1]), "");
    choose_database(&mut app, 0);
    assert_eq!(app.selected_db, "shop");
    choose_database(&mut app, 1);
    assert_eq!(app.selected_db, "");
}

#[test]
fn cancel_statements() {
    assert_eq!(cancel_query_statement(1234), Some("SELECT pg_terminate_backend(1234)".to_string()));
    assert_eq!(cancel_query_statement(0), None);
    assert_eq!(cancel_query_statement(-5), None);
}

#[test]
fn running_query_cells_match_debug_output() {
    let q = RunningQueriesData {
        datid: Some(16384),
        datname: Some("shop".into()),
        pid: Some(4242),
        state: None,
        query: Some("select 1".into()),
        usesysid: None,
        usename: Some("me".into()),
        application_name: None,
        client_port: Some(-1),
    };
    let cells = running_query_cells(&q);
    assert_eq!(cells[0], format!("{:?}", sqlx::postgres::types::Oid(16384)));
    assert_eq!(cells[0], "Oid(16384)");
    assert_eq!(cells[1], "shop");
    assert_eq!(cells[2], "4242");
    assert_eq!(cells[3], "N/A");
    assert_eq!(cells[4], "select 1");
    assert_eq!(cells[5], format!("{:?}", sqlx::postgres::types::Oid::default()));
    assert_eq!(cells[7], "N/A");
    assert_eq!(cells[8], "-1");
    let mut app = Rosemary::default();
    app.running_queries = vec![q];
    assert_eq!(running_query_rows(&app), vec![cells]);
}

#[test]
fn editor_buttons() {
    let mut app = Rosemary::default();
    assert_eq!(table_list_button_label(&app), "⬇  Hide tables");
    toggle_table_list(&mut app);
    assert!(!app.show_table_list);
    assert_eq!(table_list_button_label(&app), "⬆  Show tables");
    assert_eq!(split_button_label(&app), "Split");
    toggle_split(&mut app);
    assert_eq!(split_button_label(&app), "Merge");
}

#[test]
fn dark_theme_colours() {
    let t = rosemary_dark();
    assert_eq!(t.base, Rgb { r: 30, g: 30, b: 46 });
    assert_eq!(t.widget_fill(WidgetState::Noninteractive), t.base);
    assert_eq!(t.widget_fill(WidgetState::Inactive), t.open);
    assert_eq!(t.widget_fill(WidgetState::Hovered), Rgb { r: 88, g: 91, b: 112 });
    assert_eq!(t.widget_fill(WidgetState::Active), t.active);
    assert_eq!(t.widget_fill(WidgetState::Open), t.open);
}

#[test]
fn the_database_window() {
    let mut app = Rosemary::default();
    app.db_select_modal_open = true;
    assert!(!database_window_shown(&app));
    app.connected = true;
    assert!(!database_window_shown(&app));
    app.databases = vec![DatabaseNames { datname: Some("shop".into()) }];
    assert!(database_window_shown(&app));
    close_database_window(&mut app);
    assert!(!app.db_select_modal_open);
    assert!(!database_window_shown(&app));
}

#[test]
fn paging_from_a_page_at_the_end_of_the_rows() {
    let mut p = panel_with(1000);
    p.current_page = 1;
    assert_eq!(page_label(&p), "Page 2/1");
    next_page(&mut p);
    assert_eq!(p.current_page, 1);
    previous_page(&mut p);
    assert_eq!(p.current_page, 0);
    assert_eq!(page_label(&p), "Page 1/1");
}

#[test]
fn paging_from_a_page_past_the_rows() {
    let mut p = panel_with(10);
    p.current_page = 3;
    assert_eq!(page_label(&p), "Page 4/1");
    next_page(&mut p);
    assert_eq!(p.current_page, 3);
    previous_page(&mut p);
    assert_eq!(p.current_page, 2);
}

#[test]
fn theme_visuals_follow_the_palette() {
    let t = rosemary_dark();
    let v = t.visuals();
    assert_eq!(v.override_text, t.text);
    assert_eq!(v.window_fill, t.base);
    assert_eq!(v.panel_fill, t.base);
    assert_eq!(v.faint_bg, t.open);
    assert_eq!(v.window_stroke, t.stroke);
    assert_eq!(v.selection_bg, t.bg_fill);
    assert_eq!(v.selection_stroke, t.stroke);
    assert_eq!(v.shadow_alpha, SHADOW_ALPHA);
    assert_eq!(v.shadow_alpha, 96);
    assert!(v.dark_mode);
    let hovered = Rgb { r: 88, g: 91, b: 112 };
    assert_eq!(
        v.hovered,
        WidgetColors { bg_fill: hovered, weak_bg_fill: hovered, bg_stroke: t.stroke, fg_stroke: t.text }
    );
    assert_eq!(v.inactive, t.make_widget_visual(t.open));
    assert_eq!(v.noninteractive.bg_fill, t.base);
    assert_eq!(v.active.bg_fill, t.active);
    assert_eq!(v.open.weak_bg_fill, t.open);
}

#[test]
fn which_pagers_are_drawn() {
    let mut app = Rosemary::default();
    assert_eq!(pagers_shown(&app), (false, false));
    app.query_results[1] = panel_with(1001);
    assert_eq!(pagers_shown(&app), (false, false));
    app.split_results_table = true;
    assert_eq!(pagers_shown(&app), (true, true));
    app.query_results[1] = panel_with(1000);
    assert_eq!(pagers_shown(&app), (false, false));
    app.query_results[0] = panel_with(1001);
    assert_eq!(pagers_shown(&app), (true, false));
    app.split_results_table = false;
    app.query_results[1] = panel_with(5000);
    assert_eq!(pagers_shown(&app), (true, false));
}

#[test]
fn next_with_a_zero_page_size() {
    let mut p = panel_with(3);
    p.rows_per_page = 0;
    next_page(&mut p);
    assert_eq!(p.current_page, 1);
    let mut empty = QueryResultsPanel::new();
    empty.rows_per_page = 0;
    next_page(&mut empty);
    assert_eq!(empty.current_page, 0);
}
