pub mod databases_panel;
pub mod editor_panel;
pub mod pagination_panel;
pub mod query_metrics_panel;
pub mod results_table_panel;
pub mod running_queries_panel;
pub mod tables_panel;
