pub mod app;
pub mod postgres;
pub mod queries;
pub mod query_functions;
pub mod text;
pub mod themes;
pub mod ui;
