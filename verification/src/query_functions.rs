pub mod pg_data;
pub mod pg_query_handlers;
