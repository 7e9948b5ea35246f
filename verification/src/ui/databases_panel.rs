//! The database window: one button per database of the server.
use crate::app::Rosemary;
use crate::query_functions::pg_data::DatabaseNames;
use vstd::prelude::*;

verus! {

/// The name shown for a database, empty where it has none.
pub open spec fn database_name_text(db: DatabaseNames) -> Seq<char> {
    match db.datname {
        Some(s) => s@,
        None => Seq::empty(),
    }
}

/// The name shown for a database.
pub fn database_label(db: &DatabaseNames) -> (s: String)
    ensures
        s@ == database_name_text(*db),
{
    match &db.datname {
        Some(s) => s.clone(),
        None => String::new(),
    }
}

/// A click on database `idx`: it becomes the database to connect to.
pub fn choose_database(app: &mut Rosemary, idx: usize)
    requires
        idx < old(app).databases@.len(),
    ensures
        final(app).selected_db@ == database_name_text(old(app).databases@[idx as int]),
        *final(app) == (Rosemary { selected_db: final(app).selected_db, ..*old(app) }),
{
    app.selected_db = database_label(&app.databases[idx]);
}


/// The database window shows while it is open, with a connection and a
/// non-empty list of databases.
pub fn database_window_shown(app: &Rosemary) -> (b: bool)
    ensures
        b == (app.db_select_modal_open && app.connected && app.databases@.len() > 0),
{
    app.db_select_modal_open && app.connected && app.databases.len() > 0
}

/// After connecting to the database chosen, the database window closes.
pub fn close_database_window(app: &mut Rosemary)
    ensures
        *final(app) == (Rosemary { db_select_modal_open: false, ..*old(app) }),
{
    app.db_select_modal_open = false;
}

} // verus!
