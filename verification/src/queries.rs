//! A table of the `public` schema, as the older table listing returns it.
use vstd::prelude::*;

verus! {

/// A table of the `public` schema: its name and its type.
#[derive(Debug, Clone)]
pub struct PublicTable {
    pub table_name: Option<String>,
    pub table_type: Option<String>,
}

} // verus!
