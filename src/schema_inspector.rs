//! Schema questions for a dump read as a stream: the stream answers none of
//! them up front, the filter learns the tables as their definitions go by.
use vstd::prelude::*;
use crate::connector::SqlTextConnection;
use crate::table::{PgColumn, PgTable};

verus! {

#[derive(Clone, Copy)]
pub struct SqlTextSchemaInspector;

impl SqlTextSchemaInspector {
    /// The tables known before the stream is read: none.
    pub fn get_tables(&self, connection: &SqlTextConnection) -> (r: Vec<PgTable>)
        ensures
            r@.len() == 0,
    {
        Vec::new()
    }

    /// A table's size, unknown before the stream is read: 0.
    pub fn get_table_size(&self, connection: &SqlTextConnection, table: &PgTable) -> (r: i64)
        ensures
            r == 0,
    {
        0
    }

    /// The tables a table depends on by foreign keys: none are known.
    pub fn get_dependencies(&self, connection: &SqlTextConnection, table: &PgTable) -> (r: Vec<PgTable>)
        ensures
            r@.len() == 0,
    {
        Vec::new()
    }

    /// A table's columns, known only once its definition is read: none.
    pub fn get_columns(&self, connection: &SqlTextConnection, table: &PgTable) -> (r: Vec<PgColumn>)
        ensures
            r@.len() == 0,
    {
        Vec::new()
    }
}

} // verus!
