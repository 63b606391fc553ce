//! A filter that reads a PostgreSQL plain-text dump and writes it back with
//! the data of chosen columns rewritten by configurable rules.
pub mod text;
pub mod lines;
pub mod table;
pub mod transform;
pub mod json;
pub mod engine;
pub mod row;
pub mod indicator;
pub mod connector;
pub mod schema_inspector;
pub mod dumper;
pub mod filter;

pub use connector::{SqlTextConnection, SqlTextConnector};
pub use dumper::{DumpError, DumpErrorKind, ParseState, SqlTextDumper};
pub use engine::{ColumnRule, Engine, Settings, TableConfig, Transformers};
pub use filter::{Filter, TableList, sort_tables, table_args};
pub use indicator::{Indicator, SilentIndicator};
pub use json::{Json, JsonField, JsonTransformer, OnInvalid, ReplaceInvalid, Selector, Step};
pub use schema_inspector::SqlTextSchemaInspector;
pub use table::{PgColumn, PgTable, TableBuilder};
pub use transform::{ScalarRule, TransformContext, TransformError, TransformErrorKind};
