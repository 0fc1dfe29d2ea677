//! The schema of a table, as the SQL text that created it gives it.

use crate::parser::{bytes_of_each, sql_query, statement_of, SqlModel, SqlStatement};
use vstd::prelude::*;
use vstd::string::StringSliceAdditionalSpecFns;
use vstd::utf8::encode_utf8;

verus! {

/// The name of a table and the names of its columns.
#[derive(Debug, PartialEq, Eq)]
pub struct TableSchema {
    pub table_name: String,
    pub cols: Vec<String>,
}

/// What a `TableSchema` stands for: each string as its bytes.
pub struct SchemaModel {
    pub table_name: Seq<u8>,
    pub cols: Seq<Seq<u8>>,
}

impl View for TableSchema {
    type V = SchemaModel;

    open spec fn view(&self) -> SchemaModel {
        SchemaModel { table_name: encode_utf8(self.table_name@), cols: bytes_of_each(self.cols@) }
    }
}

/// The schema that the statement at the start of `sql` gives: the table and
/// the columns of a `create table` statement, and an empty name without columns
/// for a `select` statement. Text that starts with no statement gives none.
pub open spec fn schema_of(sql: Seq<u8>) -> Option<SchemaModel> {
    match statement_of(sql) {
        None => None,
        Some((SqlModel::CREATE(create), _)) => Some(
            SchemaModel { table_name: create.table_name, cols: create.cols },
        ),
        Some((SqlModel::SELECT(_), _)) => Some(
            SchemaModel { table_name: Seq::empty(), cols: Seq::empty() },
        ),
    }
}

impl TableSchema {
    /// Reads the schema of a table from the SQL text that created it.
    pub fn from(sql: &str) -> (r: Option<TableSchema>)
        ensures
            match r {
                Some(schema) => schema_of(sql.spec_bytes()) == Some(schema@),
                None => schema_of(sql.spec_bytes()) is None,
            },
    {
        match sql_query(sql) {
            None => None,
            Some((SqlStatement::CREATE(cs), _)) => Some(
                TableSchema { table_name: cs.table_name, cols: cs.cols },
            ),
            Some((SqlStatement::SELECT(_), _)) => {
                let table_name = String::new();
                let cols: Vec<String> = Vec::new();
                assert(encode_utf8(table_name@) =~= Seq::<u8>::empty()) by {
                    reveal_with_fuel(encode_utf8, 1);
                }
                assert(bytes_of_each(cols@) =~= Seq::<Seq<u8>>::empty());
                Some(TableSchema { table_name, cols })
            },
        }
    }
}

} // verus!
