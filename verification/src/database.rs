//! A database file: its header, and the tables that its schema names.
//!
//! The schema of a database is itself a table, whose root is page 1. Each of
//! its rows describes one table, index, view or trigger: the second column of
//! the row is its name and the fifth the SQL text that created it.

use crate::page::{decode_file_header, FileHeader, MyError};
use crate::page_scanner::{PageScanner, PositionedPage, ScanStep};
use crate::record::{ColumnModel, Record};
use crate::serial_type::Value;
use vstd::prelude::*;

verus! {

/// An open database: the header of its file and a scanner over its schema.
#[derive(Debug, PartialEq, Eq)]
pub struct Database {
    pub file_header: FileHeader,
    pub page_scanner: PageScanner,
}

/// The text of a value: the characters of a text, and nothing for a value of
/// any other type.
pub open spec fn text_of(value: Value) -> Seq<char> {
    match value {
        Value::Text(chars) => chars,
        _ => Seq::empty(),
    }
}

/// The name that a row of the schema gives: the text of its second column. A
/// row of fewer than two columns gives none.
pub open spec fn table_name_of(record: Seq<ColumnModel>) -> Option<Seq<char>> {
    if record.len() >= 2 {
        Some(text_of(record[1].value))
    } else {
        None
    }
}

/// The name that a row of the schema gives.
pub fn table_name(record: &Record) -> (r: Option<String>)
    ensures
        match r {
            Some(name) => table_name_of(record@) == Some(name@),
            None => table_name_of(record@) is None,
        },
{
    if record.columns.len() >= 2 {
        Some(record.columns[1].value())
    } else {
        None
    }
}

/// The characters of each of `names`.
pub open spec fn texts(names: Seq<String>) -> Seq<Seq<char>> {
    names.map_values(|s: String| s@)
}

impl Database {
    /// Opens the database whose file starts with `header`: decodes the file
    /// header and sets a scanner on the schema, the table at page 1.
    pub fn from(header: &[u8]) -> (r: Result<Database, MyError>)
        ensures
            match r {
                Ok(db) => decode_file_header(header@) == Ok::<FileHeader, MyError>(db.file_header)
                    && db.page_scanner.start_page_num == 1 && db.page_scanner.page_size
                    == db.file_header.spec_page_bytes() && db.page_scanner.pending@ == seq![1u64]
                    && db.page_scanner.current_position == (PositionedPage {
                    page_num: 1,
                    page: None,
                    position: 0,
                }),
                Err(e) => decode_file_header(header@) == Err::<FileHeader, MyError>(e),
            },
    {
        match FileHeader::from(header) {
            Err(e) => Err(e),
            Ok(file_header) => {
                let page_size = file_header.page_bytes() as u64;
                Ok(Database { file_header, page_scanner: PageScanner::from(1, page_size) })
            },
        }
    }

    /// The page size as the file header stores it.
    pub fn get_page_size(&self) -> (r: u16)
        ensures
            r == self.file_header.page_size,
    {
        self.file_header.page_size
    }

    /// The number of pages that the file header states.
    pub fn get_page_count(&self) -> (r: u32)
        ensures
            r == self.file_header.page_count,
    {
        self.file_header.page_count
    }

    /// Appends to `names` the names that the rows of the schema page at hand
    /// give, in the order of the rows, and says which page the scanner needs
    /// to go on: `None` when the schema has no more pages.
    ///
    /// A row of fewer than two columns gives `MyError::Truncated`. The names
    /// of the rows before it have then been appended, and the scanner has
    /// stepped past it.
    pub fn get_table_names(&mut self, names: &mut Vec<String>) -> (r: Result<Option<u64>, MyError>)
        ensures
            final(self).file_header == old(self).file_header,
            final(self).page_scanner.pending == old(self).page_scanner.pending,
            final(self).page_scanner.start_page_num == old(self).page_scanner.start_page_num,
            final(self).page_scanner.page_size == old(self).page_scanner.page_size,
            final(self).page_scanner.current_position.page == old(
                self,
            ).page_scanner.current_position.page,
            ({
                let rows = old(self).page_scanner.current_position.remaining();
                let left = final(self).page_scanner.current_position.remaining();
                let pending = old(self).page_scanner.pending@;
                match r {
                    Ok(next) => {
                        &&& forall|j: int| 0 <= j < rows.len() ==> table_name_of(rows[j]@) is Some
                        &&& texts(final(names)@) == texts(old(names)@) + Seq::new(
                            rows.len(),
                            |j: int| table_name_of(rows[j]@)->Some_0,
                        )
                        &&& left.len() == 0
                        &&& next == if pending.len() > 0 {
                            Some(pending.last())
                        } else {
                            None
                        }
                    },
                    Err(e) => {
                        &&& e == MyError::Truncated
                        &&& exists|k: int|
                            {
                                &&& 0 <= k < rows.len()
                                &&& table_name_of(#[trigger] rows[k]@) is None
                                &&& forall|j: int| 0 <= j < k ==> table_name_of(rows[j]@) is Some
                                &&& texts(final(names)@) == texts(old(names)@) + Seq::new(
                                    k as nat,
                                    |j: int| table_name_of(rows[j]@)->Some_0,
                                )
                                &&& left == rows.skip(k + 1)
                            }
                    },
                }
            }),
    {
        let ghost rows = self.page_scanner.current_position.remaining();
        let ghost before = texts(names@);
        let ghost mut i: int = 0;
        loop
            invariant
                0 <= i <= rows.len(),
                rows == old(self).page_scanner.current_position.remaining(),
                before == texts(old(names)@),
                self.file_header == old(self).file_header,
                self.page_scanner.pending == old(self).page_scanner.pending,
                self.page_scanner.start_page_num == old(self).page_scanner.start_page_num,
                self.page_scanner.page_size == old(self).page_scanner.page_size,
                self.page_scanner.current_position.page == old(
                    self,
                ).page_scanner.current_position.page,
                self.page_scanner.current_position.remaining() == rows.skip(i),
                forall|j: int| 0 <= j < i ==> table_name_of(rows[j]@) is Some,
                texts(names@) == before + Seq::new(
                    i as nat,
                    |j: int| table_name_of(rows[j]@)->Some_0,
                ),
            decreases rows.len() - i,
        {
            match self.page_scanner.get_next_record() {
                ScanStep::Row(record) => {
                    match table_name(&record) {
                        Some(name) => {
                            proof {
                                assert(rows.skip(i)[0] == rows[i]);
                                assert(rows.skip(i).drop_first() =~= rows.skip(i + 1));
                                assert(record@ == rows[i]@);
                                assert(name@ == table_name_of(rows[i]@)->Some_0);
                                assert(texts(names@.push(name)) =~= texts(names@).push(name@));
                                assert(texts(names@.push(name)) =~= before + Seq::new(
                                    (i + 1) as nat,
                                    |j: int| table_name_of(rows[j]@)->Some_0,
                                ));
                            }
                            names.push(name);
                            proof {
                                i = i + 1;
                            }
                        },
                        None => {
                            proof {
                                assert(rows.skip(i)[0] == rows[i]);
                                assert(rows.skip(i).drop_first() =~= rows.skip(i + 1));
                            }
                            return Err(MyError::Truncated);
                        },
                    }
                },
                ScanStep::Fetch(page_num) => {
                    return Ok(Some(page_num));
                },
                ScanStep::Finished => {
                    return Ok(None);
                },
            }
        }
    }
}

} // verus!
