//! A read-only decoder for the page format of SQLite database files.
//!
//! Every function works on bytes that are already in memory; reading the
//! file is left to the caller. The modules, from the bytes up:
//!
//! - `utils`: variable-length and big-endian integers;
//! - `serial_type`: the values of columns;
//! - `record`: rows, as the columns of a record;
//! - `cell`: the cells of table pages;
//! - `page`: the file header, page headers and table pages;
//! - `page_scanner`: walking the rows of a table page by page;
//! - `database`: the schema of a database and the tables it names;
//! - `parser`, `table`, `executor`: the SQL statements that the database
//!   understands.

pub mod cell;
pub mod database;
pub mod executor;
pub mod page;
pub mod page_scanner;
pub mod parser;
pub mod record;
pub mod serial_type;
pub mod table;
pub mod utils;
