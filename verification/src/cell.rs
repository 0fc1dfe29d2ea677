//! The cells of table b-tree pages.
//!
//! A cell of a leaf page holds one row: the size of its payload, the row id,
//! and the payload, which is a record. A cell of an interior page holds the
//! number of a child page and a row id that bounds the rows under that child.

use crate::page::MyError;
use crate::record::{decode_record, ColumnModel, Record};
use crate::utils::{
    be_unsigned,
    lemma_be_unsigned_bounded,
    lemma_byte_limits,
    read_be,
    try_read_variant,
    varint_complete,
    varint_len,
    varint_value,
};
use vstd::prelude::*;
use vstd::slice::slice_subrange;

verus! {

/// A cell of a table leaf page.
#[derive(Debug, PartialEq, Eq)]
pub struct Cell {
    /// The size of the whole payload in bytes.
    pub size_of_record: usize,
    pub rowid: i64,
    pub record: Record,
}

/// What a `Cell` stands for.
pub struct CellModel {
    pub size_of_record: int,
    pub rowid: int,
    pub record: Seq<ColumnModel>,
}

impl View for Cell {
    type V = CellModel;

    open spec fn view(&self) -> CellModel {
        CellModel {
            size_of_record: self.size_of_record as int,
            rowid: self.rowid as int,
            record: self.record@,
        }
    }
}

/// A cell of a table interior page.
#[derive(Debug, Clone, Copy, PartialEq, Eq, Structural)]
pub struct TableInteriorCell {
    pub left_child_page: u32,
    pub key: i64,
}

/// The number of bytes by which the largest payload that a table leaf page
/// keeps whole falls short of the usable size of the page.
pub const LEAF_PAYLOAD_RESERVE: u64 = 35;

/// The largest payload that a table leaf cell keeps whole on a page with
/// `usable_size` usable bytes. A larger payload continues on overflow pages.
pub open spec fn local_payload_limit(usable_size: int) -> int {
    usable_size - LEAF_PAYLOAD_RESERVE
}

/// The table leaf cell that `data` starts with, on a page with `usable_size`
/// usable bytes.
///
/// The cell is the size of the payload and the row id, both variable-length
/// integers, and then the record, which is decoded from all the bytes that
/// follow. `MyError::Truncated` stands for a cell that `data` does not hold:
/// one of the two integers is cut short, or the payload is longer than what
/// follows them. `MyError::Overflow` stands for a payload that the page does
/// not keep whole; a size with the sign bit set is such a payload.
pub open spec fn decode_leaf_cell(data: Seq<u8>, usable_size: int) -> Result<CellModel, MyError> {
    if !varint_complete(data) {
        Err(MyError::Truncated)
    } else {
        let after_size = data.subrange(varint_len(data) as int, data.len() as int);
        if !varint_complete(after_size) {
            Err(MyError::Truncated)
        } else {
            let size = varint_value(data);
            let payload = after_size.subrange(
                varint_len(after_size) as int,
                after_size.len() as int,
            );
            if size < 0 || size > local_payload_limit(usable_size) {
                Err(MyError::Overflow)
            } else if size > payload.len() {
                Err(MyError::Truncated)
            } else {
                match decode_record(payload) {
                    Err(e) => Err(e),
                    Ok(record) => Ok(
                        CellModel { size_of_record: size, rowid: varint_value(after_size), record },
                    ),
                }
            }
        }
    }
}

/// The table interior cell that `data` starts with: a big-endian page number
/// of four bytes, then the key, a variable-length integer.
pub open spec fn decode_interior_cell(data: Seq<u8>) -> Result<TableInteriorCell, MyError> {
    if data.len() < 4 || !varint_complete(data.subrange(4, data.len() as int)) {
        Err(MyError::Truncated)
    } else {
        Ok(
            TableInteriorCell {
                left_child_page: be_unsigned(data.subrange(0, 4)) as u32,
                key: varint_value(data.subrange(4, data.len() as int)) as i64,
            },
        )
    }
}

impl Cell {
    /// Decodes the table leaf cell that `data` starts with. `data` begins at
    /// the offset that the page's cell pointer gives and may run to the end of
    /// the page; `usable_size` is the usable size of the page in bytes.
    pub fn from(data: &[u8], usable_size: u64) -> (r: Result<Cell, MyError>)
        ensures
            match r {
                Ok(cell) => decode_leaf_cell(data@, usable_size as int) == Ok::<
                    CellModel,
                    MyError,
                >(cell@),
                Err(e) => decode_leaf_cell(data@, usable_size as int) == Err::<CellModel, MyError>(
                    e,
                ),
            },
    {
        let (size_of_record, bytes_read1) = match try_read_variant(data) {
            Some(r) => r,
            None => {
                return Err(MyError::Truncated);
            },
        };
        let after_size = slice_subrange(data, bytes_read1, data.len());
        let (rowid, bytes_read2) = match try_read_variant(after_size) {
            Some(r) => r,
            None => {
                return Err(MyError::Truncated);
            },
        };
        if size_of_record < 0 || usable_size < LEAF_PAYLOAD_RESERVE || size_of_record as u64
            > usable_size - LEAF_PAYLOAD_RESERVE {
            return Err(MyError::Overflow);
        }
        let payload = slice_subrange(after_size, bytes_read2, after_size.len());
        if size_of_record as u64 > payload.len() as u64 {
            return Err(MyError::Truncated);
        }
        match Record::from(payload) {
            Err(e) => Err(e),
            Ok(record) => Ok(Cell { size_of_record: size_of_record as usize, rowid, record }),
        }
    }
}

impl TableInteriorCell {
    /// Decodes the table interior cell that `data` starts with.
    pub fn from(data: &[u8]) -> (r: Result<TableInteriorCell, MyError>)
        ensures
            r == decode_interior_cell(data@),
    {
        if data.len() < 4 {
            return Err(MyError::Truncated);
        }
        let left = read_be(data, 0, 4);
        proof {
            lemma_be_unsigned_bounded(data@.subrange(0, 4));
            lemma_byte_limits();
        }
        match try_read_variant(slice_subrange(data, 4, data.len())) {
            None => Err(MyError::Truncated),
            Some((key, _)) => Ok(TableInteriorCell { left_child_page: left as u32, key }),
        }
    }
}

impl Clone for Cell {
    fn clone(&self) -> (r: Self)
        ensures
            r@ == self@,
    {
        Cell { size_of_record: self.size_of_record, rowid: self.rowid, record: self.record.clone() }
    }
}

} // verus!
