//! Records: the rows of a table as a cell stores them.
//!
//! A record is a header followed by a body. The header starts with its own
//! size in bytes, a variable-length integer that counts itself too, and goes
//! on with one serial type for each column, variable-length integers as well.
//! The body holds the values of the columns, in the same order.

use crate::page::MyError;
use crate::serial_type::{tag_width, value_at, SerialType, Value};
use crate::utils::{
    lemma_scan_bounds,
    try_read_variant,
    varint_complete,
    varint_len,
    varint_value,
};
use vstd::prelude::*;
use vstd::slice::slice_subrange;

verus! {

/// One column of a record: its value, and where in the record's bytes the
/// value starts.
#[derive(Debug, PartialEq, Eq)]
pub struct Column {
    pub offset: usize,
    pub serial_type: SerialType,
}

/// What a `Column` stands for.
pub struct ColumnModel {
    pub offset: int,
    pub value: Value,
}

impl View for Column {
    type V = ColumnModel;

    open spec fn view(&self) -> ColumnModel {
        ColumnModel { offset: self.offset as int, value: self.serial_type@ }
    }
}

/// The columns of one row, in the order in which the table declares them.
#[derive(Debug, PartialEq, Eq)]
pub struct Record {
    pub columns: Vec<Column>,
}

impl View for Record {
    type V = Seq<ColumnModel>;

    open spec fn view(&self) -> Seq<ColumnModel> {
        self.columns@.map_values(|c: Column| c@)
    }
}

/// The columns whose serial types stand in `data` from `tag_pos` up to
/// `head_size`, the end of the record's header, and whose values stand in
/// `data` from `val_pos` on.
///
/// The serial types are read from the header alone: one that the header's end
/// cuts short gives `MyError::InvalidSerialType`. The first column that cannot
/// be decoded decides the error.
pub open spec fn decode_columns(data: Seq<u8>, head_size: int, tag_pos: int, val_pos: int) -> Result<
    Seq<ColumnModel>,
    MyError,
>
    decreases head_size - tag_pos,
{
    if tag_pos >= head_size || tag_pos < 0 || head_size > data.len() {
        Ok(Seq::empty())
    } else {
        let tag_bytes = data.subrange(tag_pos, head_size);
        if !varint_complete(tag_bytes) {
            Err(MyError::InvalidSerialType)
        } else {
            let tag = varint_value(tag_bytes);
            match value_at(data, tag, val_pos) {
                Err(e) => Err(e),
                Ok(value) => {
                    proof {
                        lemma_scan_bounds(tag_bytes, 0);
                    }
                    match decode_columns(
                        data,
                        head_size,
                        tag_pos + varint_len(tag_bytes),
                        val_pos + tag_width(tag),
                    ) {
                        Err(e) => Err(e),
                        Ok(rest) => Ok(seq![ColumnModel { offset: val_pos, value }] + rest),
                    }
                },
            }
        }
    }
}

/// The columns of the record that `data` starts with.
///
/// The size of the header is the variable-length integer at the start of
/// `data`; the serial types fill the rest of the header, and the values start
/// where the header ends. A header that `data` does not hold in full gives
/// `MyError::Truncated`; a header size smaller than the bytes that state it
/// gives `MyError::InvalidSerialType`.
pub open spec fn decode_record(data: Seq<u8>) -> Result<Seq<ColumnModel>, MyError> {
    if !varint_complete(data) {
        Err(MyError::Truncated)
    } else if varint_value(data) > data.len() {
        Err(MyError::Truncated)
    } else if varint_value(data) < varint_len(data) {
        Err(MyError::InvalidSerialType)
    } else {
        decode_columns(data, varint_value(data), varint_len(data) as int, varint_value(data))
    }
}

impl Record {
    /// Decodes the record that `data` starts with. The offset of each column
    /// counts from the start of `data`.
    pub fn from(data: &[u8]) -> (r: Result<Record, MyError>)
        ensures
            match r {
                Ok(record) => decode_record(data@) == Ok::<Seq<ColumnModel>, MyError>(record@),
                Err(e) => decode_record(data@) == Err::<Seq<ColumnModel>, MyError>(e),
            },
    {
        let (head, first_type_offset) = match try_read_variant(data) {
            Some(r) => r,
            None => {
                return Err(MyError::Truncated);
            },
        };
        if head >= 0 && head as u64 > data.len() as u64 {
            return Err(MyError::Truncated);
        }
        if head < 0 || (head as u64) < first_type_offset as u64 {
            return Err(MyError::InvalidSerialType);
        }
        let len: usize = data.len();
        let record_head_size: usize = head as usize;
        let mut columns: Vec<Column> = Vec::new();
        let mut serial_type_pointer: usize = first_type_offset;
        let mut column_pointer: usize = record_head_size;
        while serial_type_pointer < record_head_size
            invariant
                serial_type_pointer <= record_head_size <= column_pointer <= data@.len() == len,
                match decode_columns(
                    data@,
                    record_head_size as int,
                    serial_type_pointer as int,
                    column_pointer as int,
                ) {
                    Ok(rest) => decode_record(data@) == Ok::<Seq<ColumnModel>, MyError>(
                        columns@.map_values(|c: Column| c@) + rest,
                    ),
                    Err(e) => decode_record(data@) == Err::<Seq<ColumnModel>, MyError>(e),
                },
            decreases record_head_size - serial_type_pointer,
        {
            let ghost before = columns@.map_values(|c: Column| c@);
            let header_rest = slice_subrange(data, serial_type_pointer, record_head_size);
            let (serial_type, bytes_read) = match try_read_variant(header_rest) {
                Some(r) => r,
                None => {
                    return Err(MyError::InvalidSerialType);
                },
            };
            match SerialType::decode(data, serial_type, column_pointer) {
                Err(e) => {
                    return Err(e);
                },
                Ok((st, size_of_column)) => {
                    let col = Column { offset: column_pointer, serial_type: st };
                    proof {
                        let rest = decode_columns(
                            data@,
                            record_head_size as int,
                            serial_type_pointer + bytes_read,
                            column_pointer + size_of_column,
                        );
                        assert(columns@.push(col).map_values(|c: Column| c@) =~= before.push(
                            col@,
                        ));
                        if rest is Ok {
                            assert(before.push(col@) + rest->Ok_0 =~= before + (seq![col@]
                                + rest->Ok_0));
                        }
                    }
                    columns.push(col);
                    serial_type_pointer += bytes_read;
                    column_pointer += size_of_column;
                },
            }
        }
        Ok(Record { columns })
    }
}

impl Column {
    /// The text of the column: the string of a text column, and the empty
    /// string for a column of any other type.
    pub fn value(&self) -> (r: String)
        ensures
            r@ == match self.serial_type@ {
                Value::Text(chars) => chars,
                _ => Seq::<char>::empty(),
            },
    {
        match &self.serial_type {
            SerialType::String(s) => s.clone(),
            _ => String::new(),
        }
    }
}

impl Clone for Column {
    fn clone(&self) -> (r: Self)
        ensures
            r@ == self@,
    {
        Column { offset: self.offset, serial_type: self.serial_type.clone() }
    }
}

impl Clone for Record {
    fn clone(&self) -> (r: Self)
        ensures
            r@ == self@,
    {
        let mut columns: Vec<Column> = Vec::new();
        let mut i: usize = 0;
        while i < self.columns.len()
            invariant
                i <= self.columns@.len(),
                columns@.len() == i,
                forall|j: int| 0 <= j < i ==> columns@[j]@ == self.columns@[j]@,
            decreases self.columns@.len() - i,
        {
            columns.push(self.columns[i].clone());
            i += 1;
        }
        let r = Record { columns };
        assert(r@ =~= self@);
        r
    }
}

} // verus!
