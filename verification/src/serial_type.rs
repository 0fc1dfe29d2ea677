//! The values of a record's columns, and the serial types that say how each is
//! stored.
//!
//! | serial type | bytes | value |
//! |---|---|---|
//! | 0 | 0 | NULL |
//! | 1, 2, 3, 4 | 1, 2, 3, 4 | big-endian two's-complement integer |
//! | 5 | 6 | big-endian two's-complement integer |
//! | 6 | 8 | big-endian two's-complement integer |
//! | 7 | 8 | big-endian IEEE 754 number of 64 bits |
//! | 8, 9 | 0 | the integers 0 and 1 |
//! | 10, 11 | | reserved |
//! | even, from 12 | (N - 12) / 2 | BLOB |
//! | odd, from 13 | (N - 13) / 2 | text in UTF-8 |

use crate::page::MyError;
use crate::utils::{
    be_signed,
    be_unsigned,
    byte_limit,
    lemma_be_signed_range,
    lemma_be_unsigned_bounded,
    lemma_byte_limits,
    read_be,
    read_be_signed,
};
use vstd::prelude::*;
use vstd::slice::{slice_subrange, slice_to_vec};
use vstd::string::StringSliceAdditionalSpecFns;
use vstd::utf8::{decode_utf8, encode_utf8, encode_utf8_decode_utf8, valid_utf8};

verus! {

/// A decoded column value.
///
/// `Float` holds the 64 bits of an IEEE 754 number as the file stores them,
/// most significant byte first; `f64::from_bits` turns them into the number.
#[derive(Debug, PartialEq, Eq)]
pub enum SerialType {
    Null,
    I8(i8),
    I16(i16),
    I24(i32),
    I32(i32),
    I48(i64),
    I64(i64),
    Float(u64),
    Zero,
    One,
    String(String),
    Blob(Vec<u8>),
}

/// What a `SerialType` stands for: the same value, with text as a sequence of
/// characters and a BLOB as a sequence of bytes.
pub enum Value {
    Null,
    I8(i8),
    I16(i16),
    I24(i32),
    I32(i32),
    I48(i64),
    I64(i64),
    Float(u64),
    Zero,
    One,
    Text(Seq<char>),
    Blob(Seq<u8>),
}

impl View for SerialType {
    type V = Value;

    open spec fn view(&self) -> Value {
        match self {
            SerialType::Null => Value::Null,
            SerialType::I8(v) => Value::I8(*v),
            SerialType::I16(v) => Value::I16(*v),
            SerialType::I24(v) => Value::I24(*v),
            SerialType::I32(v) => Value::I32(*v),
            SerialType::I48(v) => Value::I48(*v),
            SerialType::I64(v) => Value::I64(*v),
            SerialType::Float(bits) => Value::Float(*bits),
            SerialType::Zero => Value::Zero,
            SerialType::One => Value::One,
            SerialType::String(s) => Value::Text(s@),
            SerialType::Blob(b) => Value::Blob(b@),
        }
    }
}

/// Whether `tag` is a serial type that a record may hold: 10 and 11 are
/// reserved, and no serial type is negative.
pub open spec fn tag_is_valid(tag: int) -> bool {
    0 <= tag <= 9 || tag >= 12
}

/// The number of bytes that a value of serial type `tag` takes in the body of
/// a record.
pub open spec fn tag_width(tag: int) -> nat {
    if tag == 1 {
        1
    } else if tag == 2 {
        2
    } else if tag == 3 {
        3
    } else if tag == 4 {
        4
    } else if tag == 5 {
        6
    } else if tag == 6 || tag == 7 {
        8
    } else if tag >= 12 && tag % 2 == 0 {
        ((tag - 12) / 2) as nat
    } else if tag >= 13 {
        ((tag - 13) / 2) as nat
    } else {
        0
    }
}

/// The value of serial type `tag` that is stored as `bytes`, which are the
/// `tag_width(tag)` bytes of the value.
///
/// Text that is not UTF-8 gives `MyError::Utf8`, and a `tag` that is not a
/// serial type gives `MyError::InvalidSerialType`.
pub open spec fn decode_value(tag: int, bytes: Seq<u8>) -> Result<Value, MyError> {
    if tag == 0 {
        Ok(Value::Null)
    } else if tag == 1 {
        Ok(Value::I8(be_signed(bytes) as i8))
    } else if tag == 2 {
        Ok(Value::I16(be_signed(bytes) as i16))
    } else if tag == 3 {
        Ok(Value::I24(be_signed(bytes) as i32))
    } else if tag == 4 {
        Ok(Value::I32(be_signed(bytes) as i32))
    } else if tag == 5 {
        Ok(Value::I48(be_signed(bytes) as i64))
    } else if tag == 6 {
        Ok(Value::I64(be_signed(bytes) as i64))
    } else if tag == 7 {
        Ok(Value::Float(be_unsigned(bytes) as u64))
    } else if tag == 8 {
        Ok(Value::Zero)
    } else if tag == 9 {
        Ok(Value::One)
    } else if tag >= 12 && tag % 2 == 0 {
        Ok(Value::Blob(bytes))
    } else if tag >= 13 {
        if valid_utf8(bytes) {
            Ok(Value::Text(decode_utf8(bytes)))
        } else {
            Err(MyError::Utf8)
        }
    } else {
        Err(MyError::InvalidSerialType)
    }
}

/// The value of serial type `tag` that `data` holds from `pos` on.
///
/// A `tag` that is not a serial type gives `MyError::InvalidSerialType`; a
/// value that would reach past the end of `data` gives `MyError::Truncated`.
pub open spec fn value_at(data: Seq<u8>, tag: int, pos: int) -> Result<Value, MyError> {
    if !tag_is_valid(tag) {
        Err(MyError::InvalidSerialType)
    } else if pos + tag_width(tag) > data.len() {
        Err(MyError::Truncated)
    } else {
        decode_value(tag, data.subrange(pos, pos + tag_width(tag)))
    }
}

/// `core::str::Utf8Error`, which `core::str::from_utf8` returns for bytes that
/// are not UTF-8.
#[verifier::external_type_specification]
#[verifier::external_body]
pub struct ExUtf8Error(core::str::Utf8Error);

/// `core::str::from_utf8` accepts exactly the byte sequences that are valid
/// UTF-8, and the string it returns consists of the very bytes it was given.
pub assume_specification[ core::str::from_utf8 ](v: &[u8]) -> (r: Result<
    &str,
    core::str::Utf8Error,
>)
    ensures
        r is Ok <==> valid_utf8(v@),
        r matches Ok(s) ==> s.spec_bytes() == v@,
;

impl SerialType {
    /// Decodes the value of serial type `tag` that `data` holds from `pos` on,
    /// and says how many bytes the value takes.
    pub fn decode(data: &[u8], tag: i64, pos: usize) -> (r: Result<(SerialType, usize), MyError>)
        ensures
            match r {
                Ok((value, width)) => value_at(data@, tag as int, pos as int) == Ok::<
                    Value,
                    MyError,
                >(value@) && width == tag_width(tag as int),
                Err(e) => value_at(data@, tag as int, pos as int) == Err::<Value, MyError>(e),
            },
    {
        if tag < 0 || tag == 10 || tag == 11 {
            return Err(MyError::InvalidSerialType);
        }
        if pos > data.len() {
            return Err(MyError::Truncated);
        }
        let avail: usize = data.len() - pos;
        let width64: u64 = if tag == 1 {
            1
        } else if tag == 2 {
            2
        } else if tag == 3 {
            3
        } else if tag == 4 {
            4
        } else if tag == 5 {
            6
        } else if tag == 6 || tag == 7 {
            8
        } else if tag >= 12 && tag % 2 == 0 {
            ((tag - 12) / 2) as u64
        } else if tag >= 13 {
            ((tag - 13) / 2) as u64
        } else {
            0
        };
        if width64 > avail as u64 {
            return Err(MyError::Truncated);
        }
        let width: usize = width64 as usize;
        let ghost bytes = data@.subrange(pos as int, pos + width);
        proof {
            lemma_byte_limits();
            lemma_be_signed_range(bytes);
            lemma_be_unsigned_bounded(bytes);
        }
        if tag == 0 {
            Ok((SerialType::Null, width))
        } else if tag == 1 {
            Ok((SerialType::I8(read_be_signed(data, pos, 1) as i8), width))
        } else if tag == 2 {
            Ok((SerialType::I16(read_be_signed(data, pos, 2) as i16), width))
        } else if tag == 3 {
            Ok((SerialType::I24(read_be_signed(data, pos, 3) as i32), width))
        } else if tag == 4 {
            Ok((SerialType::I32(read_be_signed(data, pos, 4) as i32), width))
        } else if tag == 5 {
            Ok((SerialType::I48(read_be_signed(data, pos, 6)), width))
        } else if tag == 6 {
            Ok((SerialType::I64(read_be_signed(data, pos, 8)), width))
        } else if tag == 7 {
            Ok((SerialType::Float(read_be(data, pos, 8)), width))
        } else if tag == 8 {
            Ok((SerialType::Zero, width))
        } else if tag == 9 {
            Ok((SerialType::One, width))
        } else if tag % 2 == 0 {
            let blob = slice_to_vec(slice_subrange(data, pos, pos + width));
            Ok((SerialType::Blob(blob), width))
        } else {
            match core::str::from_utf8(slice_subrange(data, pos, pos + width)) {
                Ok(s) => {
                    proof {
                        encode_utf8_decode_utf8(s@);
                    }
                    Ok((SerialType::String(s.to_owned()), width))
                },
                Err(_) => Err(MyError::Utf8),
            }
        }
    }
}

impl Clone for SerialType {
    fn clone(&self) -> (r: Self)
        ensures
            r@ == self@,
    {
        match self {
            SerialType::Null => SerialType::Null,
            SerialType::I8(v) => SerialType::I8(*v),
            SerialType::I16(v) => SerialType::I16(*v),
            SerialType::I24(v) => SerialType::I24(*v),
            SerialType::I32(v) => SerialType::I32(*v),
            SerialType::I48(v) => SerialType::I48(*v),
            SerialType::I64(v) => SerialType::I64(*v),
            SerialType::Float(bits) => SerialType::Float(*bits),
            SerialType::Zero => SerialType::Zero,
            SerialType::One => SerialType::One,
            SerialType::String(s) => SerialType::String(s.clone()),
            SerialType::Blob(b) => SerialType::Blob(slice_to_vec(b.as_slice())),
        }
    }
}

/// The serial types from 0 to 9 take the bytes that the table gives them and
/// decode to the type that it names. An integer is the sign extension of its
/// bytes: it fits the width of the bytes, and it is the unsigned reading of the
/// bytes, less 256 to the power of the width where their first bit is set.
pub proof fn lemma_fixed_width_table(data: Seq<u8>, tag: int, pos: int)
    requires
        0 <= tag <= 9,
        0 <= pos,
        pos + tag_width(tag) <= data.len(),
    ensures
        tag_width(tag) == (if tag == 5 {
            6nat
        } else if tag == 6 || tag == 7 {
            8nat
        } else if tag == 8 || tag == 9 {
            0nat
        } else {
            tag as nat
        }),
        value_at(data, tag, pos) is Ok,
        ({
            let bytes = data.subrange(pos, pos + tag_width(tag));
            let limit = byte_limit(tag_width(tag));
            match value_at(data, tag, pos)->Ok_0 {
                Value::Null => tag == 0,
                Value::I8(v) => tag == 1 && v == be_signed(bytes) && v == bytes[0] - (if bytes[0]
                    >= 128 {
                    256int
                } else {
                    0int
                }),
                Value::I16(v) => tag == 2 && v == be_signed(bytes),
                Value::I24(v) => tag == 3 && v == be_signed(bytes) && -0x80_0000 <= v < 0x80_0000,
                Value::I32(v) => tag == 4 && v == be_signed(bytes),
                Value::I48(v) => tag == 5 && v == be_signed(bytes) && -0x8000_0000_0000 <= v
                    < 0x8000_0000_0000,
                Value::I64(v) => tag == 6 && v == be_signed(bytes),
                Value::Float(bits) => tag == 7 && bits == be_unsigned(bytes),
                Value::Zero => tag == 8,
                Value::One => tag == 9,
                Value::Text(_) => false,
                Value::Blob(_) => false,
            }
        }),
        1 <= tag <= 6 ==> ({
            let bytes = data.subrange(pos, pos + tag_width(tag));
            let limit = byte_limit(tag_width(tag));
            &&& -limit <= 2 * be_signed(bytes) < limit
            &&& be_signed(bytes) == be_unsigned(bytes) - (if 2 * be_unsigned(bytes) >= limit {
                limit as int
            } else {
                0int
            })
        }),
{
    let bytes = data.subrange(pos, pos + tag_width(tag));
    lemma_byte_limits();
    lemma_be_signed_range(bytes);
    lemma_be_unsigned_bounded(bytes);
    if tag == 1 {
        reveal_with_fuel(be_unsigned, 2);
        assert(bytes.drop_last().len() == 0);
    }
}

/// A serial type of 12 + 2k is a BLOB of the k bytes that the value takes, and
/// one of 13 + 2k is a text of k bytes: the text whose UTF-8 encoding those
/// bytes are, where they are UTF-8, and `MyError::Utf8` where they are not.
pub proof fn lemma_blob_and_text(data: Seq<u8>, k: int, pos: int)
    requires
        0 <= k,
        0 <= pos,
        pos + k <= data.len(),
    ensures
        tag_width(12 + 2 * k) == k,
        tag_width(13 + 2 * k) == k,
        value_at(data, 12 + 2 * k, pos) == Ok::<Value, MyError>(
            Value::Blob(data.subrange(pos, pos + k)),
        ),
        data.subrange(pos, pos + k).len() == k,
        valid_utf8(data.subrange(pos, pos + k)) ==> (value_at(data, 13 + 2 * k, pos) matches Ok(
            Value::Text(chars),
        ) && encode_utf8(chars) == data.subrange(pos, pos + k)),
        !valid_utf8(data.subrange(pos, pos + k)) ==> value_at(data, 13 + 2 * k, pos) == Err::<
            Value,
            MyError,
        >(MyError::Utf8),
{
    let bytes = data.subrange(pos, pos + k);
    if valid_utf8(bytes) {
        vstd::utf8::decode_utf8_encode_utf8(bytes);
    }
}

} // verus!
