//! The plain encoding of the values of a dictionary page.
//!
//! A number is written in four or eight little-endian bytes, in two's
//! complement; a binary value as its length in four little-endian bytes and
//! then its bytes; a binary value of fixed size as its bytes alone. Null places
//! are written like any other: a dictionary page has no nulls.

use crate::types::{ArrayValues, DataType, TypedArray};
use crate::varint::{le_bytes, write_le_bytes};
use crate::vectors::append_all;
use vstd::prelude::*;

verus! {

/// How the values of a type are written in a dictionary page.
#[derive(Clone, Copy, Debug, PartialEq, Eq, Structural)]
pub enum PlainForm {
    /// A number in so many bytes: four or eight.
    Integer(usize),
    /// A length and the bytes.
    Binary,
    /// The bytes alone.
    FixedSizeBinary,
}

/// How the values of `dtype` are written in a dictionary page; `None` for the
/// types that have no dictionary page.
pub open spec fn spec_plain_form(dtype: DataType) -> Option<PlainForm> {
    match dtype {
        DataType::Int8
        | DataType::Int16
        | DataType::Int32
        | DataType::Date32
        | DataType::Time32
        | DataType::UInt8
        | DataType::UInt16
        | DataType::UInt32
        | DataType::Float32 => Some(PlainForm::Integer(4)),
        DataType::Int64
        | DataType::Date64
        | DataType::Time64
        | DataType::Timestamp
        | DataType::Duration
        | DataType::UInt64
        | DataType::Float64 => Some(PlainForm::Integer(8)),
        DataType::LargeUtf8 | DataType::Utf8View | DataType::LargeBinary | DataType::BinaryView => Some(
            PlainForm::Binary,
        ),
        DataType::FixedSizeBinary(_) => Some(PlainForm::FixedSizeBinary),
        DataType::Boolean | DataType::Utf8 | DataType::Binary => None,
    }
}

/// How the values of `dtype` are written in a dictionary page; `None` for the
/// types that have no dictionary page.
pub fn plain_form(dtype: DataType) -> (form: Option<PlainForm>)
    ensures
        form == spec_plain_form(dtype),
{
    match dtype {
        DataType::Int8
        | DataType::Int16
        | DataType::Int32
        | DataType::Date32
        | DataType::Time32
        | DataType::UInt8
        | DataType::UInt16
        | DataType::UInt32
        | DataType::Float32 => Some(PlainForm::Integer(4)),
        DataType::Int64
        | DataType::Date64
        | DataType::Time64
        | DataType::Timestamp
        | DataType::Duration
        | DataType::UInt64
        | DataType::Float64 => Some(PlainForm::Integer(8)),
        DataType::LargeUtf8 | DataType::Utf8View | DataType::LargeBinary | DataType::BinaryView => Some(
            PlainForm::Binary,
        ),
        DataType::FixedSizeBinary(_) => Some(PlainForm::FixedSizeBinary),
        DataType::Boolean | DataType::Utf8 | DataType::Binary => None,
    }
}

/// The number that stands for `v` in `size` bytes of two's complement.
pub open spec fn wrapped(v: int, size: nat) -> nat {
    if size == 4 {
        (v % 0x1_0000_0000) as nat
    } else {
        (v % 0x1_0000_0000_0000_0000) as nat
    }
}

/// `v` in `size` little-endian bytes of two's complement.
pub open spec fn plain_integer(v: int, size: nat) -> Seq<u8> {
    le_bytes(wrapped(v, size), size)
}

/// The first `n` numbers, each in `size` bytes.
pub open spec fn plain_integers(values: Seq<i128>, size: nat, n: nat) -> Seq<u8>
    decreases n,
{
    if n == 0 {
        Seq::empty()
    } else {
        plain_integers(values, size, (n - 1) as nat) + plain_integer(values[n - 1] as int, size)
    }
}

/// The first `n` binary values, each after its length in four bytes.
pub open spec fn plain_binary(values: Seq<Seq<u8>>, n: nat) -> Seq<u8>
    decreases n,
{
    if n == 0 {
        Seq::empty()
    } else {
        plain_binary(values, (n - 1) as nat) + le_bytes(values[n - 1].len(), 4) + values[n - 1]
    }
}

/// The first `n` binary values of fixed size, end to end.
pub open spec fn plain_fixed(values: Seq<Seq<u8>>, n: nat) -> Seq<u8>
    decreases n,
{
    if n == 0 {
        Seq::empty()
    } else {
        plain_fixed(values, (n - 1) as nat) + values[n - 1]
    }
}

/// The values of the array in plain encoding; nothing for a type that has no
/// dictionary page.
pub open spec fn plain_values(array: &TypedArray) -> Seq<u8> {
    match spec_plain_form(array.dtype) {
        Some(PlainForm::Integer(size)) => plain_integers(
            array.values.integers(),
            size as nat,
            array.spec_len(),
        ),
        Some(PlainForm::Binary) => plain_binary(array.values.bytes(), array.spec_len()),
        Some(PlainForm::FixedSizeBinary) => plain_fixed(array.values.bytes(), array.spec_len()),
        None => Seq::empty(),
    }
}

/// Appends `v` in `size` bytes of two's complement.
pub fn write_plain_integer(buffer: &mut Vec<u8>, v: i128, size: usize)
    requires
        size == 4 || size == 8,
        size == 4 ==> -0x8000_0000 <= v <= 0xffff_ffff,
        size == 8 ==> -0x8000_0000_0000_0000 <= v <= 0xffff_ffff_ffff_ffff,
    ensures
        final(buffer)@ == old(buffer)@ + plain_integer(v as int, size as nat),
{
    let pattern: u64 = if v >= 0 {
        v as u64
    } else if size == 4 {
        (v + 0x1_0000_0000) as u64
    } else {
        (v + 0x1_0000_0000_0000_0000) as u64
    };
    write_le_bytes(buffer, pattern, size);
}

/// The values of the array in plain encoding.
pub fn encode_plain(array: &TypedArray, form: PlainForm) -> (buffer: Vec<u8>)
    requires
        array.wf(),
        spec_plain_form(array.dtype) == Some(form),
    ensures
        buffer@ == plain_values(array),
{
    let mut buffer: Vec<u8> = Vec::new();
    match &array.values {
        ArrayValues::Integers(values) => {
            let size = match form {
                PlainForm::Integer(size) => size,
                _ => 8,
            };
            let mut i: usize = 0;
            while i < values.len()
                invariant
                    array.wf(),
                    array.values.integers() == values@,
                    spec_plain_form(array.dtype) == Some(PlainForm::Integer(size)),
                    i <= values@.len(),
                    buffer@ == plain_integers(values@, size as nat, i as nat),
                decreases values@.len() - i,
            {
                write_plain_integer(&mut buffer, values[i], size);
                i = i + 1;
            }
        },
        ArrayValues::Bytes(values) => {
            let with_length = match form {
                PlainForm::Binary => true,
                _ => false,
            };
            let mut i: usize = 0;
            while i < values.len()
                invariant
                    array.values.bytes() == crate::types::bytes_view(values@),
                    i <= values@.len(),
                    buffer@ == if with_length {
                        plain_binary(array.values.bytes(), i as nat)
                    } else {
                        plain_fixed(array.values.bytes(), i as nat)
                    },
                decreases values@.len() - i,
            {
                if with_length {
                    write_le_bytes(&mut buffer, values[i].len() as u64, 4);
                }
                append_all(&mut buffer, &values[i]);
                i = i + 1;
            }
        },
    }
    buffer
}

} // verus!
