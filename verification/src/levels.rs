//! Definition levels of a flat column: one for a row that holds a value, zero
//! for a null row, written as a hybrid stream of one bit a level.

use crate::hybrid_rle::{encode, encoded};
use crate::page::Version;
use crate::types::{is_valid_at, mask_allows, mask_view};
use crate::vectors::append_all;
use crate::varint::{le_bytes, write_le_bytes};
use vstd::prelude::*;

verus! {

/// The definition level of each of `len` rows under the mask.
pub open spec fn definition_levels(validity: Option<Seq<bool>>, len: nat) -> Seq<u32> {
    Seq::new(
        len,
        |i: int|
            if mask_allows(validity, i) {
                1u32
            } else {
                0u32
            },
    )
}

/// Levels as a page holds them: the hybrid stream, which the first version of
/// the format prefixes with its length in four bytes.
pub open spec fn levels_encoded(levels: Seq<u32>, version: Version) -> Seq<u8> {
    let stream = encoded(levels, 1);
    match version {
        Version::V1 => le_bytes(stream.len(), 4) + stream,
        Version::V2 => stream,
    }
}

/// The definition levels of `len` rows as a page holds them: nothing for a
/// column that cannot hold nulls.
pub open spec fn def_levels(
    is_optional: bool,
    validity: Option<Seq<bool>>,
    len: nat,
    version: Version,
) -> Seq<u8> {
    if is_optional {
        levels_encoded(definition_levels(validity, len), version)
    } else {
        Seq::empty()
    }
}

/// Appends the definition levels of `len` rows.
pub fn write_def_levels(
    buffer: &mut Vec<u8>,
    is_optional: bool,
    validity: &Option<Vec<bool>>,
    len: usize,
    version: Version,
)
    requires
        validity matches Some(mask) ==> mask@.len() == len,
    ensures
        final(buffer)@ == old(buffer)@ + def_levels(
            is_optional,
            mask_view(*validity),
            len as nat,
            version,
        ),
{
    if !is_optional {
        return ;
    }
    let ghost want = definition_levels(mask_view(*validity), len as nat);
    let mut levels: Vec<u32> = Vec::new();
    let mut i: usize = 0;
    while i < len
        invariant
            i <= len,
            validity matches Some(mask) ==> mask@.len() == len,
            want == definition_levels(mask_view(*validity), len as nat),
            levels@ == want.take(i as int),
        decreases len - i,
    {
        levels.push(
            if is_valid_at(validity, i) {
                1
            } else {
                0
            },
        );
        i = i + 1;
    }
    proof {
        assert(want.take(len as int) =~= want);
    }
    let mut stream: Vec<u8> = Vec::new();
    encode(&mut stream, &levels, 1);
    match version {
        Version::V1 => {
            write_le_bytes(buffer, stream.len() as u64, 4);
            append_all(buffer, &stream);
        },
        Version::V2 => {
            append_all(buffer, &stream);
        },
    }
}

} // verus!
