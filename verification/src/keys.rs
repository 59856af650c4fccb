//! The keys of a dictionary array as data pages.
//!
//! A page holds the levels of its rows, then one byte with the bit width of
//! its keys, then the keys of its valid rows as a hybrid stream. A flat column
//! is cut into pages that aim at the page size of the options; a nested column
//! is one page.

use crate::bits::{
    bit_width, fits, get_bit_width, lemma_bit_width_monotonic, lemma_fits_bit_width,
    lemma_fits_monotonic,
};
use crate::hybrid_rle::{all_fit, encode, encoded};
use crate::types::{copy_mask, is_valid_at, mask_allows, mask_view, DictionaryArray};
use vstd::prelude::*;

verus! {

/// The keys at the valid places below `n`, in order.
pub open spec fn valid_keys(keys: Seq<u32>, validity: Option<Seq<bool>>, n: nat) -> Seq<u32>
    decreases n,
{
    if n == 0 {
        Seq::empty()
    } else if mask_allows(validity, n - 1) {
        valid_keys(keys, validity, (n - 1) as nat).push(keys[n - 1])
    } else {
        valid_keys(keys, validity, (n - 1) as nat)
    }
}

/// The greatest of the first `n` keys; zero where there is none.
pub open spec fn max_key(keys: Seq<u32>, n: nat) -> u32
    decreases n,
{
    if n == 0 {
        0
    } else if keys[n - 1] > max_key(keys, (n - 1) as nat) {
        keys[n - 1]
    } else {
        max_key(keys, (n - 1) as nat)
    }
}

/// The bit width that the keys of a page are written with: that of the
/// greatest key of the page.
pub open spec fn key_bit_width(keys: Seq<u32>) -> nat {
    bit_width(max_key(keys, keys.len()) as nat)
}

/// The keys of a page as the page holds them: one byte with their bit width,
/// then the keys of the valid rows as a hybrid stream.
pub open spec fn key_stream(keys: Seq<u32>, validity: Option<Seq<bool>>) -> Seq<u8> {
    let valid = valid_keys(keys, validity, keys.len());
    seq![key_bit_width(valid) as u8] + encoded(valid, key_bit_width(valid))
}

/// No key is greater than the greatest.
pub proof fn lemma_max_key(keys: Seq<u32>, n: nat)
    requires
        n <= keys.len(),
    ensures
        forall|k: int| 0 <= k < n ==> #[trigger] keys[k] <= max_key(keys, n),
    decreases n,
{
    if n != 0 {
        lemma_max_key(keys, (n - 1) as nat);
    }
}

/// Every key fits in the bit width of the page, which is at most 32.
pub proof fn lemma_keys_fit(keys: Seq<u32>)
    ensures
        all_fit(keys, key_bit_width(keys)),
        key_bit_width(keys) <= 32,
{
    let max = max_key(keys, keys.len());
    lemma_max_key(keys, keys.len());
    lemma_fits_bit_width(max as nat);
    assert forall|k: int| 0 <= k < keys.len() implies fits(
        #[trigger] keys[k] as nat,
        key_bit_width(keys),
    ) by {
        lemma_fits_monotonic(keys[k] as nat, max as nat, bit_width(max as nat), bit_width(max as nat));
    }
    lemma_bit_width_monotonic(max as nat, 0xffff_ffff);
    assert(bit_width(0xffff_ffff) == 32) by {
        reveal_with_fuel(bit_width, 34);
    }
}

/// The mask of the rows of a dictionary array: a row is null where its key
/// is, and where the value that its key names is.
///
/// With no mask on the values it is the mask of the keys; else it is a mask
/// that holds, row by row, whether the row is valid.
pub fn normalized_validity(array: &DictionaryArray) -> (validity: Option<Vec<bool>>)
    requires
        array.wf(),
    ensures
        validity is None <==> array.validity is None && array.values.validity is None,
        array.values.validity is None ==> mask_view(validity) == mask_view(array.validity),
        validity matches Some(mask) ==> mask@.len() == array.spec_len(),
        forall|i: int|
            0 <= i < array.spec_len() ==> mask_allows(mask_view(validity), i)
                == array.row_is_valid(i),
{
    match &array.values.validity {
        None => copy_mask(&array.validity),
        Some(values_mask) => {
            let mut mask: Vec<bool> = Vec::new();
            let mut i: usize = 0;
            while i < array.keys.len()
                invariant
                    array.wf(),
                    array.values.validity == Some(*values_mask),
                    i <= array.keys@.len(),
                    mask@.len() == i,
                    forall|j: int| 0 <= j < i ==> mask@[j] == array.row_is_valid(j),
                decreases array.keys@.len() - i,
            {
                let valid = if is_valid_at(&array.validity, i) {
                    values_mask[array.keys[i] as usize]
                } else {
                    false
                };
                mask.push(valid);
                i = i + 1;
            }
            Some(mask)
        },
    }
}

/// Appends the keys of a page: one byte with the bit width of the greatest
/// valid key, then the valid keys as a hybrid stream of that width. The keys
/// of null rows are left out.
pub fn serialize_keys_values(keys: &Vec<u32>, validity: &Option<Vec<bool>>, buffer: &mut Vec<u8>)
    requires
        validity matches Some(mask) ==> mask@.len() == keys@.len(),
    ensures
        final(buffer)@ == old(buffer)@ + key_stream(keys@, mask_view(*validity)),
{
    let ghost mask = mask_view(*validity);
    let mut valid: Vec<u32> = Vec::new();
    let mut max: u32 = 0;
    let mut i: usize = 0;
    while i < keys.len()
        invariant
            i <= keys@.len(),
            validity matches Some(m) ==> m@.len() == keys@.len(),
            mask == mask_view(*validity),
            valid@ == valid_keys(keys@, mask, i as nat),
            max == max_key(valid@, valid@.len()),
        decreases keys@.len() - i,
    {
        if is_valid_at(validity, i) {
            let ghost before = valid@;
            valid.push(keys[i]);
            proof {
                lemma_max_key_push(before, keys@[i as int]);
            }
            if keys[i] > max {
                max = keys[i];
            }
        }
        i = i + 1;
    }
    let num_bits = get_bit_width(max as u64);
    proof {
        lemma_keys_fit(valid@);
    }
    buffer.push(num_bits as u8);
    encode(buffer, &valid, num_bits);
}

/// The greatest key after one more key.
proof fn lemma_max_key_push(keys: Seq<u32>, key: u32)
    ensures
        max_key(keys.push(key), keys.len() + 1) == if key > max_key(keys, keys.len()) {
            key
        } else {
            max_key(keys, keys.len())
        },
{
    lemma_max_key_prefix(keys.push(key), keys, keys.len());
}

/// The greatest of the first `n` keys depends on those keys only.
proof fn lemma_max_key_prefix(a: Seq<u32>, b: Seq<u32>, n: nat)
    requires
        n <= a.len(),
        n <= b.len(),
        forall|k: int| 0 <= k < n ==> a[k] == b[k],
    ensures
        max_key(a, n) == max_key(b, n),
    decreases n,
{
    if n != 0 {
        lemma_max_key_prefix(a, b, (n - 1) as nat);
    }
}

} // verus!
