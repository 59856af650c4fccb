//! The fast path to a dictionary, for columns of whole numbers that lie close
//! together: one pass marks which numbers between the least and the greatest
//! occur, and the marks give the dictionary, in ascending order, and the keys.

use crate::kernels::min_max_ignore_nulls;
use crate::occurrence::{
    count_occurring, lemma_least_greatest, lemma_occurs_at, lemma_occurs_place, occurs,
    occurs_below, valid_min_max,
};
use crate::types::{
    copy_mask, is_valid_at, mask_allows, mask_view, ArrayValues, DataType, DictionaryArray,
    TypedArray,
};
use vstd::prelude::*;

verus! {

/// The width in bits of the whole numbers of a column.
#[derive(Clone, Copy, Debug, PartialEq, Eq, Structural)]
pub enum IntegerWidth {
    Bits8,
    Bits16,
    Bits32,
    Bits64,
}

impl IntegerWidth {
    /// A column with at most this many distinct values always gets a dictionary.
    pub open spec fn spec_delta_threshold(self) -> nat {
        match self {
            IntegerWidth::Bits8 => 16,
            IntegerWidth::Bits16 => 256,
            IntegerWidth::Bits32 => 512,
            IntegerWidth::Bits64 => 2048,
        }
    }

    /// The fast path is left where the greatest value lies further than this
    /// from the least.
    pub open spec fn spec_bitmask_threshold(self) -> nat {
        match self {
            IntegerWidth::Bits8 => 0xff,
            _ => 0xffff,
        }
    }

    /// A column with at most this many distinct values always gets a dictionary.
    pub fn delta_threshold(self) -> (threshold: usize)
        ensures
            threshold == self.spec_delta_threshold(),
    {
        match self {
            IntegerWidth::Bits8 => 16,
            IntegerWidth::Bits16 => 256,
            IntegerWidth::Bits32 => 512,
            IntegerWidth::Bits64 => 2048,
        }
    }

    /// The fast path is left where the greatest value lies further than this
    /// from the least.
    pub fn bitmask_threshold(self) -> (threshold: usize)
        ensures
            threshold == self.spec_bitmask_threshold(),
    {
        match self {
            IntegerWidth::Bits8 => 0xff,
            _ => 0xffff,
        }
    }
}

/// The width of the whole numbers that a column of type `dtype` holds; `None`
/// for every other type.
pub open spec fn spec_integer_width(dtype: DataType) -> Option<IntegerWidth> {
    match dtype {
        DataType::Int8 | DataType::UInt8 => Some(IntegerWidth::Bits8),
        DataType::Int16 | DataType::UInt16 => Some(IntegerWidth::Bits16),
        DataType::Int32 | DataType::UInt32 | DataType::Date32 | DataType::Time32 => Some(
            IntegerWidth::Bits32,
        ),
        DataType::Int64
        | DataType::UInt64
        | DataType::Date64
        | DataType::Time64
        | DataType::Timestamp
        | DataType::Duration => Some(IntegerWidth::Bits64),
        _ => None,
    }
}

/// The width of the whole numbers that a column of type `dtype` holds; `None`
/// for every other type.
pub fn integer_width(dtype: DataType) -> (width: Option<IntegerWidth>)
    ensures
        width == spec_integer_width(dtype),
{
    match dtype {
        DataType::Int8 | DataType::UInt8 => Some(IntegerWidth::Bits8),
        DataType::Int16 | DataType::UInt16 => Some(IntegerWidth::Bits16),
        DataType::Int32 | DataType::UInt32 | DataType::Date32 | DataType::Time32 => Some(
            IntegerWidth::Bits32,
        ),
        DataType::Int64
        | DataType::UInt64
        | DataType::Date64
        | DataType::Time64
        | DataType::Timestamp
        | DataType::Duration => Some(IntegerWidth::Bits64),
        _ => None,
    }
}

/// The number that lies `offset` above `start`.
pub fn from_start_and_offset(start: i128, offset: usize) -> (value: i128)
    requires
        start + offset <= i128::MAX,
    ensures
        value == start + offset,
{
    start + offset as i128
}

/// What the fast path found.
#[derive(Debug)]
pub enum DictionaryDecision {
    /// A dictionary does not pay: the column is written plain.
    NotWorth,
    /// The fast path does not apply: the general path decides.
    TryAgain,
    /// The dictionary array that stands for the column.
    Found(DictionaryArray),
}

/// How far the greatest valid value of the column lies from the least; zero
/// where no place is valid.
pub open spec fn value_span(values: Seq<i128>, validity: Option<Seq<bool>>) -> nat {
    match valid_min_max(values, validity) {
        Some((lo, hi)) => (hi - lo) as nat,
        None => 0,
    }
}

/// The number of distinct valid values of the column.
pub open spec fn distinct_count(values: Seq<i128>, validity: Option<Seq<bool>>) -> nat {
    match valid_min_max(values, validity) {
        Some((lo, hi)) => count_occurring(values, validity, lo as int, (hi - lo + 1) as nat),
        None => 0,
    }
}

/// A dictionary pays for `distinct` distinct values in `rows` rows: they are
/// few, or fewer than three quarters of the rows.
pub open spec fn is_worth_it(distinct: nat, rows: nat, width: IntegerWidth) -> bool {
    distinct <= width.spec_delta_threshold() || 4 * distinct < 3 * rows
}

/// `x`, moved to the nearer bound where it lies outside them.
pub open spec fn clamped(x: i128, lo: i128, hi: i128) -> i128 {
    if x < lo {
        lo
    } else if x > hi {
        hi
    } else {
        x
    }
}

/// `key` names `x` in `dict`, or is zero where `dict` does not hold `x`.
pub open spec fn key_names(dict: Seq<i128>, key: u32, x: i128) -> bool {
    &&& key < dict.len()
    &&& dict[key as int] == x || (key == 0 && forall|k: int|
        0 <= k < dict.len() ==> #[trigger] dict[k] != x)
}

/// `d` is the dictionary array that the fast path builds for `array`: the
/// values are the numbers that occur, in ascending order and without a mask;
/// the mask of the keys is that of the column; the key of a valid place names
/// the number that stands there; the key of a null place names the number
/// there, moved between the least and greatest valid value, and is zero where
/// that number does not occur.
pub open spec fn is_min_max_dictionary(array: &TypedArray, d: &DictionaryArray) -> bool {
    let values = array.values.integers();
    let mask = mask_view(array.validity);
    let dict = d.values.values.integers();
    &&& array.values is Integers
    &&& d.wf()
    &&& d.values.dtype == array.dtype
    &&& d.values.validity is None
    &&& d.values.values is Integers
    &&& mask_view(d.validity) == mask
    &&& d.keys@.len() == values.len()
    &&& forall|a: int, b: int| 0 <= a < b < dict.len() ==> dict[a] < dict[b]
    &&& forall|k: int| 0 <= k < dict.len() ==> occurs(values, mask, #[trigger] dict[k])
    &&& forall|i: int|
        0 <= i < values.len() ==> if mask_allows(mask, i) {
            (#[trigger] d.keys@[i]) < dict.len() && dict[d.keys@[i] as int] == values[i]
        } else {
            valid_min_max(values, mask) matches Some(bounds) && key_names(
                dict,
                d.keys@[i],
                clamped(values[i], bounds.0, bounds.1),
            )
        }
}

/// What the fast path owes for `array`.
pub open spec fn is_min_max_decision(
    array: &TypedArray,
    width: IntegerWidth,
    decision: DictionaryDecision,
) -> bool {
    let values = array.values.integers();
    let mask = mask_view(array.validity);
    let applies = array.values is Integers && valid_min_max(values, mask) is Some && value_span(
        values,
        mask,
    ) <= width.spec_bitmask_threshold();
    let worth = is_worth_it(distinct_count(values, mask), values.len(), width);
    match decision {
        DictionaryDecision::TryAgain => !applies,
        DictionaryDecision::NotWorth => applies && !worth,
        DictionaryDecision::Found(d) => applies && worth && is_min_max_dictionary(array, &d)
            && d.values.spec_len() == distinct_count(values, mask),
    }
}

/// `n` times `false`.
fn all_false(n: usize) -> (v: Vec<bool>)
    ensures
        v@.len() == n,
        forall|i: int| 0 <= i < n ==> !v@[i],
{
    let mut v: Vec<bool> = Vec::new();
    while v.len() < n
        invariant
            v@.len() <= n,
            forall|i: int| 0 <= i < v@.len() ==> !v@[i],
        decreases n - v@.len(),
    {
        v.push(false);
    }
    v
}

/// `n` times zero.
fn all_zero(n: usize) -> (v: Vec<u32>)
    ensures
        v@.len() == n,
        forall|i: int| 0 <= i < n ==> v@[i] == 0,
{
    let mut v: Vec<u32> = Vec::new();
    while v.len() < n
        invariant
            v@.len() <= n,
            forall|i: int| 0 <= i < v@.len() ==> v@[i] == 0,
        decreases n - v@.len(),
    {
        v.push(0);
    }
    v
}

/// Marks which of the numbers from `min` to `min + size - 1` occur.
fn mark_occurring(values: &Vec<i128>, validity: &Option<Vec<bool>>, min: i128, size: usize) -> (seen:
    Vec<bool>)
    requires
        validity matches Some(mask) ==> mask@.len() == values@.len(),
        forall|i: int|
            0 <= i < values@.len() && mask_allows(mask_view(*validity), i) ==> min
                <= #[trigger] values@[i] < min + size,
        min + size <= i128::MAX,
    ensures
        seen@.len() == size,
        forall|off: int|
            0 <= off < size ==> #[trigger] seen@[off] == occurs(
                values@,
                mask_view(*validity),
                (min + off) as i128,
            ),
{
    let mut seen = all_false(size);
    let mut i: usize = 0;
    while i < values.len()
        invariant
            i <= values@.len(),
            seen@.len() == size,
            validity matches Some(mask) ==> mask@.len() == values@.len(),
            forall|j: int|
                0 <= j < values@.len() && mask_allows(mask_view(*validity), j) ==> min
                    <= #[trigger] values@[j] < min + size,
            min + size <= i128::MAX,
            forall|off: int|
                0 <= off < size ==> #[trigger] seen@[off] == occurs_below(
                    values@,
                    mask_view(*validity),
                    (min + off) as i128,
                    i as nat,
                ),
        decreases values@.len() - i,
    {
        if is_valid_at(validity, i) {
            let off = (values[i] - min) as usize;
            seen.set(off, true);
        }
        i = i + 1;
    }
    seen
}

/// The number of the first `n` marks that are set.
pub open spec fn count_set(seen: Seq<bool>, n: nat) -> nat
    decreases n,
{
    if n == 0 {
        0
    } else {
        count_set(seen, (n - 1) as nat) + if seen[n - 1] {
            1nat
        } else {
            0nat
        }
    }
}

/// Where the marks say which numbers occur, as many marks are set as numbers
/// occur.
proof fn lemma_count_set_occurring(
    seen: Seq<bool>,
    values: Seq<i128>,
    mask: Option<Seq<bool>>,
    min: int,
    n: nat,
)
    requires
        n <= seen.len(),
        forall|off: int|
            0 <= off < seen.len() ==> #[trigger] seen[off] == occurs(
                values,
                mask,
                (min + off) as i128,
            ),
    ensures
        count_set(seen, n) == count_occurring(values, mask, min, n),
    decreases n,
{
    if n != 0 {
        lemma_count_set_occurring(seen, values, mask, min, (n - 1) as nat);
        assert(seen[n - 1] == occurs(values, mask, (min + (n - 1)) as i128));
    }
}

/// The number of marks that are set.
fn count_marks(seen: &Vec<bool>) -> (count: usize)
    ensures
        count == count_set(seen@, seen@.len()),
{
    let mut count: usize = 0;
    let mut off: usize = 0;
    while off < seen.len()
        invariant
            off <= seen@.len(),
            count <= off,
            count == count_set(seen@, off as nat),
        decreases seen@.len() - off,
    {
        if seen[off] {
            count = count + 1;
        }
        off = off + 1;
    }
    count
}

/// The dictionary and the lookup table that the marks give.
///
/// The dictionary holds, in ascending order, each number whose mark is set;
/// the table gives for each marked offset from `min` the place of its number
/// in the dictionary, and zero for the others.
fn build_lookup(seen: &Vec<bool>, min: i128) -> (r: (Vec<i128>, Vec<u32>))
    requires
        seen@.len() <= 0x1_0000,
        min + seen@.len() <= i128::MAX,
    ensures
        r.1@.len() == seen@.len(),
        r.0@.len() == count_set(seen@, seen@.len()),
        forall|a: int, b: int| 0 <= a < b < r.0@.len() ==> r.0@[a] < r.0@[b],
        forall|k: int|
            0 <= k < r.0@.len() ==> min <= #[trigger] r.0@[k] < min + seen@.len() && seen@[r.0@[k]
                - min],
        forall|off: int|
            0 <= off < seen@.len() ==> if seen@[off] {
                (#[trigger] r.1@[off]) < r.0@.len() && r.0@[r.1@[off] as int] == min + off
            } else {
                r.1@[off] == 0
            },
{
    let size = seen.len();
    let mut dict: Vec<i128> = Vec::new();
    let mut lookup = all_zero(size);
    let mut off: usize = 0;
    while off < size
        invariant
            size == seen@.len(),
            size <= 0x1_0000,
            min + size <= i128::MAX,
            off <= size,
            lookup@.len() == size,
            dict@.len() <= off,
            dict@.len() == count_set(seen@, off as nat),
            forall|a: int, b: int| 0 <= a < b < dict@.len() ==> dict@[a] < dict@[b],
            forall|k: int|
                0 <= k < dict@.len() ==> min <= #[trigger] dict@[k] < min + off && seen@[dict@[k]
                    - min],
            forall|o: int|
                0 <= o < size ==> if o < off && seen@[o] {
                    (#[trigger] lookup@[o]) < dict@.len() && dict@[lookup@[o] as int] == min + o
                } else {
                    lookup@[o] == 0
                },
        decreases size - off,
    {
        if seen[off] {
            lookup.set(off, dict.len() as u32);
            dict.push(from_start_and_offset(min, off));
        }
        off = off + 1;
    }
    (dict, lookup)
}

/// The key of each place: what the lookup table gives for the number there,
/// moved between `min` and `max`.
fn lookup_keys(values: &Vec<i128>, lookup: &Vec<u32>, min: i128, max: i128) -> (keys: Vec<u32>)
    requires
        min <= max,
        max - min + 1 == lookup@.len(),
    ensures
        keys@.len() == values@.len(),
        forall|i: int|
            0 <= i < values@.len() ==> #[trigger] keys@[i] == lookup@[clamped(values@[i], min, max)
                - min],
{
    let mut keys: Vec<u32> = Vec::new();
    let mut i: usize = 0;
    while i < values.len()
        invariant
            i <= values@.len(),
            keys@.len() == i,
            min <= max,
            max - min + 1 == lookup@.len(),
            forall|j: int|
                0 <= j < i ==> #[trigger] keys@[j] == lookup@[clamped(values@[j], min, max) - min],
        decreases values@.len() - i,
    {
        let v = values[i];
        let c = if v < min {
            min
        } else if v > max {
            max
        } else {
            v
        };
        assert(0 <= c - min < lookup.len());
        let off = (c - min) as usize;
        keys.push(lookup[off]);
        i = i + 1;
    }
    keys
}

/// The fast path to a dictionary for a column of whole numbers of width
/// `width`.
///
/// It does not apply (`TryAgain`) where the values are no numbers, where no
/// place is valid, and where the greatest valid value lies further from the
/// least than the threshold of the width allows. Where it applies, a
/// dictionary pays if the distinct valid values are at most the count threshold
/// of the width, or fewer than three quarters of the rows; if it does not pay
/// the answer is `NotWorth`, else the dictionary array.
pub fn min_max_integer_encode_as_dictionary_optional(
    array: &TypedArray,
    width: IntegerWidth,
) -> (decision: DictionaryDecision)
    requires
        array.wf(),
    ensures
        is_min_max_decision(array, width, decision),
{
    let values = match &array.values {
        ArrayValues::Integers(values) => values,
        ArrayValues::Bytes(_) => {
            return DictionaryDecision::TryAgain;
        },
    };
    let ghost mask = mask_view(array.validity);
    let Some((min, max)) = min_max_ignore_nulls(values, &array.validity) else {
        return DictionaryDecision::TryAgain;
    };
    proof {
        lemma_least_greatest(values@, mask, values@.len());
        let at_min = lemma_occurs_place(values@, mask, min, values@.len());
        let at_max = lemma_occurs_place(values@, mask, max, values@.len());
        assert(array.dtype.least() <= values@[at_min] <= max);
        assert(min <= values@[at_max] <= array.dtype.greatest());
    }
    let diff = max - min;
    if diff > width.bitmask_threshold() as i128 {
        return DictionaryDecision::TryAgain;
    }
    let size = diff as usize + 1;
    let seen = mark_occurring(values, &array.validity, min, size);
    let cardinality = count_marks(&seen);
    proof {
        lemma_count_set_occurring(seen@, values@, mask, min as int, size as nat);
    }
    let few = cardinality <= width.delta_threshold();
    let sparse = (cardinality as u128) * 4 < (values.len() as u128) * 3;
    if !(few || sparse) {
        return DictionaryDecision::NotWorth;
    }
    let (dict, lookup) = build_lookup(&seen, min);
    let keys = lookup_keys(values, &lookup, min, max);
    proof {
        assert forall|k: int| 0 <= k < dict@.len() implies array.dtype.least() <= #[trigger] dict@[k]
            <= array.dtype.greatest() by {
            let at = lemma_occurs_place(values@, mask, dict@[k], values@.len());
            assert(dict@[k] == values@[at]);
        }
        assert forall|i: int| 0 <= i < values@.len() && mask_allows(mask, i) implies (
        #[trigger] keys@[i]) < dict@.len() && dict@[keys@[i] as int] == values@[i] by {
            lemma_occurs_at(values@, mask, i, values@.len());
            assert(seen@[values@[i] - min]);
        }
        assert forall|i: int| 0 <= i < values@.len() && !mask_allows(mask, i) implies key_names(
            dict@,
            #[trigger] keys@[i],
            clamped(values@[i], min, max),
        ) by {
            let c = clamped(values@[i], min, max);
            assert(seen@[min - min]);
            if !seen@[c - min] {
                assert forall|k: int| 0 <= k < dict@.len() implies #[trigger] dict@[k] != c by {
                    assert(seen@[dict@[k] - min]);
                }
            }
        }
    }
    let found = DictionaryArray {
        keys,
        validity: copy_mask(&array.validity),
        values: TypedArray { dtype: array.dtype, values: ArrayValues::Integers(dict), validity: None },
    };
    proof {
        assert forall|i: int| 0 <= i < found.keys@.len() && found.key_is_valid(i) implies (
        #[trigger] found.keys@[i]) < found.values.spec_len() by {}
    }
    DictionaryDecision::Found(found)
}

} // verus!
