//! From a column to its dictionary pages: whether the column gets a
//! dictionary, which dictionary array stands for it, and the pages of a
//! dictionary array.

use crate::data_pages::{is_data_pages, nested_fits, serialize_keys};
use crate::kernels::{
    estimate_bytes_cardinality, estimate_integer_cardinality, pack_bytes, pack_integers,
};
use crate::min_max_dictionary::{
    distinct_count, integer_width, is_min_max_dictionary, is_worth_it,
    min_max_integer_encode_as_dictionary_optional, spec_integer_width, value_span,
    DictionaryDecision,
};
use crate::nested::{EncodedLevels, Nested};
use crate::occurrence::{is_packing, lemma_occurs_at, lemma_occurs_place, occurs, valid_min_max};
use crate::page::{
    DictPage, EncodeError, Encoding, Page, PrimitiveType, Statistics, StatisticsView, WriteOptions,
};
use crate::plain::{encode_plain, plain_form, plain_values, spec_plain_form};
use crate::statistics::{build_statistics, greatest_value, least_value};
use crate::types::{
    copy_mask, mask_allows, mask_view, ArrayValues, DataType, DictionaryArray, TypedArray,
};
use vstd::prelude::*;

verus! {

/// The fast path applies to the array: its values are whole numbers of a
/// known width, one of them is valid, and the greatest valid value lies no
/// further from the least than the threshold of the width allows.
pub open spec fn fast_path_applies(array: &TypedArray) -> bool {
    let values = array.values.integers();
    let mask = mask_view(array.validity);
    &&& spec_integer_width(array.dtype) matches Some(width)
    &&& array.values is Integers
    &&& valid_min_max(values, mask) is Some
    &&& value_span(values, mask) <= width.spec_bitmask_threshold()
}

/// A dictionary pays on the fast path: the distinct valid values are few for
/// the width, or fewer than three quarters of the rows.
pub open spec fn fast_path_worth(array: &TypedArray) -> bool {
    let values = array.values.integers();
    let mask = mask_view(array.validity);
    spec_integer_width(array.dtype) matches Some(width) && is_worth_it(
        distinct_count(values, mask),
        values.len(),
        width,
    )
}

/// The general path gives up on a column of `rows` rows that is estimated to
/// hold `estimate` distinct values: the column has more than 128 rows, and
/// more than three quarters of them are taken to be distinct.
pub open spec fn cardinality_too_high(rows: nat, estimate: nat) -> bool {
    rows > 128 && 4 * estimate > 3 * rows
}

/// Whether the general path gives up on a column of `rows` rows that is
/// estimated to hold `estimate` distinct values.
pub fn rejects_cardinality(rows: usize, estimate: usize) -> (rejected: bool)
    ensures
        rejected == cardinality_too_high(rows as nat, estimate as nat),
{
    rows > 128 && (estimate as u128) * 4 > (rows as u128) * 3
}

/// The 64 bits that stand for a whole number between the least `i64` and the
/// greatest `u64`.
pub open spec fn pattern_of(v: i128) -> i64 {
    if v > 0x7fff_ffff_ffff_ffff {
        (v - 0x1_0000_0000_0000_0000) as i64
    } else {
        v as i64
    }
}

/// The whole number that a pattern stands for in a column of type `dtype`:
/// unsigned where the type holds no negative number.
pub open spec fn number_of(pattern: i64, dtype: DataType) -> i128 {
    if pattern < 0 && dtype.least() == 0 {
        (pattern + 0x1_0000_0000_0000_0000) as i128
    } else {
        pattern as i128
    }
}

/// The pattern of each number.
pub open spec fn patterns_of(values: Seq<i128>) -> Seq<i64> {
    Seq::new(values.len(), |i: int| pattern_of(values[i]))
}

/// The number of each pattern.
pub open spec fn numbers_of(patterns: Seq<i64>, dtype: DataType) -> Seq<i128> {
    Seq::new(patterns.len(), |i: int| number_of(patterns[i], dtype))
}

/// `d` is a dictionary array that the general path builds for `array`: its
/// values are of the type of the column and have no mask, the mask of its keys
/// is that of the column, and keys and values are a packing of the column.
pub open spec fn is_generic_dictionary(array: &TypedArray, d: &DictionaryArray) -> bool {
    let mask = mask_view(array.validity);
    &&& d.wf()
    &&& d.values.dtype == array.dtype
    &&& d.values.validity is None
    &&& mask_view(d.validity) == mask
    &&& match array.values {
        ArrayValues::Integers(_) => d.values.values is Integers && is_packing(
            array.values.integers(),
            mask,
            d.keys@,
            d.values.values.integers(),
        ),
        ArrayValues::Bytes(_) => d.values.values is Bytes && is_packing(
            array.values.bytes(),
            mask,
            d.keys@,
            d.values.values.bytes(),
        ),
    }
}

/// `d` is the dictionary array without rows and without values, for values of
/// type `dtype`.
pub open spec fn is_empty_dictionary(d: &DictionaryArray, dtype: DataType) -> bool {
    &&& d.wf()
    &&& d.spec_len() == 0
    &&& d.values.spec_len() == 0
    &&& d.values.dtype == dtype
    &&& d.validity is None
    &&& d.values.validity is None
}

/// `d` is a dictionary array that is chosen for `array`: the empty one for an
/// array without rows; else that of the fast path where it applies and pays;
/// else one of the general path.
pub open spec fn is_selected(array: &TypedArray, d: &DictionaryArray) -> bool {
    if array.spec_len() == 0 {
        is_empty_dictionary(d, array.dtype)
    } else if fast_path_applies(array) {
        fast_path_worth(array) && is_min_max_dictionary(array, d)
    } else {
        is_generic_dictionary(array, d)
    }
}

/// The pattern of each number.
fn to_patterns(values: &Vec<i128>) -> (patterns: Vec<i64>)
    requires
        forall|i: int|
            0 <= i < values@.len() ==> -0x8000_0000_0000_0000 <= #[trigger] values@[i]
                <= 0xffff_ffff_ffff_ffff,
    ensures
        patterns@ == patterns_of(values@),
{
    let mut patterns: Vec<i64> = Vec::new();
    let mut i: usize = 0;
    while i < values.len()
        invariant
            i <= values@.len(),
            forall|j: int|
                0 <= j < values@.len() ==> -0x8000_0000_0000_0000 <= #[trigger] values@[j]
                    <= 0xffff_ffff_ffff_ffff,
            patterns@ == patterns_of(values@).take(i as int),
        decreases values@.len() - i,
    {
        let v = values[i];
        let pattern: i64 = if v > 0x7fff_ffff_ffff_ffff {
            (v - 0x1_0000_0000_0000_0000) as i64
        } else {
            v as i64
        };
        patterns.push(pattern);
        i = i + 1;
    }
    patterns
}

/// The number of each pattern.
fn to_numbers(patterns: &Vec<i64>, dtype: DataType) -> (numbers: Vec<i128>)
    requires
        dtype.holds_integers(),
    ensures
        numbers@ == numbers_of(patterns@, dtype),
{
    let unsigned = dtype.lower_bound() == 0;
    let mut numbers: Vec<i128> = Vec::new();
    let mut i: usize = 0;
    while i < patterns.len()
        invariant
            i <= patterns@.len(),
            unsigned == (dtype.least() == 0),
            numbers@ == numbers_of(patterns@, dtype).take(i as int),
        decreases patterns@.len() - i,
    {
        let p = patterns[i];
        let number: i128 = if p < 0 && unsigned {
            p as i128 + 0x1_0000_0000_0000_0000
        } else {
            p as i128
        };
        numbers.push(number);
        i = i + 1;
    }
    proof {
        assert(numbers_of(patterns@, dtype).take(patterns@.len() as int) =~= numbers_of(
            patterns@,
            dtype,
        ));
    }
    numbers
}

/// The dictionary array of a column of whole numbers, from a packing of the
/// patterns of its numbers.
pub fn dictionary_from_integers(array: &TypedArray, keys: Vec<u32>, patterns: Vec<i64>) -> (d:
    DictionaryArray)
    requires
        array.wf(),
        array.values is Integers,
        is_packing(
            patterns_of(array.values.integers()),
            mask_view(array.validity),
            keys@,
            patterns@,
        ),
    ensures
        is_generic_dictionary(array, &d),
        d.keys == keys,
        d.values.values.integers() == numbers_of(patterns@, array.dtype),
{
    let dict = to_numbers(&patterns, array.dtype);
    proof {
        let values = array.values.integers();
        let mask = mask_view(array.validity);
        let before = patterns_of(values);
        assert forall|k: int| 0 <= k < dict@.len() implies occurs(values, mask, #[trigger] dict@[k])
            && array.dtype.least() <= dict@[k] <= array.dtype.greatest() by {
            let at = lemma_occurs_place(before, mask, patterns@[k], before.len());
            lemma_occurs_at(values, mask, at, values.len());
        }
        assert forall|a: int, b: int| 0 <= a < b < dict@.len() implies dict@[a] != dict@[b] by {
            let at_a = lemma_occurs_place(before, mask, patterns@[a], before.len());
            let at_b = lemma_occurs_place(before, mask, patterns@[b], before.len());
            assert(number_of(patterns@[a], array.dtype) == values[at_a]);
            assert(number_of(patterns@[b], array.dtype) == values[at_b]);
        }
        assert forall|i: int| 0 <= i < values.len() implies if mask_allows(mask, i) {
            (#[trigger] keys@[i]) < dict@.len() && dict@[keys@[i] as int] == values[i]
        } else {
            keys@[i] == 0
        } by {
            if mask_allows(mask, i) {
                assert(patterns@[keys@[i] as int] == pattern_of(values[i]));
            }
        }
    }
    DictionaryArray {
        keys,
        validity: copy_mask(&array.validity),
        values: TypedArray { dtype: array.dtype, values: ArrayValues::Integers(dict), validity: None },
    }
}

/// The dictionary array of a column of binary values, from a packing of it.
pub fn dictionary_from_bytes(array: &TypedArray, keys: Vec<u32>, dict: Vec<Vec<u8>>) -> (d:
    DictionaryArray)
    requires
        array.wf(),
        array.values is Bytes,
        is_packing(
            array.values.bytes(),
            mask_view(array.validity),
            keys@,
            crate::types::bytes_view(dict@),
        ),
    ensures
        is_generic_dictionary(array, &d),
        d.keys == keys,
        d.values.values == ArrayValues::Bytes(dict),
{
    proof {
        let values = array.values.bytes();
        let mask = mask_view(array.validity);
        let all = crate::types::bytes_view(dict@);
        assert forall|k: int| 0 <= k < dict@.len() implies (#[trigger] dict@[k])@.len()
            <= crate::types::MAX_VALUE_LEN && (array.dtype matches DataType::FixedSizeBinary(size)
            ==> dict@[k]@.len() == size) by {
            let at = lemma_occurs_place(values, mask, all[k], values.len());
            assert(all[k] == array.values->Bytes_0@[at]@);
        }
    }
    DictionaryArray {
        keys,
        validity: copy_mask(&array.validity),
        values: TypedArray { dtype: array.dtype, values: ArrayValues::Bytes(dict), validity: None },
    }
}

/// Chooses the dictionary array that stands for a column, or `None` where the
/// column is better written plain.
///
/// An array without rows gets the empty dictionary. Where the fast path
/// applies it decides: the answer is its dictionary if a dictionary pays, and
/// `None` if not. Else the general path decides (`pack_dictionary`).
pub fn select_dictionary(array: &TypedArray) -> (selected: Option<DictionaryArray>)
    requires
        array.wf(),
    ensures
        match selected {
            Some(d) => is_selected(array, &d),
            None => array.spec_len() > 0 && if fast_path_applies(array) {
                !fast_path_worth(array)
            } else {
                array.spec_len() > 128
            },
        },
{
    if array.is_empty() {
        return Some(DictionaryArray::new_empty(array.dtype));
    }
    let fast_dictionary = match integer_width(array.dtype) {
        Some(width) => min_max_integer_encode_as_dictionary_optional(array, width),
        None => DictionaryDecision::TryAgain,
    };
    match fast_dictionary {
        DictionaryDecision::NotWorth => {
            return None;
        },
        DictionaryDecision::Found(dictionary_array) => {
            return Some(dictionary_array);
        },
        DictionaryDecision::TryAgain => {},
    }
    pack_dictionary(array)
}

/// The general path to a dictionary, for a column of any type.
///
/// It estimates how many distinct values the column holds, gives up where
/// `cardinality_too_high`, and packs the column into keys and distinct values.
/// It also gives up on a column of binary values of more rows than a `u32`
/// counts, and where the packing fails, which only a column of so many rows can
/// bring about.
pub fn pack_dictionary(array: &TypedArray) -> (packed: Option<DictionaryArray>)
    requires
        array.wf(),
    ensures
        match packed {
            Some(d) => is_generic_dictionary(array, &d),
            None => array.spec_len() > 128,
        },
{
    match &array.values {
        ArrayValues::Integers(values) => {
            let estimated_cardinality = estimate_integer_cardinality(values, &array.validity);
            if rejects_cardinality(values.len(), estimated_cardinality) {
                return None;
            }
            let patterns = to_patterns(values);
            match pack_integers(&patterns, &array.validity) {
                Ok((keys, dict)) => Some(dictionary_from_integers(array, keys, dict)),
                Err(_) => None,
            }
        },
        ArrayValues::Bytes(values) => {
            if values.len() > u32::MAX as usize {
                return None;
            }
            let estimated_cardinality = estimate_bytes_cardinality(values, &array.validity);
            if rejects_cardinality(values.len(), estimated_cardinality) {
                return None;
            }
            match pack_bytes(values, &array.validity) {
                Ok((keys, dict)) => Some(dictionary_from_bytes(array, keys, dict)),
                Err(_) => None,
            }
        },
    }
}

/// Whether the encoding is one of the two that point into a dictionary.
pub open spec fn is_dictionary_encoding(encoding: Encoding) -> bool {
    encoding == Encoding::PlainDictionary || encoding == Encoding::RleDictionary
}

/// `stats` are the statistics of the column chunk of `array`: none where the
/// options ask for none; else the bounds that the options ask for, taken over
/// the values of the dictionary, no count of distinct values, and as the count
/// of nulls, asked for or not, the number of null keys.
pub open spec fn is_chunk_statistics(
    stats: Option<Statistics>,
    array: &DictionaryArray,
    options: WriteOptions,
) -> bool {
    if options.statistics.spec_is_empty() {
        stats is None
    } else {
        stats matches Some(s) && s@ == (StatisticsView {
            null_count: Some(array.spec_null_count() as u64),
            distinct_count: None,
            max_value: if options.statistics.max_value {
                greatest_value(&array.values)
            } else {
                None
            },
            min_value: if options.statistics.min_value {
                least_value(&array.values)
            } else {
                None
            },
        })
    }
}

/// `pages` are the pages of the column chunk of `array`: the dictionary page
/// with the values in plain encoding and the statistics of the chunk, then the
/// data pages.
pub open spec fn is_dictionary_pages(
    pages: Seq<Page>,
    array: &DictionaryArray,
    type_: PrimitiveType,
    nested: Seq<Nested>,
    levels: &EncodedLevels,
    options: WriteOptions,
) -> bool {
    &&& pages.len() >= 1
    &&& pages[0] matches Page::Dict(dict)
    &&& dict.buffer@ == plain_values(&array.values)
    &&& dict.num_values == array.values.spec_len()
    &&& !dict.is_sorted
    &&& is_chunk_statistics(dict.statistics, array, options)
    &&& is_data_pages(
        pages.subrange(1, pages.len() as int),
        array,
        type_,
        nested,
        levels,
        dict.statistics,
        options,
    )
}

/// What `array_to_pages` owes: the pages where the encoding points into a
/// dictionary and the values have a plain form, else the error that says
/// which of the two is missing, the encoding first.
pub open spec fn is_array_to_pages_result(
    result: Result<Vec<Page>, EncodeError>,
    array: &DictionaryArray,
    type_: PrimitiveType,
    nested: Seq<Nested>,
    levels: &EncodedLevels,
    options: WriteOptions,
    encoding: Encoding,
) -> bool {
    match result {
        Ok(pages) => is_dictionary_encoding(encoding) && spec_plain_form(array.values.dtype)
            is Some && is_dictionary_pages(pages@, array, type_, nested, levels, options),
        Err(error) => if !is_dictionary_encoding(encoding) {
            error == EncodeError::UnsupportedEncoding(encoding)
        } else {
            spec_plain_form(array.values.dtype) is None && error == EncodeError::UnsupportedType(
                array.values.dtype,
            )
        },
    }
}

/// The pages of the column chunk of a dictionary array: the dictionary page,
/// then the data pages.
///
/// The dictionary page holds the values in plain encoding, null places
/// included, and the statistics of the chunk. The levels of a nested column
/// are taken as they are; a flat column needs none.
pub fn array_to_pages(
    array: &DictionaryArray,
    type_: PrimitiveType,
    nested: &Vec<Nested>,
    levels: &EncodedLevels,
    options: WriteOptions,
    encoding: Encoding,
) -> (result: Result<Vec<Page>, EncodeError>)
    requires
        array.wf(),
        nested@.len() != 1 ==> nested_fits(nested@, array.spec_len()),
    ensures
        is_array_to_pages_result(result, array, type_, nested@, levels, options, encoding),
{
    match encoding {
        Encoding::PlainDictionary | Encoding::RleDictionary => {},
        _ => {
            return Err(EncodeError::UnsupportedEncoding(encoding));
        },
    }
    let Some(form) = plain_form(array.values.dtype) else {
        return Err(EncodeError::UnsupportedType(array.values.dtype));
    };
    let buffer = encode_plain(&array.values, form);
    let statistics = if options.has_statistics() {
        let stats = build_statistics(&array.values, &options.statistics);
        Some(
            Statistics {
                null_count: Some(array.null_count() as u64),
                distinct_count: stats.distinct_count,
                max_value: stats.max_value,
                min_value: stats.min_value,
            },
        )
    } else {
        None
    };
    let page_statistics = match &statistics {
        Some(stats) => Some(stats.duplicate()),
        None => None,
    };
    let dict_page = DictPage { buffer, num_values: array.values.len(), is_sorted: false, statistics };
    let mut data_pages = serialize_keys(array, type_, nested, levels, page_statistics, options);
    let ghost data = data_pages@;
    let mut pages: Vec<Page> = Vec::new();
    pages.push(Page::Dict(dict_page));
    pages.append(&mut data_pages);
    proof {
        assert(pages@.subrange(1, pages@.len() as int) =~= data);
    }
    Ok(pages)
}

/// The dictionary pages of a column, or `None` where the column is better
/// written plain.
///
/// The column is written through the dictionary array that `select_dictionary`
/// chooses for it, with the dictionary encoding that writes keys as a hybrid
/// stream.
pub fn encode_as_dictionary_optional(
    array: &TypedArray,
    nested: &Vec<Nested>,
    levels: &EncodedLevels,
    type_: PrimitiveType,
    options: WriteOptions,
) -> (result: Option<Result<Vec<Page>, EncodeError>>)
    requires
        array.wf(),
        nested@.len() != 1 ==> nested_fits(nested@, array.spec_len()),
    ensures
        match result {
            Some(pages) => exists|d: DictionaryArray|
                is_selected(array, &d) && #[trigger] is_array_to_pages_result(
                    pages,
                    &d,
                    type_,
                    nested@,
                    levels,
                    options,
                    Encoding::RleDictionary,
                ),
            None => array.spec_len() > 0 && if fast_path_applies(array) {
                !fast_path_worth(array)
            } else {
                array.spec_len() > 128
            },
        },
{
    match select_dictionary(array) {
        None => None,
        Some(dictionary_array) => {
            proof {
                lemma_selected_is_column(array, &dictionary_array);
            }
            Some(array_to_pages(&dictionary_array, type_, nested, levels, options, Encoding::RleDictionary))
        },
    }
}

/// Path equivalence: where the fast path gives a dictionary array for a
/// column, it stands for the same column as any that the general path gives:
/// both hold, row by row, what the column holds.
pub proof fn lemma_paths_agree(array: &TypedArray, fast: &DictionaryArray, general: &DictionaryArray)
    requires
        array.wf(),
        is_min_max_dictionary(array, fast),
        is_generic_dictionary(array, general),
    ensures
        fast.spec_len() == array.spec_len(),
        general.spec_len() == array.spec_len(),
        forall|i: int|
            0 <= i < array.spec_len() ==> #[trigger] fast.logical(i) == array.logical(i)
                && general.logical(i) == array.logical(i),
{
    assert forall|i: int| 0 <= i < array.spec_len() implies #[trigger] fast.logical(i)
        == array.logical(i) && general.logical(i) == array.logical(i) by {
        if array.is_valid(i) {
            assert(fast.keys@[i] < fast.values.spec_len());
            assert(general.keys@[i] < general.values.spec_len());
        }
    }
}

/// The dictionary array that is chosen for a column stands for the column:
/// it has as many rows, and holds, row by row, what the column holds.
pub proof fn lemma_selected_is_column(array: &TypedArray, d: &DictionaryArray)
    requires
        array.wf(),
        is_selected(array, d),
    ensures
        d.wf(),
        d.spec_len() == array.spec_len(),
        d.values.dtype == array.dtype,
        forall|i: int| 0 <= i < array.spec_len() ==> #[trigger] d.logical(i) == array.logical(i),
{
    assert forall|i: int| 0 <= i < array.spec_len() implies #[trigger] d.logical(i)
        == array.logical(i) by {
        if array.is_valid(i) {
            let k = d.keys@[i] as int;
            assert(k < d.values.spec_len());
            if let ArrayValues::Bytes(values) = array.values {
                assert(array.values.bytes()[i] == values@[i]@);
                assert(d.values.values.bytes()[k] == d.values.values->Bytes_0@[k]@);
            }
        }
    }
}

} // verus!
