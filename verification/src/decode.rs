//! What a reader gets back from the pages: decoders for the parts of a page,
//! stated as spec functions, and the proofs that they give back what the
//! encoder was handed.

use crate::bits::{fits, lemma_fits_below_pow2};
use crate::hybrid_rle::{all_fit, as_nats, decoded, encoded, lemma_decoded_encoded};
use crate::keys::{key_bit_width, key_stream, lemma_keys_fit, valid_keys};
use crate::levels::{def_levels, definition_levels, levels_encoded};
use crate::data_pages::{
    is_flat_page, is_flat_pages, mask_slice, normalized_mask, page_count, page_end, rows_per_page,
};
use crate::dictionary::{is_dictionary_pages, is_selected, lemma_selected_is_column};
use crate::nested::{EncodedLevels, Nested};
use crate::page::{DataPage, Page, PrimitiveType, Version, WriteOptions};
use crate::plain::{
    plain_binary, plain_fixed, plain_integer, plain_integers, plain_values, spec_plain_form,
    wrapped, PlainForm,
};
use crate::types::{mask_allows, DataType, DictionaryArray, TypedArray, Value};
use vstd::arithmetic::div_mod::lemma_fundamental_div_mod;
use crate::varint::{le_bytes, le_value, lemma_le_bytes_len, lemma_le_value_of_bytes};
use vstd::prelude::*;

verus! {

/// Decodes the `count` keys of a page from what follows its levels: the bit
/// width in one byte, then the hybrid stream.
pub open spec fn decoded_key_stream(stream: Seq<u8>, count: nat) -> Option<Seq<nat>> {
    if stream.len() == 0 {
        None
    } else {
        decoded(stream.skip(1), stream[0] as nat, count)
    }
}

/// Decodes the levels of `rows` rows: a hybrid stream of one bit a level,
/// which in the first version of the format follows its length in four bytes.
pub open spec fn decoded_levels(bytes: Seq<u8>, version: Version, rows: nat) -> Option<Seq<nat>> {
    match version {
        Version::V1 => if bytes.len() < 4 || le_value(bytes.take(4)) != bytes.len() - 4 {
            None
        } else {
            decoded(bytes.skip(4), 1, rows)
        },
        Version::V2 => decoded(bytes, 1, rows),
    }
}

/// The number of the first `n` levels that say that a value is there.
pub open spec fn count_defined(levels: Seq<nat>, n: nat) -> nat
    decreases n,
{
    if n == 0 {
        0
    } else {
        count_defined(levels, (n - 1) as nat) + if levels[n - 1] == 1 {
            1nat
        } else {
            0nat
        }
    }
}

/// The key of each of the first `n` rows, none for a null row: the keys go,
/// in order, to the rows whose level says that a value is there.
pub open spec fn spread(levels: Seq<nat>, keys: Seq<nat>, n: nat) -> Seq<Option<nat>>
    decreases n,
{
    if n == 0 {
        Seq::empty()
    } else if levels[n - 1] == 1 {
        spread(levels, keys, (n - 1) as nat).push(
            Some(keys[count_defined(levels, (n - 1) as nat) as int]),
        )
    } else {
        spread(levels, keys, (n - 1) as nat).push(None)
    }
}

/// The key of each of the first `n` rows of a column, none for a null row.
pub open spec fn row_keys(keys: Seq<u32>, validity: Option<Seq<bool>>, n: nat) -> Seq<Option<nat>> {
    Seq::new(
        n,
        |i: int|
            if mask_allows(validity, i) {
                Some(keys[i] as nat)
            } else {
                None
            },
    )
}

/// Decodes the rows of a data page of a flat column: the definition levels,
/// if the column has any, then the keys of the rows that hold a value.
pub open spec fn decoded_flat_page(data: DataPage, is_optional: bool) -> Option<Seq<Option<nat>>> {
    let rows = data.num_rows as nat;
    let split = data.definition_levels_byte_length as int;
    if split > data.buffer@.len() {
        None
    } else {
        let levels = if is_optional {
            decoded_levels(data.buffer@.take(split), data.version, rows)
        } else {
            Some(Seq::new(rows, |i: int| 1nat))
        };
        match levels {
            None => None,
            Some(levels) => match decoded_key_stream(
                data.buffer@.skip(split),
                count_defined(levels, rows),
            ) {
                None => None,
                Some(keys) => Some(spread(levels, keys, rows)),
            },
        }
    }
}

/// Decodes the rows of the first `n` pages, which must be data pages of a
/// flat column.
pub open spec fn decoded_data_pages(pages: Seq<Page>, is_optional: bool, n: nat) -> Option<
    Seq<Option<nat>>,
>
    decreases n,
{
    if n == 0 {
        Some(Seq::empty())
    } else {
        match (decoded_data_pages(pages, is_optional, (n - 1) as nat), pages[n - 1]) {
            (Some(before), Page::Data(data)) => match decoded_flat_page(data, is_optional) {
                Some(rows) => Some(before + rows),
                None => None,
            },
            _ => None,
        }
    }
}

/// The keys of a page are read back from its key stream.
pub proof fn lemma_key_stream_round_trip(keys: Seq<u32>, validity: Option<Seq<bool>>)
    ensures
        decoded_key_stream(
            key_stream(keys, validity),
            valid_keys(keys, validity, keys.len()).len(),
        ) == Some(as_nats(valid_keys(keys, validity, keys.len()))),
{
    let valid = valid_keys(keys, validity, keys.len());
    let width = key_bit_width(valid);
    let stream = key_stream(keys, validity);
    lemma_keys_fit(valid);
    lemma_decoded_encoded(valid, width);
    assert(stream.skip(1) =~= encoded(valid, width));
}

/// Levels are read back from their bytes, where in the first version of the
/// format their stream is short enough for its length to fit four bytes.
pub proof fn lemma_levels_round_trip(levels: Seq<u32>, version: Version)
    requires
        all_fit(levels, 1),
        version == Version::V1 ==> encoded(levels, 1).len() < 0x1_0000_0000,
    ensures
        decoded_levels(levels_encoded(levels, version), version, levels.len()) == Some(
            as_nats(levels),
        ),
{
    let stream = encoded(levels, 1);
    lemma_decoded_encoded(levels, 1);
    if version == Version::V1 {
        let bytes = levels_encoded(levels, version);
        lemma_le_bytes_len(stream.len(), 4);
        vstd::arithmetic::power2::lemma2_to64();
        lemma_fits_below_pow2(stream.len(), 32);
        lemma_le_value_of_bytes(stream.len(), 4);
        assert(bytes.take(4) =~= le_bytes(stream.len(), 4));
        assert(bytes.skip(4) =~= stream);
    }
}

/// The definition levels of a mask all fit one bit, and count the valid rows.
pub proof fn lemma_definition_levels(validity: Option<Seq<bool>>, keys: Seq<u32>, n: nat)
    requires
        n <= keys.len(),
    ensures
        all_fit(definition_levels(validity, keys.len()), 1),
        count_defined(as_nats(definition_levels(validity, keys.len())), n) == valid_keys(
            keys,
            validity,
            n,
        ).len(),
        spread(
            as_nats(definition_levels(validity, keys.len())),
            as_nats(valid_keys(keys, validity, keys.len())),
            n,
        ) == row_keys(keys, validity, n),
    decreases n,
{
    let levels = definition_levels(validity, keys.len());
    assert forall|k: int| 0 <= k < levels.len() implies fits(#[trigger] levels[k] as nat, 1) by {
        reveal_with_fuel(fits, 2);
    }
    if n != 0 {
        lemma_definition_levels(validity, keys, (n - 1) as nat);
        lemma_valid_keys_prefix(keys, validity, n, keys.len());
        let all = valid_keys(keys, validity, keys.len());
        let upto = valid_keys(keys, validity, n);
        let c = valid_keys(keys, validity, (n - 1) as nat).len() as int;
        if mask_allows(validity, n - 1) {
            assert(all.take(upto.len() as int)[c] == all[c]);
        }
        assert(spread(
            as_nats(levels),
            as_nats(valid_keys(keys, validity, keys.len())),
            n,
        ) =~= row_keys(keys, validity, n));
    } else {
        assert(spread(
            as_nats(levels),
            as_nats(valid_keys(keys, validity, keys.len())),
            n,
        ) =~= row_keys(keys, validity, n));
    }
}

/// The valid keys below `n` start the valid keys below `m`.
pub proof fn lemma_valid_keys_prefix(keys: Seq<u32>, validity: Option<Seq<bool>>, n: nat, m: nat)
    requires
        n <= m,
    ensures
        valid_keys(keys, validity, n).len() <= valid_keys(keys, validity, m).len(),
        valid_keys(keys, validity, m).take(valid_keys(keys, validity, n).len() as int)
            == valid_keys(keys, validity, n),
    decreases m,
{
    if n < m {
        lemma_valid_keys_prefix(keys, validity, n, (m - 1) as nat);
        let short = valid_keys(keys, validity, n);
        let before = valid_keys(keys, validity, (m - 1) as nat);
        assert(valid_keys(keys, validity, m).take(short.len() as int) =~= before.take(
            short.len() as int,
        ));
    }
}

/// The greatest length in bytes of the definition levels of a page in the
/// first version of the format: a stream whose length fits four bytes, after
/// those four bytes.
pub open spec fn max_levels_len() -> nat {
    0x1_0000_0003
}

/// The rows of a flat data page are read back from the page: the key of each
/// row, and none for a null row.
///
/// This needs a column that is written with definition levels or has no null
/// row, and in the first version of the format levels that are no longer than
/// `max_levels_len`.
pub proof fn lemma_flat_page_round_trip(
    page: Page,
    keys: Seq<u32>,
    validity: Option<Seq<bool>>,
    type_: PrimitiveType,
    options: WriteOptions,
    start: int,
    end: int,
)
    requires
        is_flat_page(page, keys, validity, type_, options, start, end),
        0 <= start <= end <= keys.len(),
        validity matches Some(mask) ==> mask.len() == keys.len(),
        type_.spec_is_nullable() || forall|i: int| start <= i < end ==> mask_allows(validity, i),
        options.version == Version::V1 ==> page->Data_0.definition_levels_byte_length
            <= max_levels_len(),
    ensures
        page matches Page::Data(data) && decoded_flat_page(data, type_.spec_is_nullable()) == Some(
            row_keys(keys.subrange(start, end), mask_slice(validity, start, end), (end - start) as nat),
        ),
{
    let data = page->Data_0;
    let rows = (end - start) as nat;
    let page_keys = keys.subrange(start, end);
    let page_mask = mask_slice(validity, start, end);
    let is_optional = type_.spec_is_nullable();
    let levels = definition_levels(page_mask, rows);
    let level_bytes = def_levels(is_optional, page_mask, rows, options.version);
    let stream = key_stream(page_keys, page_mask);
    let split = level_bytes.len() as int;
    assert(data.buffer@.take(split) =~= level_bytes);
    assert(data.buffer@.skip(split) =~= stream);
    lemma_definition_levels(page_mask, page_keys, rows);
    lemma_key_stream_round_trip(page_keys, page_mask);
    if is_optional {
        if options.version == Version::V1 {
            lemma_le_bytes_len(encoded(levels, 1).len(), 4);
        }
        lemma_levels_round_trip(levels, options.version);
    } else {
        assert(as_nats(levels) =~= Seq::new(rows, |i: int| 1nat)) by {
            assert forall|i: int| 0 <= i < rows implies as_nats(levels)[i] == 1 by {
                assert(mask_allows(validity, start + i));
            }
        }
    }
}

/// Page `k` of `count` pages starts inside the rows, and the last page ends
/// with them.
pub proof fn lemma_page_bounds(rows: nat, per_page: nat, k: int)
    requires
        per_page >= 1,
        rows >= 1,
        0 <= k < page_count(rows, per_page),
    ensures
        0 <= k * per_page < rows,
        k == page_count(rows, per_page) - 1 ==> page_end(k * per_page, per_page, rows) == rows,
        k < page_count(rows, per_page) - 1 ==> page_end(k * per_page, per_page, rows) == (k + 1)
            * per_page,
{
    let x = rows + per_page - 1;
    let d = per_page as int;
    let count = page_count(rows, per_page) as int;
    lemma_fundamental_div_mod(x, d);
    assert((count - 1) * d == d * count - d) by (nonlinear_arith);
    assert(0 <= k * d <= (count - 1) * d) by (nonlinear_arith)
        requires
            0 <= k <= count - 1,
            d >= 1,
    ;
    assert((k + 1) * d == k * d + d) by (nonlinear_arith);
    if k < count - 1 {
        assert((k + 1) * d <= (count - 1) * d) by (nonlinear_arith)
            requires
                k + 1 <= count - 1,
                d >= 1,
        ;
    }
}

/// The rows of the first `n` data pages of a flat dictionary array are read
/// back from the pages.
pub proof fn lemma_flat_pages_prefix(
    pages: Seq<Page>,
    array: &DictionaryArray,
    type_: PrimitiveType,
    options: WriteOptions,
    n: nat,
)
    requires
        array.wf(),
        is_flat_pages(pages, array, type_, options),
        can_read_back(pages, array, type_, options),
        n <= pages.len(),
    ensures
        decoded_data_pages(pages, type_.spec_is_nullable(), n) == Some(
            row_keys(
                array.keys@,
                normalized_mask(array),
                if n == pages.len() {
                    array.spec_len()
                } else {
                    n * rows_per_page(
                        array.spec_len(),
                        array.values.spec_len(),
                        options.spec_page_size(),
                    )
                },
            ),
        ),
    decreases n,
{
    let rows = array.spec_len();
    let per_page = rows_per_page(rows, array.values.spec_len(), options.spec_page_size());
    let keys = array.keys@;
    let mask = normalized_mask(array);
    lemma_normalized_mask(array);
    if n == 0 {
        assert(0 * per_page == 0) by (nonlinear_arith);
        assert(row_keys(keys, mask, 0) =~= Seq::empty());
        if rows > 0 {
            lemma_fundamental_div_mod(rows + per_page - 1, per_page as int);
            let count = page_count(rows, per_page) as int;
            assert(count >= 1) by (nonlinear_arith)
                requires
                    rows + per_page - 1 == per_page * count + (rows + per_page - 1) % (
                    per_page as int),
                    (rows + per_page - 1) % (per_page as int) < per_page,
                    rows >= 1,
                    per_page >= 1,
            ;
        }
    } else {
        let k = n - 1;
        let start = k * per_page;
        let end = page_end(start, per_page, rows);
        lemma_page_bounds(rows, per_page, k);
        lemma_flat_pages_prefix(pages, array, type_, options, k as nat);
        assert(is_flat_page(pages[k], keys, mask, type_, options, start, end));
        assert forall|i: int| start <= i < end && !type_.spec_is_nullable() implies mask_allows(
            mask,
            i,
        ) by {
            assert(array.row_is_valid(i));
        }
        lemma_flat_page_round_trip(pages[k], keys, mask, type_, options, start, end);
        let before = row_keys(keys, mask, start as nat);
        let here = row_keys(
            keys.subrange(start, end),
            mask_slice(mask, start, end),
            (end - start) as nat,
        );
        assert(decoded_data_pages(pages, type_.spec_is_nullable(), k as nat) == Some(before));
        assert(decoded_flat_page(pages[k]->Data_0, type_.spec_is_nullable()) == Some(here));
        assert(decoded_data_pages(pages, type_.spec_is_nullable(), n) == Some(before + here));
        assert(before + here =~= row_keys(keys, mask, end as nat));
        assert(n == pages.len() ==> end == rows);
        assert(n != pages.len() ==> end == n * per_page);
    }
}

/// The mask of the rows of a dictionary array has a place for each row, and
/// allows exactly the rows that hold a value.
pub proof fn lemma_normalized_mask(array: &DictionaryArray)
    requires
        array.wf(),
    ensures
        normalized_mask(array) matches Some(mask) ==> mask.len() == array.spec_len(),
        forall|i: int|
            0 <= i < array.spec_len() ==> mask_allows(normalized_mask(array), i)
                == array.row_is_valid(i),
{
}

/// What reading a flat column back needs: the column is written with
/// definition levels or has no null row, and in the first version of the
/// format no page has levels longer than `max_levels_len`.
pub open spec fn can_read_back(
    pages: Seq<Page>,
    array: &DictionaryArray,
    type_: PrimitiveType,
    options: WriteOptions,
) -> bool {
    &&& type_.spec_is_nullable() || forall|i: int|
        0 <= i < array.spec_len() ==> array.row_is_valid(i)
    &&& options.version == Version::V1 ==> forall|k: int|
        0 <= k < pages.len() ==> (#[trigger] pages[k])->Data_0.definition_levels_byte_length
            <= max_levels_len()
}

/// The whole number that `pattern` stands for in `size` bytes of two's
/// complement, in a column of type `dtype`: negative only where the type holds
/// negative numbers.
pub open spec fn unwrapped(pattern: nat, dtype: DataType, size: nat) -> int {
    if size == 4 {
        if dtype.least() < 0 && pattern >= 0x8000_0000 {
            pattern - 0x1_0000_0000
        } else {
            pattern as int
        }
    } else {
        if dtype.least() < 0 && pattern >= 0x8000_0000_0000_0000 {
            pattern - 0x1_0000_0000_0000_0000
        } else {
            pattern as int
        }
    }
}

/// Decodes `n` numbers of `size` bytes each.
pub open spec fn decoded_integers(bytes: Seq<u8>, dtype: DataType, size: nat, n: nat) -> Option<
    Seq<Value>,
> {
    if bytes.len() != size * n {
        None
    } else {
        Some(
            Seq::new(
                n,
                |k: int|
                    Value::Integer(
                        unwrapped(le_value(bytes.subrange(size * k, size * k + size)), dtype, size),
                    ),
            ),
        )
    }
}

/// Decodes `n` binary values of `size` bytes each.
pub open spec fn decoded_fixed(bytes: Seq<u8>, size: nat, n: nat) -> Option<Seq<Value>> {
    if bytes.len() != size * n {
        None
    } else {
        Some(Seq::new(n, |k: int| Value::Bytes(bytes.subrange(size * k, size * k + size))))
    }
}

/// Decodes `n` binary values, each after its length in four bytes.
pub open spec fn decoded_binary(bytes: Seq<u8>, n: nat) -> Option<Seq<Value>>
    decreases n,
{
    if n == 0 {
        if bytes.len() == 0 {
            Some(Seq::empty())
        } else {
            None
        }
    } else if bytes.len() < 4 || bytes.len() < 4 + le_value(bytes.take(4)) {
        None
    } else {
        let len = le_value(bytes.take(4));
        match decoded_binary(bytes.skip((4 + len) as int), (n - 1) as nat) {
            Some(rest) => Some(seq![Value::Bytes(bytes.subrange(4, (4 + len) as int))] + rest),
            None => None,
        }
    }
}

/// Decodes the `n` values of a dictionary page of a column of type `dtype`.
pub open spec fn decoded_values(bytes: Seq<u8>, dtype: DataType, n: nat) -> Option<Seq<Value>> {
    match spec_plain_form(dtype) {
        Some(PlainForm::Integer(size)) => decoded_integers(bytes, dtype, size as nat, n),
        Some(PlainForm::Binary) => decoded_binary(bytes, n),
        Some(PlainForm::FixedSizeBinary) => match dtype {
            DataType::FixedSizeBinary(size) => decoded_fixed(bytes, size as nat, n),
            _ => None,
        },
        None => None,
    }
}

/// Every key that stands in the rows names one of `n` values.
pub open spec fn keys_below(rows: Seq<Option<nat>>, n: nat) -> bool {
    forall|i: int| 0 <= i < rows.len() ==> (#[trigger] rows[i] matches Some(key) ==> key < n)
}

/// Decodes the pages of a flat column chunk: the values of the dictionary
/// page, the keys of the data pages, and from both the value of each row, none
/// for a null row.
pub open spec fn decoded_column(pages: Seq<Page>, dtype: DataType, is_optional: bool) -> Option<
    Seq<Option<Value>>,
> {
    if pages.len() == 0 {
        None
    } else {
        match pages[0] {
            Page::Dict(dict) => match (
                decoded_values(dict.buffer@, dtype, dict.num_values as nat),
                decoded_data_pages(
                    pages.subrange(1, pages.len() as int),
                    is_optional,
                    (pages.len() - 1) as nat,
                ),
            ) {
                (Some(values), Some(rows)) => if keys_below(rows, values.len()) {
                    Some(
                        Seq::new(
                            rows.len(),
                            |i: int|
                                match rows[i] {
                                    Some(key) => Some(values[key as int]),
                                    None => None,
                                },
                        ),
                    )
                } else {
                    None
                },
                _ => None,
            },
            _ => None,
        }
    }
}

/// A number of a column is read back from its plain form.
pub proof fn lemma_plain_integer_round_trip(v: int, dtype: DataType, size: nat)
    requires
        spec_plain_form(dtype) == Some(PlainForm::Integer(size as usize)),
        size == 4 || size == 8,
        dtype.least() <= v <= dtype.greatest(),
    ensures
        plain_integer(v, size).len() == size,
        unwrapped(le_value(plain_integer(v, size)), dtype, size) == v,
{
    let pattern = wrapped(v, size);
    vstd::arithmetic::power2::lemma2_to64();
    vstd::arithmetic::power2::lemma2_to64_rest();
    lemma_fits_below_pow2(pattern, 8 * size);
    lemma_le_value_of_bytes(pattern, size);
    lemma_le_bytes_len(pattern, size);
}

/// The plain form of `n` numbers is `size` bytes a number, and holds number
/// `k` at `size * k`.
pub proof fn lemma_plain_integers_at(values: Seq<i128>, size: nat, n: nat, k: int)
    requires
        0 <= k < n,
        size == 4 || size == 8,
    ensures
        plain_integers(values, size, n).len() == size * n,
        plain_integers(values, size, n).subrange(size * k, size * k + size) == plain_integer(
            values[k] as int,
            size,
        ),
    decreases n,
{
    let all = plain_integers(values, size, n);
    let before = plain_integers(values, size, (n - 1) as nat);
    lemma_le_bytes_len(wrapped(values[n - 1] as int, size), size);
    lemma_plain_integers_len(values, size, (n - 1) as nat);
    assert(size * n == size * (n - 1) + size) by (nonlinear_arith);
    if k < n - 1 {
        lemma_plain_integers_at(values, size, (n - 1) as nat, k);
        assert(size * k + size <= size * (n - 1)) by (nonlinear_arith)
            requires
                0 <= k < n - 1,
                size >= 0,
        ;
        assert(all.subrange(size * k, size * k + size) =~= before.subrange(
            size * k,
            size * k + size,
        ));
    }
}

/// The plain form of `n` numbers is `size` bytes a number.
pub proof fn lemma_plain_integers_len(values: Seq<i128>, size: nat, n: nat)
    ensures
        plain_integers(values, size, n).len() == size * n,
    decreases n,
{
    if n != 0 {
        lemma_plain_integers_len(values, size, (n - 1) as nat);
        lemma_le_bytes_len(wrapped(values[n - 1] as int, size), size);
        assert(size * n == size * (n - 1) + size) by (nonlinear_arith);
    } else {
        assert(size * 0 == 0) by (nonlinear_arith);
    }
}

/// The plain form of `n` binary values of `size` bytes each holds value `k`
/// at `size * k`.
pub proof fn lemma_plain_fixed_at(values: Seq<Seq<u8>>, size: nat, n: nat, k: int)
    requires
        0 <= k < n <= values.len(),
        forall|i: int| 0 <= i < values.len() ==> (#[trigger] values[i]).len() == size,
    ensures
        plain_fixed(values, n).len() == size * n,
        plain_fixed(values, n).subrange(size * k, size * k + size) == values[k],
    decreases n,
{
    let all = plain_fixed(values, n);
    let before = plain_fixed(values, (n - 1) as nat);
    lemma_plain_fixed_len(values, size, (n - 1) as nat);
    assert(size * n == size * (n - 1) + size) by (nonlinear_arith);
    if k < n - 1 {
        lemma_plain_fixed_at(values, size, (n - 1) as nat, k);
        assert(size * k + size <= size * (n - 1)) by (nonlinear_arith)
            requires
                0 <= k < n - 1,
                size >= 0,
        ;
        assert(all.subrange(size * k, size * k + size) =~= before.subrange(
            size * k,
            size * k + size,
        ));
    }
}

/// The plain form of `n` binary values of `size` bytes each is `size * n`
/// bytes long.
pub proof fn lemma_plain_fixed_len(values: Seq<Seq<u8>>, size: nat, n: nat)
    requires
        n <= values.len(),
        forall|i: int| 0 <= i < values.len() ==> (#[trigger] values[i]).len() == size,
    ensures
        plain_fixed(values, n).len() == size * n,
    decreases n,
{
    if n != 0 {
        lemma_plain_fixed_len(values, size, (n - 1) as nat);
        assert(size * n == size * (n - 1) + size) by (nonlinear_arith);
    } else {
        assert(size * 0 == 0) by (nonlinear_arith);
    }
}

/// The plain form of binary values starts with the first value, and goes on
/// with the plain form of the others.
pub proof fn lemma_plain_binary_first(values: Seq<Seq<u8>>, n: nat)
    requires
        1 <= n <= values.len(),
    ensures
        plain_binary(values, n) == le_bytes(values[0].len(), 4) + values[0] + plain_binary(
            values.skip(1),
            (n - 1) as nat,
        ),
    decreases n,
{
    let rest = values.skip(1);
    if n == 1 {
        assert(plain_binary(values, 0) =~= Seq::empty());
        assert(plain_binary(values, 1) =~= le_bytes(values[0].len(), 4) + values[0] + plain_binary(
            rest,
            0,
        ));
    } else {
        lemma_plain_binary_first(values, (n - 1) as nat);
        assert(plain_binary(values, n) =~= le_bytes(values[0].len(), 4) + values[0]
            + plain_binary(rest, (n - 1) as nat));
    }
}

/// Binary values that are shorter than four bytes can count are read back
/// from their plain form.
pub proof fn lemma_plain_binary_round_trip(values: Seq<Seq<u8>>, n: nat)
    requires
        n <= values.len(),
        forall|i: int| 0 <= i < values.len() ==> (#[trigger] values[i]).len() < 0x1_0000_0000,
    ensures
        decoded_binary(plain_binary(values, n), n) == Some(
            Seq::new(n, |k: int| Value::Bytes(values[k])),
        ),
    decreases n,
{
    let want = Seq::new(n, |k: int| Value::Bytes(values[k]));
    if n == 0 {
    } else {
        let rest = values.skip(1);
        let first = values[0];
        let bytes = plain_binary(values, n);
        let tail = plain_binary(rest, (n - 1) as nat);
        lemma_plain_binary_first(values, n);
        assert forall|i: int| 0 <= i < rest.len() implies (#[trigger] rest[i]).len()
            < 0x1_0000_0000 by {
        }
        lemma_plain_binary_round_trip(rest, (n - 1) as nat);
        lemma_le_bytes_len(first.len(), 4);
        vstd::arithmetic::power2::lemma2_to64();
        lemma_fits_below_pow2(first.len(), 32);
        lemma_le_value_of_bytes(first.len(), 4);
        assert(bytes.take(4) =~= le_bytes(first.len(), 4));
        assert(bytes.subrange(4, (4 + first.len()) as int) =~= first);
        assert(bytes.skip((4 + first.len()) as int) =~= tail);
        assert(seq![Value::Bytes(first)] + Seq::new((n - 1) as nat, |k: int| Value::Bytes(rest[k]))
            =~= want);
    }
}

/// The values of a dictionary page are read back from its bytes.
pub proof fn lemma_values_round_trip(values: &TypedArray)
    requires
        values.wf(),
        spec_plain_form(values.dtype) is Some,
    ensures
        decoded_values(plain_values(values), values.dtype, values.spec_len()) == Some(
            Seq::new(values.spec_len(), |k: int| values.values.value(k)),
        ),
{
    let n = values.spec_len();
    let want = Seq::new(n, |k: int| values.values.value(k));
    let bytes = plain_values(values);
    match spec_plain_form(values.dtype) {
        Some(PlainForm::Integer(size)) => {
            let numbers = values.values.integers();
            lemma_plain_integers_len(numbers, size as nat, n);
            let got = decoded_integers(bytes, values.dtype, size as nat, n)->0;
            assert forall|k: int| 0 <= k < n implies got[k] == want[k] by {
                lemma_plain_integers_at(numbers, size as nat, n, k);
                lemma_plain_integer_round_trip(numbers[k] as int, values.dtype, size as nat);
            }
        },
        Some(PlainForm::Binary) => {
            let all = values.values.bytes();
            assert forall|i: int| 0 <= i < all.len() implies (#[trigger] all[i]).len()
                < 0x1_0000_0000 by {
            }
            lemma_plain_binary_round_trip(all, n);
        },
        Some(PlainForm::FixedSizeBinary) => {
            let all = values.values.bytes();
            let size = values.dtype->FixedSizeBinary_0 as nat;
            assert forall|i: int| 0 <= i < all.len() implies (#[trigger] all[i]).len() == size by {
            }
            lemma_plain_fixed_len(all, size, n);
            let got = decoded_fixed(bytes, size, n)->0;
            assert forall|k: int| 0 <= k < n implies got[k] == want[k] by {
                lemma_plain_fixed_at(all, size, n, k);
            }
        },
        None => {},
    }
}

/// Round trip: decoding the dictionary page and the data pages of a flat
/// column gives back the value of each row of the array, and the null rows.
///
/// It holds of a column that is written with definition levels or has no null
/// row, and of pages whose levels are no longer than `max_levels_len` in the
/// first version of the format.
pub proof fn lemma_round_trip(
    pages: Seq<Page>,
    array: &DictionaryArray,
    type_: PrimitiveType,
    nested: Seq<Nested>,
    levels: &EncodedLevels,
    options: WriteOptions,
)
    requires
        array.wf(),
        nested.len() == 1,
        is_dictionary_pages(pages, array, type_, nested, levels, options),
        spec_plain_form(array.values.dtype) is Some,
        can_read_back(pages.subrange(1, pages.len() as int), array, type_, options),
    ensures
        decoded_column(pages, array.values.dtype, type_.spec_is_nullable()) == Some(
            Seq::new(array.spec_len(), |i: int| array.logical(i)),
        ),
{
    let data_pages = pages.subrange(1, pages.len() as int);
    let want = Seq::new(array.spec_len(), |i: int| array.logical(i));
    let values = Seq::new(array.values.spec_len(), |k: int| array.values.values.value(k));
    let rows = row_keys(array.keys@, normalized_mask(array), array.spec_len());
    lemma_values_round_trip(&array.values);
    lemma_flat_pages_prefix(data_pages, array, type_, options, data_pages.len());
    lemma_normalized_mask(array);
    assert forall|i: int| 0 <= i < rows.len() implies (#[trigger] rows[i] matches Some(key) ==> key
        < values.len()) by {
    }
    let got = decoded_column(pages, array.values.dtype, type_.spec_is_nullable())->0;
    assert forall|i: int| 0 <= i < rows.len() implies got[i] == want[i] by {
    }
}

/// Round trip from the column: decoding the pages of the dictionary array
/// that is chosen for a flat column gives back the value of each row of the
/// column, and its null rows.
pub proof fn lemma_column_round_trip(
    pages: Seq<Page>,
    array: &TypedArray,
    d: &DictionaryArray,
    type_: PrimitiveType,
    nested: Seq<Nested>,
    levels: &EncodedLevels,
    options: WriteOptions,
)
    requires
        array.wf(),
        nested.len() == 1,
        is_selected(array, d),
        is_dictionary_pages(pages, d, type_, nested, levels, options),
        spec_plain_form(array.dtype) is Some,
        can_read_back(pages.subrange(1, pages.len() as int), d, type_, options),
    ensures
        decoded_column(pages, array.dtype, type_.spec_is_nullable()) == Some(
            Seq::new(array.spec_len(), |i: int| array.logical(i)),
        ),
{
    lemma_selected_is_column(array, d);
    lemma_round_trip(pages, d, type_, nested, levels, options);
    assert(Seq::new(d.spec_len(), |i: int| d.logical(i)) =~= Seq::new(
        array.spec_len(),
        |i: int| array.logical(i),
    ));
}

} // verus!
