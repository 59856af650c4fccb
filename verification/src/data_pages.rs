//! The data pages of a dictionary array: how the rows of a flat column are
//! cut into pages, and what each page holds.

use crate::bits::{bit_width, get_bit_width};
use crate::keys::{key_stream, normalized_validity, serialize_keys_values};
use crate::levels::{def_levels, write_def_levels};
use crate::nested::{all_levels_wf, all_wf, leaf_span, slice_nested_leaf, EncodedLevels, Nested};
use crate::page::{
    build_plain_page, is_nullable, statistics_view, Encoding, Page, PrimitiveType, Statistics,
    WriteOptions,
};
use crate::types::{count_nulls, mask_view, null_count_of, DictionaryArray};
use crate::vectors::{append_all, copy_range};
use vstd::arithmetic::div_mod::lemma_fundamental_div_mod_converse;
use vstd::prelude::*;

verus! {

/// The part of the mask for the rows from `start` to `end`.
pub open spec fn mask_slice(validity: Option<Seq<bool>>, start: int, end: int) -> Option<
    Seq<bool>,
> {
    match validity {
        Some(mask) => Some(mask.subrange(start, end)),
        None => None,
    }
}

/// The mask of the rows of a dictionary array: that of the keys where the
/// values have none, else row by row whether the row holds a value.
pub open spec fn normalized_mask(array: &DictionaryArray) -> Option<Seq<bool>> {
    match array.values.validity {
        None => mask_view(array.validity),
        Some(_) => Some(Seq::new(array.spec_len(), |i: int| array.row_is_valid(i))),
    }
}

/// The bits that a key is taken to need in a dictionary of `dict_len` values:
/// one more than the bits that tell so many values apart.
pub open spec fn estimated_bits_per_value(dict_len: nat) -> nat {
    if dict_len == 0 {
        1
    } else {
        bit_width((dict_len - 1) as nat) + 1
    }
}

/// The bytes that `rows` keys of `bits` bits are taken to need.
pub open spec fn estimated_byte_size(bits: nat, rows: nat) -> nat {
    (bits * rows + 7) / 8
}

/// The number of rows a page: as many as fit the page size at the estimated
/// size of a row, but at least one and at most all.
pub open spec fn values_per_page(rows: nat, byte_size: nat, page_size: nat) -> nat {
    if rows == 0 || byte_size == 0 {
        1
    } else {
        let fit = (page_size * rows) / byte_size;
        if fit < 1 {
            1
        } else if fit > rows {
            rows
        } else {
            fit
        }
    }
}

/// The number of rows a page of a flat dictionary array of `rows` rows over
/// `dict_len` values.
pub open spec fn rows_per_page(rows: nat, dict_len: nat, page_size: nat) -> nat {
    values_per_page(
        rows,
        estimated_byte_size(estimated_bits_per_value(dict_len), rows),
        page_size,
    )
}

/// The number of pages that `rows` rows fill at `per_page` rows a page.
pub open spec fn page_count(rows: nat, per_page: nat) -> nat {
    if per_page == 0 {
        0
    } else {
        ((rows + per_page - 1) / (per_page as int)) as nat
    }
}

/// Where a page that starts at `start` ends.
pub open spec fn page_end(start: int, per_page: nat, rows: nat) -> int {
    if start + per_page <= rows {
        start + per_page
    } else {
        rows as int
    }
}

/// `page` is the data page of the rows from `start` to `end` of a flat column
/// with the given keys and mask: its bytes are the definition levels of the
/// rows, then their keys; it has no statistics.
pub open spec fn is_flat_page(
    page: Page,
    keys: Seq<u32>,
    validity: Option<Seq<bool>>,
    type_: PrimitiveType,
    options: WriteOptions,
    start: int,
    end: int,
) -> bool {
    let rows = (end - start) as nat;
    let page_keys = keys.subrange(start, end);
    let page_mask = mask_slice(validity, start, end);
    let levels = def_levels(type_.spec_is_nullable(), page_mask, rows, options.version);
    &&& page matches Page::Data(data)
    &&& data.buffer@ == levels + key_stream(page_keys, page_mask)
    &&& data.num_values == rows
    &&& data.num_rows == rows
    &&& data.null_count == count_nulls(page_mask, rows)
    &&& data.repetition_levels_byte_length == 0
    &&& data.definition_levels_byte_length == levels.len()
    &&& data.statistics is None
    &&& data.primitive_type == type_
    &&& data.version == options.version
    &&& data.compression == options.compression
    &&& data.encoding == Encoding::RleDictionary
}

/// `pages` are the data pages of a flat dictionary array: none for an array
/// without rows; else page `k` holds the rows from `k` times the rows a page on.
pub open spec fn is_flat_pages(
    pages: Seq<Page>,
    array: &DictionaryArray,
    type_: PrimitiveType,
    options: WriteOptions,
) -> bool {
    let rows = array.spec_len();
    let per_page = rows_per_page(rows, array.values.spec_len(), options.spec_page_size());
    &&& pages.len() == if rows == 0 {
        0
    } else {
        page_count(rows, per_page)
    }
    &&& forall|k: int|
        0 <= k < pages.len() ==> is_flat_page(
            #[trigger] pages[k],
            array.keys@,
            normalized_mask(array),
            type_,
            options,
            k * per_page,
            page_end(k * per_page, per_page, rows),
        )
}

/// The number of rows a page: as many as fit `data_page_size` (or the default
/// size) at the estimated size of a row, but at least one and at most all.
pub fn estimated_byte_size_to_values_per_page(
    number_of_values: usize,
    estimated_byte_size: u128,
    data_page_size: Option<usize>,
) -> (per_page: usize)
    ensures
        per_page == values_per_page(
            number_of_values as nat,
            estimated_byte_size as nat,
            match data_page_size {
                Some(size) => size as nat,
                None => crate::page::DEFAULT_PAGE_SIZE as nat,
            },
        ),
        1 <= per_page,
        number_of_values > 0 ==> per_page <= number_of_values,
{
    if number_of_values == 0 || estimated_byte_size == 0 {
        return 1;
    }
    let page_size: usize = match data_page_size {
        Some(size) => size,
        None => crate::page::DEFAULT_PAGE_SIZE,
    };
    assert(page_size * number_of_values <= 0xffff_ffff_ffff_ffff * 0xffff_ffff_ffff_ffff)
        by (nonlinear_arith)
        requires
            page_size <= 0xffff_ffff_ffff_ffff,
            number_of_values <= 0xffff_ffff_ffff_ffff,
    ;
    let fit: u128 = (page_size as u128 * number_of_values as u128) / estimated_byte_size;
    if fit < 1 {
        1
    } else if fit > number_of_values as u128 {
        number_of_values
    } else {
        fit as usize
    }
}

/// A copy of the mask for the rows from `start` to `end`.
fn slice_mask(validity: &Option<Vec<bool>>, start: usize, end: usize) -> (slice: Option<Vec<bool>>)
    requires
        validity matches Some(mask) ==> start <= end <= mask@.len(),
    ensures
        mask_view(slice) == mask_slice(mask_view(*validity), start as int, end as int),
{
    match validity {
        None => None,
        Some(mask) => Some(copy_range(mask, start, end)),
    }
}

/// Appends the definition levels of the `length` rows of a flat page.
pub fn serialize_def_levels_simple(
    validity: &Option<Vec<bool>>,
    length: usize,
    is_optional: bool,
    options: WriteOptions,
    buffer: &mut Vec<u8>,
)
    requires
        validity matches Some(mask) ==> mask@.len() == length,
    ensures
        final(buffer)@ == old(buffer)@ + def_levels(
            is_optional,
            mask_view(*validity),
            length as nat,
            options.version,
        ),
{
    write_def_levels(buffer, is_optional, validity, length, options.version)
}

/// The levels of a page as the page holds them: for a flat column (one level
/// of nesting) its definition levels; for a nested column the levels that were
/// encoded for it, repetition before definition.
pub open spec fn page_levels(
    validity: Option<Seq<bool>>,
    length: nat,
    type_: &PrimitiveType,
    nested_len: nat,
    levels: &EncodedLevels,
    options: WriteOptions,
) -> Seq<u8> {
    if nested_len == 1 {
        def_levels(type_.spec_is_nullable(), validity, length, options.version)
    } else {
        levels.repetition@ + levels.definition@
    }
}

/// Appends the levels of a page, and gives the byte lengths of the
/// repetition and of the definition levels.
///
/// For a flat column the definition levels are taken to be all that the
/// buffer holds.
pub fn serialize_levels(
    validity: &Option<Vec<bool>>,
    length: usize,
    type_: &PrimitiveType,
    nested: &Vec<Nested>,
    levels: &EncodedLevels,
    options: WriteOptions,
    buffer: &mut Vec<u8>,
) -> (lengths: (usize, usize))
    requires
        validity matches Some(mask) ==> mask@.len() == length,
    ensures
        final(buffer)@ == old(buffer)@ + page_levels(
            mask_view(*validity),
            length as nat,
            type_,
            nested@.len(),
            levels,
            options,
        ),
        lengths.0 == if nested@.len() == 1 {
            0
        } else {
            levels.repetition@.len()
        },
        lengths.1 == if nested@.len() == 1 {
            final(buffer)@.len()
        } else {
            levels.definition@.len()
        },
{
    if nested.len() == 1 {
        let is_optional = is_nullable(type_);
        serialize_def_levels_simple(validity, length, is_optional, options, buffer);
        let definition_levels_byte_length = buffer.len();
        (0, definition_levels_byte_length)
    } else {
        append_all(buffer, &levels.repetition);
        append_all(buffer, &levels.definition);
        (levels.repetition.len(), levels.definition.len())
    }
}

/// The data pages of a flat dictionary array.
///
/// The rows are cut into pages of `rows_per_page` rows, the last page taking
/// what is left; an array without rows has no page. Each page holds the
/// definition levels of its rows and the keys of its valid rows, written with
/// the bit width of the greatest of them. No page has statistics: those of the
/// column chunk stand with the dictionary page.
pub fn serialize_keys_flat(
    array: &DictionaryArray,
    type_: PrimitiveType,
    _statistics: Option<Statistics>,
    options: WriteOptions,
) -> (pages: Vec<Page>)
    requires
        array.wf(),
    ensures
        is_flat_pages(pages@, array, type_, options),
{
    let validity = normalized_validity(array);
    let rows = array.len();
    let mut pages: Vec<Page> = Vec::new();
    if rows == 0 {
        return pages;
    }
    let dict_len = array.values.len();
    let bits: u32 = if dict_len == 0 {
        1
    } else {
        get_bit_width((dict_len - 1) as u64) + 1
    };
    assert(bits * rows <= 65 * 0xffff_ffff_ffff_ffff) by (nonlinear_arith)
        requires
            bits <= 65,
            rows <= 0xffff_ffff_ffff_ffff,
    ;
    let byte_size: u128 = (bits as u128 * rows as u128 + 7) / 8;
    let per_page = estimated_byte_size_to_values_per_page(rows, byte_size, options.data_page_size);
    let mut start: usize = 0;
    assert(0 * per_page == 0);
    while start < rows
        invariant
            array.wf(),
            rows == array.spec_len(),
            1 <= per_page <= rows,
            start <= rows,
            mask_view(validity) == normalized_mask(array),
            validity matches Some(mask) ==> mask@.len() == rows,
            start == rows || start == pages@.len() * per_page,
            start == rows ==> (pages@.len() - 1) * per_page < rows <= pages@.len() * per_page,
            forall|k: int|
                0 <= k < pages@.len() ==> is_flat_page(
                    #[trigger] pages@[k],
                    array.keys@,
                    normalized_mask(array),
                    type_,
                    options,
                    k * per_page,
                    page_end(k * per_page, per_page as nat, rows as nat),
                ),
        decreases rows - start,
    {
        let num_page_rows = if per_page < rows - start {
            per_page
        } else {
            rows - start
        };
        let end = start + num_page_rows;
        let page_keys = copy_range(&array.keys, start, end);
        let page_validity = slice_mask(&validity, start, end);
        let mut buffer: Vec<u8> = Vec::new();
        let is_optional = is_nullable(&type_);
        serialize_def_levels_simple(&page_validity, num_page_rows, is_optional, options, &mut buffer);
        let definition_levels_byte_length = buffer.len();
        serialize_keys_values(&page_keys, &page_validity, &mut buffer);
        let page = build_plain_page(
            buffer,
            num_page_rows,
            num_page_rows,
            null_count_of(&page_validity, num_page_rows),
            0,
            definition_levels_byte_length,
            None,
            type_.duplicate(),
            options,
            Encoding::RleDictionary,
        );
        let ghost done = pages@;
        pages.push(Page::Data(page));
        proof {
            let k = done.len() as int;
            assert((k + 1) * per_page == k * per_page + per_page) by (nonlinear_arith);
            assert(is_flat_page(
                pages@[k],
                array.keys@,
                normalized_mask(array),
                type_,
                options,
                k * per_page,
                end as int,
            ));
            assert forall|j: int| 0 <= j < pages@.len() implies is_flat_page(
                #[trigger] pages@[j],
                array.keys@,
                normalized_mask(array),
                type_,
                options,
                j * per_page,
                page_end(j * per_page, per_page as nat, rows as nat),
            ) by {
            }
        }
        start = end;
    }
    proof {
        let k = pages@.len() as int;
        let r = rows - 1 - (k - 1) * per_page;
        assert(rows + per_page - 1 == k * per_page + r) by (nonlinear_arith)
            requires
                r == rows - 1 - (k - 1) * per_page,
        ;
        lemma_fundamental_div_mod_converse(rows + per_page - 1, per_page as int, k, r);
    }
    pages
}

/// Whether a nested column of `rows` leaf values can be written: there is a
/// level, every level is well formed, the last is the leaf, and the leaf span
/// lies inside the values.
pub open spec fn nested_fits(nested: Seq<Nested>, rows: nat) -> bool {
    &&& nested.len() >= 1
    &&& all_wf(nested)
    &&& nested[nested.len() - 1] is Primitive
    &&& leaf_span(nested).0 + leaf_span(nested).1 <= rows
}

/// Whether a nested column of `rows` leaf values can be written.
pub fn check_nested(nested: &Vec<Nested>, rows: usize) -> (ok: bool)
    ensures
        ok == nested_fits(nested@, rows as nat),
{
    if nested.len() == 0 || !all_levels_wf(nested) {
        return false;
    }
    match &nested[nested.len() - 1] {
        Nested::Primitive { .. } => {},
        _ => {
            return false;
        },
    }
    let (start, len) = slice_nested_leaf(nested);
    start as u128 + len as u128 <= rows as u128
}

/// `page` is the one data page of a nested dictionary array: its bytes are
/// the levels, then the keys of the valid rows of the leaf span; it counts the
/// null keys of the span, and carries the statistics.
pub open spec fn is_nested_page(
    page: Page,
    array: &DictionaryArray,
    type_: PrimitiveType,
    nested: Seq<Nested>,
    levels: &EncodedLevels,
    statistics: Option<Statistics>,
    options: WriteOptions,
) -> bool {
    let start = leaf_span(nested).0;
    let len = leaf_span(nested).1 as nat;
    let page_keys = array.keys@.subrange(start, start + len);
    let page_mask = mask_slice(normalized_mask(array), start, start + len);
    let level_bytes = page_levels(page_mask, len, &type_, nested.len(), levels, options);
    &&& page matches Page::Data(data)
    &&& data.buffer@ == level_bytes + key_stream(page_keys, page_mask)
    &&& data.num_values == len
    &&& data.num_rows == nested[0].spec_len()
    &&& data.null_count == count_nulls(
        mask_slice(mask_view(array.validity), start, start + len),
        len,
    )
    &&& data.repetition_levels_byte_length == if nested.len() == 1 {
        0
    } else {
        levels.repetition@.len()
    }
    &&& data.definition_levels_byte_length == if nested.len() == 1 {
        level_bytes.len()
    } else {
        levels.definition@.len()
    }
    &&& statistics_view(data.statistics) == statistics_view(statistics)
    &&& data.primitive_type == type_
    &&& data.version == options.version
    &&& data.compression == options.compression
    &&& data.encoding == Encoding::RleDictionary
}

/// The data page of a nested dictionary array: one page, not cut.
///
/// The array is cut to the span of leaf values that the nesting covers. The
/// page holds `levels`, which are the levels of the column with its leaf cut to
/// that span (`with_leaf_length`), and then the keys of the valid rows.
pub fn serialize_keys_nested(
    array: &DictionaryArray,
    type_: PrimitiveType,
    nested: &Vec<Nested>,
    levels: &EncodedLevels,
    statistics: Option<Statistics>,
    options: WriteOptions,
) -> (pages: Vec<Page>)
    requires
        array.wf(),
        nested_fits(nested@, array.spec_len()),
    ensures
        pages@.len() == 1,
        is_nested_page(pages@[0], array, type_, nested@, levels, statistics, options),
{
    let mut buffer: Vec<u8> = Vec::new();
    let (start, len) = slice_nested_leaf(nested);
    let rows = array.len();
    assert(start + len <= rows);
    let end = start + len;
    let validity = normalized_validity(array);
    proof {
        if array.values.validity is Some {
            assert(validity->0@ =~= Seq::new(array.spec_len(), |i: int| array.row_is_valid(i)));
        }
    }
    let page_keys = copy_range(&array.keys, start, end);
    let page_validity = slice_mask(&validity, start, end);
    let (repetition_levels_byte_length, definition_levels_byte_length) = serialize_levels(
        &page_validity,
        len,
        &type_,
        nested,
        levels,
        options,
        &mut buffer,
    );
    let ghost level_bytes = buffer@;
    proof {
        assert(level_bytes =~= page_levels(
            mask_view(page_validity),
            len as nat,
            &type_,
            nested@.len(),
            levels,
            options,
        ));
    }
    serialize_keys_values(&page_keys, &page_validity, &mut buffer);
    let num_values = len;
    let num_rows = nested[0].len();
    let key_validity = slice_mask(&array.validity, start, end);
    let page = build_plain_page(
        buffer,
        num_values,
        num_rows,
        null_count_of(&key_validity, len),
        repetition_levels_byte_length,
        definition_levels_byte_length,
        statistics,
        type_,
        options,
        Encoding::RleDictionary,
    );
    let mut pages: Vec<Page> = Vec::new();
    pages.push(Page::Data(page));
    pages
}

/// `pages` are the data pages of a dictionary array: those of a flat column
/// where the nesting has one level, else the one page of a nested column.
pub open spec fn is_data_pages(
    pages: Seq<Page>,
    array: &DictionaryArray,
    type_: PrimitiveType,
    nested: Seq<Nested>,
    levels: &EncodedLevels,
    statistics: Option<Statistics>,
    options: WriteOptions,
) -> bool {
    if nested.len() == 1 {
        is_flat_pages(pages, array, type_, options)
    } else {
        pages.len() == 1 && is_nested_page(
            pages[0],
            array,
            type_,
            nested,
            levels,
            statistics,
            options,
        )
    }
}

/// The data pages of a dictionary array: a flat column, which has one level
/// of nesting, is cut into pages; a nested column is one page.
pub fn serialize_keys(
    array: &DictionaryArray,
    type_: PrimitiveType,
    nested: &Vec<Nested>,
    levels: &EncodedLevels,
    statistics: Option<Statistics>,
    options: WriteOptions,
) -> (pages: Vec<Page>)
    requires
        array.wf(),
        nested@.len() != 1 ==> nested_fits(nested@, array.spec_len()),
    ensures
        is_data_pages(pages@, array, type_, nested@, levels, statistics, options),
{
    if nested.len() == 1 {
        serialize_keys_flat(array, type_, statistics, options)
    } else {
        serialize_keys_nested(array, type_, nested, levels, statistics, options)
    }
}

} // verus!
