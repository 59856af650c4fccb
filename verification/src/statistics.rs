//! The statistics of a column chunk, computed over the distinct values of its
//! dictionary: the least and the greatest value, and the number of nulls.
//!
//! Numbers are compared as numbers, binary values byte by byte. The bounds of
//! floating-point values are not computed here: their order is not that of
//! their bit patterns.

use crate::kernels::min_max_ignore_nulls;
use crate::occurrence::{any_valid_below, occurs_below, valid_min_max};
use crate::page::{bytes_of, Statistics, StatisticsOptions};
use crate::plain::{plain_integer, spec_plain_form, write_plain_integer, PlainForm};
use crate::types::{is_valid_at, mask_allows, mask_view, ArrayValues, DataType, TypedArray};
use crate::vectors::copy_all;
use vstd::prelude::*;

verus! {

/// `a` comes before `b` byte by byte, a prefix before what it starts.
pub open spec fn lex_less(a: Seq<u8>, b: Seq<u8>) -> bool
    decreases a.len(),
{
    if b.len() == 0 {
        false
    } else if a.len() == 0 {
        true
    } else if a[0] != b[0] {
        a[0] < b[0]
    } else {
        lex_less(a.skip(1), b.skip(1))
    }
}

/// The least binary value at a valid place below `n`, if there is a valid place.
pub open spec fn least_bytes(values: Seq<Seq<u8>>, validity: Option<Seq<bool>>, n: nat) -> Option<
    Seq<u8>,
>
    decreases n,
{
    if n == 0 {
        None
    } else {
        let before = least_bytes(values, validity, (n - 1) as nat);
        if !mask_allows(validity, n - 1) {
            before
        } else {
            match before {
                Some(m) if !lex_less(values[n - 1], m) => Some(m),
                _ => Some(values[n - 1]),
            }
        }
    }
}

/// The greatest binary value at a valid place below `n`, if there is a valid
/// place.
pub open spec fn greatest_bytes(values: Seq<Seq<u8>>, validity: Option<Seq<bool>>, n: nat) -> Option<
    Seq<u8>,
>
    decreases n,
{
    if n == 0 {
        None
    } else {
        let before = greatest_bytes(values, validity, (n - 1) as nat);
        if !mask_allows(validity, n - 1) {
            before
        } else {
            match before {
                Some(m) if !lex_less(m, values[n - 1]) => Some(m),
                _ => Some(values[n - 1]),
            }
        }
    }
}

/// No binary value comes before itself.
pub proof fn lemma_lex_irreflexive(a: Seq<u8>)
    ensures
        !lex_less(a, a),
    decreases a.len(),
{
    if a.len() != 0 {
        lemma_lex_irreflexive(a.skip(1));
    }
}

/// What comes before a value comes before all that the value comes before.
pub proof fn lemma_lex_transitive(a: Seq<u8>, b: Seq<u8>, c: Seq<u8>)
    requires
        lex_less(a, b),
        lex_less(b, c),
    ensures
        lex_less(a, c),
    decreases a.len(),
{
    if a.len() != 0 && a[0] == b[0] && b[0] == c[0] {
        lemma_lex_transitive(a.skip(1), b.skip(1), c.skip(1));
    }
}

/// No valid value below `n` comes before `bound`.
pub open spec fn none_before(
    values: Seq<Seq<u8>>,
    validity: Option<Seq<bool>>,
    n: nat,
    bound: Seq<u8>,
) -> bool {
    forall|i: int| 0 <= i < n && mask_allows(validity, i) ==> !lex_less(#[trigger] values[i], bound)
}

/// No valid value below `n` comes after `bound`.
pub open spec fn none_after(
    values: Seq<Seq<u8>>,
    validity: Option<Seq<bool>>,
    n: nat,
    bound: Seq<u8>,
) -> bool {
    forall|i: int| 0 <= i < n && mask_allows(validity, i) ==> !lex_less(bound, #[trigger] values[i])
}

/// The least and the greatest binary value below `n` exist exactly when a
/// valid place does; they occur, and no valid value comes before the least or
/// after the greatest.
pub proof fn lemma_bytes_bounds(values: Seq<Seq<u8>>, validity: Option<Seq<bool>>, n: nat)
    requires
        n <= values.len(),
    ensures
        least_bytes(values, validity, n) is Some <==> any_valid_below(validity, n),
        greatest_bytes(values, validity, n) is Some <==> any_valid_below(validity, n),
        least_bytes(values, validity, n) matches Some(least) ==> occurs_below(
            values,
            validity,
            least,
            n,
        ) && none_before(values, validity, n, least),
        greatest_bytes(values, validity, n) matches Some(greatest) ==> occurs_below(
            values,
            validity,
            greatest,
            n,
        ) && none_after(values, validity, n, greatest),
    decreases n,
{
    if n != 0 {
        let m = (n - 1) as nat;
        lemma_bytes_bounds(values, validity, m);
        let last = values[n - 1];
        if mask_allows(validity, n - 1) {
            lemma_lex_irreflexive(last);
            match least_bytes(values, validity, m) {
                Some(before) => {
                    if lex_less(last, before) {
                        assert forall|i: int|
                            0 <= i < n && mask_allows(validity, i) implies !lex_less(
                            #[trigger] values[i],
                            last,
                        ) by {
                            if i < n - 1 && lex_less(values[i], last) {
                                lemma_lex_transitive(values[i], last, before);
                            }
                        }
                    }
                },
                None => {
                    lemma_none_valid(values, validity, m, last);
                },
            }
            match greatest_bytes(values, validity, m) {
                Some(before) => {
                    if lex_less(before, last) {
                        assert forall|i: int|
                            0 <= i < n && mask_allows(validity, i) implies !lex_less(
                            last,
                            #[trigger] values[i],
                        ) by {
                            if i < n - 1 && lex_less(last, values[i]) {
                                lemma_lex_transitive(before, last, values[i]);
                            }
                        }
                    }
                },
                None => {
                    lemma_none_valid(values, validity, m, last);
                },
            }
        }
    }
}

/// Where no place below `n` is valid, every bound holds of the values below `n`.
proof fn lemma_none_valid(values: Seq<Seq<u8>>, validity: Option<Seq<bool>>, n: nat, bound: Seq<u8>)
    requires
        !any_valid_below(validity, n),
    ensures
        none_before(values, validity, n, bound),
        none_after(values, validity, n, bound),
    decreases n,
{
    if n != 0 {
        lemma_none_valid(values, validity, (n - 1) as nat, bound);
    }
}

/// Whether the bounds of the values of `dtype` are computed: not those of
/// floating-point numbers.
pub open spec fn has_bounds(dtype: DataType) -> bool {
    dtype != DataType::Float32 && dtype != DataType::Float64
}

/// The least value of the array as the statistics hold it: a number in the
/// bytes of its plain form, a binary value as it is.
pub open spec fn least_value(array: &TypedArray) -> Option<Seq<u8>> {
    if !has_bounds(array.dtype) {
        None
    } else {
        match spec_plain_form(array.dtype) {
            Some(PlainForm::Integer(size)) => match valid_min_max(
                array.values.integers(),
                mask_view(array.validity),
            ) {
                Some(bounds) => Some(plain_integer(bounds.0 as int, size as nat)),
                None => None,
            },
            Some(_) => least_bytes(
                array.values.bytes(),
                mask_view(array.validity),
                array.spec_len(),
            ),
            None => None,
        }
    }
}

/// The greatest value of the array as the statistics hold it.
pub open spec fn greatest_value(array: &TypedArray) -> Option<Seq<u8>> {
    if !has_bounds(array.dtype) {
        None
    } else {
        match spec_plain_form(array.dtype) {
            Some(PlainForm::Integer(size)) => match valid_min_max(
                array.values.integers(),
                mask_view(array.validity),
            ) {
                Some(bounds) => Some(plain_integer(bounds.1 as int, size as nat)),
                None => None,
            },
            Some(_) => greatest_bytes(
                array.values.bytes(),
                mask_view(array.validity),
                array.spec_len(),
            ),
            None => None,
        }
    }
}

/// `stats` are the statistics of the values under the options: each bound
/// where the options ask for it and a valid value exists, the number of null
/// values where the options ask for it, and no count of distinct values.
pub open spec fn is_statistics(
    stats: Statistics,
    array: &TypedArray,
    options: StatisticsOptions,
) -> bool {
    &&& bytes_of(stats.min_value) == if options.min_value {
        least_value(array)
    } else {
        None
    }
    &&& bytes_of(stats.max_value) == if options.max_value {
        greatest_value(array)
    } else {
        None
    }
    &&& stats.null_count == if options.null_count {
        Some(array.spec_null_count() as u64)
    } else {
        None
    }
    &&& stats.distinct_count is None
}

/// Whether `a` comes before `b` byte by byte.
pub fn bytes_less(a: &Vec<u8>, b: &Vec<u8>) -> (less: bool)
    ensures
        less == lex_less(a@, b@),
{
    let mut i: usize = 0;
    proof {
        assert(a@.skip(0) =~= a@);
        assert(b@.skip(0) =~= b@);
    }
    while i < a.len() && i < b.len()
        invariant
            i <= a@.len(),
            i <= b@.len(),
            lex_less(a@, b@) == lex_less(a@.skip(i as int), b@.skip(i as int)),
        decreases a@.len() - i,
    {
        proof {
            assert(a@.skip(i as int).skip(1) =~= a@.skip(i + 1));
            assert(b@.skip(i as int).skip(1) =~= b@.skip(i + 1));
        }
        if a[i] != b[i] {
            return a[i] < b[i];
        }
        i = i + 1;
    }
    i < b.len()
}

/// The least and the greatest binary value at a valid place.
fn bytes_bounds(values: &Vec<Vec<u8>>, validity: &Option<Vec<bool>>) -> (bounds: (
    Option<Vec<u8>>,
    Option<Vec<u8>>,
))
    requires
        validity matches Some(mask) ==> mask@.len() == values@.len(),
    ensures
        bytes_of(bounds.0) == least_bytes(
            crate::types::bytes_view(values@),
            mask_view(*validity),
            values@.len(),
        ),
        bytes_of(bounds.1) == greatest_bytes(
            crate::types::bytes_view(values@),
            mask_view(*validity),
            values@.len(),
        ),
{
    let ghost all = crate::types::bytes_view(values@);
    let ghost mask = mask_view(*validity);
    let mut least: Option<usize> = None;
    let mut greatest: Option<usize> = None;
    let mut i: usize = 0;
    while i < values.len()
        invariant
            i <= values@.len(),
            all == crate::types::bytes_view(values@),
            mask == mask_view(*validity),
            validity matches Some(m) ==> m@.len() == values@.len(),
            least matches Some(at) ==> at < i,
            greatest matches Some(at) ==> at < i,
            least_bytes(all, mask, i as nat) == match least {
                Some(at) => Some(all[at as int]),
                None => None,
            },
            greatest_bytes(all, mask, i as nat) == match greatest {
                Some(at) => Some(all[at as int]),
                None => None,
            },
        decreases values@.len() - i,
    {
        if is_valid_at(validity, i) {
            least = match least {
                Some(at) if !bytes_less(&values[i], &values[at]) => Some(at),
                _ => Some(i),
            };
            greatest = match greatest {
                Some(at) if !bytes_less(&values[at], &values[i]) => Some(at),
                _ => Some(i),
            };
        }
        i = i + 1;
    }
    (
        match least {
            Some(at) => Some(copy_all(&values[at])),
            None => None,
        },
        match greatest {
            Some(at) => Some(copy_all(&values[at])),
            None => None,
        },
    )
}

/// The bounds of the array as the statistics hold them.
fn value_bounds(array: &TypedArray) -> (bounds: (Option<Vec<u8>>, Option<Vec<u8>>))
    requires
        array.wf(),
    ensures
        bytes_of(bounds.0) == least_value(array),
        bytes_of(bounds.1) == greatest_value(array),
{
    match array.dtype {
        DataType::Float32 | DataType::Float64 => {
            return (None, None);
        },
        _ => {},
    }
    match (&array.values, crate::plain::plain_form(array.dtype)) {
        (ArrayValues::Integers(values), Some(PlainForm::Integer(size))) => {
            match min_max_ignore_nulls(values, &array.validity) {
                Some((lo, hi)) => {
                    proof {
                        let mask = mask_view(array.validity);
                        crate::occurrence::lemma_least_greatest(values@, mask, values@.len());
                        let at_lo = crate::occurrence::lemma_occurs_place(
                            values@,
                            mask,
                            lo,
                            values@.len(),
                        );
                        let at_hi = crate::occurrence::lemma_occurs_place(
                            values@,
                            mask,
                            hi,
                            values@.len(),
                        );
                        assert(array.dtype.least() <= values@[at_lo] <= array.dtype.greatest());
                        assert(array.dtype.least() <= values@[at_hi] <= array.dtype.greatest());
                    }
                    let mut least: Vec<u8> = Vec::new();
                    write_plain_integer(&mut least, lo, size);
                    let mut greatest: Vec<u8> = Vec::new();
                    write_plain_integer(&mut greatest, hi, size);
                    (Some(least), Some(greatest))
                },
                None => (None, None),
            }
        },
        (ArrayValues::Bytes(values), Some(_)) => bytes_bounds(values, &array.validity),
        _ => (None, None),
    }
}

/// The statistics of the values under the options.
pub fn build_statistics(array: &TypedArray, options: &StatisticsOptions) -> (stats: Statistics)
    requires
        array.wf(),
    ensures
        is_statistics(stats, array, *options),
{
    let (least, greatest) = value_bounds(array);
    Statistics {
        null_count: if options.null_count {
            Some(array.null_count() as u64)
        } else {
            None
        },
        distinct_count: None,
        max_value: if options.max_value {
            greatest
        } else {
            None
        },
        min_value: if options.min_value {
            least
        } else {
            None
        },
    }
}

} // verus!
