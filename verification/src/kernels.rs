//! What the encoder has from the array kernels of Polars: the least and
//! greatest value of a column, an estimate of how many distinct values it
//! holds, and the packing of a column into keys and distinct values.
//!
//! The contracts in this file are taken on trust; each repeats what the source
//! of the kernel shows.

use crate::occurrence::{is_packing, valid_min_max};
use crate::types::{bytes_view, count_nulls, mask_view, MAX_VALUE_LEN};
use polars_arrow::array::{Array, BinaryViewArray, PrimitiveArray};
use polars_arrow::bitmap::Bitmap;
use polars_arrow::datatypes::{ArrowDataType, IntegerType};
use polars_compute::min_max::MinMaxKernel;
use polars_error::PolarsError;
use vstd::prelude::*;

verus! {

/// The error type of the Polars kernels; nothing is known of what it holds.
#[verifier::external_type_specification]
#[verifier::external_body]
pub struct ExPolarsError(PolarsError);

/// `MinMaxKernel::min_max_ignore_nan_kernel` of `polars_compute`, on a
/// primitive array of `i128`: the least and the greatest of the values at
/// valid places, or `None` where no place is valid.
#[verifier::external_body]
pub(crate) fn min_max_ignore_nulls(values: &Vec<i128>, validity: &Option<Vec<bool>>) -> (r: Option<
    (i128, i128),
>)
    requires
        validity matches Some(mask) ==> mask@.len() == values@.len(),
    ensures
        r == valid_min_max(values@, mask_view(*validity)),
{
    let mask = validity.as_ref().map(Bitmap::from);
    let array = PrimitiveArray::<i128>::new(ArrowDataType::Int128, values.clone().into(), mask);
    array.min_max_ignore_nan_kernel()
}

/// `estimate_cardinality` of `polars_compute`, on a primitive array of
/// `i128`: an estimate of the number of distinct values. It is zero for an
/// array without places and one for an array of nulls; of any other array the
/// contract says nothing.
#[verifier::external_body]
pub(crate) fn estimate_integer_cardinality(
    values: &Vec<i128>,
    validity: &Option<Vec<bool>>,
) -> (estimate: usize)
    requires
        validity matches Some(mask) ==> mask@.len() == values@.len(),
    ensures
        values@.len() == 0 ==> estimate == 0,
        values@.len() > 0 && count_nulls(mask_view(*validity), values@.len()) == values@.len()
            ==> estimate == 1,
{
    let mask = validity.as_ref().map(Bitmap::from);
    let array = PrimitiveArray::<i128>::new(ArrowDataType::Int128, values.clone().into(), mask);
    polars_compute::cardinality::estimate_cardinality(&array)
}

/// `estimate_cardinality` of `polars_compute`, on a binary view array: an
/// estimate of the number of distinct values. It is zero for an array without
/// places and one for an array of nulls; of any other array the contract says
/// nothing. A binary view array counts its buffers and the bytes of a value
/// in 32 bits, so the array is built of no more values, and of no longer ones,
/// than that counts.
#[verifier::external_body]
pub(crate) fn estimate_bytes_cardinality(
    values: &Vec<Vec<u8>>,
    validity: &Option<Vec<bool>>,
) -> (estimate: usize)
    requires
        validity matches Some(mask) ==> mask@.len() == values@.len(),
        values@.len() <= u32::MAX,
        forall|i: int| 0 <= i < values@.len() ==> (#[trigger] values@[i])@.len() <= MAX_VALUE_LEN,
    ensures
        values@.len() == 0 ==> estimate == 0,
        values@.len() > 0 && count_nulls(mask_view(*validity), values@.len()) == values@.len()
            ==> estimate == 1,
{
    let mask = validity.as_ref().map(Bitmap::from);
    let array = BinaryViewArray::from_slice_values(values).with_validity(mask);
    polars_compute::cardinality::estimate_cardinality(&array)
}

/// `cast` of `polars_compute`, from a primitive array of `i64` to a
/// dictionary with `u32` keys: the keys and the distinct values. It fails only
/// where the keys run out, which takes more values than a `u32` counts.
#[verifier::external_body]
pub(crate) fn pack_integers(values: &Vec<i64>, validity: &Option<Vec<bool>>) -> (r: Result<
    (Vec<u32>, Vec<i64>),
    PolarsError,
>)
    requires
        validity matches Some(mask) ==> mask@.len() == values@.len(),
    ensures
        r matches Ok(packed) ==> is_packing(values@, mask_view(*validity), packed.0@, packed.1@),
        values@.len() <= u32::MAX ==> r is Ok,
{
    let mask = validity.as_ref().map(Bitmap::from);
    let array = PrimitiveArray::<i64>::new(ArrowDataType::Int64, values.clone().into(), mask);
    let to = ArrowDataType::Dictionary(IntegerType::UInt32, Box::new(ArrowDataType::Int64), false);
    let packed = polars_compute::cast::cast(&array, &to, Default::default())?;
    let packed = packed.as_any().downcast_ref::<polars_arrow::array::DictionaryArray<u32>>().unwrap();
    let dict = packed.values().as_any().downcast_ref::<PrimitiveArray<i64>>().unwrap();
    Ok((packed.keys().values().as_slice().to_vec(), dict.values().as_slice().to_vec()))
}

/// `cast` of `polars_compute`, from a binary view array to a dictionary with
/// `u32` keys: the keys and the distinct values. It fails only where the keys
/// run out, which the values, being no more than a `u32` counts, cannot bring
/// about.
#[verifier::external_body]
pub(crate) fn pack_bytes(values: &Vec<Vec<u8>>, validity: &Option<Vec<bool>>) -> (r: Result<
    (Vec<u32>, Vec<Vec<u8>>),
    PolarsError,
>)
    requires
        validity matches Some(mask) ==> mask@.len() == values@.len(),
        values@.len() <= u32::MAX,
        forall|i: int| 0 <= i < values@.len() ==> (#[trigger] values@[i])@.len() <= MAX_VALUE_LEN,
    ensures
        r matches Ok(packed) ==> is_packing(
            bytes_view(values@),
            mask_view(*validity),
            packed.0@,
            bytes_view(packed.1@),
        ),
        r is Ok,
{
    let mask = validity.as_ref().map(Bitmap::from);
    let array = BinaryViewArray::from_slice_values(values).with_validity(mask);
    let to = ArrowDataType::Dictionary(IntegerType::UInt32, Box::new(ArrowDataType::BinaryView), false);
    let packed = polars_compute::cast::cast(&array, &to, Default::default())?;
    let packed = packed.as_any().downcast_ref::<polars_arrow::array::DictionaryArray<u32>>().unwrap();
    let dict = packed.values().as_any().downcast_ref::<BinaryViewArray>().unwrap();
    Ok((packed.keys().values().as_slice().to_vec(), dict.values_iter().map(<[u8]>::to_vec).collect()))
}

/// `get_global_random_u64` of `polars_core`: the next number of the
/// process-wide random generator. Nothing is known of it.
#[verifier::external_body]
pub(crate) fn global_random_u64() -> u64 {
    polars_core::random::get_global_random_u64()
}

} // verus!
