use parquet_dictionary::dictionary::{rejects_cardinality, select_dictionary};
use parquet_dictionary::min_max_dictionary::{
    from_start_and_offset, integer_width, min_max_integer_encode_as_dictionary_optional,
    DictionaryDecision, IntegerWidth,
};
use parquet_dictionary::types::{ArrayValues, DataType, TypedArray};

fn integers(dtype: DataType, values: Vec<i128>, validity: Option<Vec<bool>>) -> TypedArray {
    TypedArray::try_new(dtype, ArrayValues::Integers(values), validity).unwrap()
}

fn found_integers(decision: DictionaryDecision) -> (Vec<u32>, Option<Vec<bool>>, Vec<i128>) {
    match decision {
        DictionaryDecision::Found(d) => match d.values.values {
            ArrayValues::Integers(values) => {
                assert!(d.values.validity.is_none());
                (d.keys, d.validity, values)
            },
            ArrayValues::Bytes(_) => panic!("numbers were expected"),
        },
        _ => panic!("a dictionary was expected"),
    }
}

#[test]
fn thresholds_by_width() {
    assert_eq!(IntegerWidth::Bits8.delta_threshold(), 16);
    assert_eq!(IntegerWidth::Bits16.delta_threshold(), 256);
    assert_eq!(IntegerWidth::Bits32.delta_threshold(), 512);
    assert_eq!(IntegerWidth::Bits64.delta_threshold(), 2048);
    assert_eq!(IntegerWidth::Bits8.bitmask_threshold(), 255);
    assert_eq!(IntegerWidth::Bits16.bitmask_threshold(), 65535);
    assert_eq!(IntegerWidth::Bits32.bitmask_threshold(), 65535);
    assert_eq!(IntegerWidth::Bits64.bitmask_threshold(), 65535);
    assert_eq!(integer_width(DataType::Date32), Some(IntegerWidth::Bits32));
    assert_eq!(integer_width(DataType::UInt64), Some(IntegerWidth::Bits64));
    assert_eq!(integer_width(DataType::Float64), None);
    assert_eq!(integer_width(DataType::Utf8View), None);
    assert_eq!(from_start_and_offset(-5, 7), 2);
}

#[test]
fn fast_path_sorts_and_looks_up() {
    let array = integers(DataType::Int32, vec![30, 10, 20, 10, 30, 30], None);
    let decision = min_max_integer_encode_as_dictionary_optional(&array, IntegerWidth::Bits32);
    let (keys, validity, values) = found_integers(decision);
    assert_eq!(values, vec![10, 20, 30]);
    assert_eq!(keys, vec![2, 0, 1, 0, 2, 2]);
    assert_eq!(validity, None);
}

#[test]
fn fast_path_keeps_the_mask_and_clamps_nulls() {
    let validity = Some(vec![true, false, true, false, true, true]);
    let array = integers(DataType::Int64, vec![-3, 1000, 5, 0, -3, 4], validity.clone());
    let decision = min_max_integer_encode_as_dictionary_optional(&array, IntegerWidth::Bits64);
    let (keys, mask, values) = found_integers(decision);
    assert_eq!(values, vec![-3, 4, 5]);
    // 1000 is moved to 5; 0 lies between the bounds and does not occur.
    assert_eq!(keys, vec![0, 2, 2, 0, 0, 1]);
    assert_eq!(mask, validity);
}

#[test]
fn fast_path_retries_without_valid_values() {
    let array = integers(DataType::Int32, vec![1, 2], Some(vec![false, false]));
    let decision = min_max_integer_encode_as_dictionary_optional(&array, IntegerWidth::Bits32);
    assert!(matches!(decision, DictionaryDecision::TryAgain));
}

#[test]
fn fast_path_retries_on_wide_span() {
    let array = integers(DataType::Int32, vec![0, 65536], None);
    let decision = min_max_integer_encode_as_dictionary_optional(&array, IntegerWidth::Bits32);
    assert!(matches!(decision, DictionaryDecision::TryAgain));
    let array = integers(DataType::Int32, vec![0, 65535], None);
    let decision = min_max_integer_encode_as_dictionary_optional(&array, IntegerWidth::Bits32);
    assert!(matches!(decision, DictionaryDecision::Found(_)));
    let array = integers(DataType::UInt8, vec![0, 255], None);
    let decision = min_max_integer_encode_as_dictionary_optional(&array, IntegerWidth::Bits8);
    assert!(matches!(decision, DictionaryDecision::Found(_)));
}

#[test]
fn fast_path_spans_the_whole_of_a_signed_byte() {
    let array = integers(DataType::Int8, vec![-128, 127, -128], None);
    let decision = min_max_integer_encode_as_dictionary_optional(&array, IntegerWidth::Bits8);
    let (keys, _, values) = found_integers(decision);
    assert_eq!(values, vec![-128, 127]);
    assert_eq!(keys, vec![0, 1, 0]);
}

#[test]
fn fast_path_not_worth_when_many_distinct() {
    // 17 distinct values in 17 rows: more than 16, and not under three quarters.
    let array = integers(DataType::Int8, (0..17).collect(), None);
    let decision = min_max_integer_encode_as_dictionary_optional(&array, IntegerWidth::Bits8);
    assert!(matches!(decision, DictionaryDecision::NotWorth));
    // 16 distinct values always pay.
    let array = integers(DataType::Int8, (0..16).collect(), None);
    let decision = min_max_integer_encode_as_dictionary_optional(&array, IntegerWidth::Bits8);
    assert!(matches!(decision, DictionaryDecision::Found(_)));
    // 17 distinct values in 23 rows: 68 < 69.
    let mut values: Vec<i128> = (0..17).collect();
    values.extend([0, 0, 0, 0, 0, 0]);
    let array = integers(DataType::Int8, values.clone(), None);
    let decision = min_max_integer_encode_as_dictionary_optional(&array, IntegerWidth::Bits8);
    assert!(matches!(decision, DictionaryDecision::Found(_)));
    // 17 distinct values in 22 rows: 68 is not under 66.
    values.pop();
    let array = integers(DataType::Int8, values, None);
    let decision = min_max_integer_encode_as_dictionary_optional(&array, IntegerWidth::Bits8);
    assert!(matches!(decision, DictionaryDecision::NotWorth));
}

#[test]
fn fast_path_does_not_apply_to_bytes() {
    let array =
        TypedArray::try_new(DataType::Utf8View, ArrayValues::Bytes(vec![b"a".to_vec()]), None)
            .unwrap();
    let decision = min_max_integer_encode_as_dictionary_optional(&array, IntegerWidth::Bits32);
    assert!(matches!(decision, DictionaryDecision::TryAgain));
}

#[test]
fn cardinality_rule() {
    assert!(rejects_cardinality(1000, 751));
    assert!(!rejects_cardinality(1000, 750));
    assert!(!rejects_cardinality(128, 128));
    assert!(rejects_cardinality(129, 97));
    assert!(!rejects_cardinality(129, 96));
    assert!(!rejects_cardinality(0, 0));
}

#[test]
fn cardinality_rejection() {
    // 1000 distinct strings: the estimate is far above three quarters of the rows.
    let values: Vec<Vec<u8>> = (0..1000).map(|i| format!("value-{i}").into_bytes()).collect();
    let array = TypedArray::try_new(DataType::Utf8View, ArrayValues::Bytes(values), None).unwrap();
    assert!(select_dictionary(&array).is_none());
    // 1000 distinct numbers that lie too far apart for the fast path.
    let values: Vec<i128> = (0..1000).map(|i| i * 1_000_000).collect();
    let array = integers(DataType::Int64, values, None);
    assert!(select_dictionary(&array).is_none());
    // The same as bit patterns of floating-point numbers.
    let values: Vec<i128> = (0..1000).map(|i| (i as f64).to_bits() as i128).collect();
    let array = integers(DataType::Float64, values, None);
    assert!(select_dictionary(&array).is_none());
}

#[test]
fn general_path_packs_strings() {
    let words = ["b", "a", "b", "c", "a", "", "b"];
    let values: Vec<Vec<u8>> = words.iter().map(|w| w.as_bytes().to_vec()).collect();
    let validity = Some(vec![true, true, true, true, true, false, true]);
    let array =
        TypedArray::try_new(
            DataType::LargeUtf8,
            ArrayValues::Bytes(values.clone()),
            validity.clone(),
        )
            .unwrap();
    let d = select_dictionary(&array).unwrap();
    assert_eq!(d.validity, validity);
    assert_eq!(d.values.dtype, DataType::LargeUtf8);
    assert!(d.values.validity.is_none());
    let dict = match &d.values.values {
        ArrayValues::Bytes(dict) => dict.clone(),
        ArrayValues::Integers(_) => panic!("bytes were expected"),
    };
    assert_eq!(dict.len(), 3);
    for (i, key) in d.keys.iter().enumerate() {
        if i == 5 {
            assert_eq!(*key, 0);
        } else {
            assert_eq!(dict[*key as usize], values[i]);
        }
    }
}

#[test]
fn general_path_packs_wide_unsigned_numbers() {
    let big = u64::MAX as i128;
    let array = integers(DataType::UInt64, vec![big, 0, big, 5, 0], None);
    let d = select_dictionary(&array).unwrap();
    let dict = match &d.values.values {
        ArrayValues::Integers(dict) => dict.clone(),
        ArrayValues::Bytes(_) => panic!("numbers were expected"),
    };
    assert_eq!(dict.len(), 3);
    let rows: Vec<i128> = d.keys.iter().map(|k| dict[*k as usize]).collect();
    assert_eq!(rows, vec![big, 0, big, 5, 0]);
}

#[test]
fn general_path_packs_an_array_of_nulls() {
    let array = integers(DataType::Int32, vec![7, 8, 9], Some(vec![false, false, false]));
    let d = select_dictionary(&array).unwrap();
    assert_eq!(d.keys, vec![0, 0, 0]);
    assert_eq!(d.validity, Some(vec![false, false, false]));
    assert_eq!(d.values.values.len(), 0);
}

#[test]
fn empty_array_gets_the_empty_dictionary() {
    let array = integers(DataType::Int32, vec![], None);
    let d = select_dictionary(&array).unwrap();
    assert!(d.is_empty());
    assert_eq!(d.values.len(), 0);
    assert_eq!(d.values.dtype, DataType::Int32);
}

#[test]
fn fast_path_decides_inside_select() {
    let array = integers(DataType::UInt16, vec![9, 7, 9, 8], None);
    let d = select_dictionary(&array).unwrap();
    assert_eq!(d.keys, vec![2, 0, 2, 1]);
    match &d.values.values {
        ArrayValues::Integers(dict) => assert_eq!(dict, &vec![7, 8, 9]),
        ArrayValues::Bytes(_) => panic!("numbers were expected"),
    }
    // Not worth it on the fast path: no second try on the general path.
    let array = integers(DataType::Int8, (0..17).collect(), None);
    assert!(select_dictionary(&array).is_none());
}

#[test]
fn typed_array_checks_its_parts() {
    assert!(TypedArray::try_new(DataType::Int8, ArrayValues::Integers(vec![128]), None).is_none());
    assert!(
        TypedArray::try_new(DataType::Int8, ArrayValues::Integers(vec![-128, 127]), None).is_some(),
    );
    assert!(
        TypedArray::try_new(DataType::Int8, ArrayValues::Integers(vec![1]), Some(vec![])).is_none(),
    );
    assert!(
        TypedArray::try_new(DataType::Utf8View, ArrayValues::Integers(vec![1]), None).is_none(),
    );
    assert!(TypedArray::try_new(DataType::Int32, ArrayValues::Bytes(vec![]), None).is_none());
    assert!(
        TypedArray::try_new(DataType::FixedSizeBinary(2), ArrayValues::Bytes(vec![vec![1]]), None)
            .is_none()
    );
    assert!(
        TypedArray::try_new(
            DataType::FixedSizeBinary(2),
            ArrayValues::Bytes(vec![vec![1, 2]]),
            None,
        )
            .is_some()
    );
    let array = integers(DataType::Int32, vec![1, 2, 3], Some(vec![true, false, false]));
    assert_eq!(array.len(), 3);
    assert_eq!(array.null_count(), 2);
    assert!(!array.is_empty());
}
