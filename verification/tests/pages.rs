use parquet_dictionary::data_pages::{
    estimated_byte_size_to_values_per_page, serialize_def_levels_simple, serialize_keys,
    serialize_keys_nested, serialize_levels,
};
use parquet_dictionary::dictionary::{array_to_pages, encode_as_dictionary_optional};
use parquet_dictionary::keys::{normalized_validity, serialize_keys_values};
use parquet_dictionary::levels::write_def_levels;
use parquet_dictionary::nested::{slice_nested_leaf, with_leaf_length, EncodedLevels, Nested};
use parquet_dictionary::page::{
    build_plain_page, is_nullable, CompressionOptions, EncodeError, Encoding, Page, PhysicalType,
    PrimitiveType, Repetition, Statistics, StatisticsOptions, Version, WriteOptions,
};
use parquet_dictionary::plain::{encode_plain, plain_form, PlainForm};
use parquet_dictionary::statistics::{build_statistics, bytes_less};
use parquet_dictionary::types::{ArrayValues, DataType, DictionaryArray, TypedArray};

fn numbers(dtype: DataType, values: Vec<i128>, validity: Option<Vec<bool>>) -> TypedArray {
    TypedArray::try_new(dtype, ArrayValues::Integers(values), validity).unwrap()
}

fn words(dtype: DataType, values: &[&str], validity: Option<Vec<bool>>) -> TypedArray {
    let bytes = values.iter().map(|s| s.as_bytes().to_vec()).collect();
    TypedArray::try_new(dtype, ArrayValues::Bytes(bytes), validity).unwrap()
}

fn options(
    version: Version,
    statistics: StatisticsOptions,
    data_page_size: Option<usize>,
) -> WriteOptions {
    WriteOptions { statistics, compression: CompressionOptions::Snappy, version, data_page_size }
}

fn column(repetition: Repetition) -> PrimitiveType {
    PrimitiveType { name: "col".into(), repetition, physical_type: PhysicalType::Int32 }
}

fn flat() -> Vec<Nested> {
    vec![Nested::Primitive { is_optional: true, length: 0 }]
}

fn no_levels() -> EncodedLevels {
    EncodedLevels { repetition: vec![], definition: vec![] }
}

fn data(page: &Page) -> &parquet_dictionary::page::DataPage {
    match page {
        Page::Data(data) => data,
        Page::Dict(_) => panic!("a data page was expected"),
    }
}

#[test]
fn rows_per_page_formula() {
    // 10 bits a row estimated as 1250 bytes for 1000 rows: 100 bytes hold 80 rows.
    assert_eq!(estimated_byte_size_to_values_per_page(1000, 1250, Some(100)), 80);
    // At least one row.
    assert_eq!(estimated_byte_size_to_values_per_page(1000, 1250, Some(0)), 1);
    assert_eq!(estimated_byte_size_to_values_per_page(1000, 1_000_000, Some(1)), 1);
    // At most all rows; the default size is a mebibyte.
    assert_eq!(estimated_byte_size_to_values_per_page(1000, 1250, None), 1000);
    assert_eq!(estimated_byte_size_to_values_per_page(4_000_000, 4_000_000, None), 1_048_576);
    // Nothing to divide by.
    assert_eq!(estimated_byte_size_to_values_per_page(0, 0, Some(5)), 1);
    assert_eq!(estimated_byte_size_to_values_per_page(5, 0, Some(5)), 1);
}

#[test]
fn key_stream_uses_the_width_of_the_page() {
    let mut buffer = vec![9];
    serialize_keys_values(&vec![0, 5, 3, 700], &Some(vec![true, true, true, false]), &mut buffer);
    // Greatest valid key 5: three bits. One group: 0, 5, 3 and five empty places.
    assert_eq!(buffer, vec![9, 3, 3, 0b11101000, 0b00000000, 0]);
    let mut buffer = vec![];
    serialize_keys_values(&vec![], &None, &mut buffer);
    assert_eq!(buffer, vec![0]);
    let mut buffer = vec![];
    serialize_keys_values(&vec![0, 0, 0], &None, &mut buffer);
    assert_eq!(buffer, vec![0, 3]);
    let mut buffer = vec![];
    serialize_keys_values(&vec![300; 20], &None, &mut buffer);
    assert_eq!(buffer, vec![9, 40, 0x2c, 0x01]);
}

#[test]
fn definition_levels_by_version() {
    let validity = Some(vec![true, false, true]);
    let mut buffer = vec![];
    write_def_levels(&mut buffer, true, &validity, 3, Version::V1);
    assert_eq!(buffer, vec![2, 0, 0, 0, 3, 0b101]);
    let mut buffer = vec![7];
    write_def_levels(&mut buffer, true, &validity, 3, Version::V2);
    assert_eq!(buffer, vec![7, 3, 0b101]);
    let mut buffer = vec![];
    write_def_levels(&mut buffer, false, &validity, 3, Version::V1);
    assert_eq!(buffer, Vec::<u8>::new());
    // Without a mask every row is there: one repeated run.
    let mut buffer = vec![];
    serialize_def_levels_simple(
        &None,
        1000,
        true,
        options(Version::V2, StatisticsOptions::empty(), None),
        &mut buffer,
    );
    assert_eq!(buffer, vec![0xd0, 0x0f, 1]);
}

#[test]
fn normalized_validity_folds_both_masks() {
    let values = words(DataType::Utf8View, &["a", "b"], None);
    let d = DictionaryArray::try_new(vec![0, 1, 0], None, values).unwrap();
    assert_eq!(normalized_validity(&d), None);
    let values = words(DataType::Utf8View, &["a", "b"], None);
    let d = DictionaryArray::try_new(vec![0, 1, 0], Some(vec![true, false, true]), values).unwrap();
    assert_eq!(normalized_validity(&d), Some(vec![true, false, true]));
    let values = words(DataType::Utf8View, &["a", "b"], Some(vec![true, false]));
    let d = DictionaryArray::try_new(vec![0, 1, 1, 0], Some(vec![true, true, false, false]), values)
        .unwrap();
    assert_eq!(normalized_validity(&d), Some(vec![true, false, false, false]));
    let values = words(DataType::Utf8View, &["a", "b"], Some(vec![true, false]));
    let d = DictionaryArray::try_new(vec![0, 1, 9], Some(vec![true, true, false]), values).unwrap();
    assert_eq!(d.null_count(), 1);
    assert_eq!(normalized_validity(&d), Some(vec![true, false, false]));
}

#[test]
fn dictionary_array_checks_its_keys() {
    let values = words(DataType::Utf8View, &["a", "b"], None);
    assert!(DictionaryArray::try_new(vec![0, 2], None, values).is_none());
    let values = words(DataType::Utf8View, &["a", "b"], None);
    assert!(DictionaryArray::try_new(vec![0, 2], Some(vec![true, false]), values).is_some());
    let values = words(DataType::Utf8View, &["a", "b"], None);
    assert!(DictionaryArray::try_new(vec![0, 1], Some(vec![true]), values).is_none());
    let empty = DictionaryArray::new_empty(DataType::Int64);
    assert_eq!(empty.len(), 0);
    assert!(empty.is_empty());
    assert_eq!(empty.values.dtype, DataType::Int64);
}

#[test]
fn plain_numbers() {
    let array = numbers(DataType::Int16, vec![-2, 258], None);
    let form = plain_form(DataType::Int16).unwrap();
    assert_eq!(form, PlainForm::Integer(4));
    assert_eq!(encode_plain(&array, form), vec![0xfe, 0xff, 0xff, 0xff, 2, 1, 0, 0]);
    let array = numbers(DataType::UInt32, vec![0xffff_ffff], None);
    assert_eq!(encode_plain(&array, PlainForm::Integer(4)), vec![0xff; 4]);
    let array = numbers(DataType::UInt64, vec![u64::MAX as i128, 1], None);
    assert_eq!(
        encode_plain(&array, PlainForm::Integer(8)),
        vec![0xff, 0xff, 0xff, 0xff, 0xff, 0xff, 0xff, 0xff, 1, 0, 0, 0, 0, 0, 0, 0]
    );
    let array = numbers(DataType::Timestamp, vec![-1], None);
    assert_eq!(encode_plain(&array, PlainForm::Integer(8)), vec![0xff; 8]);
    let array = numbers(DataType::Float32, vec![1.5f32.to_bits() as i128], None);
    assert_eq!(encode_plain(&array, PlainForm::Integer(4)), 1.5f32.to_le_bytes().to_vec());
}

#[test]
fn plain_bytes() {
    let array = words(DataType::LargeUtf8, &["ab", "", "c"], Some(vec![true, false, true]));
    assert_eq!(plain_form(DataType::LargeUtf8), Some(PlainForm::Binary));
    assert_eq!(
        encode_plain(&array, PlainForm::Binary),
        vec![2, 0, 0, 0, b'a', b'b', 0, 0, 0, 0, 1, 0, 0, 0, b'c']
    );
    let array = words(DataType::FixedSizeBinary(2), &["ab", "cd"], None);
    assert_eq!(plain_form(DataType::FixedSizeBinary(2)), Some(PlainForm::FixedSizeBinary));
    assert_eq!(encode_plain(&array, PlainForm::FixedSizeBinary), b"abcd".to_vec());
    assert_eq!(plain_form(DataType::Boolean), None);
    assert_eq!(plain_form(DataType::Utf8), None);
    assert_eq!(plain_form(DataType::Binary), None);
}

#[test]
fn statistics_of_numbers() {
    let array = numbers(DataType::Int32, vec![5, -7, 100, 3], Some(vec![true, true, false, true]));
    let stats = build_statistics(&array, &StatisticsOptions::full());
    assert_eq!(stats.min_value, Some(vec![0xf9, 0xff, 0xff, 0xff]));
    assert_eq!(stats.max_value, Some(vec![5, 0, 0, 0]));
    assert_eq!(stats.null_count, Some(1));
    assert_eq!(stats.distinct_count, None);
    let only_max = StatisticsOptions {
        min_value: false,
        max_value: true,
        distinct_count: false,
        null_count: false,
    };
    let stats = build_statistics(&array, &only_max);
    assert_eq!(stats.min_value, None);
    assert_eq!(stats.max_value, Some(vec![5, 0, 0, 0]));
    assert_eq!(stats.null_count, None);
    // Unsigned numbers are compared as unsigned.
    let array = numbers(DataType::UInt32, vec![0xffff_ffff, 1], None);
    let stats = build_statistics(&array, &StatisticsOptions::full());
    assert_eq!(stats.min_value, Some(vec![1, 0, 0, 0]));
    assert_eq!(stats.max_value, Some(vec![0xff; 4]));
    // No valid value, no bounds.
    let array = numbers(DataType::Int64, vec![1], Some(vec![false]));
    let stats = build_statistics(&array, &StatisticsOptions::full());
    assert_eq!(stats.min_value, None);
    assert_eq!(stats.max_value, None);
    // The bounds of floating-point numbers are left to the caller.
    let array = numbers(DataType::Float64, vec![1, 2], None);
    let stats = build_statistics(&array, &StatisticsOptions::full());
    assert_eq!(stats.min_value, None);
    assert_eq!(stats.max_value, None);
    assert_eq!(stats.null_count, Some(0));
}

#[test]
fn statistics_of_bytes() {
    let array = words(
        DataType::Utf8View,
        &["pear", "apple", "a", "zebra", "pea"],
        Some(vec![true, true, false, true, true]),
    );
    let stats = build_statistics(&array, &StatisticsOptions::full());
    assert_eq!(stats.min_value, Some(b"apple".to_vec()));
    assert_eq!(stats.max_value, Some(b"zebra".to_vec()));
    assert_eq!(stats.null_count, Some(1));
    assert!(bytes_less(&b"pea".to_vec(), &b"pear".to_vec()));
    assert!(!bytes_less(&b"pear".to_vec(), &b"pea".to_vec()));
    assert!(!bytes_less(&b"pea".to_vec(), &b"pea".to_vec()));
    assert!(bytes_less(&b"".to_vec(), &b"a".to_vec()));
    assert!(bytes_less(&vec![1, 2], &vec![1, 200]));
    assert!(!bytes_less(&vec![200], &vec![1, 2, 3]));
}

#[test]
fn pages_of_a_flat_column() {
    let values = numbers(DataType::Int32, vec![10, 20, 30], None);
    let d = DictionaryArray::try_new(
        vec![2, 0, 1, 1, 7],
        Some(vec![true, true, true, true, false]),
        values,
    )
        .unwrap();
    let result = array_to_pages(
        &d,
        column(Repetition::Optional),
        &flat(),
        &no_levels(),
        options(Version::V2, StatisticsOptions::full(), None),
        Encoding::RleDictionary,
    );
    let pages = result.unwrap();
    assert_eq!(pages.len(), 2);
    match &pages[0] {
        Page::Dict(dict) => {
            assert_eq!(dict.buffer, vec![10, 0, 0, 0, 20, 0, 0, 0, 30, 0, 0, 0]);
            assert_eq!(dict.num_values, 3);
            assert!(!dict.is_sorted);
            let stats = dict.statistics.as_ref().unwrap();
            assert_eq!(stats.min_value, Some(vec![10, 0, 0, 0]));
            assert_eq!(stats.max_value, Some(vec![30, 0, 0, 0]));
            assert_eq!(stats.null_count, Some(1));
            assert_eq!(stats.distinct_count, None);
        },
        Page::Data(_) => panic!("the dictionary page comes first"),
    }
    let page = data(&pages[1]);
    // Levels 1, 1, 1, 1, 0; keys 2, 0, 1, 1 with two bits each.
    assert_eq!(page.buffer, vec![3, 0b01111, 2, 3, 0b01010010, 0]);
    assert_eq!(page.definition_levels_byte_length, 2);
    assert_eq!(page.repetition_levels_byte_length, 0);
    assert_eq!(page.num_rows, 5);
    assert_eq!(page.num_values, 5);
    assert_eq!(page.null_count, 1);
    assert!(page.statistics.is_none());
    assert_eq!(page.version, Version::V2);
    assert_eq!(page.compression, CompressionOptions::Snappy);
    assert_eq!(page.encoding, Encoding::RleDictionary);
    assert_eq!(page.primitive_type.name, "col");
}

#[test]
fn null_count_is_that_of_the_keys_whatever_the_options() {
    let values = numbers(DataType::Int32, vec![10, 20], Some(vec![true, false]));
    let d = DictionaryArray::try_new(vec![1, 0, 0], Some(vec![true, true, false]), values).unwrap();
    let only_min = StatisticsOptions {
        min_value: true,
        max_value: false,
        distinct_count: false,
        null_count: false,
    };
    let pages = array_to_pages(
        &d,
        column(Repetition::Optional),
        &flat(),
        &no_levels(),
        options(Version::V1, only_min, None),
        Encoding::PlainDictionary,
    )
    .unwrap();
    match &pages[0] {
        Page::Dict(dict) => {
            let stats = dict.statistics.as_ref().unwrap();
            assert_eq!(stats.null_count, Some(1));
            assert_eq!(stats.min_value, Some(vec![10, 0, 0, 0]));
            assert_eq!(stats.max_value, None);
        },
        Page::Data(_) => panic!("the dictionary page comes first"),
    }
    // Two rows are null: one by its key, one by its value.
    assert_eq!(data(&pages[1]).null_count, 2);
}

#[test]
fn no_statistics_without_options() {
    let values = numbers(DataType::Int32, vec![10], None);
    let d = DictionaryArray::try_new(vec![0], None, values).unwrap();
    let pages = array_to_pages(
        &d,
        column(Repetition::Required),
        &flat(),
        &no_levels(),
        options(Version::V1, StatisticsOptions::empty(), None),
        Encoding::RleDictionary,
    )
    .unwrap();
    match &pages[0] {
        Page::Dict(dict) => assert!(dict.statistics.is_none()),
        Page::Data(_) => panic!("the dictionary page comes first"),
    }
    // A required column has no levels.
    let page = data(&pages[1]);
    assert_eq!(page.buffer, vec![0, 3]);
    assert_eq!(page.definition_levels_byte_length, 0);
}

#[test]
fn unsupported_type_and_encoding() {
    let values = numbers(DataType::Boolean, vec![0, 1], None);
    let d = DictionaryArray::try_new(vec![0, 1], None, values).unwrap();
    let no_stats = options(Version::V1, StatisticsOptions::empty(), None);
    let result = array_to_pages(
        &d,
        column(Repetition::Optional),
        &flat(),
        &no_levels(),
        no_stats,
        Encoding::RleDictionary,
    );
    assert_eq!(result.err(), Some(EncodeError::UnsupportedType(DataType::Boolean)));
    let values = words(DataType::Utf8, &["a"], None);
    let d = DictionaryArray::try_new(vec![0], None, values).unwrap();
    let result = array_to_pages(
        &d,
        column(Repetition::Optional),
        &flat(),
        &no_levels(),
        no_stats,
        Encoding::PlainDictionary,
    );
    assert_eq!(result.err(), Some(EncodeError::UnsupportedType(DataType::Utf8)));
    // The encoding is looked at first.
    let values = numbers(DataType::Boolean, vec![0, 1], None);
    let d = DictionaryArray::try_new(vec![0, 1], None, values).unwrap();
    let result = array_to_pages(
        &d,
        column(Repetition::Optional),
        &flat(),
        &no_levels(),
        no_stats,
        Encoding::Plain,
    );
    assert_eq!(result.err(), Some(EncodeError::UnsupportedEncoding(Encoding::Plain)));
    let values = numbers(DataType::Int32, vec![1], None);
    let d = DictionaryArray::try_new(vec![0], None, values).unwrap();
    let result = array_to_pages(
        &d,
        column(Repetition::Optional),
        &flat(),
        &no_levels(),
        no_stats,
        Encoding::DeltaBinaryPacked,
    );
    assert_eq!(result.err(), Some(EncodeError::UnsupportedEncoding(Encoding::DeltaBinaryPacked)));
}

#[test]
fn empty_array_has_a_dictionary_page_only() {
    let array = numbers(DataType::Int32, vec![], None);
    let no_stats = options(Version::V1, StatisticsOptions::empty(), Some(1));
    let pages = encode_as_dictionary_optional(
        &array,
        &flat(),
        &no_levels(),
        column(Repetition::Optional),
        no_stats,
    )
        .unwrap()
        .unwrap();
    assert_eq!(pages.len(), 1);
    match &pages[0] {
        Page::Dict(dict) => {
            assert_eq!(dict.buffer, Vec::<u8>::new());
            assert_eq!(dict.num_values, 0);
        },
        Page::Data(_) => panic!("the dictionary page comes first"),
    }
}

#[test]
fn column_to_pages_and_plain_fallback() {
    let no_stats = options(Version::V1, StatisticsOptions::empty(), None);
    let array = numbers(DataType::Int8, vec![3, 1, 3, 3], None);
    let pages = encode_as_dictionary_optional(
        &array,
        &flat(),
        &no_levels(),
        column(Repetition::Required),
        no_stats,
    )
        .unwrap()
        .unwrap();
    assert_eq!(pages.len(), 2);
    match &pages[0] {
        Page::Dict(dict) => assert_eq!(dict.buffer, vec![1, 0, 0, 0, 3, 0, 0, 0]),
        Page::Data(_) => panic!("the dictionary page comes first"),
    }
    assert_eq!(data(&pages[1]).buffer, vec![1, 3, 0b1101]);
    // Too many distinct values: written plain.
    let array = numbers(DataType::Int8, (0..17).collect(), None);
    assert!(
        encode_as_dictionary_optional(
            &array,
            &flat(),
            &no_levels(),
            column(Repetition::Required),
            no_stats,
        ).is_none(),
    );
    // A type without a dictionary page.
    let array = numbers(DataType::Boolean, vec![1, 0], None);
    let result = encode_as_dictionary_optional(
        &array,
        &flat(),
        &no_levels(),
        column(Repetition::Required),
        no_stats,
    );
    assert_eq!(result.unwrap().err(), Some(EncodeError::UnsupportedType(DataType::Boolean)));
}

#[test]
fn leaf_span_of_nested_levels() {
    let leaf = Nested::Primitive { is_optional: true, length: 7 };
    assert_eq!(slice_nested_leaf(&vec![leaf]), (0, 7));
    let levels = vec![
        Nested::Struct { is_optional: false, length: 3 },
        Nested::List { is_optional: true, offsets: vec![2, 4, 4, 9] },
        Nested::Primitive { is_optional: true, length: 20 },
    ];
    assert_eq!(slice_nested_leaf(&levels), (2, 7));
    let levels = vec![
        Nested::LargeList { is_optional: true, offsets: vec![0, 1] },
        Nested::FixedSizeList { is_optional: true, width: 3, length: 4 },
        Nested::Primitive { is_optional: true, length: 20 },
    ];
    assert_eq!(slice_nested_leaf(&levels), (0, 12));
    assert_eq!(slice_nested_leaf(&vec![]), (0, 0));
    assert_eq!(slice_nested_leaf(&vec![Nested::Struct { is_optional: true, length: 2 }]), (0, 0));
    let levels = vec![
        Nested::List { is_optional: true, offsets: vec![2, 4, 4, 9] },
        Nested::Primitive { is_optional: false, length: 20 },
    ];
    let cut = with_leaf_length(&levels);
    assert_eq!(cut.len(), 2);
    assert!(
        matches!(
            &cut[0],
            Nested::List { is_optional: true, offsets } if offsets == &vec![2, 4, 4, 9],
        ),
    );
    assert!(matches!(&cut[1], Nested::Primitive { is_optional: false, length: 7 }));
    assert_eq!(levels[0].len(), 3);
    assert_eq!(levels[1].len(), 20);
}

#[test]
fn nested_column_is_one_page() {
    let values = words(DataType::Utf8View, &["a", "b", "c"], None);
    let keys = vec![0, 1, 2, 1, 0, 2, 2, 1, 0, 0];
    let validity = Some(vec![true, true, true, false, true, true, true, true, true, true]);
    let d = DictionaryArray::try_new(keys, validity, values).unwrap();
    let nested = vec![
        Nested::List { is_optional: true, offsets: vec![2, 4, 4, 7] },
        Nested::Primitive { is_optional: true, length: 10 },
    ];
    let levels = EncodedLevels { repetition: vec![0xaa, 0xbb], definition: vec![0xcc] };
    let stats = Statistics {
        null_count: Some(1),
        distinct_count: None,
        max_value: Some(vec![b'c']),
        min_value: None,
    };
    let pages = serialize_keys_nested(
        &d,
        column(Repetition::Optional),
        &nested,
        &levels,
        Some(stats),
        options(Version::V2, StatisticsOptions::full(), Some(1)),
    );
    assert_eq!(pages.len(), 1);
    let page = data(&pages[0]);
    // Rows 2 to 6: keys 2, null, 0, 2, 2 with two bits each.
    assert_eq!(page.buffer, vec![0xaa, 0xbb, 0xcc, 2, 3, 0b10100010, 0]);
    assert_eq!(page.repetition_levels_byte_length, 2);
    assert_eq!(page.definition_levels_byte_length, 1);
    assert_eq!(page.num_values, 5);
    assert_eq!(page.num_rows, 3);
    assert_eq!(page.null_count, 1);
    let stats = page.statistics.as_ref().unwrap();
    assert_eq!(stats.max_value, Some(vec![b'c']));
    assert_eq!(stats.null_count, Some(1));
    // The same through the dispatcher: more than one level means nested.
    let pages = serialize_keys(
        &d,
        column(Repetition::Optional),
        &nested,
        &levels,
        None,
        options(Version::V2, StatisticsOptions::empty(), Some(1)),
    );
    assert_eq!(pages.len(), 1);
    // One level means flat: three bits a key are taken to make four bytes for
    // ten rows, so a page of one byte holds two rows.
    let pages = serialize_keys(
        &d,
        column(Repetition::Optional),
        &flat(),
        &levels,
        None,
        options(Version::V2, StatisticsOptions::empty(), Some(1)),
    );
    assert_eq!(pages.len(), 5);
}

#[test]
fn nested_pages_carry_the_chunk_statistics() {
    let values = numbers(DataType::Int64, vec![-1, 4], None);
    let d = DictionaryArray::try_new(vec![0, 1, 1], None, values).unwrap();
    let nested = vec![
        Nested::Struct { is_optional: false, length: 3 },
        Nested::Primitive { is_optional: true, length: 3 },
    ];
    let levels = EncodedLevels { repetition: vec![], definition: vec![1, 2, 3] };
    let pages = array_to_pages(
        &d,
        column(Repetition::Optional),
        &nested,
        &levels,
        options(Version::V1, StatisticsOptions::full(), None),
        Encoding::RleDictionary,
    )
    .unwrap();
    assert_eq!(pages.len(), 2);
    let page = data(&pages[1]);
    let stats = page.statistics.as_ref().unwrap();
    assert_eq!(stats.min_value, Some(vec![0xff; 8]));
    assert_eq!(stats.max_value, Some(vec![4, 0, 0, 0, 0, 0, 0, 0]));
    assert_eq!(stats.null_count, Some(0));
    assert_eq!(page.buffer, vec![1, 2, 3, 1, 3, 0b110]);
}

#[test]
fn levels_of_a_page() {
    let no_stats = options(Version::V2, StatisticsOptions::empty(), None);
    let levels = EncodedLevels { repetition: vec![1, 2], definition: vec![3] };
    let mut buffer = vec![];
    let lengths = serialize_levels(
        &Some(vec![true, false]),
        2,
        &column(Repetition::Optional),
        &flat(),
        &levels,
        no_stats,
        &mut buffer,
    );
    assert_eq!(buffer, vec![3, 0b01]);
    assert_eq!(lengths, (0, 2));
    let nested = vec![
        Nested::Struct { is_optional: false, length: 2 },
        Nested::Primitive { is_optional: true, length: 2 },
    ];
    let mut buffer = vec![];
    let lengths = serialize_levels(
        &Some(vec![true, false]),
        2,
        &column(Repetition::Optional),
        &nested,
        &levels,
        no_stats,
        &mut buffer,
    );
    assert_eq!(buffer, vec![1, 2, 3]);
    assert_eq!(lengths, (2, 1));
}

#[test]
fn page_record_and_options() {
    let no_stats = options(Version::V1, StatisticsOptions::empty(), None);
    let page = build_plain_page(
        vec![1, 2],
        3,
        4,
        5,
        6,
        7,
        None,
        column(Repetition::Repeated),
        no_stats,
        Encoding::RleDictionary,
    );
    assert_eq!(page.buffer, vec![1, 2]);
    assert_eq!(page.num_values, 3);
    assert_eq!(page.num_rows, 4);
    assert_eq!(page.null_count, 5);
    assert_eq!(page.repetition_levels_byte_length, 6);
    assert_eq!(page.definition_levels_byte_length, 7);
    assert_eq!(page.primitive_type.repetition, Repetition::Repeated);
    assert!(is_nullable(&column(Repetition::Optional)));
    assert!(is_nullable(&column(Repetition::Repeated)));
    assert!(!is_nullable(&column(Repetition::Required)));
    assert!(!no_stats.has_statistics());
    assert!(options(Version::V1, StatisticsOptions::full(), None).has_statistics());
    assert!(StatisticsOptions::empty().is_empty());
    assert!(!StatisticsOptions::full().is_empty());
    assert_eq!(no_stats.page_size(), 1024 * 1024);
    assert_eq!(options(Version::V1, StatisticsOptions::empty(), Some(7)).page_size(), 7);
    let type_ = PrimitiveType::from_physical("x".into(), PhysicalType::ByteArray);
    assert_eq!(type_.repetition, Repetition::Optional);
    let copy = type_.duplicate();
    assert_eq!(copy.name, "x");
    assert_eq!(copy.physical_type, PhysicalType::ByteArray);
    let stats = Statistics {
        null_count: Some(1),
        distinct_count: Some(2),
        max_value: Some(vec![3]),
        min_value: None,
    };
    let copy = stats.duplicate();
    assert_eq!(copy.null_count, Some(1));
    assert_eq!(copy.distinct_count, Some(2));
    assert_eq!(copy.max_value, Some(vec![3]));
    assert_eq!(copy.min_value, None);
}
