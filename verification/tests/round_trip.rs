use parquet_dictionary::dictionary::{
    array_to_pages, dictionary_from_integers, pack_dictionary, select_dictionary,
};
use parquet_dictionary::hybrid_rle::encode;
use parquet_dictionary::min_max_dictionary::{
    min_max_integer_encode_as_dictionary_optional, DictionaryDecision, IntegerWidth,
};
use parquet_dictionary::nested::{EncodedLevels, Nested};
use parquet_dictionary::page::{
    CompressionOptions, Encoding, Page, PhysicalType, PrimitiveType, Repetition,
    StatisticsOptions, Version, WriteOptions,
};
use parquet_dictionary::types::{ArrayValues, DataType, DictionaryArray, TypedArray};
use parquet_dictionary::varint::{write_le_bytes, write_uleb128};

/// Reads one ULEB128 number.
fn read_uleb128(bytes: &[u8], at: &mut usize) -> u64 {
    let mut value = 0u64;
    let mut shift = 0;
    loop {
        let byte = bytes[*at];
        *at += 1;
        value |= ((byte & 0x7f) as u64) << shift;
        if byte < 128 {
            return value;
        }
        shift += 7;
    }
}

/// Reads `count` values of `width` bits from a hybrid stream that must end with them.
fn read_hybrid(bytes: &[u8], width: u32, count: usize) -> Vec<u32> {
    let mut values = vec![];
    let mut at = 0;
    while values.len() < count {
        let header = read_uleb128(bytes, &mut at);
        if header & 1 == 1 {
            let groups = (header >> 1) as usize;
            let run = &bytes[at..at + groups * width as usize];
            at += run.len();
            for k in 0..groups * 8 {
                if values.len() == count {
                    break;
                }
                let mut value = 0u32;
                for j in 0..width as usize {
                    let bit = k * width as usize + j;
                    if (run[bit / 8] >> (bit % 8)) & 1 == 1 {
                        value |= 1 << j;
                    }
                }
                values.push(value);
            }
        } else {
            let len = (width as usize + 7) / 8;
            let mut value = 0u32;
            for (i, byte) in bytes[at..at + len].iter().enumerate() {
                value |= (*byte as u32) << (8 * i);
            }
            at += len;
            for _ in 0..header >> 1 {
                values.push(value);
            }
        }
    }
    assert_eq!(values.len(), count);
    assert_eq!(at, bytes.len());
    values
}

/// Reads the rows of the data pages of a flat column: a key, or none for a null row.
fn read_rows(pages: &[Page], is_optional: bool) -> Vec<Option<u32>> {
    let mut rows = vec![];
    for page in pages {
        let Page::Data(page) = page else { panic!("a data page was expected") };
        let split = page.definition_levels_byte_length;
        let levels = if !is_optional {
            vec![1; page.num_rows]
        } else if page.version == Version::V1 {
            let len = u32::from_le_bytes(page.buffer[..4].try_into().unwrap()) as usize;
            assert_eq!(len + 4, split);
            read_hybrid(&page.buffer[4..split], 1, page.num_rows)
        } else {
            read_hybrid(&page.buffer[..split], 1, page.num_rows)
        };
        let valid = levels.iter().filter(|level| **level == 1).count();
        assert_eq!(page.num_rows - valid, page.null_count);
        let width = page.buffer[split] as u32;
        let mut keys = read_hybrid(&page.buffer[split + 1..], width, valid).into_iter();
        for level in levels {
            rows.push(if level == 1 { keys.next() } else { None });
        }
    }
    rows
}

fn write_options(version: Version, data_page_size: Option<usize>) -> WriteOptions {
    WriteOptions {
        statistics: StatisticsOptions::empty(),
        compression: CompressionOptions::Uncompressed,
        version,
        data_page_size,
    }
}

fn column(repetition: Repetition) -> PrimitiveType {
    PrimitiveType { name: "col".into(), repetition, physical_type: PhysicalType::Int64 }
}

fn logical(array: &TypedArray) -> Vec<Option<i128>> {
    let ArrayValues::Integers(values) = &array.values else { panic!("numbers were expected") };
    (0..values.len())
        .map(|i| match &array.validity {
            Some(mask) if !mask[i] => None,
            _ => Some(values[i]),
        })
        .collect()
}

fn logical_of_dictionary(d: &DictionaryArray) -> Vec<Option<i128>> {
    let ArrayValues::Integers(values) = &d.values.values else { panic!("numbers were expected") };
    (0..d.keys.len())
        .map(|i| match &d.validity {
            Some(mask) if !mask[i] => None,
            _ => Some(values[d.keys[i] as usize]),
        })
        .collect()
}

fn round_trip(array: &TypedArray, version: Version, repetition: Repetition, size: Option<usize>) {
    let d = select_dictionary(array).unwrap();
    let flat = vec![Nested::Primitive { is_optional: true, length: array.len() }];
    let levels = EncodedLevels { repetition: vec![], definition: vec![] };
    let pages = array_to_pages(
        &d,
        column(repetition),
        &flat,
        &levels,
        write_options(version, size),
        Encoding::RleDictionary,
    )
    .unwrap();
    let Page::Dict(dict) = &pages[0] else { panic!("the dictionary page comes first") };
    let values: Vec<i128> = dict
        .buffer
        .chunks(8)
        .map(|chunk| i64::from_le_bytes(chunk.try_into().unwrap()) as i128)
        .collect();
    assert_eq!(values.len(), dict.num_values);
    let rows = read_rows(&pages[1..], repetition != Repetition::Required);
    let decoded: Vec<Option<i128>> =
        rows.iter().map(|row| row.map(|key| values[key as usize])).collect();
    assert_eq!(decoded, logical(array));
}

fn sample(rows: usize, distinct: i128, with_nulls: bool) -> TypedArray {
    let values: Vec<i128> = (0..rows as i128).map(
        |i| (i * i * 7 + i / 13) % distinct - 5,
    ).collect();
    let validity = with_nulls.then(|| (0..rows).map(|i| i % 7 != 3 && i % 50 > 8).collect());
    TypedArray::try_new(DataType::Int64, ArrayValues::Integers(values), validity).unwrap()
}

#[test]
fn round_trip_of_flat_columns() {
    for version in [Version::V1, Version::V2] {
        for size in [Some(1), Some(64), None] {
            round_trip(&sample(1000, 30, true), version, Repetition::Optional, size);
            round_trip(&sample(1000, 1, true), version, Repetition::Optional, size);
            round_trip(&sample(1000, 30, false), version, Repetition::Optional, size);
            round_trip(&sample(1000, 30, false), version, Repetition::Required, size);
            round_trip(&sample(9, 300, true), version, Repetition::Optional, size);
            round_trip(&sample(0, 3, false), version, Repetition::Optional, size);
        }
    }
}

#[test]
fn round_trip_of_a_column_of_nulls() {
    let array = TypedArray::try_new(
        DataType::Int64,
        ArrayValues::Integers(vec![4; 40]),
        Some(vec![false; 40]),
    )
    .unwrap();
    round_trip(&array, Version::V1, Repetition::Optional, Some(2));
}

#[test]
fn round_trip_of_null_positions() {
    let values = TypedArray::try_new(
        DataType::Utf8View,
        ArrayValues::Bytes(vec![b"A".to_vec()]),
        None,
    )
    .unwrap();
    let validity = vec![true, false, true, false, true];
    let d = DictionaryArray::try_new(vec![0; 5], Some(validity), values).unwrap();
    let flat = vec![Nested::Primitive { is_optional: true, length: 5 }];
    let levels = EncodedLevels { repetition: vec![], definition: vec![] };
    let pages = array_to_pages(
        &d,
        column(Repetition::Optional),
        &flat,
        &levels,
        write_options(Version::V1, Some(1)),
        Encoding::RleDictionary,
    )
    .unwrap();
    let Page::Dict(dict) = &pages[0] else { panic!("the dictionary page comes first") };
    assert_eq!(dict.buffer, vec![1, 0, 0, 0, b'A']);
    assert_eq!(read_rows(&pages[1..], true), vec![Some(0), None, Some(0), None, Some(0)]);
}

#[test]
fn hybrid_round_trip_at_every_width() {
    for width in 0..=32u32 {
        let mask = if width == 32 { u32::MAX } else { (1u32 << width) - 1 };
        for count in [0usize, 1, 7, 8, 9, 16, 100, 257] {
            let values: Vec<u32> = (0..count as u32)
                .map(|i| if i % 40 < 17 { 0x9e37_79b9 } else { i.wrapping_mul(0x85eb_ca6b) })
                .map(|value| value & mask)
                .collect();
            let mut buffer = vec![];
            encode(&mut buffer, &values, width);
            assert_eq!(read_hybrid(&buffer, width, count), values);
        }
    }
}

#[test]
fn numbers_as_bytes() {
    let mut buffer = vec![];
    write_uleb128(&mut buffer, 0);
    write_uleb128(&mut buffer, 127);
    write_uleb128(&mut buffer, 128);
    write_uleb128(&mut buffer, 300);
    assert_eq!(buffer, vec![0, 127, 0x80, 1, 0xac, 2]);
    let mut at = 4;
    assert_eq!(read_uleb128(&buffer, &mut at), 300);
    let mut buffer = vec![];
    write_le_bytes(&mut buffer, 0x0102_0304, 4);
    write_le_bytes(&mut buffer, 0x0102_0304, 2);
    write_le_bytes(&mut buffer, 5, 0);
    assert_eq!(buffer, vec![4, 3, 2, 1, 4, 3]);
}

#[test]
fn both_paths_give_the_same_column() {
    let array = sample(500, 23, true);
    let fast = match min_max_integer_encode_as_dictionary_optional(&array, IntegerWidth::Bits64) {
        DictionaryDecision::Found(d) => d,
        _ => panic!("a dictionary was expected"),
    };
    let general = pack_dictionary(&array).unwrap();
    assert_eq!(logical_of_dictionary(&fast), logical(&array));
    assert_eq!(logical_of_dictionary(&general), logical(&array));
    assert_eq!(fast.values.len(), general.values.len());
}

#[test]
fn dictionary_from_a_packing_of_patterns() {
    let big = u64::MAX as i128;
    let array =
        TypedArray::try_new(DataType::UInt64, ArrayValues::Integers(vec![big, 3, big]), None)
            .unwrap();
    let d = dictionary_from_integers(&array, vec![1, 0, 1], vec![3, -1]);
    assert_eq!(d.keys, vec![1, 0, 1]);
    assert_eq!(logical_of_dictionary(&d), vec![Some(big), Some(3), Some(big)]);
    let array =
        TypedArray::try_new(DataType::Int64, ArrayValues::Integers(vec![-1, 3, -1]), None).unwrap();
    let d = dictionary_from_integers(&array, vec![1, 0, 1], vec![3, -1]);
    assert_eq!(logical_of_dictionary(&d), vec![Some(-1), Some(3), Some(-1)]);
}
