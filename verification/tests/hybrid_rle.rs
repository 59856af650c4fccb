use parquet_dictionary::hybrid_rle::encode;

#[test]
fn encode_bit_packs_short_input() {
    let mut buffer = vec![];
    encode(&mut buffer, &vec![1, 0, 0, 1, 1, 1, 0, 1, 1, 0, 1, 1, 1], 1);
    assert_eq!(buffer, vec![(2 << 1) | 1, 0b10111001, 0b00011101]);
}

#[test]
fn encode_repeats_long_runs() {
    let mut buffer = vec![];
    encode(&mut buffer, &vec![7; 100], 3);
    assert_eq!(buffer, vec![200, 1, 7]);
}
