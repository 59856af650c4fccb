//! Bit packing: values of a fixed bit width laid end to end, least
//! significant bit first, in groups of eight values.
//!
//! A group of eight values of `width` bits fills exactly `width` bytes, so a
//! packed run is a whole number of groups; the places of a last group that
//! have no value hold zero bits.

use crate::bits::{
    bit_of, bit_value, bits_value, byte_of_bits, fits, lemma_bits_value_of, lemma_byte_of_bits,
    test_bit,
};
use vstd::arithmetic::div_mod::lemma_fundamental_div_mod_converse;
use vstd::prelude::*;

verus! {

/// Bit `b` of group `group`: bit `b % width` of the value at place
/// `b / width` of the group, and zero past the end of `values`.
pub open spec fn group_bit(values: Seq<u32>, width: nat, group: int, b: int) -> bool {
    let k = 8 * group + b / (width as int);
    0 <= k < values.len() && bit_of(values[k] as nat, (b % (width as int)) as nat)
}

/// Byte `r` of group `group`.
pub open spec fn group_byte(values: Seq<u32>, width: nat, group: int, r: int) -> u8 {
    byte_of_bits(|b: int| group_bit(values, width, group, b), 8 * r) as u8
}

/// The `width` bytes of group `group`.
pub open spec fn group_bytes(values: Seq<u32>, width: nat, group: int) -> Seq<u8> {
    Seq::new(width, |r: int| group_byte(values, width, group, r))
}

/// The first `groups` groups of `values`, packed.
pub open spec fn bit_packed(values: Seq<u32>, width: nat, groups: nat) -> Seq<u8>
    decreases groups,
{
    if groups == 0 {
        Seq::empty()
    } else {
        bit_packed(values, width, (groups - 1) as nat) + group_bytes(values, width, groups - 1)
    }
}

/// The value at place `k` of packed `bytes`.
pub open spec fn unpacked(bytes: Seq<u8>, width: nat, k: int) -> nat {
    bits_value(
        |b: int| bit_of(bytes[(k / 8) * width + b / 8] as nat, (b % 8) as nat),
        (k % 8) * width,
        width,
    )
}

/// `groups` packed groups are `groups * width` bytes, and byte `r` of group
/// `group` stands at `group * width + r`.
pub proof fn lemma_bit_packed_index(values: Seq<u32>, width: nat, groups: nat, group: int, r: int)
    requires
        0 <= group < groups,
        0 <= r < width,
    ensures
        bit_packed(values, width, groups).len() == groups * width,
        0 <= group * width + r < groups * width,
        bit_packed(values, width, groups)[group * width + r] == group_byte(
            values,
            width,
            group,
            r,
        ),
    decreases groups,
{
    lemma_bit_packed_len(values, width, groups);
    lemma_bit_packed_len(values, width, (groups - 1) as nat);
    assert(0 <= group * width && (group + 1) * width <= groups * width && (group + 1) * width
        == group * width + width) by (nonlinear_arith)
        requires
            0 <= group < groups,
    ;
    if group < groups - 1 {
        lemma_bit_packed_index(values, width, (groups - 1) as nat, group, r);
    }
}

/// `groups` packed groups are `groups * width` bytes.
pub proof fn lemma_bit_packed_len(values: Seq<u32>, width: nat, groups: nat)
    ensures
        bit_packed(values, width, groups).len() == groups * width,
    decreases groups,
{
    if groups != 0 {
        lemma_bit_packed_len(values, width, (groups - 1) as nat);
        assert(groups * width == (groups - 1) * width + width) by (nonlinear_arith);
    }
}

/// Unpacking place `k` of packed values gives the value at `k`, whatever
/// follows the packed bytes.
pub proof fn lemma_unpacked_of_packed(
    values: Seq<u32>,
    width: nat,
    groups: nat,
    rest: Seq<u8>,
    k: int,
)
    requires
        0 <= k < values.len(),
        k < 8 * groups,
        fits(values[k] as nat, width),
    ensures
        unpacked(bit_packed(values, width, groups) + rest, width, k) == values[k] as nat,
{
    let packed = bit_packed(values, width, groups);
    let bytes = packed + rest;
    let group = k / 8;
    let place = k % 8;
    let f = |b: int| bit_of(bytes[(k / 8) * width + b / 8] as nat, (b % 8) as nat);
    let lo = place * width;
    if width > 0 {
        assert forall|j: nat| j < width implies f(lo + j) == #[trigger] bit_of(
            values[k] as nat,
            j,
        ) by {
            let b = lo + j;
            let r = b / 8;
            let t = b % 8;
            assert(0 <= lo && lo + width <= 8 * width) by (nonlinear_arith)
                requires
                    0 <= place < 8,
                    lo == place * width,
            ;
            lemma_bit_packed_index(values, width, groups, group, r);
            let g = |x: int| group_bit(values, width, group, x);
            lemma_byte_of_bits(g, 8 * r, t as nat);
            lemma_fundamental_div_mod_converse(b, width as int, place, j as int);
        }
    }
    lemma_bits_value_of(f, lo, width, values[k] as nat);
}

/// Bit `b` of group `group` of `values[start..end]`, as zero or one.
fn read_group_bit(
    values: &Vec<u32>,
    start: usize,
    end: usize,
    width: u32,
    group: usize,
    b: u32,
) -> (bit: u8)
    requires
        start <= end <= values.len(),
        0 < width <= 32,
        b < 8 * width,
        8 * group <= end - start,
    ensures
        bit == bit_value(group_bit(values@.subrange(start as int, end as int), width as nat, group as int, b as int)),
{
    let place: usize = (b / width) as usize;
    let left: usize = (end - start) - 8 * group;
    if place < left {
        let v: u32 = values[start + 8 * group + place];
        if test_bit(v, b % width) {
            1
        } else {
            0
        }
    } else {
        0
    }
}

/// Appends the first `groups` groups of `values[start..end]`, packed with
/// `width` bits a value.
pub fn write_bit_packed(
    buffer: &mut Vec<u8>,
    values: &Vec<u32>,
    start: usize,
    end: usize,
    width: u32,
    groups: usize,
)
    requires
        start <= end <= values.len(),
        width <= 32,
        groups > 0 ==> 8 * (groups - 1) <= end - start,
    ensures
        final(buffer)@ == old(buffer)@ + bit_packed(
            values@.subrange(start as int, end as int),
            width as nat,
            groups as nat,
        ),
{
    let ghost before = buffer@;
    let ghost run = values@.subrange(start as int, end as int);
    let mut group: usize = 0;
    while group < groups
        invariant
            start <= end <= values.len(),
            width <= 32,
            groups > 0 ==> 8 * (groups - 1) <= end - start,
            group <= groups,
            run == values@.subrange(start as int, end as int),
            buffer@ == before + bit_packed(run, width as nat, group as nat),
        decreases groups - group,
    {
        let ghost at_group = buffer@;
        let mut r: u32 = 0;
        while r < width
            invariant
                start <= end <= values.len(),
                width <= 32,
                8 * group <= end - start,
                r <= width,
                run == values@.subrange(start as int, end as int),
                buffer@ == at_group + group_bytes(run, width as nat, group as int).take(r as int),
            decreases width - r,
        {
            let b0 = read_group_bit(values, start, end, width, group, 8 * r);
            let b1 = read_group_bit(values, start, end, width, group, 8 * r + 1);
            let b2 = read_group_bit(values, start, end, width, group, 8 * r + 2);
            let b3 = read_group_bit(values, start, end, width, group, 8 * r + 3);
            let b4 = read_group_bit(values, start, end, width, group, 8 * r + 4);
            let b5 = read_group_bit(values, start, end, width, group, 8 * r + 5);
            let b6 = read_group_bit(values, start, end, width, group, 8 * r + 6);
            let b7 = read_group_bit(values, start, end, width, group, 8 * r + 7);
            let byte: u8 = b0 + 2 * b1 + 4 * b2 + 8 * b3 + 16 * b4 + 32 * b5 + 64 * b6 + 128 * b7;
            buffer.push(byte);
            proof {
                reveal_with_fuel(bits_value, 9);
            }
            r = r + 1;
        }
        group = group + 1;
    }
}

} // verus!
