//! The run-length / bit-packing hybrid that keys and levels are written in.
//!
//! A stream is a sequence of runs. A run starts with a ULEB128 header. An odd
//! header opens a bit-packed run of `header / 2` groups of eight values; an
//! even header opens a repeated run of `header / 2` copies of one value, which
//! follows in as many whole bytes as the bit width needs.
//!
//! The encoder writes a repeated run wherever eight or more equal values
//! start, and bit-packs the values before it in groups of eight.

use crate::bit_packing::{
    bit_packed, lemma_bit_packed_len, lemma_unpacked_of_packed, unpacked, write_bit_packed,
};
use crate::bits::{fits, lemma_fits_monotonic};
use crate::varint::{
    le_bytes, le_value, lemma_le_bytes_len, lemma_le_value_of_bytes, lemma_parse_uleb128,
    lemma_uleb128_len, parse_uleb128, uleb128, write_le_bytes, write_uleb128,
};
use vstd::prelude::*;

verus! {

/// The widest value that a stream can hold.
pub const MAX_BIT_WIDTH: u32 = 32;

/// The number of whole bytes that hold the value of a repeated run.
pub open spec fn repeated_value_len(width: nat) -> nat {
    (width + 7) / 8
}

/// How many bytes the run with header `header` takes after its header.
pub open spec fn run_byte_len(header: nat, width: nat) -> nat {
    if header % 2 == 1 {
        (header / 2) * width
    } else {
        repeated_value_len(width)
    }
}

/// How many values the run with header `header` gives when `count` are still
/// to come: a bit-packed run gives its eight values a group, cut to `count`
/// where it is the last; a repeated run gives its length, and none (which no
/// stream may hold) where that is more than `count`.
pub open spec fn run_count(header: nat, count: nat) -> nat {
    if header % 2 == 1 {
        if 8 * (header / 2) <= count {
            8 * (header / 2)
        } else {
            count
        }
    } else {
        if header / 2 <= count {
            header / 2
        } else {
            0
        }
    }
}

/// The first `n` values of the run with header `header` whose bytes start `body`.
pub open spec fn run_values(body: Seq<u8>, header: nat, width: nat, n: nat) -> Seq<nat> {
    if header % 2 == 1 {
        Seq::new(n, |k: int| unpacked(body, width, k))
    } else {
        Seq::new(n, |k: int| le_value(body.take(repeated_value_len(width) as int)))
    }
}

/// Decodes `count` values of `width` bits from `bytes`, which must hold
/// exactly the runs that give them. `None` where the bytes are no such stream.
pub open spec fn decoded(bytes: Seq<u8>, width: nat, count: nat) -> Option<Seq<nat>>
    decreases bytes.len(),
{
    if count == 0 {
        if bytes.len() == 0 {
            Some(Seq::empty())
        } else {
            None
        }
    } else {
        match parse_uleb128(bytes) {
            None => None,
            Some((header, used)) => {
                let len = run_byte_len(header, width);
                let n = run_count(header, count);
                if used == 0 || n == 0 || used + len > bytes.len() {
                    None
                } else {
                    match decoded(bytes.skip((used + len) as int), width, (count - n) as nat) {
                        Some(rest) => Some(
                            run_values(bytes.skip(used as int), header, width, n) + rest,
                        ),
                        None => None,
                    }
                }
            },
        }
    }
}

/// The length of the run of equal values that starts at `i`.
pub open spec fn repeat_len(values: Seq<u32>, i: int) -> nat
    decreases values.len() - i,
{
    if 0 <= i && i + 1 < values.len() && values[i + 1] == values[i] {
        1 + repeat_len(values, i + 1)
    } else {
        1
    }
}

/// Eight or more equal values start at `i`.
pub open spec fn long_run_at(values: Seq<u32>, i: int) -> bool {
    &&& 0 <= i
    &&& i + 8 <= values.len()
    &&& values[i + 1] == values[i]
    &&& values[i + 2] == values[i]
    &&& values[i + 3] == values[i]
    &&& values[i + 4] == values[i]
    &&& values[i + 5] == values[i]
    &&& values[i + 6] == values[i]
    &&& values[i + 7] == values[i]
}

/// The number of groups of eight that are bit-packed from `i` on: groups are
/// taken until one would start on eight or more equal values, or the values end.
pub open spec fn literal_groups(values: Seq<u32>, i: int) -> nat
    decreases values.len() - i,
{
    if i < 0 || i >= values.len() || long_run_at(values, i) {
        0
    } else if i + 8 >= values.len() {
        1
    } else {
        1 + literal_groups(values, i + 8)
    }
}

/// Where the run of equal values that starts at `i` ends.
pub open spec fn repeat_end(values: Seq<u32>, i: int) -> int {
    if i + repeat_len(values, i) <= values.len() {
        i + repeat_len(values, i)
    } else {
        values.len() as int
    }
}

/// Where the bit-packed run of `groups` groups that starts at `i` ends.
pub open spec fn literal_end(values: Seq<u32>, i: int, groups: nat) -> int {
    if i + 8 * groups <= values.len() {
        i + 8 * groups
    } else {
        values.len() as int
    }
}

/// A repeated run: `count` copies of `value`.
pub open spec fn repeated_run(count: nat, value: u32, width: nat) -> Seq<u8> {
    uleb128(2 * count) + le_bytes(value as nat, repeated_value_len(width))
}

/// A bit-packed run: the first `groups` groups of `values`.
pub open spec fn bit_packed_run(values: Seq<u32>, width: nat, groups: nat) -> Seq<u8> {
    uleb128(2 * groups + 1) + bit_packed(values, width, groups)
}

/// The stream that holds `values[i..]`.
pub open spec fn encoded_from(values: Seq<u32>, width: nat, i: int) -> Seq<u8>
    decreases values.len() - i,
{
    if i < 0 || i >= values.len() {
        Seq::empty()
    } else if long_run_at(values, i) {
        let end = repeat_end(values, i);
        repeated_run((end - i) as nat, values[i], width) + encoded_from(values, width, end)
    } else {
        let groups = literal_groups(values, i);
        let end = literal_end(values, i, groups);
        bit_packed_run(values.subrange(i, end), width, groups) + encoded_from(values, width, end)
    }
}

/// The stream that holds `values`, each written with `width` bits.
pub open spec fn encoded(values: Seq<u32>, width: nat) -> Seq<u8> {
    encoded_from(values, width, 0)
}

/// The values as plain numbers.
pub open spec fn as_nats(values: Seq<u32>) -> Seq<nat> {
    Seq::new(values.len(), |k: int| values[k] as nat)
}

/// Every value can be written with `width` bits.
pub open spec fn all_fit(values: Seq<u32>, width: nat) -> bool {
    forall|k: int| 0 <= k < values.len() ==> fits(#[trigger] values[k] as nat, width)
}

/// The run of equal values that starts at `i` stays inside the values and
/// holds one value.
pub proof fn lemma_repeat_len(values: Seq<u32>, i: int)
    requires
        0 <= i < values.len(),
    ensures
        i + repeat_len(values, i) <= values.len(),
        forall|k: int| i <= k < i + repeat_len(values, i) ==> values[k] == values[i],
    decreases values.len() - i,
{
    if i + 1 < values.len() && values[i + 1] == values[i] {
        lemma_repeat_len(values, i + 1);
    }
}

/// Decoding a stream that starts with one run gives the values of the run,
/// then what the rest of the stream decodes to.
pub proof fn lemma_decoded_run(header: nat, run: Seq<u8>, tail: Seq<u8>, width: nat, count: nat)
    requires
        count > 0,
        run.len() == run_byte_len(header, width),
        run_count(header, count) > 0,
    ensures
        decoded(uleb128(header) + run + tail, width, count) == match decoded(
            tail,
            width,
            (count - run_count(header, count)) as nat,
        ) {
            Some(rest) => Some(
                run_values(run + tail, header, width, run_count(header, count)) + rest,
            ),
            None => None,
        },
{
    let bytes = uleb128(header) + run + tail;
    let used = uleb128(header).len();
    lemma_parse_uleb128(header, run + tail);
    lemma_uleb128_len(header);
    assert(bytes =~= uleb128(header) + (run + tail));
    assert(bytes.skip(used as int) =~= run + tail);
    assert(bytes.skip((used + run.len()) as int) =~= tail);
}

/// A repeated run of a value that fits decodes to copies of the value.
pub proof fn lemma_repeated_run_values(value: u32, width: nat, tail: Seq<u8>, n: nat)
    requires
        fits(value as nat, width),
    ensures
        le_bytes(value as nat, repeated_value_len(width)).len() == repeated_value_len(width),
        run_values(le_bytes(value as nat, repeated_value_len(width)) + tail, 2 * n, width, n)
            == Seq::new(n, |k: int| value as nat),
{
    let vlen = repeated_value_len(width);
    let body = le_bytes(value as nat, vlen) + tail;
    lemma_le_bytes_len(value as nat, vlen);
    assert(body.take(vlen as int) =~= le_bytes(value as nat, vlen));
    lemma_fits_monotonic(value as nat, value as nat, width, 8 * vlen);
    lemma_le_value_of_bytes(value as nat, vlen);
}

/// A bit-packed run of values that fit decodes to the values.
pub proof fn lemma_bit_packed_run_values(
    run: Seq<u32>,
    width: nat,
    groups: nat,
    tail: Seq<u8>,
)
    requires
        all_fit(run, width),
        run.len() <= 8 * groups,
    ensures
        bit_packed(run, width, groups).len() == groups * width,
        run_values(bit_packed(run, width, groups) + tail, 2 * groups + 1, width, run.len())
            == as_nats(run),
{
    lemma_bit_packed_len(run, width, groups);
    let got = run_values(bit_packed(run, width, groups) + tail, 2 * groups + 1, width, run.len());
    assert forall|k: int| 0 <= k < run.len() implies got[k] == as_nats(run)[k] by {
        lemma_unpacked_of_packed(run, width, groups, tail, k);
    }
}

/// The bit-packed run that starts at `i` has at least one group, covers
/// `values[i..end]` and ends inside the values.
pub proof fn lemma_literal_groups(values: Seq<u32>, i: int)
    requires
        0 <= i < values.len(),
        !long_run_at(values, i),
    ensures
        literal_groups(values, i) >= 1,
        i < literal_end(values, i, literal_groups(values, i)) <= values.len(),
        literal_end(values, i, literal_groups(values, i)) - i <= 8 * literal_groups(values, i),
        literal_end(values, i, literal_groups(values, i)) < values.len() ==> literal_end(
            values,
            i,
            literal_groups(values, i),
        ) == i + 8 * literal_groups(values, i),
{
}

/// Decoding the stream of `values[i..]` gives `values[i..]` back.
pub proof fn lemma_decoded_from(values: Seq<u32>, width: nat, i: int)
    requires
        0 <= i <= values.len(),
        all_fit(values, width),
    ensures
        decoded(encoded_from(values, width, i), width, (values.len() - i) as nat) == Some(
            as_nats(values.subrange(i, values.len() as int)),
        ),
    decreases values.len() - i,
{
    let len = values.len() as int;
    let count = (len - i) as nat;
    let want = as_nats(values.subrange(i, len));
    if i >= len {
    } else if long_run_at(values, i) {
        lemma_repeat_len(values, i);
        let end = repeat_end(values, i);
        let n = (end - i) as nat;
        let tail = encoded_from(values, width, end);
        let run = le_bytes(values[i] as nat, repeated_value_len(width));
        lemma_decoded_from(values, width, end);
        lemma_repeated_run_values(values[i], width, tail, n);
        lemma_decoded_run(2 * n, run, tail, width, count);
        assert(Seq::new(n, |k: int| values[i] as nat) + as_nats(values.subrange(end, len))
            =~= want);
    } else {
        lemma_literal_groups(values, i);
        let groups = literal_groups(values, i);
        let end = literal_end(values, i, groups);
        let run = values.subrange(i, end);
        let tail = encoded_from(values, width, end);
        lemma_decoded_from(values, width, end);
        lemma_bit_packed_run_values(run, width, groups, tail);
        lemma_decoded_run(2 * groups + 1, bit_packed(run, width, groups), tail, width, count);
        assert(encoded_from(values, width, i) =~= uleb128(2 * groups + 1) + bit_packed(
            run,
            width,
            groups,
        ) + tail);
    }
}

/// Decoding the stream of `values` gives `values` back.
pub proof fn lemma_decoded_encoded(values: Seq<u32>, width: nat)
    requires
        all_fit(values, width),
    ensures
        decoded(encoded(values, width), width, values.len()) == Some(as_nats(values)),
{
    lemma_decoded_from(values, width, 0);
}

/// Whether eight or more equal values start at `i`.
fn has_long_run(values: &Vec<u32>, i: usize) -> (long: bool)
    requires
        i < values.len(),
    ensures
        long == long_run_at(values@, i as int),
{
    if values.len() - i < 8 {
        return false;
    }
    let v = values[i];
    values[i + 1] == v && values[i + 2] == v && values[i + 3] == v && values[i + 4] == v
        && values[i + 5] == v && values[i + 6] == v && values[i + 7] == v
}

/// Where the run of equal values that starts at `i` ends.
fn find_run_end(values: &Vec<u32>, i: usize) -> (end: usize)
    requires
        i < values.len(),
    ensures
        end == repeat_end(values@, i as int),
        end == i + repeat_len(values@, i as int),
        i < end <= values.len(),
{
    let mut last: usize = i;
    proof {
        lemma_repeat_len(values@, i as int);
    }
    while last + 1 < values.len() && values[last + 1] == values[last]
        invariant
            i <= last < values.len(),
            repeat_len(values@, i as int) == (last - i) + repeat_len(values@, last as int),
        decreases values.len() - last,
    {
        last = last + 1;
    }
    last + 1
}

/// How many groups the bit-packed run that starts at `i` has, and where it ends.
fn find_literal_run(values: &Vec<u32>, i: usize) -> (run: (usize, usize))
    requires
        i < values.len(),
        !long_run_at(values@, i as int),
    ensures
        run.0 == literal_groups(values@, i as int),
        run.1 == literal_end(values@, i as int, run.0 as nat),
        run.0 >= 1,
        8 * (run.0 - 1) < values.len() - i,
        i < run.1 <= values.len(),
{
    let n = values.len();
    let mut groups: usize = 0;
    let mut end: usize = i;
    let mut more: bool = true;
    while more
        invariant
            n == values.len(),
            i <= end <= n,
            more ==> end < n && !long_run_at(values@, end as int) && end == i + 8 * groups,
            !more ==> groups >= 1 && end == literal_end(values@, i as int, groups as nat) && 8 * (
            groups - 1) < n - i && i < end,
            literal_groups(values@, i as int) == groups + if more {
                literal_groups(values@, end as int)
            } else {
                0
            },
        decreases n - end + if more { 1int } else { 0int },
    {
        groups = groups + 1;
        if n - end <= 8 {
            end = n;
            more = false;
        } else {
            end = end + 8;
            more = !has_long_run(values, end);
            assert(!more ==> literal_groups(values@, end as int) == 0);
        }
    }
    (groups, end)
}

/// Appends the stream that holds `values`, each written with `width` bits.
///
/// The stream decodes to `values` where each of them fits in `width` bits
/// (`lemma_decoded_encoded`).
pub fn encode(buffer: &mut Vec<u8>, values: &Vec<u32>, width: u32)
    requires
        width <= MAX_BIT_WIDTH,
    ensures
        final(buffer)@ == old(buffer)@ + encoded(values@, width as nat),
{
    let ghost before = buffer@;
    let n = values.len();
    let mut i: usize = 0;
    while i < n
        invariant
            n == values.len(),
            i <= n,
            width <= MAX_BIT_WIDTH,
            buffer@ + encoded_from(values@, width as nat, i as int) == before + encoded(
                values@,
                width as nat,
            ),
        decreases n - i,
    {
        let ghost written = buffer@;
        let ghost tail_from = encoded_from(values@, width as nat, i as int);
        if has_long_run(values, i) {
            let end = find_run_end(values, i);
            write_uleb128(buffer, 2 * ((end - i) as u128));
            write_le_bytes(buffer, values[i] as u64, ((width + 7) / 8) as usize);
            proof {
                assert(buffer@ + encoded_from(values@, width as nat, end as int) =~= written
                    + tail_from);
            }
            i = end;
        } else {
            let (groups, end) = find_literal_run(values, i);
            write_uleb128(buffer, 2 * (groups as u128) + 1);
            write_bit_packed(buffer, values, i, end, width, groups);
            proof {
                assert(buffer@ + encoded_from(values@, width as nat, end as int) =~= written
                    + tail_from);
            }
            i = end;
        }
    }
}

} // verus!
