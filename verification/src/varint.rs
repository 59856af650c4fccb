//! Unsigned integers as bytes: the variable-length form that run headers use,
//! and the fixed-length little-endian form.

use vstd::prelude::*;

verus! {

/// The ULEB128 form of `n`: seven bits a byte, least significant first, the
/// high bit of a byte set while more bytes follow.
pub open spec fn uleb128(n: nat) -> Seq<u8>
    decreases n,
{
    if n < 128 {
        seq![n as u8]
    } else {
        seq![(n % 128 + 128) as u8] + uleb128(n / 128)
    }
}

/// Reads one ULEB128 number from the front of `bytes`: the number and how
/// many bytes it took, or `None` where the bytes end before the number does.
pub open spec fn parse_uleb128(bytes: Seq<u8>) -> Option<(nat, nat)>
    decreases bytes.len(),
{
    if bytes.len() == 0 {
        None
    } else if bytes[0] < 128 {
        Some((bytes[0] as nat, 1nat))
    } else {
        match parse_uleb128(bytes.skip(1)) {
            Some((value, used)) => Some((((bytes[0] - 128) + 128 * value) as nat, used + 1)),
            None => None,
        }
    }
}

/// `v` in `len` bytes, least significant byte first; what does not fit is cut off.
pub open spec fn le_bytes(v: nat, len: nat) -> Seq<u8>
    decreases len,
{
    if len == 0 {
        Seq::empty()
    } else {
        seq![(v % 256) as u8] + le_bytes(v / 256, (len - 1) as nat)
    }
}

/// The number that `bytes` hold, least significant byte first.
pub open spec fn le_value(bytes: Seq<u8>) -> nat
    decreases bytes.len(),
{
    if bytes.len() == 0 {
        0
    } else {
        bytes[0] as nat + 256 * le_value(bytes.skip(1))
    }
}

/// A ULEB128 number is at least one byte long.
pub proof fn lemma_uleb128_len(n: nat)
    ensures
        uleb128(n).len() >= 1,
    decreases n,
{
    if n >= 128 {
        lemma_uleb128_len(n / 128);
    }
}

/// Parsing what `uleb128` wrote gives the number back and stops where it
/// ends, whatever follows.
pub proof fn lemma_parse_uleb128(n: nat, rest: Seq<u8>)
    ensures
        parse_uleb128(uleb128(n) + rest) == Some((n, uleb128(n).len())),
    decreases n,
{
    let bytes = uleb128(n) + rest;
    if n < 128 {
    } else {
        lemma_parse_uleb128(n / 128, rest);
        assert(bytes.skip(1) =~= uleb128(n / 128) + rest);
    }
}

/// `le_bytes` gives as many bytes as asked for.
pub proof fn lemma_le_bytes_len(v: nat, len: nat)
    ensures
        le_bytes(v, len).len() == len,
    decreases len,
{
    if len != 0 {
        lemma_le_bytes_len(v / 256, (len - 1) as nat);
    }
}

/// A number below 256 to the power of `len` is read back from its `len`
/// little-endian bytes.
pub proof fn lemma_le_value_of_bytes(v: nat, len: nat)
    requires
        crate::bits::fits(v, 8 * len),
    ensures
        le_value(le_bytes(v, len)) == v,
    decreases len,
{
    if len != 0 {
        reveal_with_fuel(crate::bits::fits, 9);
        assert(crate::bits::fits(v / 256, (8 * (len - 1)) as nat)) by {
        }
        lemma_le_value_of_bytes(v / 256, (len - 1) as nat);
        let bytes = le_bytes(v, len);
        assert(bytes.skip(1) =~= le_bytes(v / 256, (len - 1) as nat));
    }
}

/// Appends the ULEB128 form of `n`.
pub fn write_uleb128(buffer: &mut Vec<u8>, n: u128)
    ensures
        final(buffer)@ == old(buffer)@ + uleb128(n as nat),
{
    let ghost before = buffer@;
    let mut rest: u128 = n;
    while rest >= 128
        invariant
            buffer@ + uleb128(rest as nat) == before + uleb128(n as nat),
        decreases rest,
    {
        buffer.push((rest % 128 + 128) as u8);
        rest = rest / 128;
    }
    buffer.push(rest as u8);
}

/// Appends `v` in `len` little-endian bytes.
pub fn write_le_bytes(buffer: &mut Vec<u8>, v: u64, len: usize)
    ensures
        final(buffer)@ == old(buffer)@ + le_bytes(v as nat, len as nat),
{
    let ghost before = buffer@;
    let mut rest: u64 = v;
    let mut left: usize = len;
    while left > 0
        invariant
            buffer@ + le_bytes(rest as nat, left as nat) == before + le_bytes(v as nat, len as nat),
        decreases left,
    {
        let ghost written = buffer@;
        buffer.push((rest % 256) as u8);
        proof {
            assert(buffer@ + le_bytes((rest / 256) as nat, (left - 1) as nat) =~= written
                + le_bytes(rest as nat, left as nat));
        }
        rest = rest / 256;
        left = left - 1;
    }
}

} // verus!
