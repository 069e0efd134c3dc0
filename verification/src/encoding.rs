//! Fixed-width little-endian integers, as the protocol writes them into
//! hash preimages, signed messages and stored records.

use vstd::prelude::*;

verus! {

/// The `width` low bytes of `value`, least significant first.
pub open spec fn le_bytes(value: nat, width: nat) -> Seq<u8>
    decreases width,
{
    if width == 0 {
        Seq::empty()
    } else {
        seq![(value % 256) as u8] + le_bytes(value / 256, (width - 1) as nat)
    }
}

/// The number that `bytes` encode, least significant byte first.
pub open spec fn le_value(bytes: Seq<u8>) -> nat
    decreases bytes.len(),
{
    if bytes.len() == 0 {
        0
    } else {
        bytes[0] as nat + 256 * le_value(bytes.skip(1))
    }
}

/// The number that `bytes` encode, most significant byte first.
pub open spec fn be_value(bytes: Seq<u8>) -> nat
    decreases bytes.len(),
{
    if bytes.len() == 0 {
        0
    } else {
        256 * be_value(bytes.drop_last()) + bytes.last() as nat
    }
}

/// 256 to the power of `width`.
pub open spec fn pow256(width: nat) -> nat
    decreases width,
{
    if width == 0 {
        1
    } else {
        256 * pow256((width - 1) as nat)
    }
}

pub proof fn lemma_le_bytes_len(value: nat, width: nat)
    ensures
        le_bytes(value, width).len() == width,
    decreases width,
{
    if width > 0 {
        lemma_le_bytes_len(value / 256, (width - 1) as nat);
    }
}

/// Decoding what was encoded gives the value back, where it fits the width.
pub proof fn lemma_le_round_trip(value: nat, width: nat)
    requires
        value < pow256(width),
    ensures
        le_value(le_bytes(value, width)) == value,
    decreases width,
{
    if width > 0 {
        let rest = le_bytes(value / 256, (width - 1) as nat);
        let all = le_bytes(value, width);
        assert(all.skip(1) =~= rest);
        assert(value / 256 < pow256((width - 1) as nat)) by {
            assert(value < 256 * pow256((width - 1) as nat));
        }
        lemma_le_round_trip(value / 256, (width - 1) as nat);
    }
}

/// Encoding what was decoded gives the bytes back.
pub proof fn lemma_le_value_bytes(bytes: Seq<u8>)
    ensures
        le_bytes(le_value(bytes), bytes.len()) == bytes,
        le_value(bytes) < pow256(bytes.len()),
    decreases bytes.len(),
{
    if bytes.len() > 0 {
        let rest = bytes.skip(1);
        lemma_le_value_bytes(rest);
        let v = le_value(bytes);
        assert(v == bytes[0] as nat + 256 * le_value(rest));
        assert(v % 256 == bytes[0] as nat);
        assert(v / 256 == le_value(rest));
        assert(le_bytes(v, bytes.len()) =~= bytes);
    }
}

pub proof fn lemma_pow256_8()
    ensures
        pow256(1) == 0x100,
        pow256(2) == 0x1_0000,
        pow256(4) == 0x1_0000_0000,
        pow256(8) == 0x1_0000_0000_0000_0000,
{
    reveal_with_fuel(pow256, 9);
}

/// Appends the `width` low bytes of `value` to `out`, least significant
/// first.
pub fn push_le(out: &mut Vec<u8>, value: u64, width: usize)
    ensures
        final(out)@ == old(out)@ + le_bytes(value as nat, width as nat),
{
    let mut rest = value;
    let mut i: usize = 0;
    assert(le_bytes(value as nat, width as nat) =~= Seq::<u8>::empty() + le_bytes(
        value as nat,
        width as nat,
    ));
    let ghost mut written: Seq<u8> = Seq::empty();
    while i < width
        invariant
            i <= width,
            out@ == old(out)@ + written,
            written + le_bytes(rest as nat, (width - i) as nat) == le_bytes(
                value as nat,
                width as nat,
            ),
        decreases width - i,
    {
        let byte = (rest % 256) as u8;
        proof {
            let tail = le_bytes(rest as nat / 256, (width - i - 1) as nat);
            assert(le_bytes(rest as nat, (width - i) as nat) == seq![byte] + tail);
            assert(written.push(byte) + tail =~= written + (seq![byte] + tail));
            assert((old(out)@ + written).push(byte) =~= old(out)@ + written.push(byte));
            written = written.push(byte);
        }
        out.push(byte);
        rest = rest / 256;
        i += 1;
    }
    assert(written =~= le_bytes(value as nat, width as nat));
}

/// Appends `bytes` to `out`.
pub fn push_bytes(out: &mut Vec<u8>, bytes: &[u8])
    ensures
        final(out)@ == old(out)@ + bytes@,
{
    let len = bytes.len();
    let mut i: usize = 0;
    while i < len
        invariant
            i <= len,
            len == bytes@.len(),
            out@ == old(out)@ + bytes@.take(i as int),
        decreases len - i,
    {
        out.push(bytes[i]);
        i += 1;
    }
}

/// Reads the number that `width` bytes of `bytes` from `at` on encode,
/// least significant byte first.
pub fn read_le(bytes: &[u8], at: usize, width: usize) -> (value: u64)
    requires
        width <= 8,
        at + width <= bytes@.len(),
    ensures
        value == le_value(bytes@.subrange(at as int, at + width)),
{
    let ghost field = bytes@.subrange(at as int, at + width);
    let len = bytes.len();
    let mut value: u64 = 0;
    let mut i: usize = width;
    proof {
        lemma_pow256_8();
    }
    while i > 0
        invariant
            i <= width <= 8,
            at + width <= bytes@.len(),
            len == bytes@.len(),
            field == bytes@.subrange(at as int, at + width),
            value == le_value(field.skip(i as int)),
            value < pow256((width - i) as nat),
        decreases i,
    {
        i -= 1;
        let byte = bytes[at + i];
        proof {
            let tail = field.skip(i as int);
            assert(tail.skip(1) =~= field.skip(i + 1));
            lemma_pow256_le((width - i) as nat, 8);
            lemma_pow256_8();
        }
        value = value * 256 + byte as u64;
    }
    assert(field.skip(0) =~= field);
    value
}

/// Powers of 256 grow with the exponent.
pub proof fn lemma_pow256_le(a: nat, b: nat)
    requires
        a <= b,
    ensures
        pow256(a) <= pow256(b),
        pow256(a) >= 1,
    decreases b,
{
    if b > 0 {
        if a < b {
            lemma_pow256_le(a, (b - 1) as nat);
        } else {
            lemma_pow256_le((a - 1) as nat, (b - 1) as nat);
        }
    }
}

} // verus!
