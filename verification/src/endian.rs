//! Little-endian integers, as every multi-byte field of a store file is
//! written, and the byte strings that hold them.

use vstd::prelude::*;

verus! {

/// 256 to the power `n`.
pub open spec fn pow256(n: nat) -> nat
    decreases n,
{
    if n == 0 {
        1
    } else {
        256 * pow256((n - 1) as nat)
    }
}

/// The little-endian encoding of `value` in `width` bytes: byte `i` is digit
/// `i` of `value` in base 256. Digits beyond `width` are dropped.
pub open spec fn le_bytes(value: nat, width: nat) -> Seq<u8>
    decreases width,
{
    if width == 0 {
        Seq::<u8>::empty()
    } else {
        seq![(value % 256) as u8] + le_bytes(value / 256, (width - 1) as nat)
    }
}

/// The number that `bytes` encode in little-endian order.
pub open spec fn le_value(bytes: Seq<u8>) -> nat
    decreases bytes.len(),
{
    if bytes.len() == 0 {
        0
    } else {
        bytes[0] as nat + 256 * le_value(bytes.drop_first())
    }
}

/// An encoding has exactly the width asked for.
pub proof fn lemma_le_bytes_len(value: nat, width: nat)
    ensures
        le_bytes(value, width).len() == width,
    decreases width,
{
    if width > 0 {
        lemma_le_bytes_len(value / 256, (width - 1) as nat);
    }
}

/// `n` bytes encode a number below `256^n`.
pub proof fn lemma_le_value_bound(bytes: Seq<u8>)
    ensures
        le_value(bytes) < pow256(bytes.len()),
    decreases bytes.len(),
{
    if bytes.len() > 0 {
        lemma_le_value_bound(bytes.drop_first());
    }
}

/// Decoding undoes encoding for every value that fits the width.
pub proof fn lemma_le_value_of_le_bytes(value: nat, width: nat)
    requires
        value < pow256(width),
    ensures
        le_value(le_bytes(value, width)) == value,
    decreases width,
{
    if width > 0 {
        let rest = le_bytes(value / 256, (width - 1) as nat);
        lemma_le_value_of_le_bytes(value / 256, (width - 1) as nat);
        assert(le_bytes(value, width).drop_first() =~= rest);
    }
}

/// Encoding undoes decoding, at the width of the bytes decoded.
pub proof fn lemma_le_bytes_of_le_value(bytes: Seq<u8>)
    ensures
        le_bytes(le_value(bytes), bytes.len()) == bytes,
    decreases bytes.len(),
{
    if bytes.len() > 0 {
        let tail = bytes.drop_first();
        lemma_le_bytes_of_le_value(tail);
        let v = le_value(bytes);
        assert(v % 256 == bytes[0] as nat);
        assert(v / 256 == le_value(tail));
        assert(le_bytes(v, bytes.len()) =~= bytes);
    }
}

/// A zero byte behind the last adds nothing to the number encoded.
pub proof fn lemma_le_value_push_zero(bytes: Seq<u8>)
    ensures
        le_value(bytes.push(0u8)) == le_value(bytes),
    decreases bytes.len(),
{
    let longer = bytes.push(0u8);
    if bytes.len() == 0 {
        assert(longer.drop_first() =~= bytes);
    } else {
        lemma_le_value_push_zero(bytes.drop_first());
        assert(longer.drop_first() =~= bytes.drop_first().push(0u8));
    }
}

/// The powers of 256 that bound the integer types of the format.
pub proof fn lemma_pow256_widths()
    ensures
        pow256(4) == 0x1_0000_0000,
        pow256(8) == 0x1_0000_0000_0000_0000,
{
    reveal_with_fuel(pow256, 9);
}

/// Encodes `value` in `width` little-endian bytes.
fn encode(value: u64, width: usize) -> (out: Vec<u8>)
    ensures
        out@ == le_bytes(value as nat, width as nat),
{
    let mut out: Vec<u8> = Vec::new();
    let mut rest: u64 = value;
    let mut i: usize = 0;
    while i < width
        invariant
            i <= width,
            le_bytes(value as nat, width as nat) == out@ + le_bytes(
                rest as nat,
                (width - i) as nat,
            ),
        decreases width - i,
    {
        let ghost before = out@;
        let ghost tail = le_bytes((rest / 256) as nat, (width - i - 1) as nat);
        out.push((rest % 256) as u8);
        assert(out@ + tail =~= before + (seq![(rest % 256) as u8] + tail));
        rest = rest / 256;
        i = i + 1;
    }
    assert(out@ + Seq::<u8>::empty() =~= out@);
    out
}

/// Decodes the `width` little-endian bytes of `data` that start at `start`.
fn decode(data: &[u8], start: usize, width: usize) -> (value: u64)
    requires
        width <= 8,
        start + width <= data@.len(),
    ensures
        value == le_value(data@.subrange(start as int, start + width)),
{
    let len: usize = data.len();
    let mut value: u64 = 0;
    let mut i: usize = width;
    while i > 0
        invariant
            i <= width <= 8,
            start + width <= len == data@.len(),
            value == le_value(data@.subrange(start + i, start + width)),
        decreases i,
    {
        i = i - 1;
        proof {
            let field = data@.subrange(start + i, start + width);
            assert(field.drop_first() =~= data@.subrange(start + i + 1, start + width));
            lemma_le_value_bound(field);
            lemma_pow256_monotonic(field.len(), 8);
            lemma_pow256_widths();
        }
        value = value * 256 + data[start + i] as u64;
    }
    value
}

/// A larger exponent gives a power at least as large.
pub proof fn lemma_pow256_monotonic(m: nat, n: nat)
    requires
        m <= n,
    ensures
        pow256(m) <= pow256(n),
    decreases n,
{
    if m < n {
        lemma_pow256_monotonic(m, (n - 1) as nat);
    }
}

/// The 8 little-endian bytes of `value`.
pub fn u64_to_le(value: u64) -> (out: Vec<u8>)
    ensures
        out@ == le_bytes(value as nat, 8),
        out@.len() == 8,
{
    proof {
        lemma_le_bytes_len(value as nat, 8);
    }
    encode(value, 8)
}

/// The 4 little-endian bytes of `value`.
pub fn u32_to_le(value: u32) -> (out: Vec<u8>)
    ensures
        out@ == le_bytes(value as nat, 4),
        out@.len() == 4,
{
    proof {
        lemma_le_bytes_len(value as nat, 4);
    }
    encode(value as u64, 4)
}

/// The `u64` held in the 8 bytes of `data` from `start` on.
pub fn u64_from_le(data: &[u8], start: usize) -> (value: u64)
    requires
        start + 8 <= data@.len(),
    ensures
        value == le_value(data@.subrange(start as int, start + 8)),
{
    decode(data, start, 8)
}

/// The `u32` held in the 4 bytes of `data` from `start` on.
pub fn u32_from_le(data: &[u8], start: usize) -> (value: u32)
    requires
        start + 4 <= data@.len(),
    ensures
        value == le_value(data@.subrange(start as int, start + 4)),
{
    let wide = decode(data, start, 4);
    proof {
        lemma_le_value_bound(data@.subrange(start as int, start + 4));
        lemma_pow256_widths();
    }
    wide as u32
}

/// Appends the bytes of `src` to `dst`.
pub(crate) fn append_bytes(dst: &mut Vec<u8>, src: &[u8])
    ensures
        final(dst)@ == old(dst)@ + src@,
{
    let mut i: usize = 0;
    while i < src.len()
        invariant
            i <= src@.len(),
            dst@ == old(dst)@ + src@.subrange(0, i as int),
        decreases src@.len() - i,
    {
        dst.push(src[i]);
        assert(dst@ =~= old(dst)@ + src@.subrange(0, i + 1));
        i = i + 1;
    }
    assert(src@.subrange(0, i as int) =~= src@);
}

/// `data` filled up with zero bytes to `width` bytes; it encodes the same
/// number.
pub(crate) fn zero_extended(data: &[u8], width: usize) -> (out: Vec<u8>)
    requires
        data@.len() <= width,
    ensures
        out@.len() == width,
        out@.subrange(0, data@.len() as int) == data@,
        le_value(out@) == le_value(data@),
{
    let mut out: Vec<u8> = Vec::new();
    append_bytes(&mut out, data);
    assert(out@ =~= data@);
    while out.len() < width
        invariant
            data@.len() <= out@.len() <= width,
            out@.subrange(0, data@.len() as int) == data@,
            le_value(out@) == le_value(data@),
        decreases width - out@.len(),
    {
        proof {
            lemma_le_value_push_zero(out@);
        }
        let ghost before = out@;
        out.push(0);
        assert(out@.subrange(0, data@.len() as int) =~= before.subrange(0, data@.len() as int));
    }
    out
}

/// Whether two byte strings are the same.
pub(crate) fn bytes_equal(a: &[u8], b: &[u8]) -> (same: bool)
    ensures
        same == (a@ == b@),
{
    if a.len() != b.len() {
        return false;
    }
    let mut i: usize = 0;
    while i < a.len()
        invariant
            i <= a@.len() == b@.len(),
            a@.subrange(0, i as int) == b@.subrange(0, i as int),
        decreases a@.len() - i,
    {
        if a[i] != b[i] {
            return false;
        }
        assert(a@.subrange(0, i + 1) =~= a@.subrange(0, i as int).push(a@[i as int]));
        assert(b@.subrange(0, i + 1) =~= b@.subrange(0, i as int).push(b@[i as int]));
        i = i + 1;
    }
    assert(a@.subrange(0, i as int) =~= a@);
    assert(b@.subrange(0, i as int) =~= b@);
    true
}

} // verus!
