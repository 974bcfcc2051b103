//! Big-endian integers of fixed width, as every integer on the wire is
//! written.

use vstd::prelude::*;

verus! {

/// `256` to the power `n`.
pub open spec fn pow256(n: nat) -> int
    decreases n,
{
    if n == 0 {
        1
    } else {
        256 * pow256((n - 1) as nat)
    }
}

/// The `width` low-order base-256 digits of `value`, most significant first.
pub open spec fn be_bytes(value: int, width: nat) -> Seq<u8>
    decreases width,
{
    if width == 0 {
        Seq::empty()
    } else {
        be_bytes(value / 256, (width - 1) as nat).push((value % 256) as u8)
    }
}

/// The number that `bytes` spells in base 256, most significant digit first.
pub open spec fn be_value(bytes: Seq<u8>) -> int
    decreases bytes.len(),
{
    if bytes.len() == 0 {
        0
    } else {
        be_value(bytes.drop_last()) * 256 + bytes.last() as int
    }
}

pub proof fn lemma_pow256_positive(n: nat)
    ensures
        pow256(n) >= 1,
    decreases n,
{
    if n > 0 {
        lemma_pow256_positive((n - 1) as nat);
    }
}

pub proof fn lemma_pow256_monotonic(m: nat, n: nat)
    requires
        m <= n,
    ensures
        pow256(m) <= pow256(n),
    decreases n,
{
    if m < n {
        lemma_pow256_monotonic(m, (n - 1) as nat);
        lemma_pow256_positive((n - 1) as nat);
    }
}

/// The widths that the wire format uses.
pub proof fn lemma_pow256_values()
    ensures
        pow256(0) == 1,
        pow256(1) == 0x100,
        pow256(4) == 0x1_0000_0000,
        pow256(8) == 0x1_0000_0000_0000_0000,
        pow256(16) == 0x1_0000_0000_0000_0000_0000_0000_0000_0000,
{
    reveal_with_fuel(pow256, 5);
    assert(pow256(4) == 0x1_0000_0000);
    assert(pow256(8) == 0x1_0000_0000 * pow256(4));
    assert(pow256(12) == 0x1_0000_0000 * pow256(8));
    assert(pow256(16) == 0x1_0000_0000 * pow256(12));
}

pub proof fn lemma_be_bytes_len(value: int, width: nat)
    ensures
        be_bytes(value, width).len() == width,
    decreases width,
{
    if width > 0 {
        lemma_be_bytes_len(value / 256, (width - 1) as nat);
    }
}

pub proof fn lemma_be_value_bound(bytes: Seq<u8>)
    ensures
        0 <= be_value(bytes) < pow256(bytes.len()),
    decreases bytes.len(),
{
    if bytes.len() > 0 {
        lemma_be_value_bound(bytes.drop_last());
    }
}

/// Reading back what was written gives the number that was written.
pub proof fn lemma_be_value_of_bytes(value: int, width: nat)
    requires
        0 <= value < pow256(width),
    ensures
        be_value(be_bytes(value, width)) == value,
    decreases width,
{
    if width > 0 {
        let rest = be_bytes(value / 256, (width - 1) as nat);
        lemma_be_value_of_bytes(value / 256, (width - 1) as nat);
        assert(be_bytes(value, width).drop_last() =~= rest);
    }
}

/// Writing what was read gives the bytes that were read.
pub proof fn lemma_be_bytes_of_value(bytes: Seq<u8>)
    ensures
        be_bytes(be_value(bytes), bytes.len()) == bytes,
    decreases bytes.len(),
{
    if bytes.len() > 0 {
        let front = bytes.drop_last();
        lemma_be_bytes_of_value(front);
        lemma_be_value_bound(front);
        assert(be_value(bytes) / 256 == be_value(front));
        assert(be_value(bytes) % 256 == bytes.last() as int);
        assert(be_bytes(be_value(bytes), bytes.len()) =~= bytes);
    }
}

/// Appends `value` to `out` as `width` big-endian bytes.
pub fn put_be(out: &mut Vec<u8>, value: u128, width: usize)
    requires
        value < pow256(width as nat),
    ensures
        final(out)@ == old(out)@ + be_bytes(value as int, width as nat),
    decreases width,
{
    if width > 0 {
        put_be(out, value / 256, width - 1);
        out.push((value % 256) as u8);
        assert(final(out)@ =~= old(out)@ + be_bytes(value as int, width as nat));
    } else {
        assert(final(out)@ =~= old(out)@ + be_bytes(value as int, width as nat));
    }
}

/// Reads the `width` bytes of `bytes` that start at `start` as one
/// big-endian number.
pub fn get_be(bytes: &[u8], start: usize, width: usize) -> (value: u128)
    requires
        width <= 16,
        start + width <= bytes.len(),
    ensures
        value == be_value(bytes@.subrange(start as int, start + width)),
{
    let mut value: u128 = 0;
    let mut i: usize = 0;
    while i < width
        invariant
            i <= width <= 16,
            start + width <= bytes.len(),
            value == be_value(bytes@.subrange(start as int, start + i)),
        decreases width - i,
    {
        let ghost read = bytes@.subrange(start as int, start + i);
        let ghost next = bytes@.subrange(start as int, start + i + 1);
        proof {
            lemma_be_value_bound(next);
            lemma_pow256_monotonic((i + 1) as nat, 16);
            lemma_pow256_values();
            assert(next.drop_last() =~= read);
        }
        value = value * 256 + bytes[start + i] as u128;
        i = i + 1;
    }
    value
}

pub fn put_u32(out: &mut Vec<u8>, value: u32)
    ensures
        final(out)@ == old(out)@ + be_bytes(value as int, 4),
{
    proof {
        lemma_pow256_values();
    }
    put_be(out, value as u128, 4);
}

pub fn put_u64(out: &mut Vec<u8>, value: u64)
    ensures
        final(out)@ == old(out)@ + be_bytes(value as int, 8),
{
    proof {
        lemma_pow256_values();
    }
    put_be(out, value as u128, 8);
}

pub fn put_u128(out: &mut Vec<u8>, value: u128)
    ensures
        final(out)@ == old(out)@ + be_bytes(value as int, 16),
{
    proof {
        lemma_pow256_values();
    }
    put_be(out, value, 16);
}

pub fn get_u32(bytes: &[u8], start: usize) -> (value: u32)
    requires
        start + 4 <= bytes.len(),
    ensures
        value == be_value(bytes@.subrange(start as int, start + 4)),
{
    proof {
        lemma_be_value_bound(bytes@.subrange(start as int, start + 4));
        lemma_pow256_values();
    }
    get_be(bytes, start, 4) as u32
}

pub fn get_u64(bytes: &[u8], start: usize) -> (value: u64)
    requires
        start + 8 <= bytes.len(),
    ensures
        value == be_value(bytes@.subrange(start as int, start + 8)),
{
    proof {
        lemma_be_value_bound(bytes@.subrange(start as int, start + 8));
        lemma_pow256_values();
    }
    get_be(bytes, start, 8) as u64
}

pub fn get_u128(bytes: &[u8], start: usize) -> (value: u128)
    requires
        start + 16 <= bytes.len(),
    ensures
        value == be_value(bytes@.subrange(start as int, start + 16)),
{
    get_be(bytes, start, 16)
}

} // verus!
