//! Big-endian integers and byte runs, the alphabet of every binary format in this crate.

use vstd::prelude::*;

verus! {

/// `256^width`, the number of values that `width` bytes can hold.
pub open spec fn pow256(width: nat) -> nat
    decreases width,
{
    if width == 0 {
        1
    } else {
        256 * pow256((width - 1) as nat)
    }
}

/// The `width` low-order bytes of `value`, most significant byte first.
pub open spec fn be_bytes(value: nat, width: nat) -> Seq<u8>
    decreases width,
{
    if width == 0 {
        Seq::empty()
    } else {
        be_bytes(value / 256, (width - 1) as nat).push((value % 256) as u8)
    }
}

/// The number that `bytes` spells in base 256, most significant byte first.
pub open spec fn be_value(bytes: Seq<u8>) -> nat
    decreases bytes.len(),
{
    if bytes.len() == 0 {
        0
    } else {
        be_value(bytes.drop_last()) * 256 + bytes.last() as nat
    }
}

pub broadcast proof fn lemma_be_bytes_len(value: nat, width: nat)
    ensures
        #[trigger] be_bytes(value, width).len() == width,
    decreases width,
{
    if width > 0 {
        lemma_be_bytes_len(value / 256, (width - 1) as nat);
    }
}

/// Reading back the bytes of a number that fits its width gives the number.
pub broadcast proof fn lemma_be_round_trip(value: nat, width: nat)
    requires
        value < pow256(width),
    ensures
        be_value(#[trigger] be_bytes(value, width)) == value,
    decreases width,
{
    if width > 0 {
        let rest = be_bytes(value / 256, (width - 1) as nat);
        lemma_be_round_trip(value / 256, (width - 1) as nat);
        assert(be_bytes(value, width).drop_last() =~= rest);
    }
}

/// Writing the number that some bytes spell gives the bytes.
pub proof fn lemma_be_bytes_of_value(bytes: Seq<u8>)
    ensures
        be_bytes(be_value(bytes), bytes.len()) == bytes,
    decreases bytes.len(),
{
    if bytes.len() > 0 {
        let rest = bytes.drop_last();
        lemma_be_bytes_of_value(rest);
        assert(be_value(bytes) / 256 == be_value(rest));
        assert(be_value(bytes) % 256 == bytes.last() as nat);
        assert(rest.push(bytes.last()) =~= bytes);
    }
}

pub broadcast proof fn lemma_be_value_bound(bytes: Seq<u8>)
    ensures
        #[trigger] be_value(bytes) < pow256(bytes.len()),
    decreases bytes.len(),
{
    if bytes.len() > 0 {
        lemma_be_value_bound(bytes.drop_last());
    }
}

pub proof fn lemma_pow256()
    ensures
        pow256(1) == 0x100,
        pow256(2) == 0x1_0000,
        pow256(4) == 0x1_0000_0000,
        pow256(8) == 0x1_0000_0000_0000_0000,
{
    reveal_with_fuel(pow256, 9);
}

pub proof fn lemma_pow256_monotonic(a: nat, b: nat)
    requires
        a <= b,
    ensures
        pow256(a) <= pow256(b),
    decreases b,
{
    if a < b {
        lemma_pow256_monotonic(a, (b - 1) as nat);
    }
}

/// Appends the `width` low-order bytes of `value` to `out`.
pub fn push_be(out: &mut Vec<u8>, value: u64, width: usize)
    ensures
        final(out)@ == old(out)@ + be_bytes(value as nat, width as nat),
    decreases width,
{
    if width > 0 {
        push_be(out, value / 256, width - 1);
        out.push((value % 256) as u8);
    }
    assert(out@ =~= old(out)@ + be_bytes(value as nat, width as nat));
}

/// Appends every byte of `bytes` to `out`.
pub fn push_all(out: &mut Vec<u8>, bytes: &[u8])
    ensures
        final(out)@ == old(out)@ + bytes@,
{
    out.extend_from_slice(bytes);
    assert(out@ =~= old(out)@ + bytes@);
}

/// The number that the `width` bytes at `at` spell.
pub fn read_be(bytes: &[u8], at: usize, width: usize) -> (value: u64)
    requires
        at + width <= bytes.len(),
        width <= 8,
    ensures
        value as nat == be_value(bytes@.subrange(at as int, at + width)),
        (value as nat) < pow256(width as nat),
{
    let mut value: u64 = 0;
    let mut i: usize = 0;
    proof {
        lemma_pow256();
    }
    while i < width
        invariant
            i <= width <= 8,
            at + width <= bytes.len(),
            value as nat == be_value(bytes@.subrange(at as int, at + i)),
            (value as nat) < pow256(i as nat),
            pow256(8) == 0x1_0000_0000_0000_0000,
        decreases width - i,
    {
        proof {
            lemma_pow256_monotonic((i + 1) as nat, 8);
            assert(bytes@.subrange(at as int, at + i + 1).drop_last() =~= bytes@.subrange(
                at as int,
                at + i,
            ));
        }
        value = value * 256 + bytes[at + i] as u64;
        i = i + 1;
    }
    value
}

pub fn read_u16(bytes: &[u8], at: usize) -> (value: u16)
    requires
        at + 2 <= bytes.len(),
    ensures
        value as nat == be_value(bytes@.subrange(at as int, at + 2)),
{
    proof {
        lemma_pow256();
    }
    read_be(bytes, at, 2) as u16
}

pub fn read_u32(bytes: &[u8], at: usize) -> (value: u32)
    requires
        at + 4 <= bytes.len(),
    ensures
        value as nat == be_value(bytes@.subrange(at as int, at + 4)),
{
    proof {
        lemma_pow256();
    }
    read_be(bytes, at, 4) as u32
}

pub fn read_u64(bytes: &[u8], at: usize) -> (value: u64)
    requires
        at + 8 <= bytes.len(),
    ensures
        value as nat == be_value(bytes@.subrange(at as int, at + 8)),
{
    read_be(bytes, at, 8)
}

/// The sixteen bytes at `at`.
pub fn read_16(bytes: &[u8], at: usize) -> (value: [u8; 16])
    requires
        at + 16 <= bytes.len(),
    ensures
        value@ == bytes@.subrange(at as int, at + 16),
{
    let mut value: [u8; 16] = [0u8; 16];
    let mut i: usize = 0;
    while i < 16
        invariant
            i <= 16,
            at + 16 <= bytes.len(),
            forall|j: int| 0 <= j < i ==> value@[j] == bytes@[at + j],
        decreases 16 - i,
    {
        value[i] = bytes[at + i];
        i = i + 1;
    }
    assert(value@ =~= bytes@.subrange(at as int, at + 16));
    value
}

/// Whether two byte runs are the same.
pub fn same_bytes(left: &[u8], right: &[u8]) -> (same: bool)
    ensures
        same == (left@ == right@),
{
    if left.len() != right.len() {
        return false;
    }
    let mut i: usize = 0;
    while i < left.len()
        invariant
            i <= left@.len(),
            left@.len() == right@.len(),
            forall|j: int| 0 <= j < i ==> left@[j] == right@[j],
        decreases left@.len() - i,
    {
        if left[i] != right[i] {
            return false;
        }
        i = i + 1;
    }
    assert(left@ =~= right@);
    true
}

} // verus!
