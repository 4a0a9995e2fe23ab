//! Little-endian integers: what their bytes are, and the calls that read and
//! write them.

use vstd::prelude::*;
use zerocopy::byteorder::little_endian::{U16, U32, U64};
use zerocopy::FromBytes;

verus! {

/// The number whose little-endian representation is `s`.
pub open spec fn le_value(s: Seq<u8>) -> nat
    decreases s.len(),
{
    if s.len() == 0 {
        0
    } else {
        s[0] as nat + 256 * le_value(s.skip(1))
    }
}

/// The `n` low-order bytes of `x`, least significant first.
pub open spec fn le_bytes(x: nat, n: nat) -> Seq<u8>
    decreases n,
{
    if n == 0 {
        Seq::empty()
    } else {
        seq![(x % 256) as u8] + le_bytes(x / 256, (n - 1) as nat)
    }
}

/// `256` to the power `n`: one more than the largest number `n` bytes hold.
pub open spec fn byte_range(n: nat) -> nat
    decreases n,
{
    if n == 0 {
        1
    } else {
        256 * byte_range((n - 1) as nat)
    }
}

/// `le_bytes(x, n)` has exactly `n` bytes.
pub proof fn lemma_le_bytes_len(x: nat, n: nat)
    ensures
        le_bytes(x, n).len() == n,
    decreases n,
{
    if n > 0 {
        lemma_le_bytes_len(x / 256, (n - 1) as nat);
    }
}

/// Reading back what was written gives the number that was written, whenever
/// the field is wide enough for it.
pub proof fn lemma_le_value_of_bytes(x: nat, n: nat)
    requires
        x < byte_range(n),
    ensures
        le_value(le_bytes(x, n)) == x,
    decreases n,
{
    if n > 0 {
        lemma_le_value_of_bytes(x / 256, (n - 1) as nat);
        lemma_le_bytes_len(x / 256, (n - 1) as nat);
        assert(le_bytes(x, n).skip(1) =~= le_bytes(x / 256, (n - 1) as nat));
    }
}

/// Writing back what was read gives the bytes that were read.
pub proof fn lemma_le_bytes_of_value(s: Seq<u8>)
    ensures
        le_bytes(le_value(s), s.len()) == s,
        le_value(s) < byte_range(s.len()),
    decreases s.len(),
{
    if s.len() > 0 {
        lemma_le_bytes_of_value(s.skip(1));
        let low = s[0] as nat;
        let high = le_value(s.skip(1));
        assert((low + 256 * high) % 256 == low && (low + 256 * high) / 256 == high);
        assert(seq![s[0]] + s.skip(1) =~= s);
    }
}

/// The ranges of the three field widths in use.
pub proof fn lemma_byte_ranges()
    ensures
        byte_range(1) == 0x100,
        byte_range(2) == 0x1_0000,
        byte_range(4) == 0x1_0000_0000,
        byte_range(8) == 0x1_0000_0000_0000_0000,
{
    reveal_with_fuel(byte_range, 9);
}

/// Every field of one of the three widths reads back as it was written.
pub proof fn lemma_le_fields()
    ensures
        forall|x: u16| #![trigger le_bytes(x as nat, 2)]
            le_bytes(x as nat, 2).len() == 2 && le_value(le_bytes(x as nat, 2)) == x,
        forall|x: u32| #![trigger le_bytes(x as nat, 4)]
            le_bytes(x as nat, 4).len() == 4 && le_value(le_bytes(x as nat, 4)) == x,
        forall|x: u64| #![trigger le_bytes(x as nat, 8)]
            le_bytes(x as nat, 8).len() == 8 && le_value(le_bytes(x as nat, 8)) == x,
{
    lemma_byte_ranges();
    assert forall|x: u16| #![trigger le_bytes(x as nat, 2)]
        le_bytes(x as nat, 2).len() == 2 && le_value(le_bytes(x as nat, 2)) == x by {
        lemma_le_bytes_len(x as nat, 2);
        lemma_le_value_of_bytes(x as nat, 2);
    }
    assert forall|x: u32| #![trigger le_bytes(x as nat, 4)]
        le_bytes(x as nat, 4).len() == 4 && le_value(le_bytes(x as nat, 4)) == x by {
        lemma_le_bytes_len(x as nat, 4);
        lemma_le_value_of_bytes(x as nat, 4);
    }
    assert forall|x: u64| #![trigger le_bytes(x as nat, 8)]
        le_bytes(x as nat, 8).len() == 8 && le_value(le_bytes(x as nat, 8)) == x by {
        lemma_le_bytes_len(x as nat, 8);
        lemma_le_value_of_bytes(x as nat, 8);
    }
}

/// The two bytes of zerocopy's `U16` in little-endian order (`U16::new` then
/// `to_bytes`): the claim is that they are the value's low bytes, least
/// significant first.
#[verifier::external_body]
pub(crate) fn u16_bytes(x: u16) -> (r: [u8; 2])
    ensures
        r@ == le_bytes(x as nat, 2),
{
    U16::new(x).to_bytes()
}

/// As `u16_bytes`, for zerocopy's `U32`.
#[verifier::external_body]
pub(crate) fn u32_bytes(x: u32) -> (r: [u8; 4])
    ensures
        r@ == le_bytes(x as nat, 4),
{
    U32::new(x).to_bytes()
}

/// As `u16_bytes`, for zerocopy's `U64`.
#[verifier::external_body]
pub(crate) fn u64_bytes(x: u64) -> (r: [u8; 8])
    ensures
        r@ == le_bytes(x as nat, 8),
{
    U64::new(x).to_bytes()
}

/// zerocopy's `U16::read_from_prefix`: the little-endian number in the first
/// two bytes, or nothing where there are fewer.
#[verifier::external_body]
pub(crate) fn read_u16(source: &[u8]) -> (r: Option<u16>)
    ensures
        source@.len() < 2 ==> r is None,
        source@.len() >= 2 ==> r == Some(le_value(source@.take(2)) as u16),
{
    U16::read_from_prefix(source).ok().map(|(v, _)| v.get())
}

/// zerocopy's `U32::read_from_prefix`: the little-endian number in the first
/// four bytes, or nothing where there are fewer.
#[verifier::external_body]
pub(crate) fn read_u32(source: &[u8]) -> (r: Option<u32>)
    ensures
        source@.len() < 4 ==> r is None,
        source@.len() >= 4 ==> r == Some(le_value(source@.take(4)) as u32),
{
    U32::read_from_prefix(source).ok().map(|(v, _)| v.get())
}

/// As `read_u32`, for `U64::read_from_prefix`.
#[verifier::external_body]
pub(crate) fn read_u64(source: &[u8]) -> (r: Option<u64>)
    ensures
        source@.len() < 8 ==> r is None,
        source@.len() >= 8 ==> r == Some(le_value(source@.take(8)) as u64),
{
    U64::read_from_prefix(source).ok().map(|(v, _)| v.get())
}

/// The field of `n` bytes at offset `at`.
pub open spec fn field(s: Seq<u8>, at: int, n: nat) -> nat {
    le_value(s.subrange(at, at + n))
}

/// Appends `bytes` to `out`.
pub fn put_slice(out: &mut Vec<u8>, bytes: &[u8])
    ensures
        final(out)@ == old(out)@ + bytes@,
{
    out.extend_from_slice(bytes);
    assert(out@ =~= old(out)@ + bytes@);
}

/// The `u16` field at offset `at`.
pub fn u16_at(buf: &[u8], at: usize) -> (r: u16)
    requires
        at + 2 <= buf@.len(),
    ensures
        r as nat == field(buf@, at as int, 2),
{
    let (_, tail) = buf.split_at(at);
    proof {
        assert(tail@.take(2) =~= buf@.subrange(at as int, at + 2));
        lemma_le_bytes_of_value(tail@.take(2));
        lemma_byte_ranges();
    }
    read_u16(tail).unwrap()
}

/// The `u32` field at offset `at`.
pub fn u32_at(buf: &[u8], at: usize) -> (r: u32)
    requires
        at + 4 <= buf@.len(),
    ensures
        r as nat == field(buf@, at as int, 4),
{
    let (_, tail) = buf.split_at(at);
    proof {
        assert(tail@.take(4) =~= buf@.subrange(at as int, at + 4));
        lemma_le_bytes_of_value(tail@.take(4));
        lemma_byte_ranges();
    }
    read_u32(tail).unwrap()
}

/// The `u64` field at offset `at`.
pub fn u64_at(buf: &[u8], at: usize) -> (r: u64)
    requires
        at + 8 <= buf@.len(),
    ensures
        r as nat == field(buf@, at as int, 8),
{
    let (_, tail) = buf.split_at(at);
    proof {
        assert(tail@.take(8) =~= buf@.subrange(at as int, at + 8));
        lemma_le_bytes_of_value(tail@.take(8));
        lemma_byte_ranges();
    }
    read_u64(tail).unwrap()
}

} // verus!
