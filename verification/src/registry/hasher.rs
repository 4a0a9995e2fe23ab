//! A cheap hash for group numbers.

use vstd::prelude::*;

verus! {

/// An odd multiplier close to the golden ratio's share of 2 to the 64.
pub const FIB: u64 = 0x9e37_79b9_7f4a_7c15;

/// `a` times the multiplier, without what overflows.
pub open spec fn scattered(a: u64) -> u64 {
    ((a * FIB) % 0x1_0000_0000_0000_0000) as u64
}

/// `x` with its upper half folded onto its lower.
pub open spec fn folded(x: u64) -> u64 {
    x ^ (x >> 32)
}

/// The state after mixing `bytes` in, one after another.
pub open spec fn mixed(state: u64, bytes: Seq<u8>) -> u64
    decreases bytes.len(),
{
    if bytes.len() == 0 {
        state
    } else {
        scattered(mixed(state, bytes.drop_last()) ^ (bytes.last() as u64))
    }
}

/// One multiplication and one shift. It is not meant to withstand chosen keys:
/// group numbers are assigned by the operator.
#[derive(Clone, Copy, Debug)]
pub struct GroupIdHasher(pub u64);

impl Default for GroupIdHasher {
    fn default() -> (r: Self)
        ensures
            r.0 == 0,
    {
        GroupIdHasher(0)
    }
}

impl GroupIdHasher {
    pub fn finish(&self) -> (r: u64)
        ensures
            r == self.0,
    {
        self.0
    }

    pub fn write(&mut self, bytes: &[u8])
        ensures
            final(self).0 == folded(mixed(old(self).0, bytes@)),
    {
        let mut state: u64 = self.0;
        let mut i: usize = 0;
        assert(bytes@.take(0) =~= Seq::empty());
        while i < bytes.len()
            invariant
                i <= bytes@.len(),
                state == mixed(old(self).0, bytes@.take(i as int)),
            decreases bytes@.len() - i,
        {
            assert(bytes@.take(i + 1).drop_last() =~= bytes@.take(i as int));
            state = (state ^ (bytes[i] as u64)).wrapping_mul(FIB);
            i = i + 1;
        }
        assert(bytes@.take(i as int) =~= bytes@);
        self.0 = state ^ (state >> 32);
    }

    pub fn write_u64(&mut self, n: u64)
        ensures
            final(self).0 == folded(scattered(n)),
    {
        let x: u64 = n.wrapping_mul(FIB);
        self.0 = x ^ (x >> 32);
    }
}

/// The inverse of the multiplier among the numbers that 64 bits hold.
const FIB_INVERSE: u64 = 0xf1de_83e1_9937_733d;

/// Two groups never have the same hash: multiplying and folding lose nothing.
pub proof fn law_group_hashes_do_not_collide(a: u64, b: u64)
    ensures
        folded(scattered(a)) == folded(scattered(b)) <==> a == b,
{
    lemma_scattered_undone(a);
    lemma_scattered_undone(b);
    let x = scattered(a);
    let y = scattered(b);
    assert(x ^ (x >> 32) == y ^ (y >> 32) ==> x == y) by (bit_vector);
}

proof fn lemma_scattered_undone(a: u64)
    ensures
        (scattered(a) * FIB_INVERSE) % 0x1_0000_0000_0000_0000 == a,
{
    let size: int = 0x1_0000_0000_0000_0000;
    let f: int = FIB as int;
    let g: int = FIB_INVERSE as int;
    vstd::arithmetic::div_mod::lemma_mul_mod_noop_left(a * f, g, size);
    assert((a * f) * g == (a * 10771413168148108919int) * size + a) by (nonlinear_arith)
        requires
            f * g == 10771413168148108919int * size + 1,
    ;
    vstd::arithmetic::div_mod::lemma_mod_multiples_vanish(
        a * 10771413168148108919int,
        a as int,
        size,
    );
    assert((a * 10771413168148108919int) * size == size * (a * 10771413168148108919int))
        by (nonlinear_arith);
    vstd::arithmetic::div_mod::lemma_small_mod(a as nat, size as nat);
}

} // verus!
