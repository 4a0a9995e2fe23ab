//! Transaction numbers.
//!
//! A number holds the command in its highest byte and a sequence in the other
//! seven. Every command instance has a sequence of its own, and each starts
//! where no other does.

use vstd::arithmetic::div_mod::{
    lemma_mod_mod, lemma_mod_multiples_vanish, lemma_mul_mod_noop_left, lemma_small_mod,
};
use vstd::prelude::*;

verus! {

/// An odd multiplier that scatters the starts of sequences.
pub const TX_ID_SEED_MIX: u64 = 0x9E37_79B9_7F4A_7C15;

/// How many numbers a sequence goes through before it repeats.
pub const TX_ID_SEQ_COUNT: u64 = 0x100_0000_0000_0000;

/// The transaction number of `command` at `seq` of its sequence.
pub open spec fn tx_number(command: u8, seq: int) -> int {
    command * TX_ID_SEQ_COUNT + seq % (TX_ID_SEQ_COUNT as int)
}

/// Where the sequence of construction number `epoch` starts.
pub open spec fn seed_of(epoch: u64) -> int {
    (epoch * TX_ID_SEED_MIX) % 0x1_0000_0000_0000_0000
}

/// Hands out the starts of sequences.
#[derive(Debug)]
pub struct TxSeeds {
    /// How many starts have been handed out.
    pub epoch: u64,
}

impl TxSeeds {
    pub fn new() -> (r: Self)
        ensures
            r.epoch == 0,
    {
        TxSeeds { epoch: 0 }
    }

    /// The next start.
    pub fn take(&mut self) -> (r: u64)
        ensures
            r == seed_of(old(self).epoch),
            final(self).epoch == (old(self).epoch + 1) % 0x1_0000_0000_0000_0000,
    {
        let epoch: u64 = self.epoch;
        self.epoch = epoch.wrapping_add(1);
        epoch.wrapping_mul(TX_ID_SEED_MIX)
    }
}

/// The transaction numbers of one command instance.
#[derive(Debug)]
pub struct TxIds {
    pub command: u8,
    /// The place in the sequence of the next number.
    pub seq: u64,
}

impl TxIds {
    pub fn new(command: u8, seeds: &mut TxSeeds) -> (r: Self)
        ensures
            r.command == command,
            r.seq == seed_of(old(seeds).epoch),
            final(seeds).epoch == (old(seeds).epoch + 1) % 0x1_0000_0000_0000_0000,
    {
        let seq: u64 = seeds.take();
        TxIds { command, seq }
    }

    /// The next number.
    pub fn next_tx_id(&mut self) -> (r: u64)
        ensures
            r == tx_number(old(self).command, old(self).seq as int),
            final(self).command == old(self).command,
            final(self).seq == (old(self).seq + 1) % 0x1_0000_0000_0000_0000,
    {
        let command: u64 = self.command as u64;
        let seq: u64 = self.seq;
        self.seq = seq.wrapping_add(1);
        proof {
            assert(command < 256 ==> ((command << 56u64) | (seq & 0xFF_FFFF_FFFF_FFFFu64))
                == command * 0x100_0000_0000_0000u64 + seq % 0x100_0000_0000_0000u64)
                by (bit_vector);
        }
        (command << 56) | (seq & 0xFF_FFFF_FFFF_FFFF)
    }
}

/// Transaction numbers of different commands never meet.
pub proof fn law_commands_never_share_ids(c: u8, d: u8, seq: int, other: int)
    requires
        c != d,
    ensures
        tx_number(c, seq) != tx_number(d, other),
{
}

/// One instance repeats a number only after it has gone through all the others.
pub proof fn law_sequences_do_not_repeat(command: u8, seq: int, n: int)
    requires
        0 < n < TX_ID_SEQ_COUNT,
    ensures
        tx_number(command, seq) != tx_number(command, seq + n),
{
}

/// The sequences of different constructions start at different places.
pub proof fn law_sequences_start_apart(e: u64, f: u64)
    requires
        e < TX_ID_SEQ_COUNT,
        f < TX_ID_SEQ_COUNT,
        e != f,
    ensures
        seed_of(e) % (TX_ID_SEQ_COUNT as int) != seed_of(f) % (TX_ID_SEQ_COUNT as int),
{
    lemma_mix_is_undone(e);
    lemma_mix_is_undone(f);
}

/// Multiplying by the inverse of a multiplier undoes it.
proof fn lemma_multiplier_is_undone(x: int, multiplier: int, inverse: int, n: int, k: int)
    requires
        0 <= x < n,
        multiplier * inverse == n * k + 1,
    ensures
        ((x * multiplier) % n) * inverse % n == x,
{
    let a: int = x * multiplier;
    lemma_mul_mod_noop_left(a, inverse, n);
    assert(a * inverse == n * (k * x) + x) by (nonlinear_arith)
        requires
            a == x * multiplier,
            multiplier * inverse == n * k + 1,
    ;
    lemma_mod_multiples_vanish(k * x, x, n);
    lemma_small_mod(x as nat, n as nat);
}

/// Multiplying by the inverse of the mixing constant gives the epoch back.
proof fn lemma_mix_is_undone(e: u64)
    requires
        e < TX_ID_SEQ_COUNT,
    ensures
        (seed_of(e) % (TX_ID_SEQ_COUNT as int)) * 62632449791193917 % (TX_ID_SEQ_COUNT as int)
            == e,
{
    let n: int = TX_ID_SEQ_COUNT as int;
    lemma_mod_mod(e * TX_ID_SEED_MIX, n, 256);
    assert(TX_ID_SEED_MIX * 62632449791193917 == TX_ID_SEQ_COUNT * 9909499589025048379 + 1);
    lemma_multiplier_is_undone(
        e as int,
        TX_ID_SEED_MIX as int,
        62632449791193917,
        n,
        9909499589025048379,
    );
}

} // verus!
