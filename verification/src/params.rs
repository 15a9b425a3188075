//! Protocol parameters and the round/target function.
//!
//! One `Arg` parameterizes one instance of the generated state machine.
//! `enc` derives the pair of accept targets the protocol checks against:
//! it masks the two flag halves, stirs them through a deterministic
//! mixing loop, and unmasks them again.

use vstd::prelude::*;
use crate::vm::{w_add, w_mul, w_shl};
use crate::entropy::{next_round_count, next_u64};

verus! {

/// The parameters of one protocol instance: two flag halves, a step
/// increment, a round count, two XOR masks, and an additive constant
/// for the mixing step.
#[derive(Clone, Copy, Debug, PartialEq, Eq, Structural)]
pub struct Arg {
    pub flag_a: u64,
    pub flag_b: u64,
    pub det: u64,
    pub round: u64,
    pub xor_num_a: u64,
    pub xor_num_b: u64,
    pub hash_num: u64,
}

/// One stir of the mixing function: the feedback folded into `r14`.
pub open spec fn mix_feed(acc: u64, r15: u64, hash: u64) -> u64 {
    w_add(acc, hash) ^ (acc >> 30) ^ w_shl(r15, 24)
}

/// The mixing loop: fold the feedback into `r14`, exchange the halves,
/// and advance the accumulator by `det`, until the accumulator reaches
/// `target`. `fuel` bounds the recursion; a run that starts with
/// `target == w_mul(round, det)` and `acc == w_mul(k, det)` always
/// stops within `round - k` steps.
pub open spec fn mix_iter(r14: u64, r15: u64, acc: u64, det: u64, hash: u64, target: u64, fuel: nat) -> (u64, u64)
    decreases fuel,
{
    if acc == target || fuel == 0 {
        (r14, r15)
    } else {
        let acc2 = w_add(acc, det);
        let folded = r14 ^ mix_feed(acc2, r15, hash);
        mix_iter(r15, folded, acc2, det, hash, target, (fuel - 1) as nat)
    }
}

/// What `enc` returns: the two accept targets of the instance.
pub open spec fn enc_spec(a: Arg) -> (u64, u64) {
    let target = w_mul(a.round, a.det);
    let pair = mix_iter(a.flag_a ^ a.xor_num_a, a.flag_b ^ a.xor_num_b, 0, a.det, a.hash_num,
        target, a.round as nat);
    (pair.0 ^ a.xor_num_a, pair.1 ^ a.xor_num_b)
}

/// The accumulator after `k` steps is `k` times the increment, modulo
/// 2^64, so the loop's exit test holds at step `round` at the latest.
proof fn lemma_acc_advances(k: u64, det: u64)
    requires
        k < u64::MAX,
    ensures
        w_add(w_mul(k, det), det) == w_mul((k + 1) as u64, det),
{
    let m = 0x1_0000_0000_0000_0000;
    assert(((k * det) % m + det) % m == (k * det + det) % m) by {
        vstd::arithmetic::div_mod::lemma_mod_add_multiples_vanish(
            ((k * det) % m + det) as int, m as int);
        vstd::arithmetic::div_mod::lemma_mod_twice((k * det) as int, m as int);
        vstd::arithmetic::div_mod::lemma_add_mod_noop((k * det) as int, det as int, m as int);
    }
    assert(k * det + det == (k + 1) * det) by (nonlinear_arith);
}

impl Arg {
    /// Sample a fresh parameter set from the process's random source.
    /// The round count is drawn from 16..=32; the other six values are
    /// uniformly random words.
    pub fn sample_with(rng: &mut rand::rngs::ThreadRng) -> (a: Arg)
        ensures
            16 <= a.round <= 32,
    {
        let flag_a = next_u64(rng);
        let flag_b = next_u64(rng);
        let det = next_u64(rng);
        let round = next_round_count(rng);
        let xor_num_a = next_u64(rng);
        let xor_num_b = next_u64(rng);
        let hash_num = next_u64(rng);
        Arg { flag_a, flag_b, det, round, xor_num_a, xor_num_b, hash_num }
    }

    /// Derive the accept-target pair of this instance.
    pub fn enc(&self) -> (r: (u64, u64))
        ensures
            r == enc_spec(*self),
    {
        let target = crate::vm::wrap_mul(self.round, self.det);
        let mut acc: u64 = 0;
        let mut r14 = self.flag_a ^ self.xor_num_a;
        let mut r15 = self.flag_b ^ self.xor_num_b;
        let ghost mut k: u64 = 0;
        proof {
            assert(w_mul(0, self.det) == 0) by (bit_vector);
        }
        while acc != target
            invariant
                k <= self.round,
                acc == w_mul(k, self.det),
                target == w_mul(self.round, self.det),
                mix_iter(self.flag_a ^ self.xor_num_a, self.flag_b ^ self.xor_num_b, 0,
                    self.det, self.hash_num, target, self.round as nat)
                    == mix_iter(r14, r15, acc, self.det, self.hash_num, target,
                        (self.round - k) as nat),
            decreases self.round - k,
        {
            proof {
                if k == self.round {
                    assert(acc == target);
                }
                assert(k < self.round);
                lemma_acc_advances(k, self.det);
            }
            let acc2 = crate::vm::wrap_add(acc, self.det);
            let feed = crate::vm::wrap_add(acc2, self.hash_num) ^ (acc2 >> 30u64) ^ (r15 << 24u64);
            proof {
                assert(r15 << 24u64 == w_shl(r15, 24));
                assert(mix_iter(r14, r15, acc, self.det, self.hash_num, target,
                        (self.round - k) as nat)
                    == mix_iter(r15, r14 ^ mix_feed(acc2, r15, self.hash_num), acc2,
                        self.det, self.hash_num, target, (self.round - (k + 1)) as nat));
            }
            let folded = r14 ^ feed;
            r14 = r15;
            r15 = folded;
            acc = acc2;
            proof {
                k = (k + 1) as u64;
            }
        }
        (r14 ^ self.xor_num_a, r15 ^ self.xor_num_b)
    }
}

/// Law: the round function is deterministic — equal parameter sets give
/// equal accept-target pairs.
pub proof fn lemma_enc_deterministic(a: Arg, b: Arg)
    requires
        a == b,
    ensures
        enc_spec(a) == enc_spec(b),
{
}

/// Law: with a zero step increment the loop's exit test holds at once,
/// the mixing loop never runs, and the masks cancel — the accept
/// targets are the flag halves themselves.
pub proof fn lemma_enc_zero_det(a: Arg)
    requires
        a.det == 0,
    ensures
        enc_spec(a) == (a.flag_a, a.flag_b),
{
    let r = a.round;
    let fa = a.flag_a;
    let fb = a.flag_b;
    let xa = a.xor_num_a;
    let xb = a.xor_num_b;
    assert(w_mul(r, 0) == 0) by (bit_vector);
    assert((fa ^ xa) ^ xa == fa) by (bit_vector);
    assert((fb ^ xb) ^ xb == fb) by (bit_vector);
}

} // verus!
