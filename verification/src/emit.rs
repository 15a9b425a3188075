//! The branchless predicate builder.
//!
//! For each of the four state registers this module emits one
//! instruction sequence computing the register's next value as a pure
//! function of the current register file, with no conditional branch:
//! each case of the protocol step is guarded by an all-ones/all-zeros
//! mask built from `(flag - 1)` arithmetic, the guarded cases are
//! AND-masked and OR-folded back together. Every literal constant in
//! the sequences is materialized through the rewrite engine, so every
//! run yields syntactically different code for the same step function.

use vstd::prelude::*;
use crate::vm::{
    BinOp, Instr, RegId, Regs, UnOp, bin_val, eval_seq, lemma_eval_snoc, lemma_step_bin,
    lemma_step_drop, lemma_step_rot, lemma_step_swap, lemma_step_un, lemma_step_pick2,
    lemma_step_plus_const, w_add, w_mul, w_shl, w_shr, w_shra, w_sub,
};
use crate::rewrite::{DEFAULT_DEPTH, expand, pushes_onto};
use crate::params::{Arg, enc_spec, mix_feed};

verus! {

/// All ones when the two values are equal, all zeros otherwise: the
/// mask the builder derives from `(a != b) - 1`.
pub open spec fn mask_eq(a: u64, b: u64) -> u64 {
    if a == b {
        u64::MAX
    } else {
        0
    }
}

/// The low byte of `x`, sign-extended to the full word.
pub open spec fn sext_low8(x: u64) -> u64 {
    w_shra(w_shl(x, 56), 56)
}

/// Next value of the control register: a phase at or below 3 steps to
/// 1; phase 4 pops the next phase byte (sign-extended); phase 6 pops it
/// only once the step accumulator has reached the target, else parks at
/// 2; any other phase goes to 0.
pub open spec fn next_r12_val(r12: u64, r13: u64, target: u64) -> u64 {
    let ph = r12 & 0xff;
    let nxt = sext_low8(w_shr(r12, 8));
    if ph <= 3 {
        1
    } else if ph == 4 {
        nxt
    } else if ph == 6 {
        if r13 == target {
            nxt
        } else {
            2
        }
    } else {
        0
    }
}

/// Next value of R15: the swap phase takes R14, the unmask phase folds
/// in the XOR mask, every other phase keeps R15.
pub open spec fn next_r15_val(r12: u64, r14: u64, r15: u64, xor_b: u64) -> u64 {
    let ph = r12 & 0xff;
    if ph == 2 {
        r14
    } else if ph == 3 {
        r15 ^ xor_b
    } else {
        r15
    }
}

/// Next value of R13, the step accumulator: phase 0 advances it by the
/// increment; phase 7 replaces it by the accept check's mismatch bit;
/// every other phase keeps it.
pub open spec fn next_r13_val(r12: u64, r13: u64, r14: u64, r15: u64, det: u64, ans_a: u64, ans_b: u64) -> u64 {
    let ph = r12 & 0xff;
    if ph == 0 {
        w_add(det, r13)
    } else if ph == 7 {
        if r14 != ans_a || r15 != ans_b {
            1
        } else {
            0
        }
    } else {
        r13
    }
}

/// Next value of R14: the mixing phase folds one stir of the round
/// function into it, the swap phase takes R15, the unmask phase folds
/// in the XOR mask, every other phase keeps R14.
pub open spec fn next_r14_val(r12: u64, r13: u64, r14: u64, r15: u64, xor_a: u64, hash: u64) -> u64 {
    let ph = r12 & 0xff;
    if ph == 1 {
        r14 ^ mix_feed(r13, r15, hash)
    } else if ph == 2 {
        r15
    } else if ph == 3 {
        r14 ^ xor_a
    } else {
        r14
    }
}

pub open spec fn next_r12(a: Arg, regs: Regs) -> u64 {
    next_r12_val(regs.r12, regs.r13, w_mul(a.round, a.det))
}

pub open spec fn next_r15(a: Arg, regs: Regs) -> u64 {
    next_r15_val(regs.r12, regs.r14, regs.r15, a.xor_num_b)
}

pub open spec fn next_r13(a: Arg, regs: Regs) -> u64 {
    next_r13_val(regs.r12, regs.r13, regs.r14, regs.r15, a.det, enc_spec(a).0, enc_spec(a).1)
}

pub open spec fn next_r14(a: Arg, regs: Regs) -> u64 {
    next_r14_val(regs.r12, regs.r13, regs.r14, regs.r15, a.xor_num_a, a.hash_num)
}

/// Emit the phase read: the control register masked to its low byte.
fn emit_phase(out: &mut Vec<Instr>, rng: &mut rand::rngs::ThreadRng)
    ensures
        forall|regs: Regs, st: Seq<u64>|
            #![trigger eval_seq(final(out)@, regs, st)]
            match eval_seq(old(out)@, regs, st) {
                Some(mid) => eval_seq(final(out)@, regs, st) == Some(mid.push(regs.r12 & 0xff)),
                None => true,
            },
{
    let ghost c0 = out@;
    out.push(Instr::ReadRegister(RegId::R12));
    let ghost c1 = out@;
    expand(out, rng, 0xff, DEFAULT_DEPTH);
    let ghost c2 = out@;
    out.push(Instr::BinaryOp(BinOp::And));
    proof {
        assert forall|regs: Regs, st: Seq<u64>|
            #![trigger eval_seq(out@, regs, st)]
            match eval_seq(c0, regs, st) {
                Some(mid) => eval_seq(out@, regs, st) == Some(mid.push(regs.r12 & 0xff)),
                None => true,
            } by {
            lemma_eval_snoc(c0, Instr::ReadRegister(RegId::R12), regs, st);
            lemma_eval_snoc(c2, Instr::BinaryOp(BinOp::And), regs, st);
            match eval_seq(c0, regs, st) {
                Some(mid) => {
                    assert(eval_seq(c1, regs, st) == Some(mid.push(regs.r12)));
                    assert(eval_seq(c2, regs, st) == Some(mid.push(regs.r12).push(0xff)));
                    lemma_step_bin(BinOp::And, regs, mid, regs.r12, 0xff);
                },
                None => {},
            }
        }
    }
}

/// Emit the mask tail `NE; 1; MINUS`: the top two values leave, the
/// equality mask for them arrives.
fn emit_mask_tail(out: &mut Vec<Instr>, rng: &mut rand::rngs::ThreadRng)
    ensures
        forall|regs: Regs, st: Seq<u64>, base: Seq<u64>, a: u64, b: u64|
            #![trigger eval_seq(final(out)@, regs, st), base.push(a).push(b)]
            eval_seq(old(out)@, regs, st) == Some(base.push(a).push(b))
                ==> eval_seq(final(out)@, regs, st) == Some(base.push(mask_eq(a, b))),
{
    let ghost c0 = out@;
    out.push(Instr::BinaryOp(BinOp::CmpNe));
    let ghost c1 = out@;
    expand(out, rng, 1, DEFAULT_DEPTH);
    let ghost c2 = out@;
    out.push(Instr::BinaryOp(BinOp::Minus));
    proof {
        assert(w_sub(0, 1) == u64::MAX && w_sub(1, 1) == 0) by (bit_vector);
        assert forall|regs: Regs, st: Seq<u64>, base: Seq<u64>, a: u64, b: u64|
            #![trigger eval_seq(out@, regs, st), base.push(a).push(b)]
            eval_seq(c0, regs, st) == Some(base.push(a).push(b))
                ==> eval_seq(out@, regs, st) == Some(base.push(mask_eq(a, b))) by {
            lemma_eval_snoc(c0, Instr::BinaryOp(BinOp::CmpNe), regs, st);
            lemma_eval_snoc(c2, Instr::BinaryOp(BinOp::Minus), regs, st);
            if eval_seq(c0, regs, st) == Some(base.push(a).push(b)) {
                lemma_step_bin(BinOp::CmpNe, regs, base, a, b);
                let ne = bin_val(BinOp::CmpNe, a, b);
                assert(eval_seq(c1, regs, st) == Some(base.push(ne)));
                assert(eval_seq(c2, regs, st) == Some(base.push(ne).push(1)));
                lemma_step_bin(BinOp::Minus, regs, base, ne, 1);
            }
        }
    }
}

/// Emit the sign-extension tail `56; SHL; 56; SHRA`: the top value is
/// replaced by its low byte, sign-extended.
fn emit_sext_tail(out: &mut Vec<Instr>, rng: &mut rand::rngs::ThreadRng)
    ensures
        forall|regs: Regs, st: Seq<u64>, base: Seq<u64>, a: u64|
            #![trigger eval_seq(final(out)@, regs, st), base.push(a)]
            eval_seq(old(out)@, regs, st) == Some(base.push(a))
                ==> eval_seq(final(out)@, regs, st) == Some(base.push(sext_low8(a))),
{
    let ghost c0 = out@;
    expand(out, rng, 56, DEFAULT_DEPTH);
    let ghost c1 = out@;
    out.push(Instr::BinaryOp(BinOp::Shl));
    let ghost c2 = out@;
    expand(out, rng, 56, DEFAULT_DEPTH);
    let ghost c3 = out@;
    out.push(Instr::BinaryOp(BinOp::Shra));
    proof {
        assert forall|regs: Regs, st: Seq<u64>, base: Seq<u64>, a: u64|
            #![trigger eval_seq(out@, regs, st), base.push(a)]
            eval_seq(c0, regs, st) == Some(base.push(a))
                ==> eval_seq(out@, regs, st) == Some(base.push(sext_low8(a))) by {
            lemma_eval_snoc(c1, Instr::BinaryOp(BinOp::Shl), regs, st);
            lemma_eval_snoc(c3, Instr::BinaryOp(BinOp::Shra), regs, st);
            if eval_seq(c0, regs, st) == Some(base.push(a)) {
                assert(eval_seq(c1, regs, st) == Some(base.push(a).push(56)));
                lemma_step_bin(BinOp::Shl, regs, base, a, 56);
                let sh = bin_val(BinOp::Shl, a, 56);
                assert(eval_seq(c3, regs, st) == Some(base.push(sh).push(56)));
                lemma_step_bin(BinOp::Shra, regs, base, sh, 56);
            }
        }
    }
}

/// Emit an obfuscated 4: `1; DUP; DUP; SHL; SHL`.
fn emit_four_shifted(out: &mut Vec<Instr>, rng: &mut rand::rngs::ThreadRng)
    ensures
        pushes_onto(old(out)@, final(out)@, 4),
{
    let ghost c0 = out@;
    expand(out, rng, 1, DEFAULT_DEPTH);
    let ghost c1 = out@;
    out.push(Instr::Dup);
    let ghost c2 = out@;
    out.push(Instr::Dup);
    let ghost c3 = out@;
    out.push(Instr::BinaryOp(BinOp::Shl));
    let ghost c4 = out@;
    out.push(Instr::BinaryOp(BinOp::Shl));
    proof {
        assert(w_shl(1, 1) == 2 && w_shl(1, 2) == 4) by (bit_vector);
        assert forall|regs: Regs, st: Seq<u64>|
            #![trigger eval_seq(out@, regs, st)]
            match eval_seq(c0, regs, st) {
                Some(mid) => mid.len() >= 1 ==> eval_seq(out@, regs, st) == Some(mid.push(4)),
                None => true,
            } by {
            lemma_eval_snoc(c1, Instr::Dup, regs, st);
            lemma_eval_snoc(c2, Instr::Dup, regs, st);
            lemma_eval_snoc(c3, Instr::BinaryOp(BinOp::Shl), regs, st);
            lemma_eval_snoc(c4, Instr::BinaryOp(BinOp::Shl), regs, st);
            match eval_seq(c0, regs, st) {
                Some(mid) => if mid.len() >= 1 {
                    assert(eval_seq(c1, regs, st) == Some(mid.push(1)));
                    assert(eval_seq(c3, regs, st) == Some(mid.push(1).push(1).push(1)));
                    lemma_step_bin(BinOp::Shl, regs, mid.push(1), 1, 1);
                    assert(eval_seq(c4, regs, st) == Some(mid.push(1).push(2)));
                    lemma_step_bin(BinOp::Shl, regs, mid, 1, 2);
                },
                None => {},
            }
        }
    }
}

/// Emit an obfuscated 8: `1; DUP; DUP; DUP; SHL; OR; SHL`.
fn emit_eight_shifted(out: &mut Vec<Instr>, rng: &mut rand::rngs::ThreadRng)
    ensures
        pushes_onto(old(out)@, final(out)@, 8),
{
    let ghost c0 = out@;
    expand(out, rng, 1, DEFAULT_DEPTH);
    let ghost c1 = out@;
    out.push(Instr::Dup);
    let ghost c2 = out@;
    out.push(Instr::Dup);
    let ghost c3 = out@;
    out.push(Instr::Dup);
    let ghost c4 = out@;
    out.push(Instr::BinaryOp(BinOp::Shl));
    let ghost c5 = out@;
    out.push(Instr::BinaryOp(BinOp::Or));
    let ghost c6 = out@;
    out.push(Instr::BinaryOp(BinOp::Shl));
    proof {
        assert(w_shl(1, 1) == 2 && (1u64 | 2) == 3 && w_shl(1, 3) == 8) by (bit_vector);
        assert forall|regs: Regs, st: Seq<u64>|
            #![trigger eval_seq(out@, regs, st)]
            match eval_seq(c0, regs, st) {
                Some(mid) => mid.len() >= 1 ==> eval_seq(out@, regs, st) == Some(mid.push(8)),
                None => true,
            } by {
            lemma_eval_snoc(c1, Instr::Dup, regs, st);
            lemma_eval_snoc(c2, Instr::Dup, regs, st);
            lemma_eval_snoc(c3, Instr::Dup, regs, st);
            lemma_eval_snoc(c4, Instr::BinaryOp(BinOp::Shl), regs, st);
            lemma_eval_snoc(c5, Instr::BinaryOp(BinOp::Or), regs, st);
            lemma_eval_snoc(c6, Instr::BinaryOp(BinOp::Shl), regs, st);
            match eval_seq(c0, regs, st) {
                Some(mid) => if mid.len() >= 1 {
                    assert(eval_seq(c1, regs, st) == Some(mid.push(1)));
                    assert(eval_seq(c4, regs, st) == Some(mid.push(1).push(1).push(1).push(1)));
                    lemma_step_bin(BinOp::Shl, regs, mid.push(1).push(1), 1, 1);
                    assert(eval_seq(c5, regs, st) == Some(mid.push(1).push(1).push(2)));
                    lemma_step_bin(BinOp::Or, regs, mid.push(1), 1, 2);
                    assert(eval_seq(c6, regs, st) == Some(mid.push(1).push(3)));
                    lemma_step_bin(BinOp::Shl, regs, mid, 1, 3);
                },
                None => {},
            }
        }
    }
}

/// Emit an obfuscated 7: `0; NOT; 61; SHR`.
fn emit_seven_masked(out: &mut Vec<Instr>, rng: &mut rand::rngs::ThreadRng)
    ensures
        pushes_onto(old(out)@, final(out)@, 7),
{
    let ghost c0 = out@;
    expand(out, rng, 0, DEFAULT_DEPTH);
    let ghost c1 = out@;
    out.push(Instr::UnaryOp(UnOp::Not));
    let ghost c2 = out@;
    expand(out, rng, 61, DEFAULT_DEPTH);
    let ghost c3 = out@;
    out.push(Instr::BinaryOp(BinOp::Shr));
    proof {
        assert(!0u64 == u64::MAX && w_shr(u64::MAX, 61) == 7) by (bit_vector);
        assert forall|regs: Regs, st: Seq<u64>|
            #![trigger eval_seq(out@, regs, st)]
            match eval_seq(c0, regs, st) {
                Some(mid) => mid.len() >= 1 ==> eval_seq(out@, regs, st) == Some(mid.push(7)),
                None => true,
            } by {
            lemma_eval_snoc(c1, Instr::UnaryOp(UnOp::Not), regs, st);
            lemma_eval_snoc(c3, Instr::BinaryOp(BinOp::Shr), regs, st);
            match eval_seq(c0, regs, st) {
                Some(mid) => if mid.len() >= 1 {
                    assert(eval_seq(c1, regs, st) == Some(mid.push(0)));
                    lemma_step_un(UnOp::Not, regs, mid, 0);
                    assert(eval_seq(c3, regs, st) == Some(mid.push(u64::MAX).push(61)));
                    lemma_step_bin(BinOp::Shr, regs, mid, u64::MAX, 61);
                },
                None => {},
            }
        }
    }
}

/// Emit an obfuscated 0 from the two opaque scratch registers:
/// `RAX; RBX; DUP; NOT; AND; AND`.
fn emit_zero_scratch(out: &mut Vec<Instr>)
    ensures
        forall|regs: Regs, st: Seq<u64>|
            #![trigger eval_seq(final(out)@, regs, st)]
            match eval_seq(old(out)@, regs, st) {
                Some(mid) => eval_seq(final(out)@, regs, st) == Some(mid.push(0)),
                None => true,
            },
{
    let ghost c0 = out@;
    out.push(Instr::ReadRegister(RegId::Rax));
    let ghost c1 = out@;
    out.push(Instr::ReadRegister(RegId::Rbx));
    let ghost c2 = out@;
    out.push(Instr::Dup);
    let ghost c3 = out@;
    out.push(Instr::UnaryOp(UnOp::Not));
    let ghost c4 = out@;
    out.push(Instr::BinaryOp(BinOp::And));
    let ghost c5 = out@;
    out.push(Instr::BinaryOp(BinOp::And));
    proof {
        assert forall|regs: Regs, st: Seq<u64>|
            #![trigger eval_seq(out@, regs, st)]
            match eval_seq(c0, regs, st) {
                Some(mid) => eval_seq(out@, regs, st) == Some(mid.push(0)),
                None => true,
            } by {
            let ax = regs.rax;
            let bx = regs.rbx;
            assert(bx & !bx == 0 && ax & 0 == 0) by (bit_vector);
            lemma_eval_snoc(c0, Instr::ReadRegister(RegId::Rax), regs, st);
            lemma_eval_snoc(c1, Instr::ReadRegister(RegId::Rbx), regs, st);
            lemma_eval_snoc(c2, Instr::Dup, regs, st);
            lemma_eval_snoc(c3, Instr::UnaryOp(UnOp::Not), regs, st);
            lemma_eval_snoc(c4, Instr::BinaryOp(BinOp::And), regs, st);
            lemma_eval_snoc(c5, Instr::BinaryOp(BinOp::And), regs, st);
            match eval_seq(c0, regs, st) {
                Some(mid) => {
                    assert(eval_seq(c3, regs, st) == Some(mid.push(ax).push(bx).push(bx)));
                    lemma_step_un(UnOp::Not, regs, mid.push(ax).push(bx), bx);
                    assert(eval_seq(c4, regs, st) == Some(mid.push(ax).push(bx).push(!bx)));
                    lemma_step_bin(BinOp::And, regs, mid.push(ax), bx, !bx);
                    assert(eval_seq(c5, regs, st) == Some(mid.push(ax).push(0)));
                    lemma_step_bin(BinOp::And, regs, mid, ax, 0);
                },
                None => {},
            }
        }
    }
}

/// Emit an obfuscated 0 from R15: `R15; DUP; NOT; AND`.
fn emit_zero_r15(out: &mut Vec<Instr>)
    ensures
        forall|regs: Regs, st: Seq<u64>|
            #![trigger eval_seq(final(out)@, regs, st)]
            match eval_seq(old(out)@, regs, st) {
                Some(mid) => eval_seq(final(out)@, regs, st) == Some(mid.push(0)),
                None => true,
            },
{
    let ghost c0 = out@;
    out.push(Instr::ReadRegister(RegId::R15));
    let ghost c1 = out@;
    out.push(Instr::Dup);
    let ghost c2 = out@;
    out.push(Instr::UnaryOp(UnOp::Not));
    let ghost c3 = out@;
    out.push(Instr::BinaryOp(BinOp::And));
    proof {
        assert forall|regs: Regs, st: Seq<u64>|
            #![trigger eval_seq(out@, regs, st)]
            match eval_seq(c0, regs, st) {
                Some(mid) => eval_seq(out@, regs, st) == Some(mid.push(0)),
                None => true,
            } by {
            let f = regs.r15;
            assert(f & !f == 0) by (bit_vector);
            lemma_eval_snoc(c0, Instr::ReadRegister(RegId::R15), regs, st);
            lemma_eval_snoc(c1, Instr::Dup, regs, st);
            lemma_eval_snoc(c2, Instr::UnaryOp(UnOp::Not), regs, st);
            lemma_eval_snoc(c3, Instr::BinaryOp(BinOp::And), regs, st);
            match eval_seq(c0, regs, st) {
                Some(mid) => {
                    assert(eval_seq(c2, regs, st) == Some(mid.push(f).push(f)));
                    lemma_step_un(UnOp::Not, regs, mid.push(f), f);
                    assert(eval_seq(c3, regs, st) == Some(mid.push(f).push(!f)));
                    lemma_step_bin(BinOp::And, regs, mid, f, !f);
                },
                None => {},
            }
        }
    }
}

/// Emit an obfuscated 4 from RAX:
/// `RAX; DUP; NOT; AND; +1; DUP; DUP; SHL; SHL`.
fn emit_four_scratch(out: &mut Vec<Instr>)
    ensures
        forall|regs: Regs, st: Seq<u64>|
            #![trigger eval_seq(final(out)@, regs, st)]
            match eval_seq(old(out)@, regs, st) {
                Some(mid) => eval_seq(final(out)@, regs, st) == Some(mid.push(4)),
                None => true,
            },
{
    let ghost c0 = out@;
    out.push(Instr::ReadRegister(RegId::Rax));
    let ghost c1 = out@;
    out.push(Instr::Dup);
    let ghost c2 = out@;
    out.push(Instr::UnaryOp(UnOp::Not));
    let ghost c3 = out@;
    out.push(Instr::BinaryOp(BinOp::And));
    let ghost c4 = out@;
    out.push(Instr::PlusConstant(1));
    let ghost c5 = out@;
    out.push(Instr::Dup);
    let ghost c6 = out@;
    out.push(Instr::Dup);
    let ghost c7 = out@;
    out.push(Instr::BinaryOp(BinOp::Shl));
    let ghost c8 = out@;
    out.push(Instr::BinaryOp(BinOp::Shl));
    proof {
        assert forall|regs: Regs, st: Seq<u64>|
            #![trigger eval_seq(out@, regs, st)]
            match eval_seq(c0, regs, st) {
                Some(mid) => eval_seq(out@, regs, st) == Some(mid.push(4)),
                None => true,
            } by {
            let ax = regs.rax;
            assert(ax & !ax == 0 && w_add(0, 1) == 1 && w_shl(1, 1) == 2 && w_shl(1, 2) == 4)
                by (bit_vector);
            lemma_eval_snoc(c0, Instr::ReadRegister(RegId::Rax), regs, st);
            lemma_eval_snoc(c1, Instr::Dup, regs, st);
            lemma_eval_snoc(c2, Instr::UnaryOp(UnOp::Not), regs, st);
            lemma_eval_snoc(c3, Instr::BinaryOp(BinOp::And), regs, st);
            lemma_eval_snoc(c4, Instr::PlusConstant(1), regs, st);
            lemma_eval_snoc(c5, Instr::Dup, regs, st);
            lemma_eval_snoc(c6, Instr::Dup, regs, st);
            lemma_eval_snoc(c7, Instr::BinaryOp(BinOp::Shl), regs, st);
            lemma_eval_snoc(c8, Instr::BinaryOp(BinOp::Shl), regs, st);
            match eval_seq(c0, regs, st) {
                Some(mid) => {
                    assert(eval_seq(c2, regs, st) == Some(mid.push(ax).push(ax)));
                    lemma_step_un(UnOp::Not, regs, mid.push(ax), ax);
                    assert(eval_seq(c3, regs, st) == Some(mid.push(ax).push(!ax)));
                    lemma_step_bin(BinOp::And, regs, mid, ax, !ax);
                    assert(eval_seq(c4, regs, st) == Some(mid.push(0)));
                    lemma_step_plus_const(1, regs, mid, 0);
                    assert(eval_seq(c5, regs, st) == Some(mid.push(1)));
                    assert(eval_seq(c7, regs, st) == Some(mid.push(1).push(1).push(1)));
                    lemma_step_bin(BinOp::Shl, regs, mid.push(1), 1, 1);
                    assert(eval_seq(c8, regs, st) == Some(mid.push(1).push(2)));
                    lemma_step_bin(BinOp::Shl, regs, mid, 1, 2);
                },
                None => {},
            }
        }
    }
}

/// Emit one stir of the round function's feedback from the live
/// registers: `R13; DUP; +hash; SWAP; 30; SHR; R15; 24; SHL; XOR; XOR`.
fn emit_mix_feed(out: &mut Vec<Instr>, rng: &mut rand::rngs::ThreadRng, hash: u64)
    ensures
        forall|regs: Regs, st: Seq<u64>|
            #![trigger eval_seq(final(out)@, regs, st)]
            match eval_seq(old(out)@, regs, st) {
                Some(mid) => eval_seq(final(out)@, regs, st)
                    == Some(mid.push(mix_feed(regs.r13, regs.r15, hash))),
                None => true,
            },
{
    let ghost c0 = out@;
    out.push(Instr::ReadRegister(RegId::R13));
    let ghost c1 = out@;
    out.push(Instr::Dup);
    let ghost c2 = out@;
    out.push(Instr::PlusConstant(hash));
    let ghost c3 = out@;
    out.push(Instr::Swap);
    let ghost c4 = out@;
    expand(out, rng, 30, DEFAULT_DEPTH);
    let ghost c5 = out@;
    out.push(Instr::BinaryOp(BinOp::Shr));
    let ghost c6 = out@;
    out.push(Instr::ReadRegister(RegId::R15));
    let ghost c7 = out@;
    expand(out, rng, 24, DEFAULT_DEPTH);
    let ghost c8 = out@;
    out.push(Instr::BinaryOp(BinOp::Shl));
    let ghost c9 = out@;
    out.push(Instr::BinaryOp(BinOp::Xor));
    let ghost c10 = out@;
    out.push(Instr::BinaryOp(BinOp::Xor));
    proof {
        assert forall|regs: Regs, st: Seq<u64>|
            #![trigger eval_seq(out@, regs, st)]
            match eval_seq(c0, regs, st) {
                Some(mid) => eval_seq(out@, regs, st)
                    == Some(mid.push(mix_feed(regs.r13, regs.r15, hash))),
                None => true,
            } by {
            let acc = regs.r13;
            let f = regs.r15;
            lemma_eval_snoc(c0, Instr::ReadRegister(RegId::R13), regs, st);
            lemma_eval_snoc(c1, Instr::Dup, regs, st);
            lemma_eval_snoc(c2, Instr::PlusConstant(hash), regs, st);
            lemma_eval_snoc(c3, Instr::Swap, regs, st);
            lemma_eval_snoc(c5, Instr::BinaryOp(BinOp::Shr), regs, st);
            lemma_eval_snoc(c6, Instr::ReadRegister(RegId::R15), regs, st);
            lemma_eval_snoc(c8, Instr::BinaryOp(BinOp::Shl), regs, st);
            lemma_eval_snoc(c9, Instr::BinaryOp(BinOp::Xor), regs, st);
            lemma_eval_snoc(c10, Instr::BinaryOp(BinOp::Xor), regs, st);
            match eval_seq(c0, regs, st) {
                Some(mid) => {
                    assert(eval_seq(c2, regs, st) == Some(mid.push(acc).push(acc)));
                    lemma_step_plus_const(hash, regs, mid.push(acc), acc);
                    let ah = w_add(acc, hash);
                    assert(eval_seq(c3, regs, st) == Some(mid.push(acc).push(ah)));
                    lemma_step_swap(regs, mid, acc, ah);
                    assert(eval_seq(c4, regs, st) == Some(mid.push(ah).push(acc)));
                    assert(eval_seq(c5, regs, st) == Some(mid.push(ah).push(acc).push(30)));
                    lemma_step_bin(BinOp::Shr, regs, mid.push(ah), acc, 30);
                    let a30 = bin_val(BinOp::Shr, acc, 30);
                    assert(a30 == acc >> 30);
                    assert(eval_seq(c8, regs, st)
                        == Some(mid.push(ah).push(a30).push(f).push(24)));
                    lemma_step_bin(BinOp::Shl, regs, mid.push(ah).push(a30), f, 24);
                    let f24 = bin_val(BinOp::Shl, f, 24);
                    assert(f24 == w_shl(f, 24));
                    assert(eval_seq(c9, regs, st) == Some(mid.push(ah).push(a30).push(f24)));
                    lemma_step_bin(BinOp::Xor, regs, mid.push(ah), a30, f24);
                    assert(eval_seq(c10, regs, st) == Some(mid.push(ah).push(a30 ^ f24)));
                    lemma_step_bin(BinOp::Xor, regs, mid, ah, a30 ^ f24);
                    assert(ah ^ (a30 ^ f24) == (ah ^ a30) ^ f24) by (bit_vector);
                },
                None => {},
            }
        }
    }
}

/// Build the update sequence of the control register: run from an
/// empty stack it leaves exactly the register's next phase word.
pub fn build_r12(rng: &mut rand::rngs::ThreadRng, target: u64) -> (code: Vec<Instr>)
    ensures
        forall|regs: Regs|
            #![trigger eval_seq(code@, regs, Seq::<u64>::empty())]
            eval_seq(code@, regs, Seq::empty())
                == Some(seq![next_r12_val(regs.r12, regs.r13, target)]),
{
    let mut out: Vec<Instr> = Vec::new();
    let ghost c0 = out@;
    emit_phase(&mut out, rng);
    let ghost g1 = out@;
    out.push(Instr::Dup);
    let ghost g2 = out@;
    expand(&mut out, rng, 3, DEFAULT_DEPTH);
    let ghost g3 = out@;
    out.push(Instr::BinaryOp(BinOp::CmpLe));
    let ghost g4 = out@;
    out.push(Instr::Swap);
    let ghost g5 = out@;
    out.push(Instr::Dup);
    let ghost g6 = out@;
    emit_four_shifted(&mut out, rng);
    let ghost g7 = out@;
    emit_mask_tail(&mut out, rng);
    let ghost g8 = out@;
    out.push(Instr::ReadRegister(RegId::R12));
    let ghost g9 = out@;
    emit_eight_shifted(&mut out, rng);
    let ghost g10 = out@;
    out.push(Instr::BinaryOp(BinOp::Shr));
    let ghost g11 = out@;
    emit_sext_tail(&mut out, rng);
    let ghost g12 = out@;
    out.push(Instr::BinaryOp(BinOp::And));
    let ghost g13 = out@;
    out.push(Instr::Swap);
    let ghost g14 = out@;
    expand(&mut out, rng, 6, DEFAULT_DEPTH);
    let ghost g15 = out@;
    emit_mask_tail(&mut out, rng);
    let ghost g16 = out@;
    out.push(Instr::ReadRegister(RegId::R13));
    let ghost g17 = out@;
    expand(&mut out, rng, target, DEFAULT_DEPTH);
    let ghost g18 = out@;
    emit_mask_tail(&mut out, rng);
    let ghost g19 = out@;
    out.push(Instr::Dup);
    let ghost g20 = out@;
    out.push(Instr::UnaryOp(UnOp::Not));
    let ghost g21 = out@;
    expand(&mut out, rng, 2, DEFAULT_DEPTH);
    let ghost g22 = out@;
    out.push(Instr::BinaryOp(BinOp::And));
    let ghost g23 = out@;
    out.push(Instr::Swap);
    let ghost g24 = out@;
    out.push(Instr::ReadRegister(RegId::R12));
    let ghost g25 = out@;
    expand(&mut out, rng, 8, DEFAULT_DEPTH);
    let ghost g26 = out@;
    out.push(Instr::BinaryOp(BinOp::Shr));
    let ghost g27 = out@;
    emit_sext_tail(&mut out, rng);
    let ghost g28 = out@;
    out.push(Instr::BinaryOp(BinOp::And));
    let ghost g29 = out@;
    out.push(Instr::BinaryOp(BinOp::Or));
    let ghost g30 = out@;
    out.push(Instr::BinaryOp(BinOp::And));
    let ghost g31 = out@;
    out.push(Instr::BinaryOp(BinOp::Or));
    let ghost g32 = out@;
    out.push(Instr::BinaryOp(BinOp::Or));
    proof {
        assert forall|regs: Regs|
            #![trigger eval_seq(out@, regs, Seq::<u64>::empty())]
            eval_seq(out@, regs, Seq::empty())
                == Some(seq![next_r12_val(regs.r12, regs.r13, target)]) by {
            let e = Seq::<u64>::empty();
            let r12 = regs.r12;
            let r13 = regs.r13;
            let ph = r12 & 0xff;
            assert(eval_seq(c0, regs, e) == Some(e));
            assert(eval_seq(g1, regs, e) == Some(e.push(ph)));
            lemma_eval_snoc(g1, Instr::Dup, regs, e);
            assert(eval_seq(g2, regs, e) == Some(e.push(ph).push(ph)));
            assert(eval_seq(g3, regs, e) == Some(e.push(ph).push(ph).push(3)));
            lemma_eval_snoc(g3, Instr::BinaryOp(BinOp::CmpLe), regs, e);
            lemma_step_bin(BinOp::CmpLe, regs, e.push(ph), ph, 3);
            let le3 = bin_val(BinOp::CmpLe, ph, 3);
            assert(eval_seq(g4, regs, e) == Some(e.push(ph).push(le3)));
            lemma_eval_snoc(g4, Instr::Swap, regs, e);
            lemma_step_swap(regs, e, ph, le3);
            assert(eval_seq(g5, regs, e) == Some(e.push(le3).push(ph)));
            lemma_eval_snoc(g5, Instr::Dup, regs, e);
            assert(eval_seq(g6, regs, e) == Some(e.push(le3).push(ph).push(ph)));
            assert(eval_seq(g7, regs, e) == Some(e.push(le3).push(ph).push(ph).push(4)));
            let m4 = mask_eq(ph, 4);
            assert(eval_seq(g8, regs, e) == Some(e.push(le3).push(ph).push(m4)));
            lemma_eval_snoc(g8, Instr::ReadRegister(RegId::R12), regs, e);
            assert(eval_seq(g9, regs, e) == Some(e.push(le3).push(ph).push(m4).push(r12)));
            assert(eval_seq(g10, regs, e)
                == Some(e.push(le3).push(ph).push(m4).push(r12).push(8)));
            lemma_eval_snoc(g10, Instr::BinaryOp(BinOp::Shr), regs, e);
            lemma_step_bin(BinOp::Shr, regs, e.push(le3).push(ph).push(m4), r12, 8);
            let hi = bin_val(BinOp::Shr, r12, 8);
            assert(eval_seq(g11, regs, e) == Some(e.push(le3).push(ph).push(m4).push(hi)));
            let sx = sext_low8(hi);
            assert(eval_seq(g12, regs, e) == Some(e.push(le3).push(ph).push(m4).push(sx)));
            lemma_eval_snoc(g12, Instr::BinaryOp(BinOp::And), regs, e);
            lemma_step_bin(BinOp::And, regs, e.push(le3).push(ph), m4, sx);
            let c4v = bin_val(BinOp::And, m4, sx);
            assert(eval_seq(g13, regs, e) == Some(e.push(le3).push(ph).push(c4v)));
            lemma_eval_snoc(g13, Instr::Swap, regs, e);
            lemma_step_swap(regs, e.push(le3), ph, c4v);
            assert(eval_seq(g14, regs, e) == Some(e.push(le3).push(c4v).push(ph)));
            assert(eval_seq(g15, regs, e) == Some(e.push(le3).push(c4v).push(ph).push(6)));
            let m6 = mask_eq(ph, 6);
            assert(eval_seq(g16, regs, e) == Some(e.push(le3).push(c4v).push(m6)));
            lemma_eval_snoc(g16, Instr::ReadRegister(RegId::R13), regs, e);
            assert(eval_seq(g17, regs, e) == Some(e.push(le3).push(c4v).push(m6).push(r13)));
            assert(eval_seq(g18, regs, e)
                == Some(e.push(le3).push(c4v).push(m6).push(r13).push(target)));
            let mt = mask_eq(r13, target);
            assert(eval_seq(g19, regs, e) == Some(e.push(le3).push(c4v).push(m6).push(mt)));
            lemma_eval_snoc(g19, Instr::Dup, regs, e);
            assert(eval_seq(g20, regs, e)
                == Some(e.push(le3).push(c4v).push(m6).push(mt).push(mt)));
            lemma_eval_snoc(g20, Instr::UnaryOp(UnOp::Not), regs, e);
            lemma_step_un(UnOp::Not, regs, e.push(le3).push(c4v).push(m6).push(mt), mt);
            assert(eval_seq(g21, regs, e)
                == Some(e.push(le3).push(c4v).push(m6).push(mt).push(!mt)));
            assert(eval_seq(g22, regs, e)
                == Some(e.push(le3).push(c4v).push(m6).push(mt).push(!mt).push(2)));
            lemma_eval_snoc(g22, Instr::BinaryOp(BinOp::And), regs, e);
            lemma_step_bin(BinOp::And, regs, e.push(le3).push(c4v).push(m6).push(mt), !mt, 2);
            let p2 = bin_val(BinOp::And, !mt, 2);
            assert(eval_seq(g23, regs, e)
                == Some(e.push(le3).push(c4v).push(m6).push(mt).push(p2)));
            lemma_eval_snoc(g23, Instr::Swap, regs, e);
            lemma_step_swap(regs, e.push(le3).push(c4v).push(m6), mt, p2);
            assert(eval_seq(g24, regs, e)
                == Some(e.push(le3).push(c4v).push(m6).push(p2).push(mt)));
            lemma_eval_snoc(g24, Instr::ReadRegister(RegId::R12), regs, e);
            assert(eval_seq(g25, regs, e)
                == Some(e.push(le3).push(c4v).push(m6).push(p2).push(mt).push(r12)));
            assert(eval_seq(g26, regs, e)
                == Some(e.push(le3).push(c4v).push(m6).push(p2).push(mt).push(r12).push(8)));
            lemma_eval_snoc(g26, Instr::BinaryOp(BinOp::Shr), regs, e);
            lemma_step_bin(BinOp::Shr, regs,
                e.push(le3).push(c4v).push(m6).push(p2).push(mt), r12, 8);
            assert(eval_seq(g27, regs, e)
                == Some(e.push(le3).push(c4v).push(m6).push(p2).push(mt).push(hi)));
            assert(eval_seq(g28, regs, e)
                == Some(e.push(le3).push(c4v).push(m6).push(p2).push(mt).push(sx)));
            lemma_eval_snoc(g28, Instr::BinaryOp(BinOp::And), regs, e);
            lemma_step_bin(BinOp::And, regs, e.push(le3).push(c4v).push(m6).push(p2), mt, sx);
            let kv = bin_val(BinOp::And, mt, sx);
            assert(eval_seq(g29, regs, e)
                == Some(e.push(le3).push(c4v).push(m6).push(p2).push(kv)));
            lemma_eval_snoc(g29, Instr::BinaryOp(BinOp::Or), regs, e);
            lemma_step_bin(BinOp::Or, regs, e.push(le3).push(c4v).push(m6), p2, kv);
            assert(eval_seq(g30, regs, e)
                == Some(e.push(le3).push(c4v).push(m6).push(p2 | kv)));
            lemma_eval_snoc(g30, Instr::BinaryOp(BinOp::And), regs, e);
            lemma_step_bin(BinOp::And, regs, e.push(le3).push(c4v), m6, p2 | kv);
            let c6v = m6 & (p2 | kv);
            assert(eval_seq(g31, regs, e) == Some(e.push(le3).push(c4v).push(c6v)));
            lemma_eval_snoc(g31, Instr::BinaryOp(BinOp::Or), regs, e);
            lemma_step_bin(BinOp::Or, regs, e.push(le3), c4v, c6v);
            assert(eval_seq(g32, regs, e) == Some(e.push(le3).push(c4v | c6v)));
            lemma_eval_snoc(g32, Instr::BinaryOp(BinOp::Or), regs, e);
            lemma_step_bin(BinOp::Or, regs, e, le3, c4v | c6v);
            assert(eval_seq(out@, regs, e) == Some(e.push(le3 | (c4v | c6v))));
            let le3v: u64 = if ph <= 3 { 1 } else { 0 };
            assert(le3 == le3v);
            assert({
                let phb = r12 & 0xff;
                let le3b: u64 = if phb <= 3 { 1u64 } else { 0u64 };
                let m4b = mask_eq(phb, 4);
                let m6b = mask_eq(phb, 6);
                let mtb = mask_eq(r13, target);
                let sxb = sext_low8(w_shr(r12, 8));
                le3b | ((m4b & sxb) | (m6b & ((!mtb & 2) | (mtb & sxb))))
                    == next_r12_val(r12, r13, target)
            }) by (bit_vector);
            assert(le3 | (c4v | c6v) == next_r12_val(r12, r13, target));
            assert(seq![next_r12_val(r12, r13, target)]
                =~= Seq::<u64>::empty().push(next_r12_val(r12, r13, target)));
        }
    }
    out
}

/// Build the update sequence of R15: run from an empty stack it leaves
/// exactly the register's next value.
pub fn build_r15(rng: &mut rand::rngs::ThreadRng, xor_b: u64) -> (code: Vec<Instr>)
    ensures
        forall|regs: Regs|
            #![trigger eval_seq(code@, regs, Seq::<u64>::empty())]
            eval_seq(code@, regs, Seq::empty())
                == Some(seq![next_r15_val(regs.r12, regs.r14, regs.r15, xor_b)]),
{
    let mut out: Vec<Instr> = Vec::new();
    let ghost c0 = out@;
    emit_phase(&mut out, rng);
    let ghost g1 = out@;
    out.push(Instr::Dup);
    let ghost g2 = out@;
    expand(&mut out, rng, 2, DEFAULT_DEPTH);
    let ghost g3 = out@;
    emit_mask_tail(&mut out, rng);
    let ghost g4 = out@;
    out.push(Instr::Swap);
    let ghost g5 = out@;
    expand(&mut out, rng, 3, DEFAULT_DEPTH);
    let ghost g6 = out@;
    emit_mask_tail(&mut out, rng);
    let ghost g7 = out@;
    out.push(Instr::Dup);
    let ghost g8 = out@;
    out.push(Instr::Pick(2));
    let ghost g9 = out@;
    out.push(Instr::BinaryOp(BinOp::Or));
    let ghost g10 = out@;
    out.push(Instr::UnaryOp(UnOp::Not));
    let ghost g11 = out@;
    out.push(Instr::ReadRegister(RegId::R15));
    let ghost g12 = out@;
    out.push(Instr::BinaryOp(BinOp::And));
    let ghost g13 = out@;
    out.push(Instr::Rotate3);
    let ghost g14 = out@;
    out.push(Instr::ReadRegister(RegId::R15));
    let ghost g15 = out@;
    expand(&mut out, rng, xor_b, DEFAULT_DEPTH);
    let ghost g16 = out@;
    out.push(Instr::BinaryOp(BinOp::Xor));
    let ghost g17 = out@;
    out.push(Instr::BinaryOp(BinOp::And));
    let ghost g18 = out@;
    out.push(Instr::Rotate3);
    let ghost g19 = out@;
    out.push(Instr::ReadRegister(RegId::R14));
    let ghost g20 = out@;
    out.push(Instr::BinaryOp(BinOp::And));
    let ghost g21 = out@;
    out.push(Instr::BinaryOp(BinOp::Or));
    let ghost g22 = out@;
    out.push(Instr::BinaryOp(BinOp::Or));
    proof {
        assert forall|regs: Regs|
            #![trigger eval_seq(out@, regs, Seq::<u64>::empty())]
            eval_seq(out@, regs, Seq::empty())
                == Some(seq![next_r15_val(regs.r12, regs.r14, regs.r15, xor_b)]) by {
            let e = Seq::<u64>::empty();
            let r12 = regs.r12;
            let r14 = regs.r14;
            let r15 = regs.r15;
            let ph = r12 & 0xff;
            assert(eval_seq(c0, regs, e) == Some(e));
            assert(eval_seq(g1, regs, e) == Some(e.push(ph)));
            lemma_eval_snoc(g1, Instr::Dup, regs, e);
            assert(eval_seq(g2, regs, e) == Some(e.push(ph).push(ph)));
            assert(eval_seq(g3, regs, e) == Some(e.push(ph).push(ph).push(2)));
            let m2 = mask_eq(ph, 2);
            assert(eval_seq(g4, regs, e) == Some(e.push(ph).push(m2)));
            lemma_eval_snoc(g4, Instr::Swap, regs, e);
            lemma_step_swap(regs, e, ph, m2);
            assert(eval_seq(g5, regs, e) == Some(e.push(m2).push(ph)));
            assert(eval_seq(g6, regs, e) == Some(e.push(m2).push(ph).push(3)));
            let m3 = mask_eq(ph, 3);
            assert(eval_seq(g7, regs, e) == Some(e.push(m2).push(m3)));
            lemma_eval_snoc(g7, Instr::Dup, regs, e);
            assert(eval_seq(g8, regs, e) == Some(e.push(m2).push(m3).push(m3)));
            lemma_eval_snoc(g8, Instr::Pick(2), regs, e);
            lemma_step_pick2(regs, e, m2, m3, m3);
            assert(eval_seq(g9, regs, e) == Some(e.push(m2).push(m3).push(m3).push(m2)));
            lemma_eval_snoc(g9, Instr::BinaryOp(BinOp::Or), regs, e);
            lemma_step_bin(BinOp::Or, regs, e.push(m2).push(m3), m3, m2);
            assert(eval_seq(g10, regs, e) == Some(e.push(m2).push(m3).push(m3 | m2)));
            lemma_eval_snoc(g10, Instr::UnaryOp(UnOp::Not), regs, e);
            lemma_step_un(UnOp::Not, regs, e.push(m2).push(m3), m3 | m2);
            let me = !(m3 | m2);
            assert(eval_seq(g11, regs, e) == Some(e.push(m2).push(m3).push(me)));
            lemma_eval_snoc(g11, Instr::ReadRegister(RegId::R15), regs, e);
            assert(eval_seq(g12, regs, e) == Some(e.push(m2).push(m3).push(me).push(r15)));
            lemma_eval_snoc(g12, Instr::BinaryOp(BinOp::And), regs, e);
            lemma_step_bin(BinOp::And, regs, e.push(m2).push(m3), me, r15);
            let cev = me & r15;
            assert(eval_seq(g13, regs, e) == Some(e.push(m2).push(m3).push(cev)));
            lemma_eval_snoc(g13, Instr::Rotate3, regs, e);
            lemma_step_rot(regs, e, m2, m3, cev);
            assert(eval_seq(g14, regs, e) == Some(e.push(cev).push(m2).push(m3)));
            lemma_eval_snoc(g14, Instr::ReadRegister(RegId::R15), regs, e);
            assert(eval_seq(g15, regs, e) == Some(e.push(cev).push(m2).push(m3).push(r15)));
            assert(eval_seq(g16, regs, e)
                == Some(e.push(cev).push(m2).push(m3).push(r15).push(xor_b)));
            lemma_eval_snoc(g16, Instr::BinaryOp(BinOp::Xor), regs, e);
            lemma_step_bin(BinOp::Xor, regs, e.push(cev).push(m2).push(m3), r15, xor_b);
            let rx = r15 ^ xor_b;
            assert(eval_seq(g17, regs, e) == Some(e.push(cev).push(m2).push(m3).push(rx)));
            lemma_eval_snoc(g17, Instr::BinaryOp(BinOp::And), regs, e);
            lemma_step_bin(BinOp::And, regs, e.push(cev).push(m2), m3, rx);
            let c3v = m3 & rx;
            assert(eval_seq(g18, regs, e) == Some(e.push(cev).push(m2).push(c3v)));
            lemma_eval_snoc(g18, Instr::Rotate3, regs, e);
            lemma_step_rot(regs, e, cev, m2, c3v);
            assert(eval_seq(g19, regs, e) == Some(e.push(c3v).push(cev).push(m2)));
            lemma_eval_snoc(g19, Instr::ReadRegister(RegId::R14), regs, e);
            assert(eval_seq(g20, regs, e) == Some(e.push(c3v).push(cev).push(m2).push(r14)));
            lemma_eval_snoc(g20, Instr::BinaryOp(BinOp::And), regs, e);
            lemma_step_bin(BinOp::And, regs, e.push(c3v).push(cev), m2, r14);
            let c2v = m2 & r14;
            assert(eval_seq(g21, regs, e) == Some(e.push(c3v).push(cev).push(c2v)));
            lemma_eval_snoc(g21, Instr::BinaryOp(BinOp::Or), regs, e);
            lemma_step_bin(BinOp::Or, regs, e.push(c3v), cev, c2v);
            assert(eval_seq(g22, regs, e) == Some(e.push(c3v).push(cev | c2v)));
            lemma_eval_snoc(g22, Instr::BinaryOp(BinOp::Or), regs, e);
            lemma_step_bin(BinOp::Or, regs, e, c3v, cev | c2v);
            assert(eval_seq(out@, regs, e) == Some(e.push(c3v | (cev | c2v))));
            assert({
                let phb = r12 & 0xff;
                let m2b = mask_eq(phb, 2);
                let m3b = mask_eq(phb, 3);
                (m3b & (r15 ^ xor_b)) | ((!(m3b | m2b) & r15) | (m2b & r14))
                    == next_r15_val(r12, r14, r15, xor_b)
            }) by (bit_vector);
            assert(c3v | (cev | c2v) == next_r15_val(r12, r14, r15, xor_b));
            assert(seq![next_r15_val(r12, r14, r15, xor_b)]
                =~= Seq::<u64>::empty().push(next_r15_val(r12, r14, r15, xor_b)));
        }
    }
    out
}

/// Build the update sequence of R13, the step accumulator: run from an
/// empty stack it leaves exactly the register's next value.
pub fn build_r13(rng: &mut rand::rngs::ThreadRng, det: u64, ans_a: u64, ans_b: u64) -> (code: Vec<Instr>)
    ensures
        forall|regs: Regs|
            #![trigger eval_seq(code@, regs, Seq::<u64>::empty())]
            eval_seq(code@, regs, Seq::empty())
                == Some(seq![next_r13_val(regs.r12, regs.r13, regs.r14, regs.r15, det, ans_a, ans_b)]),
{
    let mut out: Vec<Instr> = Vec::new();
    let ghost c0 = out@;
    emit_phase(&mut out, rng);
    let ghost g1 = out@;
    out.push(Instr::Dup);
    let ghost g2 = out@;
    expand(&mut out, rng, 0, DEFAULT_DEPTH);
    let ghost g3 = out@;
    emit_mask_tail(&mut out, rng);
    let ghost g4 = out@;
    expand(&mut out, rng, det, DEFAULT_DEPTH);
    let ghost g5 = out@;
    out.push(Instr::ReadRegister(RegId::R13));
    let ghost g6 = out@;
    out.push(Instr::BinaryOp(BinOp::Plus));
    let ghost g7 = out@;
    out.push(Instr::BinaryOp(BinOp::And));
    let ghost g8 = out@;
    out.push(Instr::Swap);
    let ghost g9 = out@;
    out.push(Instr::Dup);
    let ghost g10 = out@;
    emit_seven_masked(&mut out, rng);
    let ghost g11 = out@;
    out.push(Instr::BinaryOp(BinOp::CmpEq));
    let ghost g12 = out@;
    out.push(Instr::ReadRegister(RegId::R14));
    let ghost g13 = out@;
    expand(&mut out, rng, ans_a, DEFAULT_DEPTH);
    let ghost g14 = out@;
    out.push(Instr::BinaryOp(BinOp::CmpNe));
    let ghost g15 = out@;
    out.push(Instr::ReadRegister(RegId::R15));
    let ghost g16 = out@;
    expand(&mut out, rng, ans_b, DEFAULT_DEPTH);
    let ghost g17 = out@;
    out.push(Instr::BinaryOp(BinOp::CmpNe));
    let ghost g18 = out@;
    out.push(Instr::BinaryOp(BinOp::Or));
    let ghost g19 = out@;
    out.push(Instr::BinaryOp(BinOp::And));
    let ghost g20 = out@;
    out.push(Instr::Swap);
    let ghost g21 = out@;
    out.push(Instr::Dup);
    let ghost g22 = out@;
    emit_zero_scratch(&mut out);
    let ghost g23 = out@;
    out.push(Instr::BinaryOp(BinOp::CmpEq));
    let ghost g24 = out@;
    out.push(Instr::Swap);
    let ghost g25 = out@;
    expand(&mut out, rng, 7, DEFAULT_DEPTH);
    let ghost g26 = out@;
    out.push(Instr::BinaryOp(BinOp::CmpEq));
    let ghost g27 = out@;
    out.push(Instr::BinaryOp(BinOp::Or));
    let ghost g28 = out@;
    expand(&mut out, rng, 1, DEFAULT_DEPTH);
    let ghost g29 = out@;
    out.push(Instr::BinaryOp(BinOp::Minus));
    let ghost g30 = out@;
    out.push(Instr::ReadRegister(RegId::R13));
    let ghost g31 = out@;
    out.push(Instr::BinaryOp(BinOp::And));
    let ghost g32 = out@;
    out.push(Instr::BinaryOp(BinOp::Or));
    let ghost g33 = out@;
    out.push(Instr::BinaryOp(BinOp::Or));
    proof {
        assert forall|regs: Regs|
            #![trigger eval_seq(out@, regs, Seq::<u64>::empty())]
            eval_seq(out@, regs, Seq::empty())
                == Some(seq![next_r13_val(regs.r12, regs.r13, regs.r14, regs.r15, det, ans_a, ans_b)]) by {
            let e = Seq::<u64>::empty();
            let r12 = regs.r12;
            let r13 = regs.r13;
            let r14 = regs.r14;
            let r15 = regs.r15;
            let ph = r12 & 0xff;
            assert(eval_seq(c0, regs, e) == Some(e));
            assert(eval_seq(g1, regs, e) == Some(e.push(ph)));
            lemma_eval_snoc(g1, Instr::Dup, regs, e);
            assert(eval_seq(g2, regs, e) == Some(e.push(ph).push(ph)));
            assert(eval_seq(g3, regs, e) == Some(e.push(ph).push(ph).push(0)));
            let m0 = mask_eq(ph, 0);
            assert(eval_seq(g4, regs, e) == Some(e.push(ph).push(m0)));
            assert(eval_seq(g5, regs, e) == Some(e.push(ph).push(m0).push(det)));
            lemma_eval_snoc(g5, Instr::ReadRegister(RegId::R13), regs, e);
            assert(eval_seq(g6, regs, e) == Some(e.push(ph).push(m0).push(det).push(r13)));
            lemma_eval_snoc(g6, Instr::BinaryOp(BinOp::Plus), regs, e);
            lemma_step_bin(BinOp::Plus, regs, e.push(ph).push(m0), det, r13);
            let s = w_add(det, r13);
            assert(eval_seq(g7, regs, e) == Some(e.push(ph).push(m0).push(s)));
            lemma_eval_snoc(g7, Instr::BinaryOp(BinOp::And), regs, e);
            lemma_step_bin(BinOp::And, regs, e.push(ph), m0, s);
            let c0v = m0 & s;
            assert(eval_seq(g8, regs, e) == Some(e.push(ph).push(c0v)));
            lemma_eval_snoc(g8, Instr::Swap, regs, e);
            lemma_step_swap(regs, e, ph, c0v);
            assert(eval_seq(g9, regs, e) == Some(e.push(c0v).push(ph)));
            lemma_eval_snoc(g9, Instr::Dup, regs, e);
            assert(eval_seq(g10, regs, e) == Some(e.push(c0v).push(ph).push(ph)));
            assert(eval_seq(g11, regs, e) == Some(e.push(c0v).push(ph).push(ph).push(7)));
            lemma_eval_snoc(g11, Instr::BinaryOp(BinOp::CmpEq), regs, e);
            lemma_step_bin(BinOp::CmpEq, regs, e.push(c0v).push(ph), ph, 7);
            let e7 = bin_val(BinOp::CmpEq, ph, 7);
            assert(eval_seq(g12, regs, e) == Some(e.push(c0v).push(ph).push(e7)));
            lemma_eval_snoc(g12, Instr::ReadRegister(RegId::R14), regs, e);
            assert(eval_seq(g13, regs, e) == Some(e.push(c0v).push(ph).push(e7).push(r14)));
            assert(eval_seq(g14, regs, e)
                == Some(e.push(c0v).push(ph).push(e7).push(r14).push(ans_a)));
            lemma_eval_snoc(g14, Instr::BinaryOp(BinOp::CmpNe), regs, e);
            lemma_step_bin(BinOp::CmpNe, regs, e.push(c0v).push(ph).push(e7), r14, ans_a);
            let na = bin_val(BinOp::CmpNe, r14, ans_a);
            assert(eval_seq(g15, regs, e) == Some(e.push(c0v).push(ph).push(e7).push(na)));
            lemma_eval_snoc(g15, Instr::ReadRegister(RegId::R15), regs, e);
            assert(eval_seq(g16, regs, e)
                == Some(e.push(c0v).push(ph).push(e7).push(na).push(r15)));
            assert(eval_seq(g17, regs, e)
                == Some(e.push(c0v).push(ph).push(e7).push(na).push(r15).push(ans_b)));
            lemma_eval_snoc(g17, Instr::BinaryOp(BinOp::CmpNe), regs, e);
            lemma_step_bin(BinOp::CmpNe, regs, e.push(c0v).push(ph).push(e7).push(na), r15, ans_b);
            let nb = bin_val(BinOp::CmpNe, r15, ans_b);
            assert(eval_seq(g18, regs, e)
                == Some(e.push(c0v).push(ph).push(e7).push(na).push(nb)));
            lemma_eval_snoc(g18, Instr::BinaryOp(BinOp::Or), regs, e);
            lemma_step_bin(BinOp::Or, regs, e.push(c0v).push(ph).push(e7), na, nb);
            let mm = na | nb;
            assert(eval_seq(g19, regs, e) == Some(e.push(c0v).push(ph).push(e7).push(mm)));
            lemma_eval_snoc(g19, Instr::BinaryOp(BinOp::And), regs, e);
            lemma_step_bin(BinOp::And, regs, e.push(c0v).push(ph), e7, mm);
            let c7v = e7 & mm;
            assert(eval_seq(g20, regs, e) == Some(e.push(c0v).push(ph).push(c7v)));
            lemma_eval_snoc(g20, Instr::Swap, regs, e);
            lemma_step_swap(regs, e.push(c0v), ph, c7v);
            assert(eval_seq(g21, regs, e) == Some(e.push(c0v).push(c7v).push(ph)));
            lemma_eval_snoc(g21, Instr::Dup, regs, e);
            assert(eval_seq(g22, regs, e) == Some(e.push(c0v).push(c7v).push(ph).push(ph)));
            assert(eval_seq(g23, regs, e)
                == Some(e.push(c0v).push(c7v).push(ph).push(ph).push(0)));
            lemma_eval_snoc(g23, Instr::BinaryOp(BinOp::CmpEq), regs, e);
            lemma_step_bin(BinOp::CmpEq, regs, e.push(c0v).push(c7v).push(ph), ph, 0);
            let e0 = bin_val(BinOp::CmpEq, ph, 0);
            assert(eval_seq(g24, regs, e) == Some(e.push(c0v).push(c7v).push(ph).push(e0)));
            lemma_eval_snoc(g24, Instr::Swap, regs, e);
            lemma_step_swap(regs, e.push(c0v).push(c7v), ph, e0);
            assert(eval_seq(g25, regs, e) == Some(e.push(c0v).push(c7v).push(e0).push(ph)));
            assert(eval_seq(g26, regs, e)
                == Some(e.push(c0v).push(c7v).push(e0).push(ph).push(7)));
            lemma_eval_snoc(g26, Instr::BinaryOp(BinOp::CmpEq), regs, e);
            lemma_step_bin(BinOp::CmpEq, regs, e.push(c0v).push(c7v).push(e0), ph, 7);
            let e7b = bin_val(BinOp::CmpEq, ph, 7);
            assert(eval_seq(g27, regs, e)
                == Some(e.push(c0v).push(c7v).push(e0).push(e7b)));
            lemma_eval_snoc(g27, Instr::BinaryOp(BinOp::Or), regs, e);
            lemma_step_bin(BinOp::Or, regs, e.push(c0v).push(c7v), e0, e7b);
            let eo = e0 | e7b;
            assert(eval_seq(g28, regs, e) == Some(e.push(c0v).push(c7v).push(eo)));
            assert(eval_seq(g29, regs, e) == Some(e.push(c0v).push(c7v).push(eo).push(1)));
            lemma_eval_snoc(g29, Instr::BinaryOp(BinOp::Minus), regs, e);
            lemma_step_bin(BinOp::Minus, regs, e.push(c0v).push(c7v), eo, 1);
            let me = w_sub(eo, 1);
            assert(eval_seq(g30, regs, e) == Some(e.push(c0v).push(c7v).push(me)));
            lemma_eval_snoc(g30, Instr::ReadRegister(RegId::R13), regs, e);
            assert(eval_seq(g31, regs, e) == Some(e.push(c0v).push(c7v).push(me).push(r13)));
            lemma_eval_snoc(g31, Instr::BinaryOp(BinOp::And), regs, e);
            lemma_step_bin(BinOp::And, regs, e.push(c0v).push(c7v), me, r13);
            let cev = me & r13;
            assert(eval_seq(g32, regs, e) == Some(e.push(c0v).push(c7v).push(cev)));
            lemma_eval_snoc(g32, Instr::BinaryOp(BinOp::Or), regs, e);
            lemma_step_bin(BinOp::Or, regs, e.push(c0v), c7v, cev);
            assert(eval_seq(g33, regs, e) == Some(e.push(c0v).push(c7v | cev)));
            lemma_eval_snoc(g33, Instr::BinaryOp(BinOp::Or), regs, e);
            lemma_step_bin(BinOp::Or, regs, e, c0v, c7v | cev);
            assert(eval_seq(out@, regs, e) == Some(e.push(c0v | (c7v | cev))));
            assert({
                let phb = r12 & 0xff;
                let m0b = mask_eq(phb, 0);
                let e7c: u64 = if phb == 7 { 1 } else { 0 };
                let nac: u64 = if r14 != ans_a { 1 } else { 0 };
                let nbc: u64 = if r15 != ans_b { 1 } else { 0 };
                let e0c: u64 = if phb == 0 { 1 } else { 0 };
                (m0b & w_add(det, r13))
                    | ((e7c & (nac | nbc)) | (w_sub(e0c | e7c, 1) & r13))
                    == next_r13_val(r12, r13, r14, r15, det, ans_a, ans_b)
            }) by (bit_vector);
            assert(c0v | (c7v | cev) == next_r13_val(r12, r13, r14, r15, det, ans_a, ans_b));
            assert(seq![next_r13_val(r12, r13, r14, r15, det, ans_a, ans_b)]
                =~= Seq::<u64>::empty().push(next_r13_val(r12, r13, r14, r15, det, ans_a, ans_b)));
        }
    }
    out
}

/// Build the update sequence of R14: run from an empty stack it leaves
/// exactly the register's next value.
pub fn build_r14(rng: &mut rand::rngs::ThreadRng, xor_a: u64, hash: u64) -> (code: Vec<Instr>)
    ensures
        forall|regs: Regs|
            #![trigger eval_seq(code@, regs, Seq::<u64>::empty())]
            eval_seq(code@, regs, Seq::empty())
                == Some(seq![next_r14_val(regs.r12, regs.r13, regs.r14, regs.r15, xor_a, hash)]),
{
    let mut out: Vec<Instr> = Vec::new();
    let ghost c0 = out@;
    emit_phase(&mut out, rng);
    let ghost g1 = out@;
    out.push(Instr::Dup);
    let ghost g2 = out@;
    out.push(Instr::Dup);
    let ghost g3 = out@;
    emit_zero_r15(&mut out);
    let ghost g4 = out@;
    out.push(Instr::BinaryOp(BinOp::CmpGt));
    let ghost g5 = out@;
    out.push(Instr::Swap);
    let ghost g6 = out@;
    emit_four_scratch(&mut out);
    let ghost g7 = out@;
    out.push(Instr::BinaryOp(BinOp::CmpLt));
    let ghost g8 = out@;
    out.push(Instr::BinaryOp(BinOp::And));
    let ghost g9 = out@;
    expand(&mut out, rng, 1, DEFAULT_DEPTH);
    let ghost g10 = out@;
    out.push(Instr::BinaryOp(BinOp::Minus));
    let ghost g11 = out@;
    out.push(Instr::ReadRegister(RegId::R14));
    let ghost g12 = out@;
    out.push(Instr::BinaryOp(BinOp::And));
    let ghost g13 = out@;
    out.push(Instr::Swap);
    let ghost g14 = out@;
    out.push(Instr::Dup);
    let ghost g15 = out@;
    expand(&mut out, rng, 2, DEFAULT_DEPTH);
    let ghost g16 = out@;
    emit_mask_tail(&mut out, rng);
    let ghost g17 = out@;
    out.push(Instr::ReadRegister(RegId::R15));
    let ghost g18 = out@;
    out.push(Instr::BinaryOp(BinOp::And));
    let ghost g19 = out@;
    out.push(Instr::Swap);
    let ghost g20 = out@;
    out.push(Instr::Dup);
    let ghost g21 = out@;
    expand(&mut out, rng, 3, DEFAULT_DEPTH);
    let ghost g22 = out@;
    emit_mask_tail(&mut out, rng);
    let ghost g23 = out@;
    out.push(Instr::ReadRegister(RegId::R14));
    let ghost g24 = out@;
    expand(&mut out, rng, xor_a, DEFAULT_DEPTH);
    let ghost g25 = out@;
    out.push(Instr::BinaryOp(BinOp::Xor));
    let ghost g26 = out@;
    out.push(Instr::BinaryOp(BinOp::And));
    let ghost g27 = out@;
    out.push(Instr::Swap);
    let ghost g28 = out@;
    expand(&mut out, rng, 1, DEFAULT_DEPTH);
    let ghost g29 = out@;
    emit_mask_tail(&mut out, rng);
    let ghost g30 = out@;
    out.push(Instr::ReadRegister(RegId::R14));
    let ghost g31 = out@;
    emit_mix_feed(&mut out, rng, hash);
    let ghost g32 = out@;
    out.push(Instr::BinaryOp(BinOp::Xor));
    let ghost g33 = out@;
    out.push(Instr::BinaryOp(BinOp::And));
    let ghost g34 = out@;
    out.push(Instr::BinaryOp(BinOp::Or));
    let ghost g35 = out@;
    out.push(Instr::BinaryOp(BinOp::Or));
    let ghost g36 = out@;
    out.push(Instr::BinaryOp(BinOp::Or));
    proof {
        assert forall|regs: Regs|
            #![trigger eval_seq(out@, regs, Seq::<u64>::empty())]
            eval_seq(out@, regs, Seq::empty())
                == Some(seq![next_r14_val(regs.r12, regs.r13, regs.r14, regs.r15, xor_a, hash)]) by {
            let e = Seq::<u64>::empty();
            let r12 = regs.r12;
            let r13 = regs.r13;
            let r14 = regs.r14;
            let r15 = regs.r15;
            let ph = r12 & 0xff;
            let f = mix_feed(r13, r15, hash);
            assert(eval_seq(c0, regs, e) == Some(e));
            assert(eval_seq(g1, regs, e) == Some(e.push(ph)));
            lemma_eval_snoc(g1, Instr::Dup, regs, e);
            assert(eval_seq(g2, regs, e) == Some(e.push(ph).push(ph)));
            lemma_eval_snoc(g2, Instr::Dup, regs, e);
            assert(eval_seq(g3, regs, e) == Some(e.push(ph).push(ph).push(ph)));
            assert(eval_seq(g4, regs, e) == Some(e.push(ph).push(ph).push(ph).push(0)));
            lemma_eval_snoc(g4, Instr::BinaryOp(BinOp::CmpGt), regs, e);
            lemma_step_bin(BinOp::CmpGt, regs, e.push(ph).push(ph), ph, 0);
            let g = bin_val(BinOp::CmpGt, ph, 0);
            assert(eval_seq(g5, regs, e) == Some(e.push(ph).push(ph).push(g)));
            lemma_eval_snoc(g5, Instr::Swap, regs, e);
            lemma_step_swap(regs, e.push(ph), ph, g);
            assert(eval_seq(g6, regs, e) == Some(e.push(ph).push(g).push(ph)));
            assert(eval_seq(g7, regs, e) == Some(e.push(ph).push(g).push(ph).push(4)));
            lemma_eval_snoc(g7, Instr::BinaryOp(BinOp::CmpLt), regs, e);
            lemma_step_bin(BinOp::CmpLt, regs, e.push(ph).push(g), ph, 4);
            let l = bin_val(BinOp::CmpLt, ph, 4);
            assert(eval_seq(g8, regs, e) == Some(e.push(ph).push(g).push(l)));
            lemma_eval_snoc(g8, Instr::BinaryOp(BinOp::And), regs, e);
            lemma_step_bin(BinOp::And, regs, e.push(ph), g, l);
            let gl = g & l;
            assert(eval_seq(g9, regs, e) == Some(e.push(ph).push(gl)));
            assert(eval_seq(g10, regs, e) == Some(e.push(ph).push(gl).push(1)));
            lemma_eval_snoc(g10, Instr::BinaryOp(BinOp::Minus), regs, e);
            lemma_step_bin(BinOp::Minus, regs, e.push(ph), gl, 1);
            let me = w_sub(gl, 1);
            assert(eval_seq(g11, regs, e) == Some(e.push(ph).push(me)));
            lemma_eval_snoc(g11, Instr::ReadRegister(RegId::R14), regs, e);
            assert(eval_seq(g12, regs, e) == Some(e.push(ph).push(me).push(r14)));
            lemma_eval_snoc(g12, Instr::BinaryOp(BinOp::And), regs, e);
            lemma_step_bin(BinOp::And, regs, e.push(ph), me, r14);
            let cev = me & r14;
            assert(eval_seq(g13, regs, e) == Some(e.push(ph).push(cev)));
            lemma_eval_snoc(g13, Instr::Swap, regs, e);
            lemma_step_swap(regs, e, ph, cev);
            assert(eval_seq(g14, regs, e) == Some(e.push(cev).push(ph)));
            lemma_eval_snoc(g14, Instr::Dup, regs, e);
            assert(eval_seq(g15, regs, e) == Some(e.push(cev).push(ph).push(ph)));
            assert(eval_seq(g16, regs, e) == Some(e.push(cev).push(ph).push(ph).push(2)));
            let m2 = mask_eq(ph, 2);
            assert(eval_seq(g17, regs, e) == Some(e.push(cev).push(ph).push(m2)));
            lemma_eval_snoc(g17, Instr::ReadRegister(RegId::R15), regs, e);
            assert(eval_seq(g18, regs, e) == Some(e.push(cev).push(ph).push(m2).push(r15)));
            lemma_eval_snoc(g18, Instr::BinaryOp(BinOp::And), regs, e);
            lemma_step_bin(BinOp::And, regs, e.push(cev).push(ph), m2, r15);
            let c2v = m2 & r15;
            assert(eval_seq(g19, regs, e) == Some(e.push(cev).push(ph).push(c2v)));
            lemma_eval_snoc(g19, Instr::Swap, regs, e);
            lemma_step_swap(regs, e.push(cev), ph, c2v);
            assert(eval_seq(g20, regs, e) == Some(e.push(cev).push(c2v).push(ph)));
            lemma_eval_snoc(g20, Instr::Dup, regs, e);
            assert(eval_seq(g21, regs, e) == Some(e.push(cev).push(c2v).push(ph).push(ph)));
            assert(eval_seq(g22, regs, e)
                == Some(e.push(cev).push(c2v).push(ph).push(ph).push(3)));
            let m3 = mask_eq(ph, 3);
            assert(eval_seq(g23, regs, e) == Some(e.push(cev).push(c2v).push(ph).push(m3)));
            lemma_eval_snoc(g23, Instr::ReadRegister(RegId::R14), regs, e);
            assert(eval_seq(g24, regs, e)
                == Some(e.push(cev).push(c2v).push(ph).push(m3).push(r14)));
            assert(eval_seq(g25, regs, e)
                == Some(e.push(cev).push(c2v).push(ph).push(m3).push(r14).push(xor_a)));
            lemma_eval_snoc(g25, Instr::BinaryOp(BinOp::Xor), regs, e);
            lemma_step_bin(BinOp::Xor, regs, e.push(cev).push(c2v).push(ph).push(m3), r14, xor_a);
            let rx = r14 ^ xor_a;
            assert(eval_seq(g26, regs, e)
                == Some(e.push(cev).push(c2v).push(ph).push(m3).push(rx)));
            lemma_eval_snoc(g26, Instr::BinaryOp(BinOp::And), regs, e);
            lemma_step_bin(BinOp::And, regs, e.push(cev).push(c2v).push(ph), m3, rx);
            let c3v = m3 & rx;
            assert(eval_seq(g27, regs, e) == Some(e.push(cev).push(c2v).push(ph).push(c3v)));
            lemma_eval_snoc(g27, Instr::Swap, regs, e);
            lemma_step_swap(regs, e.push(cev).push(c2v), ph, c3v);
            assert(eval_seq(g28, regs, e) == Some(e.push(cev).push(c2v).push(c3v).push(ph)));
            assert(eval_seq(g29, regs, e)
                == Some(e.push(cev).push(c2v).push(c3v).push(ph).push(1)));
            let m1 = mask_eq(ph, 1);
            assert(eval_seq(g30, regs, e) == Some(e.push(cev).push(c2v).push(c3v).push(m1)));
            lemma_eval_snoc(g30, Instr::ReadRegister(RegId::R14), regs, e);
            assert(eval_seq(g31, regs, e)
                == Some(e.push(cev).push(c2v).push(c3v).push(m1).push(r14)));
            assert(eval_seq(g32, regs, e)
                == Some(e.push(cev).push(c2v).push(c3v).push(m1).push(r14).push(f)));
            lemma_eval_snoc(g32, Instr::BinaryOp(BinOp::Xor), regs, e);
            lemma_step_bin(BinOp::Xor, regs, e.push(cev).push(c2v).push(c3v).push(m1), r14, f);
            let rf = r14 ^ f;
            assert(eval_seq(g33, regs, e)
                == Some(e.push(cev).push(c2v).push(c3v).push(m1).push(rf)));
            lemma_eval_snoc(g33, Instr::BinaryOp(BinOp::And), regs, e);
            lemma_step_bin(BinOp::And, regs, e.push(cev).push(c2v).push(c3v), m1, rf);
            let c1v = m1 & rf;
            assert(eval_seq(g34, regs, e) == Some(e.push(cev).push(c2v).push(c3v).push(c1v)));
            lemma_eval_snoc(g34, Instr::BinaryOp(BinOp::Or), regs, e);
            lemma_step_bin(BinOp::Or, regs, e.push(cev).push(c2v), c3v, c1v);
            assert(eval_seq(g35, regs, e) == Some(e.push(cev).push(c2v).push(c3v | c1v)));
            lemma_eval_snoc(g35, Instr::BinaryOp(BinOp::Or), regs, e);
            lemma_step_bin(BinOp::Or, regs, e.push(cev), c2v, c3v | c1v);
            assert(eval_seq(g36, regs, e) == Some(e.push(cev).push(c2v | (c3v | c1v))));
            lemma_eval_snoc(g36, Instr::BinaryOp(BinOp::Or), regs, e);
            lemma_step_bin(BinOp::Or, regs, e, cev, c2v | (c3v | c1v));
            assert(eval_seq(out@, regs, e) == Some(e.push(cev | (c2v | (c3v | c1v)))));
            assert({
                let phb = r12 & 0xff;
                let gc: u64 = if phb > 0 { 1 } else { 0 };
                let lc: u64 = if phb < 4 { 1 } else { 0 };
                let m2b = mask_eq(phb, 2);
                let m3b = mask_eq(phb, 3);
                let m1b = mask_eq(phb, 1);
                (w_sub(gc & lc, 1) & r14)
                    | ((m2b & r15) | ((m3b & (r14 ^ xor_a)) | (m1b & (r14 ^ f))))
                    == (if phb == 1 {
                        r14 ^ f
                    } else if phb == 2 {
                        r15
                    } else if phb == 3 {
                        r14 ^ xor_a
                    } else {
                        r14
                    })
            }) by (bit_vector);
            assert(cev | (c2v | (c3v | c1v))
                == next_r14_val(r12, r13, r14, r15, xor_a, hash));
            assert(seq![next_r14_val(r12, r13, r14, r15, xor_a, hash)]
                =~= Seq::<u64>::empty().push(next_r14_val(r12, r13, r14, r15, xor_a, hash)));
        }
    }
    out
}

/// The four per-register update sequences of one protocol instance, in
/// the order the external format writer serializes them.
pub struct StepPrograms {
    pub r12: Vec<Instr>,
    pub r15: Vec<Instr>,
    pub r13: Vec<Instr>,
    pub r14: Vec<Instr>,
}

impl Arg {
    /// Build the four per-register update sequences of this instance.
    /// Each sequence, run from an empty stack, leaves exactly the
    /// documented next value of its register — whatever the random
    /// decomposition draws were.
    pub fn generate_code(&self, rng: &mut rand::rngs::ThreadRng) -> (p: StepPrograms)
        ensures
            forall|regs: Regs|
                #![trigger eval_seq(p.r12@, regs, Seq::<u64>::empty())]
                eval_seq(p.r12@, regs, Seq::empty()) == Some(seq![next_r12(*self, regs)]),
            forall|regs: Regs|
                #![trigger eval_seq(p.r15@, regs, Seq::<u64>::empty())]
                eval_seq(p.r15@, regs, Seq::empty()) == Some(seq![next_r15(*self, regs)]),
            forall|regs: Regs|
                #![trigger eval_seq(p.r13@, regs, Seq::<u64>::empty())]
                eval_seq(p.r13@, regs, Seq::empty()) == Some(seq![next_r13(*self, regs)]),
            forall|regs: Regs|
                #![trigger eval_seq(p.r14@, regs, Seq::<u64>::empty())]
                eval_seq(p.r14@, regs, Seq::empty()) == Some(seq![next_r14(*self, regs)]),
    {
        let (ans_a, ans_b) = self.enc();
        let target = crate::vm::wrap_mul(self.round, self.det);
        let r12 = build_r12(rng, target);
        let r15 = build_r15(rng, self.xor_num_b);
        let r13 = build_r13(rng, self.det, ans_a, ans_b);
        let r14 = build_r14(rng, self.xor_num_a, self.hash_num);
        StepPrograms { r12, r15, r13, r14 }
    }
}

} // verus!
