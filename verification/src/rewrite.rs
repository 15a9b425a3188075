//! The rewrite engine: expands "push this constant" into a randomized
//! but semantically fixed instruction subsequence.
//!
//! At depth 0 a literal push is emitted. At greater depth one of nine
//! equivalence-preserving decomposition rules is drawn at random and its
//! operands are expanded recursively with a smaller budget. Whatever the
//! draws, the emitted code pushes exactly the requested value onto any
//! nonempty operand stack, with no other effect.

use vstd::prelude::*;
use crate::vm::{
    BinOp, Instr, Regs, UnOp, bin_val, eval_seq, lemma_eval_snoc, lemma_step_bin, lemma_step_drop,
    lemma_step_rot, lemma_step_swap, lemma_step_un, un_val, w_add, w_sub, wrap_add, wrap_sub,
};
use crate::entropy::{next_rule_index, next_u64};

verus! {

/// The rewrite depth the protocol builder uses for every constant.
pub const DEFAULT_DEPTH: u64 = 9;

/// `c1` extends `c0` with code that pushes `v`: wherever the old code
/// leaves the machine with a nonempty stack, the new code leaves the
/// same stack with exactly `v` pushed on top.
pub open spec fn pushes_onto(c0: Seq<Instr>, c1: Seq<Instr>, v: u64) -> bool {
    forall|regs: Regs, st: Seq<u64>|
        #![trigger eval_seq(c1, regs, st)]
        match eval_seq(c0, regs, st) {
            Some(mid) => mid.len() >= 1 ==> eval_seq(c1, regs, st) == Some(mid.push(v)),
            None => true,
        }
}

/// Law: run on any machine state with a nonempty stack, an expansion
/// built on an empty buffer evaluates without underflow and pushes
/// exactly the requested value — a net stack growth of one.
pub proof fn lemma_expansion_pushes_target(code: Seq<Instr>, v: u64, regs: Regs, st: Seq<u64>)
    requires
        pushes_onto(Seq::empty(), code, v),
        st.len() >= 1,
    ensures
        eval_seq(code, regs, st) == Some(st.push(v)),
{
    assert(eval_seq(Seq::empty(), regs, st) == Some(st));
    assert(eval_seq(code, regs, st) == Some(st.push(v)));
}

/// Appending a literal push to the buffer pushes its value.
proof fn lemma_push_literal(c0: Seq<Instr>, c1: Seq<Instr>, v: u64)
    requires
        c1 == c0.push(Instr::PushConst(v)),
    ensures
        pushes_onto(c0, c1, v),
{
    assert forall|regs: Regs, st: Seq<u64>|
        #![trigger eval_seq(c1, regs, st)]
        match eval_seq(c0, regs, st) {
            Some(mid) => mid.len() >= 1 ==> eval_seq(c1, regs, st) == Some(mid.push(v)),
            None => true,
        } by {
        lemma_eval_snoc(c0, Instr::PushConst(v), regs, st);
    }
}

/// Two expanded operands followed by a binary operator push the
/// operator's value.
proof fn lemma_chain_bin(c0: Seq<Instr>, c1: Seq<Instr>, c2: Seq<Instr>, c3: Seq<Instr>, op: BinOp, a: u64, b: u64, v: u64)
    requires
        pushes_onto(c0, c1, a),
        pushes_onto(c1, c2, b),
        c3 == c2.push(Instr::BinaryOp(op)),
        bin_val(op, a, b) == v,
    ensures
        pushes_onto(c0, c3, v),
{
    assert forall|regs: Regs, st: Seq<u64>|
        #![trigger eval_seq(c3, regs, st)]
        match eval_seq(c0, regs, st) {
            Some(mid) => mid.len() >= 1 ==> eval_seq(c3, regs, st) == Some(mid.push(v)),
            None => true,
        } by {
        lemma_eval_snoc(c2, Instr::BinaryOp(op), regs, st);
        match eval_seq(c0, regs, st) {
            Some(mid) => if mid.len() >= 1 {
                assert(eval_seq(c1, regs, st) == Some(mid.push(a)));
                assert(eval_seq(c2, regs, st) == Some(mid.push(a).push(b)));
                lemma_step_bin(op, regs, mid, a, b);
            },
            None => {},
        }
    }
}

/// One expanded operand followed by a unary operator pushes the
/// operator's value.
proof fn lemma_chain_un(c0: Seq<Instr>, c1: Seq<Instr>, c2: Seq<Instr>, op: UnOp, a: u64, v: u64)
    requires
        pushes_onto(c0, c1, a),
        c2 == c1.push(Instr::UnaryOp(op)),
        un_val(op, a) == v,
    ensures
        pushes_onto(c0, c2, v),
{
    assert forall|regs: Regs, st: Seq<u64>|
        #![trigger eval_seq(c2, regs, st)]
        match eval_seq(c0, regs, st) {
            Some(mid) => mid.len() >= 1 ==> eval_seq(c2, regs, st) == Some(mid.push(v)),
            None => true,
        } by {
        lemma_eval_snoc(c1, Instr::UnaryOp(op), regs, st);
        match eval_seq(c0, regs, st) {
            Some(mid) => if mid.len() >= 1 {
                assert(eval_seq(c1, regs, st) == Some(mid.push(a)));
                lemma_step_un(op, regs, mid, a);
            },
            None => {},
        }
    }
}

/// A duplicate of the incumbent top, the expansion, a swap and a drop:
/// the dummy copy leaves again, only the expanded value stays.
proof fn lemma_chain_dup_swap_drop(c0: Seq<Instr>, c1: Seq<Instr>, c2: Seq<Instr>, c3: Seq<Instr>, c4: Seq<Instr>, v: u64)
    requires
        c1 == c0.push(Instr::Dup),
        pushes_onto(c1, c2, v),
        c3 == c2.push(Instr::Swap),
        c4 == c3.push(Instr::Drop),
    ensures
        pushes_onto(c0, c4, v),
{
    assert forall|regs: Regs, st: Seq<u64>|
        #![trigger eval_seq(c4, regs, st)]
        match eval_seq(c0, regs, st) {
            Some(mid) => mid.len() >= 1 ==> eval_seq(c4, regs, st) == Some(mid.push(v)),
            None => true,
        } by {
        lemma_eval_snoc(c0, Instr::Dup, regs, st);
        lemma_eval_snoc(c2, Instr::Swap, regs, st);
        lemma_eval_snoc(c3, Instr::Drop, regs, st);
        match eval_seq(c0, regs, st) {
            Some(mid) => if mid.len() >= 1 {
                let t = mid.last();
                assert(eval_seq(c1, regs, st) == Some(mid.push(t)));
                assert(eval_seq(c2, regs, st) == Some(mid.push(t).push(v)));
                lemma_step_swap(regs, mid, t, v);
                assert(eval_seq(c3, regs, st) == Some(mid.push(v).push(t)));
                lemma_step_drop(regs, mid.push(v), t);
            },
            None => {},
        }
    }
}

/// An unrelated expanded value below the wanted one, swapped up and
/// dropped: only the wanted value stays.
proof fn lemma_chain_swap_drop(c0: Seq<Instr>, c1: Seq<Instr>, c2: Seq<Instr>, c3: Seq<Instr>, c4: Seq<Instr>, r: u64, v: u64)
    requires
        pushes_onto(c0, c1, r),
        pushes_onto(c1, c2, v),
        c3 == c2.push(Instr::Swap),
        c4 == c3.push(Instr::Drop),
    ensures
        pushes_onto(c0, c4, v),
{
    assert forall|regs: Regs, st: Seq<u64>|
        #![trigger eval_seq(c4, regs, st)]
        match eval_seq(c0, regs, st) {
            Some(mid) => mid.len() >= 1 ==> eval_seq(c4, regs, st) == Some(mid.push(v)),
            None => true,
        } by {
        lemma_eval_snoc(c2, Instr::Swap, regs, st);
        lemma_eval_snoc(c3, Instr::Drop, regs, st);
        match eval_seq(c0, regs, st) {
            Some(mid) => if mid.len() >= 1 {
                assert(eval_seq(c1, regs, st) == Some(mid.push(r)));
                assert(eval_seq(c2, regs, st) == Some(mid.push(r).push(v)));
                lemma_step_swap(regs, mid, r, v);
                assert(eval_seq(c3, regs, st) == Some(mid.push(v).push(r)));
                lemma_step_drop(regs, mid.push(v), r);
            },
            None => {},
        }
    }
}

/// Two unrelated expanded values below the wanted one, rotated away and
/// dropped twice: only the wanted value stays.
proof fn lemma_chain_rot_drop_drop(c0: Seq<Instr>, c1: Seq<Instr>, c2: Seq<Instr>, c3: Seq<Instr>, c4: Seq<Instr>, c5: Seq<Instr>, c6: Seq<Instr>, r1: u64, r2: u64, v: u64)
    requires
        pushes_onto(c0, c1, r1),
        pushes_onto(c1, c2, r2),
        pushes_onto(c2, c3, v),
        c4 == c3.push(Instr::Rotate3),
        c5 == c4.push(Instr::Drop),
        c6 == c5.push(Instr::Drop),
    ensures
        pushes_onto(c0, c6, v),
{
    assert forall|regs: Regs, st: Seq<u64>|
        #![trigger eval_seq(c6, regs, st)]
        match eval_seq(c0, regs, st) {
            Some(mid) => mid.len() >= 1 ==> eval_seq(c6, regs, st) == Some(mid.push(v)),
            None => true,
        } by {
        lemma_eval_snoc(c3, Instr::Rotate3, regs, st);
        lemma_eval_snoc(c4, Instr::Drop, regs, st);
        lemma_eval_snoc(c5, Instr::Drop, regs, st);
        match eval_seq(c0, regs, st) {
            Some(mid) => if mid.len() >= 1 {
                assert(eval_seq(c1, regs, st) == Some(mid.push(r1)));
                assert(eval_seq(c2, regs, st) == Some(mid.push(r1).push(r2)));
                assert(eval_seq(c3, regs, st) == Some(mid.push(r1).push(r2).push(v)));
                lemma_step_rot(regs, mid, r1, r2, v);
                assert(eval_seq(c4, regs, st) == Some(mid.push(v).push(r1).push(r2)));
                lemma_step_drop(regs, mid.push(v).push(r1), r2);
                assert(eval_seq(c5, regs, st) == Some(mid.push(v).push(r1)));
                lemma_step_drop(regs, mid.push(v), r1);
            },
            None => {},
        }
    }
}

/// Choose a random two-part cover of the set bits of `target`: the two
/// parts OR back to exactly the target.
pub fn or_cover(rng: &mut rand::rngs::ThreadRng, target: u64) -> (r: (u64, u64))
    ensures
        r.0 | r.1 == target,
{
    let r1 = next_u64(rng);
    let r2 = next_u64(rng);
    let n1 = r1 & target;
    let n2 = (r2 & target) | (target & !(n1 | (r2 & target)));
    proof {
        assert((r1 & target) | ((r2 & target) | (target & !((r1 & target) | (r2 & target))))
            == target) by (bit_vector);
    }
    (n1, n2)
}

/// Choose a random two-part mask pair for `target`: the two parts AND
/// back to exactly the target (a De Morgan dual of `or_cover`).
pub fn and_cover(rng: &mut rand::rngs::ThreadRng, target: u64) -> (r: (u64, u64))
    ensures
        r.0 & r.1 == target,
{
    let r1 = next_u64(rng);
    let r2 = next_u64(rng);
    let n1 = r1 & !target;
    let n2 = (r2 & !target) | (!target & !(n1 | (r2 & !target)));
    proof {
        assert(!((r1 & !target)) & !((r2 & !target) | (!target & !((r1 & !target) | (r2 & !target))))
            == target) by (bit_vector);
    }
    (!n1, !n2)
}

/// The nine equivalence-preserving decomposition rules. The dispatch
/// over them is exhaustive, so adding or removing a rule is a
/// compile-time-checked change.
#[derive(Clone, Copy, Debug, PartialEq, Eq, Structural)]
pub enum RewriteRule {
    /// `target == r ^ (r ^ target)` for a random `r`.
    XorSplit,
    /// `target == (target + r) - r` for a random `r`.
    DiffOfSum,
    /// `target == (target - r) + r` for a random `r`.
    SumOfDiff,
    /// Two random covers of the target's set bits, recombined with OR.
    OrCover,
    /// Two random masks of the target's clear bits, recombined with AND.
    AndCover,
    /// Double complement.
    DoubleNot,
    /// No-op juggling around the incumbent top of the stack.
    DupShuffle,
    /// An unrelated random value, swapped up and dropped.
    SwapDrop,
    /// Two unrelated random values, rotated away and dropped.
    RotateDrop,
}

/// Draw one of the nine rules uniformly.
fn draw_rule(rng: &mut rand::rngs::ThreadRng) -> RewriteRule {
    match next_rule_index(rng) {
        0 => RewriteRule::XorSplit,
        1 => RewriteRule::DiffOfSum,
        2 => RewriteRule::SumOfDiff,
        3 => RewriteRule::OrCover,
        4 => RewriteRule::AndCover,
        5 => RewriteRule::DoubleNot,
        6 => RewriteRule::DupShuffle,
        7 => RewriteRule::SwapDrop,
        _ => RewriteRule::RotateDrop,
    }
}

/// Append to `out` a randomized instruction subsequence that pushes
/// exactly `target` onto any nonempty operand stack. `depth` bounds the
/// recursive expansion; at 0 a bare literal push is emitted.
pub fn expand(out: &mut Vec<Instr>, rng: &mut rand::rngs::ThreadRng, target: u64, depth: u64)
    ensures
        pushes_onto(old(out)@, final(out)@, target),
    decreases depth,
{
    let ghost c0 = out@;
    if depth == 0 {
        out.push(Instr::PushConst(target));
        proof {
            lemma_push_literal(c0, out@, target);
        }
        return;
    }
    match draw_rule(rng) {
        RewriteRule::XorSplit => {
            // target == r ^ (r ^ target)
            let r = next_u64(rng);
            expand(out, rng, r, depth - 1);
            let ghost c1 = out@;
            expand(out, rng, r ^ target, depth - 1);
            let ghost c2 = out@;
            out.push(Instr::BinaryOp(BinOp::Xor));
            proof {
                assert(r ^ (r ^ target) == target) by (bit_vector);
                lemma_chain_bin(c0, c1, c2, out@, BinOp::Xor, r, r ^ target, target);
            }
        },
        RewriteRule::DiffOfSum => {
            // target == (target + r) - r
            let r = next_u64(rng);
            let hi = wrap_add(r, target);
            expand(out, rng, hi, depth - 1);
            let ghost c1 = out@;
            expand(out, rng, r, depth - 1);
            let ghost c2 = out@;
            out.push(Instr::BinaryOp(BinOp::Minus));
            proof {
                assert(w_sub(w_add(r, target), r) == target) by (bit_vector);
                lemma_chain_bin(c0, c1, c2, out@, BinOp::Minus, hi, r, target);
            }
        },
        RewriteRule::SumOfDiff => {
            // target == (target - r) + r
            let r = next_u64(rng);
            let lo = wrap_sub(target, r);
            expand(out, rng, lo, depth - 1);
            let ghost c1 = out@;
            expand(out, rng, r, depth - 1);
            let ghost c2 = out@;
            out.push(Instr::BinaryOp(BinOp::Plus));
            proof {
                assert(w_add(w_sub(target, r), r) == target) by (bit_vector);
                lemma_chain_bin(c0, c1, c2, out@, BinOp::Plus, lo, r, target);
            }
        },
        RewriteRule::OrCover => {
            // two random covers of target's bits, recombined with OR
            let (n1, n2) = or_cover(rng, target);
            expand(out, rng, n1, depth - 1);
            let ghost c1 = out@;
            expand(out, rng, n2, depth - 1);
            let ghost c2 = out@;
            out.push(Instr::BinaryOp(BinOp::Or));
            proof {
                lemma_chain_bin(c0, c1, c2, out@, BinOp::Or, n1, n2, target);
            }
        },
        RewriteRule::AndCover => {
            // two random masks of target's clear bits, recombined with AND
            let (n1, n2) = and_cover(rng, target);
            expand(out, rng, n1, depth - 1);
            let ghost c1 = out@;
            expand(out, rng, n2, depth - 1);
            let ghost c2 = out@;
            out.push(Instr::BinaryOp(BinOp::And));
            proof {
                lemma_chain_bin(c0, c1, c2, out@, BinOp::And, n1, n2, target);
            }
        },
        RewriteRule::DoubleNot => {
            // double complement
            expand(out, rng, !target, depth - 1);
            let ghost c1 = out@;
            out.push(Instr::UnaryOp(UnOp::Not));
            proof {
                assert(!(!target) == target) by (bit_vector);
                lemma_chain_un(c0, c1, out@, UnOp::Not, !target, target);
            }
        },
        RewriteRule::DupShuffle => {
            // no-op juggling around the incumbent top of stack
            out.push(Instr::Dup);
            let ghost c1 = out@;
            expand(out, rng, target, depth - 1);
            let ghost c2 = out@;
            out.push(Instr::Swap);
            let ghost c3 = out@;
            out.push(Instr::Drop);
            proof {
                lemma_chain_dup_swap_drop(c0, c1, c2, c3, out@, target);
            }
        },
        RewriteRule::SwapDrop => {
            // an unrelated random value, swapped up and dropped
            let r = next_u64(rng);
            expand(out, rng, r, depth - 1);
            let ghost c1 = out@;
            expand(out, rng, target, depth - 1);
            let ghost c2 = out@;
            out.push(Instr::Swap);
            let ghost c3 = out@;
            out.push(Instr::Drop);
            proof {
                lemma_chain_swap_drop(c0, c1, c2, c3, out@, r, target);
            }
        },
        RewriteRule::RotateDrop => {
            // two unrelated random values, rotated away and dropped
            let r1 = next_u64(rng);
            let r2 = next_u64(rng);
            expand(out, rng, r1, depth - 1);
            let ghost c1 = out@;
            expand(out, rng, r2, depth - 1);
            let ghost c2 = out@;
            expand(out, rng, target, depth - 1);
            let ghost c3 = out@;
            out.push(Instr::Rotate3);
            let ghost c4 = out@;
            out.push(Instr::Drop);
            let ghost c5 = out@;
            out.push(Instr::Drop);
            proof {
                lemma_chain_rot_drop_drop(c0, c1, c2, c3, c4, c5, out@, r1, r2, target);
            }
        },
    }
}

} // verus!
