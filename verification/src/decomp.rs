//! The decompiler: a symbolic interpreter for instruction sequences.
//!
//! It replays a sequence against a stack of symbolic values, assigning
//! a fresh, monotonically increasing name to every computed result, and
//! emits one straight-line statement per instruction that produces or
//! mutates a value. Running the emitted statements against any register
//! file yields exactly the values the bytecode computes on the same
//! registers — the structural inverse of the encoder.

use vstd::prelude::*;
use crate::vm::{
    BinOp, Instr, RegId, Regs, UnOp, bin_val, eval_seq, lemma_eval_append, lemma_eval_snoc,
    read_reg, signed_bits, step, un_val, w_add,
};

verus! {

/// A symbolic value: a fresh name standing for the 64-bit result
/// computed by the statements emitted so far at one stack position.
#[derive(Clone, Copy, Debug, PartialEq, Eq, Structural)]
pub struct Val {
    pub id: u64,
}

impl Val {
    pub fn new(id: u64) -> (v: Val)
        ensures
            v.id == id,
    {
        Val { id }
    }
}

/// Source of fresh symbolic values, numbered from zero.
#[derive(Clone, Copy, Debug, PartialEq, Eq, Structural)]
pub struct ValGenerator {
    pub id: u64,
}

impl ValGenerator {
    pub fn new() -> (g: ValGenerator)
        ensures
            g.id == 0,
    {
        Self { id: 0 }
    }

    pub fn next(&mut self) -> (v: Val)
        requires
            old(self).id < u64::MAX,
        ensures
            final(self).id == old(self).id + 1,
            v.id == old(self).id,
    {
        self.id += 1;
        Val::new(self.id - 1)
    }
}

/// One straight-line statement of the decompiled program. A `Def`
/// binds the next fresh name; an in-place form mutates the binding of
/// an existing name, mirroring the instructions that rewrite the top
/// of the stack without growing it.
#[derive(Clone, Copy, Debug, PartialEq, Eq, Structural)]
#[allow(inconsistent_fields)]
pub enum Stmt {
    DefConst { dst: Val, val: u64 },
    DefSignedConst { dst: Val, val: i64 },
    DefReg { dst: Val, reg: RegId },
    DefBin { dst: Val, op: BinOp, lhs: Val, rhs: Val },
    DefCopy { dst: Val, src: Val },
    NegInPlace { v: Val },
    NotInPlace { v: Val },
    AddConstInPlace { v: Val, val: u64 },
}

/// One statement applied to the environment that maps each name (by
/// index) to its current value. `None` is a malformed program: a `Def`
/// whose name is not the next fresh one, or a reference to an unbound
/// name.
pub open spec fn stmt_step(s: Stmt, regs: Regs, env: Seq<u64>) -> Option<Seq<u64>> {
    match s {
        Stmt::DefConst { dst, val } => if dst.id == env.len() {
            Some(env.push(val))
        } else {
            None
        },
        Stmt::DefSignedConst { dst, val } => if dst.id == env.len() {
            Some(env.push(signed_bits(val)))
        } else {
            None
        },
        Stmt::DefReg { dst, reg } => if dst.id == env.len() {
            Some(env.push(read_reg(regs, reg)))
        } else {
            None
        },
        Stmt::DefBin { dst, op, lhs, rhs } => if dst.id == env.len() && lhs.id < env.len()
            && rhs.id < env.len() {
            Some(env.push(bin_val(op, env[lhs.id as int], env[rhs.id as int])))
        } else {
            None
        },
        Stmt::DefCopy { dst, src } => if dst.id == env.len() && src.id < env.len() {
            Some(env.push(env[src.id as int]))
        } else {
            None
        },
        Stmt::NegInPlace { v } => if v.id < env.len() {
            Some(env.update(v.id as int, un_val(UnOp::Neg, env[v.id as int])))
        } else {
            None
        },
        Stmt::NotInPlace { v } => if v.id < env.len() {
            Some(env.update(v.id as int, un_val(UnOp::Not, env[v.id as int])))
        } else {
            None
        },
        Stmt::AddConstInPlace { v, val } => if v.id < env.len() {
            Some(env.update(v.id as int, w_add(env[v.id as int], val)))
        } else {
            None
        },
    }
}

/// Run a straight-line program from a starting environment.
pub open spec fn run_stmts(ss: Seq<Stmt>, regs: Regs, env: Seq<u64>) -> Option<Seq<u64>>
    decreases ss.len(),
{
    if ss.len() == 0 {
        Some(env)
    } else {
        match stmt_step(ss[0], regs, env) {
            Some(env2) => run_stmts(ss.drop_first(), regs, env2),
            None => None,
        }
    }
}

pub open spec fn stmt_step_result(o: Option<Seq<u64>>, s: Stmt, regs: Regs) -> Option<Seq<u64>> {
    match o {
        Some(env) => stmt_step(s, regs, env),
        None => None,
    }
}

/// Appending one statement composes with one evaluation step.
pub proof fn lemma_run_snoc(ss: Seq<Stmt>, s: Stmt, regs: Regs, env: Seq<u64>)
    ensures
        run_stmts(ss.push(s), regs, env) == stmt_step_result(run_stmts(ss, regs, env), s, regs),
    decreases ss.len(),
{
    if ss.len() == 0 {
        assert(ss.push(s)[0] == s);
        assert(ss.push(s).drop_first() =~= ss);
        match stmt_step(s, regs, env) {
            Some(env2) => {
                assert(run_stmts(ss, regs, env2) == Some(env2));
                assert(run_stmts(ss.push(s), regs, env) == Some(env2));
            },
            None => {
                assert(run_stmts(ss.push(s), regs, env) is None);
            },
        }
    } else {
        assert(ss.push(s)[0] == ss[0]);
        assert(ss.push(s).drop_first() =~= ss.drop_first().push(s));
        match stmt_step(ss[0], regs, env) {
            Some(env2) => {
                lemma_run_snoc(ss.drop_first(), s, regs, env2);
                assert(run_stmts(ss.push(s), regs, env)
                    == run_stmts(ss.drop_first().push(s), regs, env2));
                assert(run_stmts(ss, regs, env) == run_stmts(ss.drop_first(), regs, env2));
            },
            None => {
                assert(run_stmts(ss.push(s), regs, env) is None);
                assert(run_stmts(ss, regs, env) is None);
            },
        }
    }
}

/// Why a sequence cannot be decompiled.
#[derive(Clone, Copy, Debug, PartialEq, Eq, Structural)]
pub enum DecompileError {
    /// An instruction needed more operands than the stack held.
    StackUnderflow,
    /// The replay finished with a stack depth other than one.
    UnbalancedStack,
}

/// The decompiled program agrees with the bytecode on this register
/// file: both runs succeed, and the bytecode's single result is the
/// value the straight-line program leaves bound to the returned name.
pub open spec fn decompiled_matches(code: Seq<Instr>, stmts: Seq<Stmt>, ret: Val, regs: Regs) -> bool {
    match (run_stmts(stmts, regs, Seq::empty()), eval_seq(code, regs, Seq::empty())) {
        (Some(env), Some(st)) => ret.id < env.len() && st == seq![env[ret.id as int]],
        _ => false,
    }
}

/// The replay invariant, for one register file: the statements emitted
/// so far run without fault, the bytecode prefix evaluates without
/// fault, and the symbolic stack mirrors the operand stack — the name
/// at each position is bound to exactly the value the machine holds
/// there.
pub open spec fn replay_ok(codepfx: Seq<Instr>, stmts: Seq<Stmt>, sym: Seq<Val>, nid: u64, regs: Regs) -> bool {
    match (run_stmts(stmts, regs, Seq::empty()), eval_seq(codepfx, regs, Seq::empty())) {
        (Some(env), Some(st)) => {
            &&& env.len() == nid
            &&& st.len() == sym.len()
            &&& forall|j: int|
                #![trigger sym[j]]
                0 <= j < sym.len() ==> sym[j].id < nid && env[sym[j].id as int] == st[j]
        },
        _ => false,
    }
}

/// Names on the symbolic stack are pairwise distinct, so an in-place
/// mutation of the top name cannot disturb any other position.
pub open spec fn ids_distinct(sym: Seq<Val>) -> bool {
    forall|j: int, k: int|
        #![trigger sym[j], sym[k]]
        0 <= j < k < sym.len() ==> sym[j].id != sym[k].id
}

/// Every name on the symbolic stack is already bound.
pub open spec fn ids_below(sym: Seq<Val>, nid: u64) -> bool {
    forall|j: int| #![trigger sym[j]] 0 <= j < sym.len() ==> sym[j].id < nid
}

/// A value-pushing instruction decompiles to the matching fresh
/// definition and the replay invariant is preserved.
proof fn lemma_replay_def_push(codepfx: Seq<Instr>, ins: Instr, stmts: Seq<Stmt>, s: Stmt, sym: Seq<Val>, nid: u64, dst: Val)
    requires
        forall|regs: Regs| #[trigger] replay_ok(codepfx, stmts, sym, nid, regs),
        dst.id == nid,
        nid < u64::MAX,
        match (ins, s) {
            (Instr::PushConst(v), Stmt::DefConst { dst: d2, val }) => d2 == dst && val == v,
            (Instr::PushSignedConst(v), Stmt::DefSignedConst { dst: d2, val }) => d2 == dst
                && val == v,
            (Instr::ReadRegister(rg), Stmt::DefReg { dst: d2, reg }) => d2 == dst && reg == rg,
            _ => false,
        },
    ensures
        forall|regs: Regs|
            #[trigger] replay_ok(codepfx.push(ins), stmts.push(s), sym.push(dst), (nid + 1) as u64, regs),
{
    assert forall|regs: Regs|
        #[trigger] replay_ok(codepfx.push(ins), stmts.push(s), sym.push(dst), (nid + 1) as u64, regs) by {
        assert(replay_ok(codepfx, stmts, sym, nid, regs));
        lemma_run_snoc(stmts, s, regs, Seq::empty());
        lemma_eval_snoc(codepfx, ins, regs, Seq::empty());
        match (run_stmts(stmts, regs, Seq::empty()), eval_seq(codepfx, regs, Seq::empty())) {
            (Some(env), Some(st)) => {
                let w = match ins {
                    Instr::PushConst(v) => v,
                    Instr::PushSignedConst(v) => signed_bits(v),
                    Instr::ReadRegister(rg) => read_reg(regs, rg),
                    _ => 0,
                };
                assert(stmt_step(s, regs, env) == Some(env.push(w)));
                assert(step(ins, regs, st) == Some(st.push(w)));
                let sym2 = sym.push(dst);
                let env2 = env.push(w);
                let st2 = st.push(w);
                assert forall|j: int| 0 <= j < sym2.len() implies sym2[j].id < nid + 1
                    && env2[sym2[j].id as int] == st2[j] by {
                    if j < sym.len() {
                        assert(sym[j].id < nid && env[sym[j].id as int] == st[j]);
                    }
                }
            },
            _ => {
                assert(false);
            },
        }
    }
}

/// A binary instruction decompiles to a fresh definition over the two
/// names at the top of the symbolic stack, second-from-top first.
proof fn lemma_replay_bin(codepfx: Seq<Instr>, op: BinOp, stmts: Seq<Stmt>, sym: Seq<Val>, nid: u64, dst: Val)
    requires
        forall|regs: Regs| #[trigger] replay_ok(codepfx, stmts, sym, nid, regs),
        dst.id == nid,
        nid < u64::MAX,
        sym.len() >= 2,
    ensures
        forall|regs: Regs|
            #[trigger] replay_ok(
                codepfx.push(Instr::BinaryOp(op)),
                stmts.push(Stmt::DefBin { dst, op, lhs: sym[sym.len() - 2], rhs: sym[sym.len() - 1] }),
                sym.drop_last().drop_last().push(dst),
                (nid + 1) as u64,
                regs,
            ),
{
    let s = Stmt::DefBin { dst, op, lhs: sym[sym.len() - 2], rhs: sym[sym.len() - 1] };
    let ins = Instr::BinaryOp(op);
    let sym2 = sym.drop_last().drop_last().push(dst);
    assert forall|regs: Regs| #[trigger] replay_ok(codepfx.push(ins), stmts.push(s), sym2, (nid + 1) as u64, regs) by {
        assert(replay_ok(codepfx, stmts, sym, nid, regs));
        lemma_run_snoc(stmts, s, regs, Seq::empty());
        lemma_eval_snoc(codepfx, ins, regs, Seq::empty());
        match (run_stmts(stmts, regs, Seq::empty()), eval_seq(codepfx, regs, Seq::empty())) {
            (Some(env), Some(st)) => {
                let n = sym.len() as int;
                assert(sym[n - 2].id < nid && env[sym[n - 2].id as int] == st[n - 2]);
                assert(sym[n - 1].id < nid && env[sym[n - 1].id as int] == st[n - 1]);
                let w = bin_val(op, st[n - 2], st[n - 1]);
                assert(stmt_step(s, regs, env) == Some(env.push(w)));
                assert(st.last() == st[n - 1]);
                assert(step(ins, regs, st) == Some(st.drop_last().drop_last().push(w)));
                let env2 = env.push(w);
                let st2 = st.drop_last().drop_last().push(w);
                assert(st2.len() == sym2.len());
                assert forall|j: int| 0 <= j < sym2.len() implies sym2[j].id < nid + 1
                    && env2[sym2[j].id as int] == st2[j] by {
                    if j < n - 2 {
                        assert(sym2[j] == sym[j]);
                        assert(sym[j].id < nid && env[sym[j].id as int] == st[j]);
                        assert(st2[j] == st[j]);
                    } else {
                        assert(sym2[j] == dst);
                        assert(st2[j] == w);
                    }
                }
            },
            _ => {
                assert(false);
            },
        }
    }
}

/// A duplicate or pick decompiles to a fresh copy of the name at the
/// picked position.
proof fn lemma_replay_copy(codepfx: Seq<Instr>, ins: Instr, stmts: Seq<Stmt>, sym: Seq<Val>, nid: u64, dst: Val, idx: int)
    requires
        forall|regs: Regs| #[trigger] replay_ok(codepfx, stmts, sym, nid, regs),
        dst.id == nid,
        nid < u64::MAX,
        0 <= idx < sym.len(),
        match ins {
            Instr::Dup => idx == sym.len() - 1,
            Instr::Pick(n) => idx == sym.len() - 1 - n && (n as int) < sym.len(),
            _ => false,
        },
    ensures
        forall|regs: Regs|
            #[trigger] replay_ok(
                codepfx.push(ins),
                stmts.push(Stmt::DefCopy { dst, src: sym[idx] }),
                sym.push(dst),
                (nid + 1) as u64,
                regs,
            ),
{
    let s = Stmt::DefCopy { dst, src: sym[idx] };
    assert forall|regs: Regs|
        #[trigger] replay_ok(codepfx.push(ins), stmts.push(s), sym.push(dst), (nid + 1) as u64, regs) by {
        assert(replay_ok(codepfx, stmts, sym, nid, regs));
        lemma_run_snoc(stmts, s, regs, Seq::empty());
        lemma_eval_snoc(codepfx, ins, regs, Seq::empty());
        match (run_stmts(stmts, regs, Seq::empty()), eval_seq(codepfx, regs, Seq::empty())) {
            (Some(env), Some(st)) => {
                assert(sym[idx].id < nid && env[sym[idx].id as int] == st[idx]);
                let w = st[idx];
                assert(stmt_step(s, regs, env) == Some(env.push(w)));
                assert(st.last() == st[st.len() - 1]);
                assert(step(ins, regs, st) == Some(st.push(w)));
                let sym2 = sym.push(dst);
                let env2 = env.push(w);
                let st2 = st.push(w);
                assert forall|j: int| 0 <= j < sym2.len() implies sym2[j].id < nid + 1
                    && env2[sym2[j].id as int] == st2[j] by {
                    if j < sym.len() {
                        assert(sym[j].id < nid && env[sym[j].id as int] == st[j]);
                    }
                }
            },
            _ => {
                assert(false);
            },
        }
    }
}

/// An instruction that rewrites the top of the stack in place
/// decompiles to an in-place mutation of the top name; the other
/// bindings survive because names are distinct.
proof fn lemma_replay_inplace(codepfx: Seq<Instr>, ins: Instr, stmts: Seq<Stmt>, s: Stmt, sym: Seq<Val>, nid: u64)
    requires
        forall|regs: Regs| #[trigger] replay_ok(codepfx, stmts, sym, nid, regs),
        ids_distinct(sym),
        sym.len() >= 1,
        match (ins, s) {
            (Instr::UnaryOp(UnOp::Neg), Stmt::NegInPlace { v }) => v == sym.last(),
            (Instr::UnaryOp(UnOp::Not), Stmt::NotInPlace { v }) => v == sym.last(),
            (Instr::PlusConstant(c), Stmt::AddConstInPlace { v, val }) => v == sym.last()
                && val == c,
            _ => false,
        },
    ensures
        forall|regs: Regs| #[trigger] replay_ok(codepfx.push(ins), stmts.push(s), sym, nid, regs),
{
    assert forall|regs: Regs| #[trigger] replay_ok(codepfx.push(ins), stmts.push(s), sym, nid, regs) by {
        assert(replay_ok(codepfx, stmts, sym, nid, regs));
        lemma_run_snoc(stmts, s, regs, Seq::empty());
        lemma_eval_snoc(codepfx, ins, regs, Seq::empty());
        match (run_stmts(stmts, regs, Seq::empty()), eval_seq(codepfx, regs, Seq::empty())) {
            (Some(env), Some(st)) => {
                let n = sym.len() as int;
                let vid = sym.last().id;
                assert(sym[n - 1].id < nid && env[sym[n - 1].id as int] == st[n - 1]);
                assert(st.last() == st[n - 1]);
                let w = match ins {
                    Instr::UnaryOp(op) => un_val(op, st[n - 1]),
                    Instr::PlusConstant(c) => w_add(st[n - 1], c),
                    _ => 0,
                };
                assert(stmt_step(s, regs, env) == Some(env.update(vid as int, w)));
                assert(step(ins, regs, st) == Some(st.drop_last().push(w)));
                let env2 = env.update(vid as int, w);
                let st2 = st.drop_last().push(w);
                assert(st2.len() == sym.len());
                assert forall|j: int| 0 <= j < sym.len() implies sym[j].id < nid
                    && env2[sym[j].id as int] == st2[j] by {
                    assert(sym[j].id < nid && env[sym[j].id as int] == st[j]);
                    if j < n - 1 {
                        assert(sym[j].id != vid);
                        assert(st2[j] == st[j]);
                    } else {
                        assert(sym[j] == sym.last());
                        assert(st2[j] == w);
                    }
                }
            },
            _ => {
                assert(false);
            },
        }
    }
}

/// A stack shuffle emits no statement: the symbolic stack is permuted
/// exactly as the operand stack is.
proof fn lemma_replay_shuffle(codepfx: Seq<Instr>, ins: Instr, stmts: Seq<Stmt>, sym: Seq<Val>, nid: u64, sym2: Seq<Val>)
    requires
        forall|regs: Regs| #[trigger] replay_ok(codepfx, stmts, sym, nid, regs),
        match ins {
            Instr::Swap => sym.len() >= 2 && sym2 == sym.drop_last().drop_last()
                .push(sym[sym.len() - 1]).push(sym[sym.len() - 2]),
            Instr::Rotate3 => sym.len() >= 3 && sym2 == sym.drop_last().drop_last().drop_last()
                .push(sym[sym.len() - 1]).push(sym[sym.len() - 3]).push(sym[sym.len() - 2]),
            Instr::Drop => sym.len() >= 1 && sym2 == sym.drop_last(),
            _ => false,
        },
    ensures
        forall|regs: Regs| #[trigger] replay_ok(codepfx.push(ins), stmts, sym2, nid, regs),
{
    assert forall|regs: Regs| #[trigger] replay_ok(codepfx.push(ins), stmts, sym2, nid, regs) by {
        assert(replay_ok(codepfx, stmts, sym, nid, regs));
        lemma_eval_snoc(codepfx, ins, regs, Seq::empty());
        match (run_stmts(stmts, regs, Seq::empty()), eval_seq(codepfx, regs, Seq::empty())) {
            (Some(env), Some(st)) => {
                let n = sym.len() as int;
                assert(st.last() == st[n - 1]);
                let st2 = match ins {
                    Instr::Swap => st.drop_last().drop_last().push(st[n - 1]).push(st[n - 2]),
                    Instr::Rotate3 => st.drop_last().drop_last().drop_last()
                        .push(st[n - 1]).push(st[n - 3]).push(st[n - 2]),
                    _ => st.drop_last(),
                };
                assert(step(ins, regs, st) == Some(st2));
                assert(st2.len() == sym2.len());
                assert forall|j: int| 0 <= j < sym2.len() implies sym2[j].id < nid
                    && env[sym2[j].id as int] == st2[j] by {
                    match ins {
                        Instr::Swap => {
                            if j < n - 2 {
                                assert(sym2[j] == sym[j] && st2[j] == st[j]);
                                assert(sym[j].id < nid && env[sym[j].id as int] == st[j]);
                            } else if j == n - 2 {
                                assert(sym2[j] == sym[n - 1] && st2[j] == st[n - 1]);
                                assert(sym[n - 1].id < nid
                                    && env[sym[n - 1].id as int] == st[n - 1]);
                            } else {
                                assert(sym2[j] == sym[n - 2] && st2[j] == st[n - 2]);
                                assert(sym[n - 2].id < nid
                                    && env[sym[n - 2].id as int] == st[n - 2]);
                            }
                        },
                        Instr::Rotate3 => {
                            if j < n - 3 {
                                assert(sym2[j] == sym[j] && st2[j] == st[j]);
                                assert(sym[j].id < nid && env[sym[j].id as int] == st[j]);
                            } else if j == n - 3 {
                                assert(sym2[j] == sym[n - 1] && st2[j] == st[n - 1]);
                                assert(sym[n - 1].id < nid
                                    && env[sym[n - 1].id as int] == st[n - 1]);
                            } else if j == n - 2 {
                                assert(sym2[j] == sym[n - 3] && st2[j] == st[n - 3]);
                                assert(sym[n - 3].id < nid
                                    && env[sym[n - 3].id as int] == st[n - 3]);
                            } else {
                                assert(sym2[j] == sym[n - 2] && st2[j] == st[n - 2]);
                                assert(sym[n - 2].id < nid
                                    && env[sym[n - 2].id as int] == st[n - 2]);
                            }
                        },
                        _ => {
                            assert(sym2[j] == sym[j] && st2[j] == st[j]);
                            assert(sym[j].id < nid && env[sym[j].id as int] == st[j]);
                        },
                    }
                }
            },
            _ => {
                assert(false);
            },
        }
    }
}

/// An instruction that needs more operands than the symbolic stack
/// holds underflows the machine on every register file.
proof fn lemma_replay_stuck(code: Seq<Instr>, i: int, stmts: Seq<Stmt>, sym: Seq<Val>, nid: u64)
    requires
        0 <= i < code.len(),
        forall|regs: Regs| #[trigger] replay_ok(code.take(i), stmts, sym, nid, regs),
        match code[i] {
            Instr::UnaryOp(_) | Instr::Dup | Instr::Drop | Instr::PlusConstant(_) => sym.len()
                < 1,
            Instr::BinaryOp(_) | Instr::Swap => sym.len() < 2,
            Instr::Rotate3 => sym.len() < 3,
            Instr::Pick(n) => sym.len() <= n as int,
            _ => false,
        },
    ensures
        forall|regs: Regs|
            #![trigger eval_seq(code, regs, Seq::<u64>::empty())]
            eval_seq(code, regs, Seq::empty()) is None,
{
    assert forall|regs: Regs| eval_seq(code, regs, Seq::<u64>::empty()) is None by {
        assert(replay_ok(code.take(i), stmts, sym, nid, regs));
        lemma_eval_snoc(code.take(i), code[i], regs, Seq::empty());
        assert(code.take(i + 1) =~= code.take(i).push(code[i]));
        match (run_stmts(stmts, regs, Seq::empty()), eval_seq(code.take(i), regs, Seq::empty())) {
            (Some(env), Some(st)) => {
                assert(step(code[i], regs, st) is None);
                assert(eval_seq(code.take(i + 1), regs, Seq::empty()) is None);
                assert(code =~= code.take(i + 1) + code.skip(i + 1));
                lemma_eval_append(code.take(i + 1), code.skip(i + 1), regs, Seq::empty());
            },
            _ => {
                assert(false);
            },
        }
    }
}

/// Decompile one instruction sequence into an equivalent straight-line
/// program and the name of its single result.
///
/// Succeeds exactly when the bytecode replays without underflow and
/// finishes with a stack of depth one; the returned program then
/// computes, on every register file, exactly the value the bytecode
/// leaves on the stack. Each error names the structural fault, which
/// is the same for every register file.
pub fn decompile(code: &Vec<Instr>) -> (r: Result<(Vec<Stmt>, Val), DecompileError>)
    ensures
        match r {
            Ok(p) => forall|regs: Regs| #[trigger] decompiled_matches(code@, p.0@, p.1, regs),
            Err(e) => match e {
                DecompileError::StackUnderflow => forall|regs: Regs|
                    #![trigger eval_seq(code@, regs, Seq::<u64>::empty())]
                    eval_seq(code@, regs, Seq::empty()) is None,
                DecompileError::UnbalancedStack => forall|regs: Regs|
                    #![trigger eval_seq(code@, regs, Seq::<u64>::empty())]
                    match eval_seq(code@, regs, Seq::empty()) {
                        Some(st) => st.len() != 1,
                        None => false,
                    },
            },
        },
{
    let mut gen = ValGenerator::new();
    let mut stmts: Vec<Stmt> = Vec::new();
    let mut sym: Vec<Val> = Vec::new();
    let mut i: usize = 0;
    proof {
        assert(code@.take(0) =~= Seq::<Instr>::empty());
        assert forall|regs: Regs| #[trigger] replay_ok(code@.take(0), stmts@, sym@, gen.id, regs) by {
            assert(run_stmts(stmts@, regs, Seq::empty()) == Some(Seq::<u64>::empty()));
            assert(eval_seq(code@.take(0), regs, Seq::empty()) == Some(Seq::<u64>::empty()));
        }
    }
    while i < code.len()
        invariant
            i <= code.len(),
            gen.id <= i as u64,
            ids_below(sym@, gen.id),
            ids_distinct(sym@),
            forall|regs: Regs| #[trigger] replay_ok(code@.take(i as int), stmts@, sym@, gen.id, regs),
        decreases code.len() - i,
    {
        let ghost pre_stmts = stmts@;
        let ghost pre_sym = sym@;
        let ghost pre_nid = gen.id;
        let ins = code[i];
        match ins {
            Instr::PushConst(v) => {
                let dst = gen.next();
                let s = Stmt::DefConst { dst, val: v };
                stmts.push(s);
                sym.push(dst);
                proof {
                    lemma_replay_def_push(code@.take(i as int), ins, pre_stmts, s, pre_sym,
                        pre_nid, dst);
                }
            },
            Instr::PushSignedConst(v) => {
                let dst = gen.next();
                let s = Stmt::DefSignedConst { dst, val: v };
                stmts.push(s);
                sym.push(dst);
                proof {
                    lemma_replay_def_push(code@.take(i as int), ins, pre_stmts, s, pre_sym,
                        pre_nid, dst);
                }
            },
            Instr::ReadRegister(rg) => {
                let dst = gen.next();
                let s = Stmt::DefReg { dst, reg: rg };
                stmts.push(s);
                sym.push(dst);
                proof {
                    lemma_replay_def_push(code@.take(i as int), ins, pre_stmts, s, pre_sym,
                        pre_nid, dst);
                }
            },
            Instr::UnaryOp(op) => {
                if sym.len() < 1 {
                    proof {
                        lemma_replay_stuck(code@, i as int, pre_stmts, pre_sym, pre_nid);
                    }
                    return Err(DecompileError::StackUnderflow);
                }
                let v = sym[sym.len() - 1];
                let s = match op {
                    UnOp::Neg => Stmt::NegInPlace { v },
                    UnOp::Not => Stmt::NotInPlace { v },
                };
                stmts.push(s);
                proof {
                    assert(pre_sym.last() == v);
                    lemma_replay_inplace(code@.take(i as int), ins, pre_stmts, s, pre_sym,
                        pre_nid);
                }
            },
            Instr::PlusConstant(c) => {
                if sym.len() < 1 {
                    proof {
                        lemma_replay_stuck(code@, i as int, pre_stmts, pre_sym, pre_nid);
                    }
                    return Err(DecompileError::StackUnderflow);
                }
                let v = sym[sym.len() - 1];
                let s = Stmt::AddConstInPlace { v, val: c };
                stmts.push(s);
                proof {
                    assert(pre_sym.last() == v);
                    lemma_replay_inplace(code@.take(i as int), ins, pre_stmts, s, pre_sym,
                        pre_nid);
                }
            },
            Instr::BinaryOp(op) => {
                if sym.len() < 2 {
                    proof {
                        lemma_replay_stuck(code@, i as int, pre_stmts, pre_sym, pre_nid);
                    }
                    return Err(DecompileError::StackUnderflow);
                }
                let rhs = sym[sym.len() - 1];
                let lhs = sym[sym.len() - 2];
                sym.pop();
                sym.pop();
                let dst = gen.next();
                let s = Stmt::DefBin { dst, op, lhs, rhs };
                stmts.push(s);
                sym.push(dst);
                proof {
                    assert(sym@ == pre_sym.drop_last().drop_last().push(dst));
                    lemma_replay_bin(code@.take(i as int), op, pre_stmts, pre_sym, pre_nid, dst);
                }
            },
            Instr::Dup => {
                if sym.len() < 1 {
                    proof {
                        lemma_replay_stuck(code@, i as int, pre_stmts, pre_sym, pre_nid);
                    }
                    return Err(DecompileError::StackUnderflow);
                }
                let src = sym[sym.len() - 1];
                let dst = gen.next();
                let s = Stmt::DefCopy { dst, src };
                stmts.push(s);
                sym.push(dst);
                proof {
                    lemma_replay_copy(code@.take(i as int), ins, pre_stmts, pre_sym, pre_nid,
                        dst, pre_sym.len() - 1);
                }
            },
            Instr::Pick(n) => {
                if (n as usize) >= sym.len() {
                    proof {
                        lemma_replay_stuck(code@, i as int, pre_stmts, pre_sym, pre_nid);
                    }
                    return Err(DecompileError::StackUnderflow);
                }
                let src = sym[sym.len() - 1 - n as usize];
                let dst = gen.next();
                let s = Stmt::DefCopy { dst, src };
                stmts.push(s);
                sym.push(dst);
                proof {
                    lemma_replay_copy(code@.take(i as int), ins, pre_stmts, pre_sym, pre_nid,
                        dst, pre_sym.len() - 1 - n as int);
                }
            },
            Instr::Swap => {
                if sym.len() < 2 {
                    proof {
                        lemma_replay_stuck(code@, i as int, pre_stmts, pre_sym, pre_nid);
                    }
                    return Err(DecompileError::StackUnderflow);
                }
                let a = sym[sym.len() - 1];
                let b = sym[sym.len() - 2];
                let n = sym.len();
                sym.set(n - 1, b);
                sym.set(n - 2, a);
                proof {
                    assert(sym@ =~= pre_sym.drop_last().drop_last()
                        .push(pre_sym[pre_sym.len() - 1]).push(pre_sym[pre_sym.len() - 2]));
                    lemma_replay_shuffle(code@.take(i as int), ins, pre_stmts, pre_sym, pre_nid,
                        sym@);
                    assert forall|j: int, k: int| 0 <= j < k < sym@.len() implies
                        #[trigger] sym@[j].id != #[trigger] sym@[k].id by {
                        assert(pre_sym[j].id == sym@[if j == n - 1 { n - 2 } else if j == n - 2 { n - 1 } else { j }].id);
                        assert(pre_sym[k].id == sym@[if k == n - 1 { n - 2 } else if k == n - 2 { n - 1 } else { k }].id);
                    }
                }
            },
            Instr::Rotate3 => {
                if sym.len() < 3 {
                    proof {
                        lemma_replay_stuck(code@, i as int, pre_stmts, pre_sym, pre_nid);
                    }
                    return Err(DecompileError::StackUnderflow);
                }
                let c = sym[sym.len() - 1];
                let b = sym[sym.len() - 2];
                let a = sym[sym.len() - 3];
                let n = sym.len();
                sym.set(n - 1, b);
                sym.set(n - 2, a);
                sym.set(n - 3, c);
                proof {
                    assert(sym@ =~= pre_sym.drop_last().drop_last().drop_last()
                        .push(pre_sym[pre_sym.len() - 1]).push(pre_sym[pre_sym.len() - 3])
                        .push(pre_sym[pre_sym.len() - 2]));
                    lemma_replay_shuffle(code@.take(i as int), ins, pre_stmts, pre_sym, pre_nid,
                        sym@);
                    assert forall|j: int, k: int| 0 <= j < k < sym@.len() implies
                        #[trigger] sym@[j].id != #[trigger] sym@[k].id by {
                        let pj: int = if j == n - 1 { n - 2 } else if j == n - 2 { n - 3 } else if j == n - 3 { n - 1 } else { j };
                        let pk: int = if k == n - 1 { n - 2 } else if k == n - 2 { n - 3 } else if k == n - 3 { n - 1 } else { k };
                        assert(pre_sym[pj].id == sym@[j].id);
                        assert(pre_sym[pk].id == sym@[k].id);
                    }
                }
            },
            Instr::Drop => {
                if sym.len() < 1 {
                    proof {
                        lemma_replay_stuck(code@, i as int, pre_stmts, pre_sym, pre_nid);
                    }
                    return Err(DecompileError::StackUnderflow);
                }
                sym.pop();
                proof {
                    assert(sym@ =~= pre_sym.drop_last());
                    lemma_replay_shuffle(code@.take(i as int), ins, pre_stmts, pre_sym, pre_nid,
                        sym@);
                }
            },
        }
        proof {
            let ins_g = code@[i as int];
            assert(code@.take(i + 1) =~= code@.take(i as int).push(ins_g));
            if gen.id != pre_nid {
                assert(gen.id == (pre_nid + 1) as u64);
            }
            assert forall|regs: Regs|
                #[trigger] replay_ok(code@.take(i + 1), stmts@, sym@, gen.id, regs) by {
                assert(replay_ok(code@.take(i as int).push(ins_g), stmts@, sym@, gen.id, regs));
            }
        }
        i = i + 1;
    }
    proof {
        assert(code@.take(code@.len() as int) =~= code@);
    }
    if sym.len() == 1 {
        let ret = sym[0];
        proof {
            assert forall|regs: Regs| #[trigger] decompiled_matches(code@, stmts@, ret, regs) by {
                assert(replay_ok(code@, stmts@, sym@, gen.id, regs));
                match (run_stmts(stmts@, regs, Seq::empty()), eval_seq(code@, regs,
                    Seq::empty())) {
                    (Some(env), Some(st)) => {
                        assert(sym@[0].id < gen.id && env[sym@[0].id as int] == st[0]);
                        assert(st =~= seq![env[ret.id as int]]);
                    },
                    _ => {
                        assert(false);
                    },
                }
            }
        }
        Ok((stmts, ret))
    } else {
        proof {
            assert forall|regs: Regs|
                #![trigger eval_seq(code@, regs, Seq::<u64>::empty())]
                match eval_seq(code@, regs, Seq::<u64>::empty()) {
                    Some(st) => st.len() != 1,
                    None => false,
                } by {
                assert(replay_ok(code@, stmts@, sym@, gen.id, regs));
            }
        }
        Err(DecompileError::UnbalancedStack)
    }
}

/// Run a decompiled straight-line program against a register file,
/// returning the final binding of every name. `None` is a malformed
/// program, which `decompile` never emits.
pub fn eval_stmts(ss: &Vec<Stmt>, regs: &Regs) -> (r: Option<Vec<u64>>)
    ensures
        match r {
            Some(env) => run_stmts(ss@, *regs, Seq::empty()) == Some(env@),
            None => run_stmts(ss@, *regs, Seq::empty()) is None,
        },
{
    let mut env: Vec<u64> = Vec::new();
    let mut i: usize = 0;
    proof {
        assert(ss@.take(0) =~= Seq::<Stmt>::empty());
    }
    while i < ss.len()
        invariant
            i <= ss.len(),
            run_stmts(ss@.take(i as int), *regs, Seq::empty()) == Some(env@),
        decreases ss.len() - i,
    {
        let ghost pre = env@;
        let s = ss[i];
        let ok: bool = match s {
            Stmt::DefConst { dst, val } => {
                if dst.id == env.len() as u64 {
                    env.push(val);
                    true
                } else {
                    false
                }
            },
            Stmt::DefSignedConst { dst, val } => {
                if dst.id == env.len() as u64 {
                    env.push(crate::vm::signed_pattern(val));
                    true
                } else {
                    false
                }
            },
            Stmt::DefReg { dst, reg } => {
                if dst.id == env.len() as u64 {
                    env.push(crate::vm::read_register(regs, reg));
                    true
                } else {
                    false
                }
            },
            Stmt::DefBin { dst, op, lhs, rhs } => {
                if dst.id == env.len() as u64 && lhs.id < env.len() as u64
                    && rhs.id < env.len() as u64 {
                    let a = env[lhs.id as usize];
                    let b = env[rhs.id as usize];
                    env.push(crate::vm::apply_bin(op, a, b));
                    true
                } else {
                    false
                }
            },
            Stmt::DefCopy { dst, src } => {
                if dst.id == env.len() as u64 && src.id < env.len() as u64 {
                    let a = env[src.id as usize];
                    env.push(a);
                    true
                } else {
                    false
                }
            },
            Stmt::NegInPlace { v } => {
                if v.id < env.len() as u64 {
                    let a = env[v.id as usize];
                    env.set(v.id as usize, crate::vm::apply_un(UnOp::Neg, a));
                    true
                } else {
                    false
                }
            },
            Stmt::NotInPlace { v } => {
                if v.id < env.len() as u64 {
                    let a = env[v.id as usize];
                    env.set(v.id as usize, crate::vm::apply_un(UnOp::Not, a));
                    true
                } else {
                    false
                }
            },
            Stmt::AddConstInPlace { v, val } => {
                if v.id < env.len() as u64 {
                    let a = env[v.id as usize];
                    env.set(v.id as usize, crate::vm::wrap_add(a, val));
                    true
                } else {
                    false
                }
            },
        };
        proof {
            assert(ss@.take(i + 1) =~= ss@.take(i as int).push(ss@[i as int]));
            lemma_run_snoc(ss@.take(i as int), ss@[i as int], *regs, Seq::empty());
        }
        if !ok {
            proof {
                assert(run_stmts(ss@.take(i + 1), *regs, Seq::empty()) is None);
                assert(ss@ =~= ss@.take(i + 1) + ss@.skip(i + 1));
                lemma_run_append(ss@.take(i + 1), ss@.skip(i + 1), *regs, Seq::empty());
            }
            return None;
        }
        i = i + 1;
    }
    proof {
        assert(ss@.take(ss@.len() as int) =~= ss@);
    }
    Some(env)
}

/// Running a concatenation runs the two halves in order.
pub proof fn lemma_run_append(a: Seq<Stmt>, b: Seq<Stmt>, regs: Regs, env: Seq<u64>)
    ensures
        run_stmts(a + b, regs, env) == (match run_stmts(a, regs, env) {
            Some(mid) => run_stmts(b, regs, mid),
            None => None,
        }),
    decreases a.len(),
{
    if a.len() == 0 {
        assert(a + b =~= b);
    } else {
        assert((a + b)[0] == a[0]);
        assert((a + b).drop_first() =~= a.drop_first() + b);
        match stmt_step(a[0], regs, env) {
            Some(env2) => {
                lemma_run_append(a.drop_first(), b, regs, env2);
            },
            None => {},
        }
    }
}

} // verus!
