//! The instruction set and the operational semantics of the stack machine.
//!
//! A program is a sequence of instructions evaluated against an operand
//! stack of 64-bit unsigned values and a fixed, read-only register file.
//! All arithmetic wraps silently at 64 bits; comparisons push 1 or 0.

use vstd::prelude::*;

verus! {

/// The machine registers a program may read. Four state registers carry
/// the protocol's live state across steps; the last two are opaque,
/// externally supplied scratch values.
#[derive(Clone, Copy, Debug, PartialEq, Eq, Structural)]
pub enum RegId {
    R12,
    R13,
    R14,
    R15,
    Rax,
    Rbx,
}

/// Unary operators: both replace the top of the stack.
#[derive(Clone, Copy, Debug, PartialEq, Eq, Structural)]
pub enum UnOp {
    Neg,
    Not,
}

/// Binary operators. Each pops the top two values and pushes
/// `(second-from-top) op (top)`. Comparisons are unsigned except
/// `Shra`, which shifts arithmetically (sign-extending).
#[derive(Clone, Copy, Debug, PartialEq, Eq, Structural)]
pub enum BinOp {
    And,
    Or,
    Xor,
    Plus,
    Minus,
    Shl,
    Shr,
    Shra,
    CmpEq,
    CmpNe,
    CmpLt,
    CmpLe,
    CmpGt,
    CmpGe,
}

/// One instruction of the fixed encoding.
#[derive(Clone, Copy, Debug, PartialEq, Eq, Structural)]
pub enum Instr {
    /// Push an unsigned literal.
    PushConst(u64),
    /// Push a signed literal, reinterpreted as its 64-bit two's-complement pattern.
    PushSignedConst(i64),
    /// Push the value of a register.
    ReadRegister(RegId),
    /// Replace the top of the stack with a unary function of it.
    UnaryOp(UnOp),
    /// Pop two values, push `(second) op (top)`.
    BinaryOp(BinOp),
    /// Duplicate the top of the stack.
    Dup,
    /// Exchange the top two values.
    Swap,
    /// Rotate the top three values: the top becomes the third entry,
    /// the second becomes the top, the third becomes the second.
    Rotate3,
    /// Discard the top of the stack.
    Drop,
    /// Push a copy of the value `depth` positions below the top.
    Pick(u32),
    /// Add a constant to the top of the stack in place.
    PlusConstant(u64),
}

/// The read-only register file a sequence is evaluated against.
#[derive(Clone, Copy, Debug, PartialEq, Eq, Structural)]
pub struct Regs {
    pub r12: u64,
    pub r13: u64,
    pub r14: u64,
    pub r15: u64,
    pub rax: u64,
    pub rbx: u64,
}

pub open spec fn read_reg(regs: Regs, r: RegId) -> u64 {
    match r {
        RegId::R12 => regs.r12,
        RegId::R13 => regs.r13,
        RegId::R14 => regs.r14,
        RegId::R15 => regs.r15,
        RegId::Rax => regs.rax,
        RegId::Rbx => regs.rbx,
    }
}

/// Addition modulo 2^64.
pub open spec fn w_add(a: u64, b: u64) -> u64 {
    ((a + b) % 0x1_0000_0000_0000_0000) as u64
}

/// Subtraction modulo 2^64.
pub open spec fn w_sub(a: u64, b: u64) -> u64 {
    ((a - b) % 0x1_0000_0000_0000_0000) as u64
}

/// Multiplication modulo 2^64.
pub open spec fn w_mul(a: u64, b: u64) -> u64 {
    ((a * b) % 0x1_0000_0000_0000_0000) as u64
}

/// Left shift; a shift of 64 or more drains every bit.
pub open spec fn w_shl(a: u64, s: u64) -> u64 {
    if s >= 64 {
        0
    } else {
        a << s
    }
}

/// Logical right shift; a shift of 64 or more drains every bit.
pub open spec fn w_shr(a: u64, s: u64) -> u64 {
    if s >= 64 {
        0
    } else {
        a >> s
    }
}

/// Arithmetic right shift: the sign bit fills the vacated positions.
pub open spec fn w_shra(a: u64, s: u64) -> u64 {
    if s >= 64 {
        if (a >> 63) == 1 {
            u64::MAX
        } else {
            0
        }
    } else if (a >> 63) == 1 {
        (a >> s) | !(u64::MAX >> s)
    } else {
        a >> s
    }
}

/// The 64-bit two's-complement pattern of a signed literal.
pub open spec fn signed_bits(v: i64) -> u64 {
    if v >= 0 {
        v as u64
    } else {
        !((-1 - v) as u64)
    }
}

pub open spec fn un_val(op: UnOp, a: u64) -> u64 {
    match op {
        UnOp::Neg => w_sub(0, a),
        UnOp::Not => !a,
    }
}

pub open spec fn bin_val(op: BinOp, a: u64, b: u64) -> u64 {
    match op {
        BinOp::And => a & b,
        BinOp::Or => a | b,
        BinOp::Xor => a ^ b,
        BinOp::Plus => w_add(a, b),
        BinOp::Minus => w_sub(a, b),
        BinOp::Shl => w_shl(a, b),
        BinOp::Shr => w_shr(a, b),
        BinOp::Shra => w_shra(a, b),
        BinOp::CmpEq => if a == b { 1 } else { 0 },
        BinOp::CmpNe => if a != b { 1 } else { 0 },
        BinOp::CmpLt => if a < b { 1 } else { 0 },
        BinOp::CmpLe => if a <= b { 1 } else { 0 },
        BinOp::CmpGt => if a > b { 1 } else { 0 },
        BinOp::CmpGe => if a >= b { 1 } else { 0 },
    }
}

/// One step of the machine: `None` is an operand-stack underflow.
pub open spec fn step(i: Instr, regs: Regs, st: Seq<u64>) -> Option<Seq<u64>> {
    match i {
        Instr::PushConst(v) => Some(st.push(v)),
        Instr::PushSignedConst(v) => Some(st.push(signed_bits(v))),
        Instr::ReadRegister(r) => Some(st.push(read_reg(regs, r))),
        Instr::UnaryOp(op) => if st.len() >= 1 {
            Some(st.drop_last().push(un_val(op, st.last())))
        } else {
            None
        },
        Instr::BinaryOp(op) => if st.len() >= 2 {
            Some(st.drop_last().drop_last().push(bin_val(op, st[st.len() - 2], st.last())))
        } else {
            None
        },
        Instr::Dup => if st.len() >= 1 {
            Some(st.push(st.last()))
        } else {
            None
        },
        Instr::Swap => if st.len() >= 2 {
            Some(st.drop_last().drop_last().push(st.last()).push(st[st.len() - 2]))
        } else {
            None
        },
        Instr::Rotate3 => if st.len() >= 3 {
            Some(st.drop_last().drop_last().drop_last()
                .push(st.last()).push(st[st.len() - 3]).push(st[st.len() - 2]))
        } else {
            None
        },
        Instr::Drop => if st.len() >= 1 {
            Some(st.drop_last())
        } else {
            None
        },
        Instr::Pick(n) => if (n as int) < st.len() {
            Some(st.push(st[st.len() - 1 - n]))
        } else {
            None
        },
        Instr::PlusConstant(v) => if st.len() >= 1 {
            Some(st.drop_last().push(w_add(st.last(), v)))
        } else {
            None
        },
    }
}

/// Evaluate a whole sequence from a starting stack.
pub open spec fn eval_seq(code: Seq<Instr>, regs: Regs, st: Seq<u64>) -> Option<Seq<u64>>
    decreases code.len(),
{
    if code.len() == 0 {
        Some(st)
    } else {
        match step(code[0], regs, st) {
            Some(st2) => eval_seq(code.drop_first(), regs, st2),
            None => None,
        }
    }
}

pub open spec fn step_result(o: Option<Seq<u64>>, i: Instr, regs: Regs) -> Option<Seq<u64>> {
    match o {
        Some(st) => step(i, regs, st),
        None => None,
    }
}

/// Appending one instruction composes with one machine step.
pub proof fn lemma_eval_snoc(code: Seq<Instr>, i: Instr, regs: Regs, st: Seq<u64>)
    ensures
        eval_seq(code.push(i), regs, st) == step_result(eval_seq(code, regs, st), i, regs),
    decreases code.len(),
{
    if code.len() == 0 {
        assert(code.push(i)[0] == i);
        assert(code.push(i).drop_first() =~= code);
        match step(i, regs, st) {
            Some(st2) => {
                assert(eval_seq(code, regs, st2) == Some(st2));
                assert(eval_seq(code.push(i), regs, st) == Some(st2));
            },
            None => {
                assert(eval_seq(code.push(i), regs, st) is None);
            },
        }
    } else {
        assert(code.push(i)[0] == code[0]);
        assert(code.push(i).drop_first() =~= code.drop_first().push(i));
        match step(code[0], regs, st) {
            Some(st2) => {
                lemma_eval_snoc(code.drop_first(), i, regs, st2);
                assert(eval_seq(code.push(i), regs, st)
                    == eval_seq(code.drop_first().push(i), regs, st2));
                assert(eval_seq(code, regs, st) == eval_seq(code.drop_first(), regs, st2));
            },
            None => {
                assert(eval_seq(code.push(i), regs, st) is None);
                assert(eval_seq(code, regs, st) is None);
            },
        }
    }
}

/// Evaluation of a concatenation runs the two halves in order.
pub proof fn lemma_eval_append(a: Seq<Instr>, b: Seq<Instr>, regs: Regs, st: Seq<u64>)
    ensures
        eval_seq(a + b, regs, st) == (match eval_seq(a, regs, st) {
            Some(mid) => eval_seq(b, regs, mid),
            None => None,
        }),
    decreases a.len(),
{
    if a.len() == 0 {
        assert(a + b =~= b);
    } else {
        assert((a + b)[0] == a[0]);
        assert((a + b).drop_first() =~= a.drop_first() + b);
        match step(a[0], regs, st) {
            Some(st2) => {
                lemma_eval_append(a.drop_first(), b, regs, st2);
            },
            None => {},
        }
    }
}

// Shape lemmas for single steps on stacks written as push chains.

pub proof fn lemma_step_bin(op: BinOp, regs: Regs, st: Seq<u64>, a: u64, b: u64)
    ensures
        step(Instr::BinaryOp(op), regs, st.push(a).push(b)) == Some(st.push(bin_val(op, a, b))),
{
    let s2 = st.push(a).push(b);
    assert(s2.drop_last() =~= st.push(a));
    assert(st.push(a).drop_last() =~= st);
    assert(s2[s2.len() - 2] == a);
}

pub proof fn lemma_step_un(op: UnOp, regs: Regs, st: Seq<u64>, a: u64)
    ensures
        step(Instr::UnaryOp(op), regs, st.push(a)) == Some(st.push(un_val(op, a))),
{
    assert(st.push(a).drop_last() =~= st);
}

pub proof fn lemma_step_plus_const(v: u64, regs: Regs, st: Seq<u64>, a: u64)
    ensures
        step(Instr::PlusConstant(v), regs, st.push(a)) == Some(st.push(w_add(a, v))),
{
    assert(st.push(a).drop_last() =~= st);
}

pub proof fn lemma_step_swap(regs: Regs, st: Seq<u64>, a: u64, b: u64)
    ensures
        step(Instr::Swap, regs, st.push(a).push(b)) == Some(st.push(b).push(a)),
{
    let s2 = st.push(a).push(b);
    assert(s2.drop_last() =~= st.push(a));
    assert(st.push(a).drop_last() =~= st);
    assert(s2[s2.len() - 2] == a);
}

pub proof fn lemma_step_rot(regs: Regs, st: Seq<u64>, a: u64, b: u64, c: u64)
    ensures
        step(Instr::Rotate3, regs, st.push(a).push(b).push(c))
            == Some(st.push(c).push(a).push(b)),
{
    let s3 = st.push(a).push(b).push(c);
    assert(s3.drop_last() =~= st.push(a).push(b));
    assert(st.push(a).push(b).drop_last() =~= st.push(a));
    assert(st.push(a).drop_last() =~= st);
    assert(s3[s3.len() - 2] == b);
    assert(s3[s3.len() - 3] == a);
}

pub proof fn lemma_step_drop(regs: Regs, st: Seq<u64>, a: u64)
    ensures
        step(Instr::Drop, regs, st.push(a)) == Some(st),
{
    assert(st.push(a).drop_last() =~= st);
}

pub proof fn lemma_step_pick2(regs: Regs, st: Seq<u64>, a: u64, b: u64, c: u64)
    ensures
        step(Instr::Pick(2), regs, st.push(a).push(b).push(c))
            == Some(st.push(a).push(b).push(c).push(a)),
{
    let s3 = st.push(a).push(b).push(c);
    assert(s3[s3.len() - 3] == a);
}

/// Run a program from the empty stack, as the protocol's evaluator does.
/// `None` reports an operand-stack underflow.
pub fn run_program(code: &Vec<Instr>, regs: &Regs) -> (r: Option<Vec<u64>>)
    ensures
        match r {
            Some(st) => eval_seq(code@, *regs, Seq::empty()) == Some(st@),
            None => eval_seq(code@, *regs, Seq::empty()) is None,
        },
{
    let mut stack: Vec<u64> = Vec::new();
    let mut i: usize = 0;
    proof {
        assert(code@.take(0) =~= Seq::<Instr>::empty());
    }
    while i < code.len()
        invariant
            i <= code.len(),
            eval_seq(code@.take(i as int), *regs, Seq::empty()) == Some(stack@),
        decreases code.len() - i,
    {
        let ghost pre = stack@;
        let ins = code[i];
        let ok: bool = match ins {
            Instr::PushConst(v) => {
                stack.push(v);
                true
            },
            Instr::PushSignedConst(v) => {
                stack.push(signed_pattern(v));
                true
            },
            Instr::ReadRegister(rg) => {
                stack.push(read_register(regs, rg));
                true
            },
            Instr::UnaryOp(op) => {
                if stack.len() >= 1 {
                    let a = stack[stack.len() - 1];
                    let v = apply_un(op, a);
                    let n = stack.len();
                    stack.set(n - 1, v);
                    proof {
                        assert(stack@ =~= pre.drop_last().push(un_val(op, pre.last())));
                    }
                    true
                } else {
                    false
                }
            },
            Instr::BinaryOp(op) => {
                if stack.len() >= 2 {
                    let b = stack[stack.len() - 1];
                    let a = stack[stack.len() - 2];
                    let v = apply_bin(op, a, b);
                    stack.pop();
                    let n = stack.len();
                    stack.set(n - 1, v);
                    proof {
                        assert(stack@ =~= pre.drop_last().drop_last()
                            .push(bin_val(op, pre[pre.len() - 2], pre.last())));
                    }
                    true
                } else {
                    false
                }
            },
            Instr::Dup => {
                if stack.len() >= 1 {
                    let a = stack[stack.len() - 1];
                    stack.push(a);
                    true
                } else {
                    false
                }
            },
            Instr::Swap => {
                if stack.len() >= 2 {
                    let b = stack[stack.len() - 1];
                    let a = stack[stack.len() - 2];
                    let n = stack.len();
                    stack.set(n - 1, a);
                    stack.set(n - 2, b);
                    proof {
                        assert(stack@ =~= pre.drop_last().drop_last()
                            .push(pre.last()).push(pre[pre.len() - 2]));
                    }
                    true
                } else {
                    false
                }
            },
            Instr::Rotate3 => {
                if stack.len() >= 3 {
                    let c = stack[stack.len() - 1];
                    let b = stack[stack.len() - 2];
                    let a = stack[stack.len() - 3];
                    let n = stack.len();
                    stack.set(n - 1, b);
                    stack.set(n - 2, a);
                    stack.set(n - 3, c);
                    proof {
                        assert(stack@ =~= pre.drop_last().drop_last().drop_last()
                            .push(pre.last()).push(pre[pre.len() - 3]).push(pre[pre.len() - 2]));
                    }
                    true
                } else {
                    false
                }
            },
            Instr::Drop => {
                if stack.len() >= 1 {
                    stack.pop();
                    proof {
                        assert(stack@ =~= pre.drop_last());
                    }
                    true
                } else {
                    false
                }
            },
            Instr::Pick(n) => {
                if (n as usize) < stack.len() {
                    let a = stack[stack.len() - 1 - n as usize];
                    stack.push(a);
                    true
                } else {
                    false
                }
            },
            Instr::PlusConstant(v) => {
                if stack.len() >= 1 {
                    let a = stack[stack.len() - 1];
                    let s = wrap_add(a, v);
                    let n = stack.len();
                    stack.set(n - 1, s);
                    proof {
                        assert(stack@ =~= pre.drop_last().push(w_add(pre.last(), v)));
                    }
                    true
                } else {
                    false
                }
            },
        };
        proof {
            assert(code@.take(i + 1) =~= code@.take(i as int).push(code@[i as int]));
            lemma_eval_snoc(code@.take(i as int), code@[i as int], *regs, Seq::empty());
        }
        if !ok {
            proof {
                assert(code@ =~= code@.take(i + 1) + code@.skip(i + 1));
                lemma_eval_append(code@.take(i + 1), code@.skip(i + 1), *regs, Seq::empty());
            }
            return None;
        }
        i = i + 1;
    }
    proof {
        assert(code@.take(code@.len() as int) =~= code@);
    }
    Some(stack)
}

/// The 64-bit pattern a signed literal pushes.
pub fn signed_pattern(v: i64) -> (r: u64)
    ensures
        r == signed_bits(v),
{
    if v >= 0 {
        v as u64
    } else {
        !((-1i64 - v) as u64)
    }
}

/// Run a program that must leave exactly one value on the stack, as
/// the external protocol's evaluator does; `None` reports an underflow
/// or a final stack of any other depth.
pub fn run_to_value(code: &Vec<Instr>, regs: &Regs) -> (r: Option<u64>)
    ensures
        match r {
            Some(v) => eval_seq(code@, *regs, Seq::empty()) == Some(seq![v]),
            None => match eval_seq(code@, *regs, Seq::empty()) {
                Some(st) => st.len() != 1,
                None => true,
            },
        },
{
    match run_program(code, regs) {
        Some(st) => if st.len() == 1 {
            let v = st[0];
            proof {
                assert(st@ =~= seq![st@[0]]);
            }
            Some(v)
        } else {
            None
        },
        None => None,
    }
}

/// Read one register of the file.
pub fn read_register(regs: &Regs, r: RegId) -> (v: u64)
    ensures
        v == read_reg(*regs, r),
{
    match r {
        RegId::R12 => regs.r12,
        RegId::R13 => regs.r13,
        RegId::R14 => regs.r14,
        RegId::R15 => regs.r15,
        RegId::Rax => regs.rax,
        RegId::Rbx => regs.rbx,
    }
}

/// Wrapping addition, against its modular specification.
pub fn wrap_add(a: u64, b: u64) -> (r: u64)
    ensures
        r == w_add(a, b),
{
    proof {
        assert(vstd::wrapping::u64_specs::wrapping_add(a, b)
            == ((a + b) % 0x1_0000_0000_0000_0000) as u64) by (bit_vector);
    }
    a.wrapping_add(b)
}

/// Wrapping subtraction, against its modular specification.
pub fn wrap_sub(a: u64, b: u64) -> (r: u64)
    ensures
        r == w_sub(a, b),
{
    proof {
        assert(vstd::wrapping::u64_specs::wrapping_sub(a, b)
            == ((a - b) % 0x1_0000_0000_0000_0000) as u64) by (bit_vector);
    }
    a.wrapping_sub(b)
}

/// Wrapping multiplication, against its modular specification.
pub fn wrap_mul(a: u64, b: u64) -> (r: u64)
    ensures
        r == w_mul(a, b),
{
    proof {
        assert(vstd::wrapping::u64_specs::wrapping_mul(a, b)
            == ((a * b) % 0x1_0000_0000_0000_0000) as u64) by (bit_vector);
    }
    a.wrapping_mul(b)
}

pub fn apply_un(op: UnOp, a: u64) -> (r: u64)
    ensures
        r == un_val(op, a),
{
    match op {
        UnOp::Neg => wrap_sub(0, a),
        UnOp::Not => !a,
    }
}

pub fn apply_bin(op: BinOp, a: u64, b: u64) -> (r: u64)
    ensures
        r == bin_val(op, a, b),
{
    match op {
        BinOp::And => a & b,
        BinOp::Or => a | b,
        BinOp::Xor => a ^ b,
        BinOp::Plus => wrap_add(a, b),
        BinOp::Minus => wrap_sub(a, b),
        BinOp::Shl => if b >= 64 { 0 } else { a << b },
        BinOp::Shr => if b >= 64 { 0 } else { a >> b },
        BinOp::Shra => {
            let sign: u64 = a >> 63u64;
            if b >= 64 {
                if sign == 1 { u64::MAX } else { 0 }
            } else {
                if sign == 1 { (a >> b) | !(u64::MAX >> b) } else { a >> b }
            }
        },
        BinOp::CmpEq => if a == b { 1 } else { 0 },
        BinOp::CmpNe => if a != b { 1 } else { 0 },
        BinOp::CmpLt => if a < b { 1 } else { 0 },
        BinOp::CmpLe => if a <= b { 1 } else { 0 },
        BinOp::CmpGt => if a > b { 1 } else { 0 },
        BinOp::CmpGe => if a >= b { 1 } else { 0 },
    }
}

} // verus!
