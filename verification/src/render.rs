//! Rendering a decompiled program as straight-line C source text.
//!
//! One pseudo-function per register: the straight-line statements the
//! symbolic interpreter emitted, one line each, between a fixed header
//! and a `return` of the program's single result.

use vstd::prelude::*;
use vstd::string::StringExecFns;
use crate::decomp::{Stmt, Val};
use crate::vm::{BinOp, RegId};

verus! {

/// The decimal digits of `n`.
pub open spec fn dec_chars(n: nat) -> Seq<char>
    decreases n,
{
    if n < 10 {
        digit_str(n)
    } else {
        dec_chars(n / 10) + digit_str(n % 10)
    }
}

pub open spec fn digit_str(d: nat) -> Seq<char> {
    if d == 0 {
        "0"@
    } else if d == 1 {
        "1"@
    } else if d == 2 {
        "2"@
    } else if d == 3 {
        "3"@
    } else if d == 4 {
        "4"@
    } else if d == 5 {
        "5"@
    } else if d == 6 {
        "6"@
    } else if d == 7 {
        "7"@
    } else if d == 8 {
        "8"@
    } else {
        "9"@
    }
}

/// The decimal digits of a signed value, with its sign.
pub open spec fn sdec_chars(v: i64) -> Seq<char> {
    if v >= 0 {
        dec_chars(v as nat)
    } else {
        "-"@ + dec_chars((-(v as int)) as nat)
    }
}

/// The C name of a register.
pub open spec fn reg_chars(r: RegId) -> Seq<char> {
    match r {
        RegId::Rax => "rax"@,
        RegId::Rbx => "rbx"@,
        RegId::R12 => "r12"@,
        RegId::R13 => "r13"@,
        RegId::R14 => "r14"@,
        RegId::R15 => "r15"@,
    }
}

/// The C name of a symbolic value.
pub open spec fn vname(v: Val) -> Seq<char> {
    "v"@ + dec_chars(v.id as nat)
}

pub open spec fn def_prefix(dst: Val) -> Seq<char> {
    "    uint64_t "@ + vname(dst) + "="@
}

/// One statement, as the line of C the decompiler prints for it.
pub open spec fn stmt_text(s: Stmt) -> Seq<char> {
    match s {
        Stmt::DefConst { dst, val } => def_prefix(dst) + dec_chars(val as nat) + "ull;\n"@,
        Stmt::DefSignedConst { dst, val } => def_prefix(dst) + "(uint64_t)"@ + sdec_chars(val)
            + "ll;\n"@,
        Stmt::DefReg { dst, reg } => def_prefix(dst) + reg_chars(reg) + ";\n"@,
        Stmt::DefCopy { dst, src } => def_prefix(dst) + vname(src) + ";\n"@,
        Stmt::NegInPlace { v } => "    "@ + vname(v) + "=-"@ + vname(v) + ";\n"@,
        Stmt::NotInPlace { v } => "    "@ + vname(v) + "=~"@ + vname(v) + ";\n"@,
        Stmt::AddConstInPlace { v, val } => "    "@ + vname(v) + "+="@ + dec_chars(val as nat)
            + "ull;\n"@,
        Stmt::DefBin { dst, op, lhs, rhs } => bin_text(dst, op, lhs, rhs),
    }
}

/// One binary definition, with the operator's C spelling.
pub open spec fn bin_text(dst: Val, op: BinOp, lhs: Val, rhs: Val) -> Seq<char> {
    match op {
        BinOp::And => def_prefix(dst) + vname(lhs) + "&"@ + vname(rhs) + ";\n"@,
        BinOp::Or => def_prefix(dst) + vname(lhs) + "|"@ + vname(rhs) + ";\n"@,
        BinOp::Xor => def_prefix(dst) + vname(lhs) + "^"@ + vname(rhs) + ";\n"@,
        BinOp::Plus => def_prefix(dst) + vname(lhs) + "+"@ + vname(rhs) + ";\n"@,
        BinOp::Minus => def_prefix(dst) + vname(lhs) + "-"@ + vname(rhs) + ";\n"@,
        BinOp::Shl => def_prefix(dst) + vname(lhs) + "<<"@ + vname(rhs) + ";\n"@,
        BinOp::Shr => def_prefix(dst) + vname(lhs) + ">>"@ + vname(rhs) + ";\n"@,
        BinOp::Shra => def_prefix(dst) + "(uint64_t)((int64_t)"@ + vname(lhs) + ">>(int64_t)"@
            + vname(rhs) + ");\n"@,
        BinOp::CmpEq => def_prefix(dst) + " "@ + vname(lhs) + "=="@ + vname(rhs) + "?1:0;\n"@,
        BinOp::CmpNe => def_prefix(dst) + vname(lhs) + "!="@ + vname(rhs) + "?1:0;\n"@,
        BinOp::CmpLt => def_prefix(dst) + vname(lhs) + "<"@ + vname(rhs) + "?1:0;\n"@,
        BinOp::CmpLe => def_prefix(dst) + vname(lhs) + "<="@ + vname(rhs) + "?1:0;\n"@,
        BinOp::CmpGt => def_prefix(dst) + vname(lhs) + ">"@ + vname(rhs) + "?1:0;\n"@,
        BinOp::CmpGe => def_prefix(dst) + vname(lhs) + ">="@ + vname(rhs) + "?1:0;\n"@,
    }
}

/// The lines of a whole statement sequence, in order.
pub open spec fn stmts_text(ss: Seq<Stmt>) -> Seq<char>
    decreases ss.len(),
{
    if ss.len() == 0 {
        Seq::empty()
    } else {
        stmt_text(ss[0]) + stmts_text(ss.drop_first())
    }
}

/// The whole pseudo-function for one register's program.
pub open spec fn program_text(reg: RegId, stmts: Seq<Stmt>, ret: Val) -> Seq<char> {
    "uint64_t cal_"@ + reg_chars(reg)
        + "(uint64_t r12, uint64_t r13, uint64_t r14, uint64_t r15){\n"@
        + "    uint64_t rax=0,rbx=0;\n"@ + stmts_text(stmts) + "    return "@ + vname(ret)
        + ";\n}\n\n"@
}

proof fn lemma_stmts_text_snoc(ss: Seq<Stmt>, s: Stmt)
    ensures
        stmts_text(ss.push(s)) == stmts_text(ss) + stmt_text(s),
    decreases ss.len(),
{
    if ss.len() == 0 {
        assert(ss.push(s)[0] == s);
        assert(ss.push(s).drop_first() =~= ss);
        assert(stmts_text(ss.push(s)) =~= stmts_text(ss) + stmt_text(s));
    } else {
        assert(ss.push(s)[0] == ss[0]);
        assert(ss.push(s).drop_first() =~= ss.drop_first().push(s));
        lemma_stmts_text_snoc(ss.drop_first(), s);
        assert(stmts_text(ss.push(s)) =~= stmts_text(ss) + stmt_text(s));
    }
}

/// Append one decimal digit.
fn append_digit(out: &mut String, d: u64)
    requires
        d < 10,
    ensures
        final(out)@ == old(out)@ + digit_str(d as nat),
{
    match d {
        0 => out.append("0"),
        1 => out.append("1"),
        2 => out.append("2"),
        3 => out.append("3"),
        4 => out.append("4"),
        5 => out.append("5"),
        6 => out.append("6"),
        7 => out.append("7"),
        8 => out.append("8"),
        _ => out.append("9"),
    }
}

/// Append the decimal digits of `x`.
fn append_dec(out: &mut String, x: u64)
    ensures
        final(out)@ == old(out)@ + dec_chars(x as nat),
    decreases x,
{
    let ghost orig = out@;
    if x >= 10 {
        append_dec(out, x / 10);
    }
    append_digit(out, x % 10);
    proof {
        if x < 10 {
            assert(x % 10 == x);
            assert(out@ =~= orig + dec_chars(x as nat));
        } else {
            assert(out@ =~= orig + dec_chars(x as nat));
        }
    }
}

/// Append the signed decimal digits of `v`.
fn append_sdec(out: &mut String, v: i64)
    ensures
        final(out)@ == old(out)@ + sdec_chars(v),
{
    let ghost orig = out@;
    if v >= 0 {
        append_dec(out, v as u64);
    } else {
        out.append("-");
        let m: u64 = ((-1i64 - v) as u64) + 1;
        proof {
            assert(m == (-(v as int)) as nat);
        }
        append_dec(out, m);
        proof {
            assert(out@ =~= orig + sdec_chars(v));
        }
    }
}

/// Append the C name of a register.
fn append_reg(out: &mut String, r: RegId)
    ensures
        final(out)@ == old(out)@ + reg_chars(r),
{
    match r {
        RegId::Rax => out.append("rax"),
        RegId::Rbx => out.append("rbx"),
        RegId::R12 => out.append("r12"),
        RegId::R13 => out.append("r13"),
        RegId::R14 => out.append("r14"),
        RegId::R15 => out.append("r15"),
    }
}

/// Append the C name of a symbolic value.
fn append_vname(out: &mut String, v: Val)
    ensures
        final(out)@ == old(out)@ + vname(v),
{
    let ghost orig = out@;
    out.append("v");
    append_dec(out, v.id);
    proof {
        assert(out@ =~= orig + vname(v));
    }
}

fn append_def_prefix(out: &mut String, dst: Val)
    ensures
        final(out)@ == old(out)@ + def_prefix(dst),
{
    let ghost orig = out@;
    out.append("    uint64_t ");
    append_vname(out, dst);
    out.append("=");
    proof {
        assert(out@ =~= orig + def_prefix(dst));
    }
}


/// Append the C line for one binary definition.
#[verifier::rlimit(100)]
fn append_bin(out: &mut String, dst: Val, op: BinOp, lhs: Val, rhs: Val)
    ensures
        final(out)@ == old(out)@ + bin_text(dst, op, lhs, rhs),
{
    let ghost orig = out@;
    append_def_prefix(out, dst);
    match op {
        BinOp::And => {
            append_vname(out, lhs);
            out.append("&");
            append_vname(out, rhs);
            out.append(";\n");
            proof {
                assert(out@ =~= orig + bin_text(dst, op, lhs, rhs));
            }
        },
        BinOp::Or => {
            append_vname(out, lhs);
            out.append("|");
            append_vname(out, rhs);
            out.append(";\n");
            proof {
                assert(out@ =~= orig + bin_text(dst, op, lhs, rhs));
            }
        },
        BinOp::Xor => {
            append_vname(out, lhs);
            out.append("^");
            append_vname(out, rhs);
            out.append(";\n");
            proof {
                assert(out@ =~= orig + bin_text(dst, op, lhs, rhs));
            }
        },
        BinOp::Plus => {
            append_vname(out, lhs);
            out.append("+");
            append_vname(out, rhs);
            out.append(";\n");
            proof {
                assert(out@ =~= orig + bin_text(dst, op, lhs, rhs));
            }
        },
        BinOp::Minus => {
            append_vname(out, lhs);
            out.append("-");
            append_vname(out, rhs);
            out.append(";\n");
            proof {
                assert(out@ =~= orig + bin_text(dst, op, lhs, rhs));
            }
        },
        BinOp::Shl => {
            append_vname(out, lhs);
            out.append("<<");
            append_vname(out, rhs);
            out.append(";\n");
            proof {
                assert(out@ =~= orig + bin_text(dst, op, lhs, rhs));
            }
        },
        BinOp::Shr => {
            append_vname(out, lhs);
            out.append(">>");
            append_vname(out, rhs);
            out.append(";\n");
            proof {
                assert(out@ =~= orig + bin_text(dst, op, lhs, rhs));
            }
        },
        BinOp::Shra => {
            out.append("(uint64_t)((int64_t)");
            append_vname(out, lhs);
            out.append(">>(int64_t)");
            append_vname(out, rhs);
            out.append(");\n");
            proof {
                assert(out@ =~= orig + bin_text(dst, op, lhs, rhs));
            }
        },
        BinOp::CmpEq => {
            out.append(" ");
            append_vname(out, lhs);
            out.append("==");
            append_vname(out, rhs);
            out.append("?1:0;\n");
            proof {
                assert(out@ =~= orig + bin_text(dst, op, lhs, rhs));
            }
        },
        BinOp::CmpNe => {
            append_vname(out, lhs);
            out.append("!=");
            append_vname(out, rhs);
            out.append("?1:0;\n");
            proof {
                assert(out@ =~= orig + bin_text(dst, op, lhs, rhs));
            }
        },
        BinOp::CmpLt => {
            append_vname(out, lhs);
            out.append("<");
            append_vname(out, rhs);
            out.append("?1:0;\n");
            proof {
                assert(out@ =~= orig + bin_text(dst, op, lhs, rhs));
            }
        },
        BinOp::CmpLe => {
            append_vname(out, lhs);
            out.append("<=");
            append_vname(out, rhs);
            out.append("?1:0;\n");
            proof {
                assert(out@ =~= orig + bin_text(dst, op, lhs, rhs));
            }
        },
        BinOp::CmpGt => {
            append_vname(out, lhs);
            out.append(">");
            append_vname(out, rhs);
            out.append("?1:0;\n");
            proof {
                assert(out@ =~= orig + bin_text(dst, op, lhs, rhs));
            }
        },
        BinOp::CmpGe => {
            append_vname(out, lhs);
            out.append(">=");
            append_vname(out, rhs);
            out.append("?1:0;\n");
            proof {
                assert(out@ =~= orig + bin_text(dst, op, lhs, rhs));
            }
        },
    }
}

/// Append the C line for one statement.
#[verifier::rlimit(50)]
fn append_stmt(out: &mut String, s: &Stmt)
    ensures
        final(out)@ == old(out)@ + stmt_text(*s),
{
    let ghost orig = out@;
    match *s {
        Stmt::DefConst { dst, val } => {
            append_def_prefix(out, dst);
            append_dec(out, val);
            out.append("ull;\n");
        },
        Stmt::DefSignedConst { dst, val } => {
            append_def_prefix(out, dst);
            out.append("(uint64_t)");
            append_sdec(out, val);
            out.append("ll;\n");
        },
        Stmt::DefReg { dst, reg } => {
            append_def_prefix(out, dst);
            append_reg(out, reg);
            out.append(";\n");
        },
        Stmt::DefCopy { dst, src } => {
            append_def_prefix(out, dst);
            append_vname(out, src);
            out.append(";\n");
        },
        Stmt::NegInPlace { v } => {
            out.append("    ");
            append_vname(out, v);
            out.append("=-");
            append_vname(out, v);
            out.append(";\n");
        },
        Stmt::NotInPlace { v } => {
            out.append("    ");
            append_vname(out, v);
            out.append("=~");
            append_vname(out, v);
            out.append(";\n");
        },
        Stmt::AddConstInPlace { v, val } => {
            out.append("    ");
            append_vname(out, v);
            out.append("+=");
            append_dec(out, val);
            out.append("ull;\n");
        },
        Stmt::DefBin { dst, op, lhs, rhs } => {
            append_bin(out, dst, op, lhs, rhs);
        },
    }
    proof {
        assert(out@ =~= orig + stmt_text(*s));
    }
}

/// Render the whole pseudo-function for one register's decompiled
/// program.
pub fn render_program(reg: RegId, stmts: &Vec<Stmt>, ret: Val) -> (r: String)
    ensures
        r@ == program_text(reg, stmts@, ret),
{
    let mut out = String::new();
    out.append("uint64_t cal_");
    append_reg(&mut out, reg);
    out.append("(uint64_t r12, uint64_t r13, uint64_t r14, uint64_t r15){\n");
    out.append("    uint64_t rax=0,rbx=0;\n");
    let ghost header = out@;
    proof {
        assert(stmts@.take(0) =~= Seq::<Stmt>::empty());
        assert(out@ =~= header + stmts_text(stmts@.take(0)));
    }
    let mut i: usize = 0;
    while i < stmts.len()
        invariant
            i <= stmts.len(),
            out@ == header + stmts_text(stmts@.take(i as int)),
        decreases stmts.len() - i,
    {
        append_stmt(&mut out, &stmts[i]);
        proof {
            assert(stmts@.take(i + 1) =~= stmts@.take(i as int).push(stmts@[i as int]));
            lemma_stmts_text_snoc(stmts@.take(i as int), stmts@[i as int]);
            assert(out@ =~= header + stmts_text(stmts@.take(i + 1)));
        }
        i = i + 1;
    }
    proof {
        assert(stmts@.take(stmts@.len() as int) =~= stmts@);
    }
    out.append("    return ");
    append_vname(&mut out, ret);
    out.append(";\n}\n\n");
    proof {
        assert(out@ =~= program_text(reg, stmts@, ret));
    }
    out
}

} // verus!
