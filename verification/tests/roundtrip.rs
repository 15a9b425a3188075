use rand::Rng;
use unwind_vm::decomp::{decompile, eval_stmts, DecompileError, Val, ValGenerator};
use unwind_vm::params::Arg;
use unwind_vm::vm::{run_to_value, BinOp, Instr, RegId, Regs, UnOp};

fn any_regs(rng: &mut rand::rngs::ThreadRng) -> Regs {
    Regs {
        r12: rng.gen(),
        r13: rng.gen(),
        r14: rng.gen(),
        r15: rng.gen(),
        rax: rng.gen(),
        rbx: rng.gen(),
    }
}

fn decompiled_value(code: &Vec<Instr>, regs: &Regs) -> u64 {
    let (stmts, ret) = decompile(code).expect("decompilable");
    let env = eval_stmts(&stmts, regs).expect("well-formed straight-line program");
    env[ret.id as usize]
}

#[test]
fn val_generator_numbers_from_zero() {
    let mut gen = ValGenerator::new();
    assert_eq!(gen.next(), Val::new(0));
    assert_eq!(gen.next(), Val::new(1));
    assert_eq!(gen.next(), Val::new(2));
}

#[test]
fn decompile_operand_order() {
    // [5, 2, MINUS] decompiles and evaluates to 3, not -3.
    let code = vec![
        Instr::PushConst(5),
        Instr::PushConst(2),
        Instr::BinaryOp(BinOp::Minus),
    ];
    let r = Regs { r12: 0, r13: 0, r14: 0, r15: 0, rax: 0, rbx: 0 };
    assert_eq!(decompiled_value(&code, &r), 3);
}

#[test]
fn decompile_matches_direct_evaluation_on_fixed_sequence() {
    // Round-trip duality on a hand-built sequence that exercises every
    // kind of instruction, over 100 random register tuples.
    let code = vec![
        Instr::ReadRegister(RegId::R12),
        Instr::PushConst(0xff),
        Instr::BinaryOp(BinOp::And),
        Instr::Dup,
        Instr::ReadRegister(RegId::R13),
        Instr::Swap,
        Instr::UnaryOp(UnOp::Not),
        Instr::PushSignedConst(-7),
        Instr::Rotate3,
        Instr::BinaryOp(BinOp::Xor),
        Instr::BinaryOp(BinOp::Plus),
        Instr::PlusConstant(0x1234_5678),
        Instr::ReadRegister(RegId::R14),
        Instr::PushConst(13),
        Instr::BinaryOp(BinOp::Shr),
        Instr::BinaryOp(BinOp::Minus),
        Instr::ReadRegister(RegId::R15),
        Instr::Pick(1),
        Instr::BinaryOp(BinOp::CmpLt),
        Instr::UnaryOp(UnOp::Neg),
        Instr::BinaryOp(BinOp::Or),
        Instr::Dup,
        Instr::BinaryOp(BinOp::And),
        Instr::BinaryOp(BinOp::Xor),
    ];
    let mut rng = rand::thread_rng();
    for _ in 0..100 {
        let regs = any_regs(&mut rng);
        let direct = run_to_value(&code, &regs).expect("single result");
        assert_eq!(decompiled_value(&code, &regs), direct);
    }
}

#[test]
fn decompile_reports_underflow() {
    assert_eq!(
        decompile(&vec![Instr::BinaryOp(BinOp::Minus)]),
        Err(DecompileError::StackUnderflow)
    );
    assert_eq!(
        decompile(&vec![Instr::PushConst(1), Instr::Rotate3]),
        Err(DecompileError::StackUnderflow)
    );
    assert_eq!(
        decompile(&vec![Instr::PushConst(1), Instr::Pick(1)]),
        Err(DecompileError::StackUnderflow)
    );
}

#[test]
fn decompile_reports_unbalanced_stack() {
    assert_eq!(decompile(&Vec::new()), Err(DecompileError::UnbalancedStack));
    assert_eq!(
        decompile(&vec![Instr::PushConst(1), Instr::PushConst(2)]),
        Err(DecompileError::UnbalancedStack)
    );
}

fn sext_low8(x: u64) -> u64 {
    (((x as i64) << 56) >> 56) as u64
}

fn expected_r12(a: &Arg, regs: &Regs) -> u64 {
    let ph = regs.r12 & 0xff;
    let nxt = sext_low8(regs.r12 >> 8);
    if ph <= 3 {
        1
    } else if ph == 4 {
        nxt
    } else if ph == 6 {
        if regs.r13 == a.round.wrapping_mul(a.det) { nxt } else { 2 }
    } else {
        0
    }
}

fn expected_r15(a: &Arg, regs: &Regs) -> u64 {
    let ph = regs.r12 & 0xff;
    if ph == 2 {
        regs.r14
    } else if ph == 3 {
        regs.r15 ^ a.xor_num_b
    } else {
        regs.r15
    }
}

fn expected_r13(a: &Arg, regs: &Regs) -> u64 {
    let ph = regs.r12 & 0xff;
    let (ans_a, ans_b) = a.enc();
    if ph == 0 {
        a.det.wrapping_add(regs.r13)
    } else if ph == 7 {
        if regs.r14 != ans_a || regs.r15 != ans_b { 1 } else { 0 }
    } else {
        regs.r13
    }
}

fn expected_r14(a: &Arg, regs: &Regs) -> u64 {
    let ph = regs.r12 & 0xff;
    if ph == 1 {
        regs.r14
            ^ (regs.r13.wrapping_add(a.hash_num) ^ (regs.r13 >> 30) ^ (regs.r15 << 24))
    } else if ph == 2 {
        regs.r15
    } else if ph == 3 {
        regs.r14 ^ a.xor_num_a
    } else {
        regs.r14
    }
}

#[test]
fn end_to_end_generated_programs_match_their_step_functions() {
    // With the fixed flag halves, the flag line is fixed; and each of
    // the four generated sequences, decompiled and evaluated, matches
    // direct evaluation and the protocol's documented step function,
    // over random register tuples including the live phase values.
    let mut rng = rand::thread_rng();
    let mut a = Arg::sample_with(&mut rng);
    a.flag_a = 0x1111_1111_1111_1111;
    a.flag_b = 0x2222_2222_2222_2222;
    assert_eq!(
        unwind_vm::flagfmt::flag_line(a.flag_a, a.flag_b),
        b"flag{11111111111111112222222222222222}".to_vec()
    );
    let p = a.generate_code(&mut rng);
    for trial in 0..60 {
        let mut regs = any_regs(&mut rng);
        if trial % 2 == 0 {
            // exercise the protocol's own phase band too
            regs.r12 = (regs.r12 & !0xffu64) | (trial / 2 % 9);
        }
        for (code, want) in [
            (&p.r12, expected_r12(&a, &regs)),
            (&p.r15, expected_r15(&a, &regs)),
            (&p.r13, expected_r13(&a, &regs)),
            (&p.r14, expected_r14(&a, &regs)),
        ] {
            let direct = run_to_value(code, &regs).expect("single result");
            assert_eq!(direct, want);
            assert_eq!(decompiled_value(code, &regs), want);
        }
    }
}

#[test]
fn rendered_text_of_a_small_program() {
    let code = vec![
        Instr::PushConst(5),
        Instr::PushConst(2),
        Instr::BinaryOp(BinOp::Minus),
    ];
    let (stmts, ret) = decompile(&code).unwrap();
    let text = unwind_vm::render::render_program(RegId::R14, &stmts, ret);
    assert_eq!(
        text,
"uint64_t cal_r14(uint64_t r12, uint64_t r13, uint64_t r14, uint64_t r15){\n    uint64_t rax=0,rbx=0;\n    uint64_t v0=5ull;\n    uint64_t v1=2ull;\n    uint64_t v2=v0-v1;\n    return v2;\n}\n\n"
    );
}

#[test]
fn rendered_text_covers_every_statement_kind() {
    let code = vec![
        Instr::ReadRegister(RegId::Rax),
        Instr::PushSignedConst(-9),
        Instr::Dup,
        Instr::UnaryOp(UnOp::Neg),
        Instr::UnaryOp(UnOp::Not),
        Instr::PlusConstant(3),
        Instr::BinaryOp(BinOp::CmpEq),
        Instr::BinaryOp(BinOp::Shra),
    ];
    let (stmts, ret) = decompile(&code).unwrap();
    let text = unwind_vm::render::render_program(RegId::R12, &stmts, ret);
    assert_eq!(
        text,
"uint64_t cal_r12(uint64_t r12, uint64_t r13, uint64_t r14, uint64_t r15){\n    uint64_t rax=0,rbx=0;\n    uint64_t v0=rax;\n    uint64_t v1=(uint64_t)-9ll;\n    uint64_t v2=v1;\n    v2=-v2;\n    v2=~v2;\n    v2+=3ull;\n    uint64_t v3= v1==v2?1:0;\n    uint64_t v4=(uint64_t)((int64_t)v0>>(int64_t)v3);\n    return v4;\n}\n\n"
    );
}
