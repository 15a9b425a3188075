use unwind_vm::vm::{apply_bin, run_program, run_to_value, BinOp, Instr, RegId, Regs, UnOp};

fn regs(r12: u64, r13: u64, r14: u64, r15: u64) -> Regs {
    Regs { r12, r13, r14, r15, rax: 0, rbx: 0 }
}

#[test]
fn minus_uses_second_from_top_minus_top() {
    // [5, 2, MINUS] must evaluate to 3, not -3 (mod 2^64).
    let code = vec![
        Instr::PushConst(5),
        Instr::PushConst(2),
        Instr::BinaryOp(BinOp::Minus),
    ];
    assert_eq!(run_to_value(&code, &regs(0, 0, 0, 0)), Some(3));
}

#[test]
fn asymmetric_operand_order() {
    let r = regs(0, 0, 0, 0);
    let cases: Vec<(BinOp, u64, u64, u64)> = vec![
        (BinOp::Shl, 1, 8, 256),
        (BinOp::Shr, 256, 4, 16),
        (BinOp::Shra, 0x8000_0000_0000_0000, 63, u64::MAX),
        (BinOp::CmpLt, 2, 5, 1),
        (BinOp::CmpLt, 5, 2, 0),
        (BinOp::CmpLe, 5, 5, 1),
        (BinOp::CmpGt, 5, 2, 1),
        (BinOp::CmpGt, 2, 5, 0),
        (BinOp::CmpGe, 2, 5, 0),
        (BinOp::CmpEq, 7, 7, 1),
        (BinOp::CmpNe, 7, 7, 0),
        (BinOp::Minus, 2, 5, 3u64.wrapping_neg()),
    ];
    for (op, a, b, want) in cases {
        let code = vec![
            Instr::PushConst(a),
            Instr::PushConst(b),
            Instr::BinaryOp(op),
        ];
        assert_eq!(run_to_value(&code, &r), Some(want), "{:?}", op);
        assert_eq!(apply_bin(op, a, b), want, "{:?}", op);
    }
}

#[test]
fn stack_shuffles() {
    let r = regs(0, 0, 0, 0);
    // SWAP exchanges the top two values.
    let code = vec![
        Instr::PushConst(1),
        Instr::PushConst(2),
        Instr::Swap,
        Instr::BinaryOp(BinOp::Minus),
    ];
    assert_eq!(run_to_value(&code, &r), Some(1));
    // ROTATE3: [a, b, c] becomes [c, a, b].
    let code = vec![
        Instr::PushConst(10),
        Instr::PushConst(20),
        Instr::PushConst(30),
        Instr::Rotate3,
        Instr::Drop,
        Instr::Drop,
    ];
    assert_eq!(run_to_value(&code, &r), Some(30));
    // PICK copies from the given depth; DUP is pick at depth 0.
    let code = vec![
        Instr::PushConst(10),
        Instr::PushConst(20),
        Instr::PushConst(30),
        Instr::Pick(2),
        Instr::BinaryOp(BinOp::Minus),
        Instr::BinaryOp(BinOp::Minus),
        Instr::BinaryOp(BinOp::Minus),
    ];
    // [10,20,30,10] -> [10,20,20] -> [10,0] -> [10]
    assert_eq!(run_to_value(&code, &r), Some(10));
    let code = vec![Instr::PushConst(9), Instr::Dup, Instr::BinaryOp(BinOp::Minus)];
    assert_eq!(run_to_value(&code, &r), Some(0));
}

#[test]
fn unary_and_plus_constant() {
    let r = regs(0, 0, 0, 0);
    let code = vec![Instr::PushConst(1), Instr::UnaryOp(UnOp::Neg)];
    assert_eq!(run_to_value(&code, &r), Some(u64::MAX));
    let code = vec![Instr::PushConst(0), Instr::UnaryOp(UnOp::Not)];
    assert_eq!(run_to_value(&code, &r), Some(u64::MAX));
    let code = vec![Instr::PushConst(u64::MAX), Instr::PlusConstant(2)];
    assert_eq!(run_to_value(&code, &r), Some(1));
    let code = vec![Instr::PushSignedConst(-1)];
    assert_eq!(run_to_value(&code, &r), Some(u64::MAX));
}

#[test]
fn register_reads() {
    let r = Regs { r12: 1, r13: 2, r14: 3, r15: 4, rax: 5, rbx: 6 };
    for (reg, want) in [
        (RegId::R12, 1),
        (RegId::R13, 2),
        (RegId::R14, 3),
        (RegId::R15, 4),
        (RegId::Rax, 5),
        (RegId::Rbx, 6),
    ] {
        let code = vec![Instr::ReadRegister(reg)];
        assert_eq!(run_to_value(&code, &r), Some(want));
    }
}

#[test]
fn underflow_and_unbalance_are_detected() {
    let r = regs(0, 0, 0, 0);
    assert_eq!(run_program(&vec![Instr::BinaryOp(BinOp::Minus)], &r), None);
    assert_eq!(run_program(&vec![Instr::PushConst(1), Instr::Swap], &r), None);
    assert_eq!(run_program(&vec![Instr::Drop], &r), None);
    assert_eq!(run_program(&vec![Instr::PushConst(1), Instr::Pick(1)], &r), None);
    // two values left is no single result
    assert_eq!(
        run_to_value(&vec![Instr::PushConst(1), Instr::PushConst(2)], &r),
        None
    );
}

#[test]
fn shift_of_64_or_more_drains() {
    let r = regs(0, 0, 0, 0);
    let code = vec![Instr::PushConst(7), Instr::PushConst(64), Instr::BinaryOp(BinOp::Shl)];
    assert_eq!(run_to_value(&code, &r), Some(0));
    let code = vec![
        Instr::PushConst(0x8000_0000_0000_0000),
        Instr::PushConst(100),
        Instr::BinaryOp(BinOp::Shra),
    ];
    assert_eq!(run_to_value(&code, &r), Some(u64::MAX));
}
