use rand::Rng;
use unwind_vm::flagfmt::flag_line;
use unwind_vm::params::Arg;
use unwind_vm::rewrite::{and_cover, expand, or_cover};
use unwind_vm::vm::{run_program, Instr, Regs};

fn any_regs(rng: &mut rand::rngs::ThreadRng) -> Regs {
    Regs {
        r12: rng.gen(),
        r13: rng.gen(),
        r14: rng.gen(),
        r15: rng.gen(),
        rax: rng.gen(),
        rbx: rng.gen(),
    }
}

#[test]
fn expansion_pushes_exactly_the_target() {
    // Semantic preservation: run on a machine whose stack holds one
    // sentinel, the expansion pushes exactly the target — net growth
    // one, no underflow — at every depth in 0..=12.
    let mut rng = rand::thread_rng();
    for depth in 0..=12u64 {
        for _ in 0..6 {
            let target: u64 = rng.gen();
            let sentinel: u64 = rng.gen();
            let mut code = vec![Instr::PushConst(sentinel)];
            expand(&mut code, &mut rng, target, depth);
            let st = run_program(&code, &any_regs(&mut rng)).expect("no underflow");
            assert_eq!(st.len(), 2);
            assert_eq!(st[0], sentinel);
            assert_eq!(st[1], target);
        }
    }
}

#[test]
fn expansion_of_edge_targets() {
    let mut rng = rand::thread_rng();
    for target in [0u64, 1, u64::MAX, 0x8000_0000_0000_0000] {
        let mut code = vec![Instr::PushConst(7)];
        expand(&mut code, &mut rng, target, 9);
        let st = run_program(&code, &any_regs(&mut rng)).unwrap();
        assert_eq!(st, vec![7, target]);
    }
}

#[test]
fn covers_reconstruct_the_target_exactly() {
    // Decomposition exactness for the OR and AND rules, 1000 samples each.
    let mut rng = rand::thread_rng();
    for _ in 0..1000 {
        let target: u64 = rng.gen();
        let (n1, n2) = or_cover(&mut rng, target);
        assert_eq!(n1 | n2, target);
        let (m1, m2) = and_cover(&mut rng, target);
        assert_eq!(m1 & m2, target);
        // the AND rule's parts come from covers of the complement
        assert_eq!(!(!m1 | !m2), target);
    }
}

#[test]
fn round_function_is_deterministic() {
    let mut rng = rand::thread_rng();
    for _ in 0..50 {
        let a = Arg::sample_with(&mut rng);
        assert_eq!(a.enc(), a.enc());
    }
}

#[test]
fn round_function_matches_reference() {
    let mut rng = rand::thread_rng();
    for _ in 0..50 {
        let a = Arg::sample_with(&mut rng);
        assert!(16 <= a.round && a.round <= 32);
        // independent straight-line reference of the mixing loop
        let mut det: u64 = 0;
        let mut r14 = a.flag_a ^ a.xor_num_a;
        let mut r15 = a.flag_b ^ a.xor_num_b;
        while det != a.round.wrapping_mul(a.det) {
            det = det.wrapping_add(a.det);
            r14 ^= det.wrapping_add(a.hash_num) ^ (det >> 30) ^ (r15 << 24);
            std::mem::swap(&mut r14, &mut r15);
        }
        r14 ^= a.xor_num_a;
        r15 ^= a.xor_num_b;
        assert_eq!(a.enc(), (r14, r15));
    }
}

#[test]
fn zero_increment_returns_the_flag_halves() {
    let mut rng = rand::thread_rng();
    let mut a = Arg::sample_with(&mut rng);
    a.det = 0;
    assert_eq!(a.enc(), (a.flag_a, a.flag_b));
}

#[test]
fn flag_line_format() {
    let line = flag_line(0x1111_1111_1111_1111, 0x2222_2222_2222_2222);
    assert_eq!(
        line,
        b"flag{11111111111111112222222222222222}".to_vec()
    );
    let line = flag_line(0, u64::MAX);
    assert_eq!(line, b"flag{0000000000000000ffffffffffffffff}".to_vec());
    let line = flag_line(0x0123_4567_89ab_cdef, 0xfedc_ba98_7654_3210);
    assert_eq!(line, b"flag{0123456789abcdeffedcba9876543210}".to_vec());
}
