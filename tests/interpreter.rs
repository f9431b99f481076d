use evm_core::context::ExecutionContext;
use evm_core::opcodes::{execute_opcode, InstructionError, StepOutcome};
use evm_core::stack::StackError;
use evm_core::memory::MemoryError;
use evm_core::word::Word;

fn context(code: Vec<u8>, calldata: Vec<u8>) -> ExecutionContext {
    ExecutionContext::new([0u8; 20], code, calldata)
}

fn run(code: Vec<u8>) -> (ExecutionContext, Result<StepOutcome, InstructionError>) {
    let mut ctx = context(code, Vec::new());
    let r = ctx.run_to_halt(10_000);
    (ctx, r)
}

fn word32(last: u8) -> Vec<u8> {
    let mut v = vec![0u8; 32];
    v[31] = last;
    v
}

fn top(ctx: &ExecutionContext) -> Word {
    match ctx.stack().peek(0) {
        Ok(w) => w,
        Err(_) => panic!("empty stack"),
    }
}

/// Runs `prefix`, then stores the top word at memory 0 and returns those 32 bytes.
fn result_of(prefix: &[u8]) -> Vec<u8> {
    let mut code = prefix.to_vec();
    code.extend_from_slice(&[0x60, 0x00, 0x52, 0x60, 0x20, 0x60, 0x00, 0xf3]);
    let (ctx, r) = run(code);
    assert_eq!(r, Ok(StepOutcome::Halted));
    ctx.return_data().clone()
}

#[test]
fn add_three_and_five_returns_eight() {
    let code = vec![0x60, 0x05, 0x60, 0x03, 0x01, 0x60, 0x00, 0x52, 0x60, 0x20, 0x60, 0x00, 0xf3];
    let (ctx, r) = run(code);
    assert_eq!(r, Ok(StepOutcome::Halted));
    assert!(ctx.stopped());
    assert_eq!(ctx.return_data(), &word32(8));
}

#[test]
fn division_by_zero_returns_zero() {
    let code = vec![0x60, 0x00, 0x60, 0x0a, 0x04, 0x60, 0x00, 0x52, 0x60, 0x20, 0x60, 0x00, 0xf3];
    let (ctx, r) = run(code);
    assert_eq!(r, Ok(StepOutcome::Halted));
    assert_eq!(ctx.return_data(), &vec![0u8; 32]);
}

#[test]
fn jump_over_data() {
    let code = vec![
        0x60, 0x04, 0x56, 0x00, 0x5b, 0x60, 0x42, 0x60, 0x00, 0x52, 0x60, 0x20, 0x60, 0x00, 0xf3,
    ];
    let (ctx, r) = run(code);
    assert_eq!(r, Ok(StepOutcome::Halted));
    assert_eq!(ctx.return_data(), &word32(0x42));
}

#[test]
fn invalid_jump_halts_at_the_jump() {
    let (ctx, r) = run(vec![0x60, 0x03, 0x56, 0x00, 0x00]);
    assert_eq!(r, Err(InstructionError::InvalidJump));
    assert_eq!(ctx.pc(), 2);
    assert!(ctx.stopped());
    assert!(ctx.return_data().is_empty());
}

#[test]
fn pop_on_empty_stack_underflows() {
    let (ctx, r) = run(vec![0x50]);
    assert_eq!(r, Err(InstructionError::StackError(StackError::StackUnderflow)));
    assert_eq!(ctx.pc(), 0);
    assert!(ctx.stopped());
    assert!(ctx.return_data().is_empty());
}

#[test]
fn push32_at_end_of_code_pads_with_zeros() {
    let code = vec![0x7f, 0x11, 0x22, 0x33, 0x44, 0x55];
    let mut ctx = context(code, Vec::new());
    assert_eq!(ctx.step(), Ok(StepOutcome::Running));
    assert_eq!(ctx.pc(), 33);
    let mut expected = vec![0x11, 0x22, 0x33, 0x44, 0x55];
    expected.extend_from_slice(&[0u8; 27]);
    assert_eq!(top(&ctx), Word::from_be_bytes(&expected));
    assert_eq!(top(&ctx).to_be_bytes(), expected);
    assert_eq!(ctx.step(), Ok(StepOutcome::Halted));
    assert!(ctx.stopped());
    assert_eq!(ctx.step(), Ok(StepOutcome::Halted));
}

#[test]
fn push_n_round_trip() {
    let mut ctx = context(vec![0x62, 0x01, 0x02, 0x03], Vec::new());
    assert_eq!(ctx.step(), Ok(StepOutcome::Running));
    assert_eq!(top(&ctx), Word::from_u64(0x010203));
    assert_eq!(ctx.pc(), 4);
    assert_eq!(ctx.stack().depth(), 1);
}

#[test]
fn sub_takes_the_top_minus_the_next() {
    // push 3, push 10: 10 - 3
    assert_eq!(result_of(&[0x60, 0x03, 0x60, 0x0a, 0x03]), word32(7));
    // push 10, push 3: 3 - 10 wraps
    let mut expected = vec![0xffu8; 32];
    expected[31] = 0xf9;
    assert_eq!(result_of(&[0x60, 0x0a, 0x60, 0x03, 0x03]), expected);
}

#[test]
fn exp_takes_base_from_the_top() {
    // push 3 (exponent), push 2 (base): 2^3
    assert_eq!(result_of(&[0x60, 0x03, 0x60, 0x02, 0x0a]), word32(8));
}

#[test]
fn comparisons_are_unsigned() {
    // push 2, push 1: 1 < 2
    assert_eq!(result_of(&[0x60, 0x02, 0x60, 0x01, 0x10]), word32(1));
    assert_eq!(result_of(&[0x60, 0x02, 0x60, 0x01, 0x11]), word32(0));
    assert_eq!(result_of(&[0x60, 0x02, 0x60, 0x02, 0x14]), word32(1));
    assert_eq!(result_of(&[0x60, 0x00, 0x15]), word32(1));
    assert_eq!(result_of(&[0x60, 0x05, 0x15]), word32(0));
}

#[test]
fn bitwise_opcodes() {
    assert_eq!(result_of(&[0x60, 0x0c, 0x60, 0x0a, 0x16]), word32(0x08));
    assert_eq!(result_of(&[0x60, 0x0c, 0x60, 0x0a, 0x17]), word32(0x0e));
    assert_eq!(result_of(&[0x60, 0x0c, 0x60, 0x0a, 0x18]), word32(0x06));
    let mut expected = vec![0xffu8; 32];
    expected[31] = 0xfe;
    assert_eq!(result_of(&[0x60, 0x01, 0x19]), expected);
}

#[test]
fn mul_and_mod_opcodes() {
    assert_eq!(result_of(&[0x60, 0x06, 0x60, 0x07, 0x02]), word32(42));
    // push 3, push 10: 10 mod 3
    assert_eq!(result_of(&[0x60, 0x03, 0x60, 0x0a, 0x06]), word32(1));
    assert_eq!(result_of(&[0x60, 0x00, 0x60, 0x0a, 0x06]), word32(0));
}

#[test]
fn dup_and_swap() {
    let mut ctx = context(vec![0x60, 0x01, 0x60, 0x02, 0x60, 0x03, 0x91, 0x82], Vec::new());
    for _ in 0..4 {
        assert_eq!(ctx.step(), Ok(StepOutcome::Running));
    }
    // after SWAP2: 3 2 1 -> top 1, then 2, then 3
    assert_eq!(ctx.stack().depth(), 3);
    assert_eq!(ctx.stack().peek(0), Ok(Word::from_u64(1)));
    assert_eq!(ctx.stack().peek(1), Ok(Word::from_u64(2)));
    assert_eq!(ctx.stack().peek(2), Ok(Word::from_u64(3)));
    assert_eq!(ctx.step(), Ok(StepOutcome::Running));
    // DUP3 copies the third from the top
    assert_eq!(ctx.stack().depth(), 4);
    assert_eq!(ctx.stack().peek(0), Ok(Word::from_u64(3)));
    assert_eq!(ctx.stack().peek(3), Ok(Word::from_u64(3)));
}

#[test]
fn dup_beyond_depth_is_out_of_range() {
    let (ctx, r) = run(vec![0x60, 0x01, 0x81]);
    assert_eq!(r, Err(InstructionError::StackError(StackError::StackOutOfRange)));
    assert_eq!(ctx.pc(), 2);
}

#[test]
fn swap_beyond_depth_underflows() {
    let (_, r) = run(vec![0x60, 0x01, 0x90]);
    assert_eq!(r, Err(InstructionError::StackError(StackError::StackUnderflow)));
}

#[test]
fn the_1025th_push_overflows() {
    let mut code = Vec::new();
    for _ in 0..1025 {
        code.extend_from_slice(&[0x60, 0x01]);
    }
    let (ctx, r) = run(code);
    assert_eq!(r, Err(InstructionError::StackError(StackError::StackOverflow)));
    assert_eq!(ctx.pc(), 2048);
    assert_eq!(ctx.stack().depth(), 1024);
}

#[test]
fn unknown_opcode_is_invalid() {
    let (ctx, r) = run(vec![0x60, 0x01, 0xfe]);
    assert_eq!(r, Err(InstructionError::InvalidOpcode));
    assert_eq!(ctx.pc(), 2);
}

#[test]
fn huge_offset_is_too_large() {
    let mut code = vec![0x7f];
    code.extend_from_slice(&[0xffu8; 32]);
    code.push(0x51);
    let (_, r) = run(code);
    assert_eq!(r, Err(InstructionError::OffsetTooLarge));
}

#[test]
fn store_past_the_address_space_overflows_memory() {
    // PUSH1 1, PUSH8 ffff_ffff_ffff_fffe, MSTORE
    let code = vec![0x60, 0x01, 0x67, 0xff, 0xff, 0xff, 0xff, 0xff, 0xff, 0xff, 0xfe, 0x52];
    let (ctx, r) = run(code);
    assert_eq!(r, Err(InstructionError::MemoryError(MemoryError::MemoryOverflow)));
    assert_eq!(ctx.pc(), 11);
}

#[test]
fn jump_to_the_end_of_code_fails() {
    let (_, r) = run(vec![0x60, 0x03, 0x56]);
    assert_eq!(r, Err(InstructionError::InvalidJump));
    let (_, r) = run(vec![0x60, 0x09, 0x56]);
    assert_eq!(r, Err(InstructionError::InvalidJump));
}

#[test]
fn jumpi_falls_through_on_zero() {
    // PUSH1 0, PUSH1 0x20 (not a JUMPDEST), JUMPI, STOP
    let mut ctx = context(vec![0x60, 0x00, 0x60, 0x20, 0x57, 0x00], Vec::new());
    assert_eq!(ctx.run_to_halt(3), Ok(StepOutcome::Running));
    assert_eq!(ctx.pc(), 5);
    assert_eq!(ctx.stack().depth(), 0);
    // PUSH1 1, PUSH1 7, JUMPI, STOP, STOP, JUMPDEST
    let mut ctx = context(vec![0x60, 0x01, 0x60, 0x07, 0x57, 0x00, 0x00, 0x5b], Vec::new());
    assert_eq!(ctx.run_to_halt(3), Ok(StepOutcome::Running));
    assert_eq!(ctx.pc(), 7);
}

#[test]
fn mstore8_keeps_the_low_byte() {
    // PUSH2 0x1234, PUSH1 0, MSTORE8, MSIZE
    let mut ctx = context(vec![0x61, 0x12, 0x34, 0x60, 0x00, 0x53, 0x59], Vec::new());
    assert_eq!(ctx.run_to_halt(4), Ok(StepOutcome::Running));
    assert_eq!(ctx.memory().load_range(0, 2), vec![0x34, 0x00]);
    assert_eq!(ctx.memory().size(), 1);
    assert_eq!(top(&ctx), Word::from_u64(1));
}

#[test]
fn mload_reads_back_a_stored_word() {
    // PUSH1 0x2a, PUSH1 4, MSTORE, PUSH1 4, MLOAD, PUSH1 5, MLOAD
    let code = vec![0x60, 0x2a, 0x60, 0x04, 0x52, 0x60, 0x04, 0x51, 0x60, 0x05, 0x51];
    let mut ctx = context(code, Vec::new());
    assert_eq!(ctx.run_to_halt(5), Ok(StepOutcome::Running));
    assert_eq!(top(&ctx), Word::from_u64(0x2a));
    assert_eq!(ctx.memory().size(), 36);
    assert_eq!(ctx.run_to_halt(2), Ok(StepOutcome::Running));
    // 32 bytes from 5 reach past msize: zero, and memory does not grow
    assert_eq!(top(&ctx), Word::zero());
    assert_eq!(ctx.memory().size(), 36);
}

#[test]
fn address_is_left_padded() {
    let mut address = [0u8; 20];
    for (i, b) in address.iter_mut().enumerate() {
        *b = i as u8 + 1;
    }
    let code = vec![0x30, 0x60, 0x00, 0x52, 0x60, 0x20, 0x60, 0x00, 0xf3];
    let mut ctx = ExecutionContext::new(address, code, Vec::new());
    assert_eq!(ctx.run_to_halt(100), Ok(StepOutcome::Halted));
    let mut expected = vec![0u8; 12];
    expected.extend_from_slice(&address);
    assert_eq!(ctx.return_data(), &expected);
    assert_eq!(ctx.contract_address(), &address);
}

#[test]
fn environment_opcodes() {
    // CODESIZE, CALLDATASIZE, PC, CALLER, CALLVALUE
    let code = vec![0x38, 0x36, 0x58, 0x33, 0x34];
    let mut ctx = context(code, vec![1, 2, 3]);
    assert_eq!(ctx.run_to_halt(5), Ok(StepOutcome::Running));
    assert_eq!(ctx.stack().peek(4), Ok(Word::from_u64(5)));
    assert_eq!(ctx.stack().peek(3), Ok(Word::from_u64(3)));
    assert_eq!(ctx.stack().peek(2), Ok(Word::from_u64(2)));
    assert_eq!(ctx.stack().peek(1), Ok(Word::zero()));
    assert_eq!(ctx.stack().peek(0), Ok(Word::zero()));
}

#[test]
fn calldataload_zero_fills() {
    // PUSH1 1, CALLDATALOAD
    let mut ctx = context(vec![0x60, 0x01, 0x35], vec![0xaa, 0xbb, 0xcc]);
    assert_eq!(ctx.run_to_halt(2), Ok(StepOutcome::Running));
    let mut expected = vec![0xbb, 0xcc];
    expected.extend_from_slice(&[0u8; 30]);
    assert_eq!(top(&ctx).to_be_bytes(), expected);
}

#[test]
fn calldatacopy_and_codecopy() {
    // CALLDATACOPY(mem 2, data 1, len 4); CODECOPY(mem 8, code 0, len 2)
    let code = vec![
        0x60, 0x04, 0x60, 0x01, 0x60, 0x02, 0x37, 0x60, 0x02, 0x60, 0x00, 0x60, 0x08, 0x39,
    ];
    let mut ctx = context(code, vec![0xaa, 0xbb, 0xcc]);
    assert_eq!(ctx.run_to_halt(8), Ok(StepOutcome::Running));
    assert_eq!(ctx.memory().size(), 10);
    assert_eq!(
        ctx.memory().load_range(0, 12),
        vec![0, 0, 0xbb, 0xcc, 0, 0, 0, 0, 0x60, 0x04, 0, 0]
    );
}

#[test]
fn return_past_msize_is_zero_filled() {
    // PUSH1 0xff, PUSH1 0, MSTORE8, PUSH1 4, PUSH1 0, RETURN
    let code = vec![0x60, 0xff, 0x60, 0x00, 0x53, 0x60, 0x04, 0x60, 0x00, 0xf3];
    let (ctx, r) = run(code);
    assert_eq!(r, Ok(StepOutcome::Halted));
    assert_eq!(ctx.return_data(), &vec![0xff, 0, 0, 0]);
}

#[test]
fn stop_halts_with_no_return_data() {
    let (ctx, r) = run(vec![0x60, 0x01, 0x00, 0x60, 0x02]);
    assert_eq!(r, Ok(StepOutcome::Halted));
    assert_eq!(ctx.pc(), 3);
    assert_eq!(ctx.stack().depth(), 1);
    assert!(ctx.return_data().is_empty());
}

#[test]
fn execute_opcode_runs_one_handler() {
    let mut ctx = context(vec![0x5b, 0x5b], Vec::new());
    assert_eq!(execute_opcode(0x58, &mut ctx), Ok(()));
    assert_eq!(top(&ctx), Word::zero());
    assert_eq!(ctx.pc(), 1);
    assert_eq!(execute_opcode(0x5b, &mut ctx), Ok(()));
    assert_eq!(ctx.pc(), 2);
    assert!(!ctx.stopped());
}

#[test]
fn identical_runs_agree() {
    let code = vec![0x60, 0x05, 0x60, 0x03, 0x01, 0x60, 0x00, 0x52, 0x60, 0x20, 0x60, 0x00, 0xf3];
    let mut a = ExecutionContext::new([7u8; 20], code.clone(), vec![1, 2]);
    let mut b = ExecutionContext::new([7u8; 20], code, vec![1, 2]);
    assert_eq!(a.run_to_halt(50), b.run_to_halt(50));
    assert_eq!(a.return_data(), b.return_data());
    assert_eq!(a.stopped(), b.stopped());
}
