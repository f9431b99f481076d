use crate::context::{EvmState, ExecutionContext};
use crate::memory::{word_at, written, MemoryError};
use crate::stack::{swapped, StackError, MAX_DEPTH};
use crate::word::{
    lemma_be_bytes_len,
    and_value, be_bytes, be_value, not_value, or_value, padded, pow_value, read_padded,
    u256_and, u256_eq, u256_is_zero, u256_low_byte, u256_lt, u256_not, u256_or, u256_xor,
    word_modulus, xor_value, Word,
};
use vstd::prelude::*;

verus! {

#[derive(Clone, Copy, Debug, PartialEq, Eq, Structural)]
pub enum InstructionError {
    InvalidOpcode,
    StackError(StackError),
    MemoryError(MemoryError),
    InvalidJump,
    /// A word taken from the stack as an offset or length does not fit in `usize`.
    OffsetTooLarge,
}

/// Whether the execution goes on after a step.
#[derive(Clone, Copy, Debug, PartialEq, Eq, Structural)]
pub enum StepOutcome {
    Running,
    Halted,
}

pub const STOP: u8 = 0x00;
pub const ADD: u8 = 0x01;
pub const MUL: u8 = 0x02;
pub const SUB: u8 = 0x03;
pub const DIV: u8 = 0x04;
pub const MOD: u8 = 0x06;
pub const EXP: u8 = 0x0a;
pub const LT: u8 = 0x10;
pub const GT: u8 = 0x11;
pub const EQ: u8 = 0x14;
pub const ISZERO: u8 = 0x15;
pub const AND: u8 = 0x16;
pub const OR: u8 = 0x17;
pub const XOR: u8 = 0x18;
pub const NOT: u8 = 0x19;
pub const ADDRESS: u8 = 0x30;
pub const CALLER: u8 = 0x33;
pub const CALLVALUE: u8 = 0x34;
pub const CALLDATALOAD: u8 = 0x35;
pub const CALLDATASIZE: u8 = 0x36;
pub const CALLDATACOPY: u8 = 0x37;
pub const CODESIZE: u8 = 0x38;
pub const CODECOPY: u8 = 0x39;
pub const POP: u8 = 0x50;
pub const MLOAD: u8 = 0x51;
pub const MSTORE: u8 = 0x52;
pub const MSTORE8: u8 = 0x53;
pub const JUMP: u8 = 0x56;
pub const JUMPI: u8 = 0x57;
pub const PC: u8 = 0x58;
pub const MSIZE: u8 = 0x59;
pub const JUMPDEST: u8 = 0x5b;
pub const PUSH1: u8 = 0x60;
pub const PUSH32: u8 = 0x7f;
pub const DUP1: u8 = 0x80;
pub const DUP16: u8 = 0x8f;
pub const SWAP1: u8 = 0x90;
pub const SWAP16: u8 = 0x9f;
pub const RETURN: u8 = 0xf3;

// ---------------------------------------------------------------------------
// The meaning of each opcode, on the abstract state.
// ---------------------------------------------------------------------------

/// The word `i` places below the top of `st`.
pub open spec fn top(st: Seq<nat>, i: int) -> nat {
    st[st.len() - 1 - i]
}

/// `st` without its top `k` words.
pub open spec fn popped(st: Seq<nat>, k: int) -> Seq<nat> {
    st.subrange(0, st.len() - k)
}

pub open spec fn is_binary(op: u8) -> bool {
    op == ADD || op == MUL || op == SUB || op == DIV || op == MOD || op == EXP || op == LT || op
        == GT || op == EQ || op == AND || op == OR || op == XOR
}

/// The result of a two-operand opcode; `a` is the top of the stack and `b` the word below.
pub open spec fn binary_result(op: u8, a: nat, b: nat) -> nat {
    if op == ADD {
        (a + b) % word_modulus()
    } else if op == MUL {
        (a * b) % word_modulus()
    } else if op == SUB {
        ((a - b) % (word_modulus() as int)) as nat
    } else if op == DIV {
        if b == 0 {
            0
        } else {
            a / b
        }
    } else if op == MOD {
        if b == 0 {
            0
        } else {
            a % b
        }
    } else if op == EXP {
        pow_value(a, b)
    } else if op == LT {
        if a < b {
            1
        } else {
            0
        }
    } else if op == GT {
        if a > b {
            1
        } else {
            0
        }
    } else if op == EQ {
        if a == b {
            1
        } else {
            0
        }
    } else if op == AND {
        and_value(a, b)
    } else if op == OR {
        or_value(a, b)
    } else {
        xor_value(a, b)
    }
}

/// The word that an opcode without operands pushes.
pub open spec fn env_value(op: u8, s: EvmState) -> nat {
    if op == MSIZE {
        s.memory.len()
    } else if op == PC {
        s.pc
    } else if op == ADDRESS {
        be_value(s.address)
    } else if op == CALLDATASIZE {
        s.calldata.len()
    } else if op == CODESIZE {
        s.code.len()
    } else {
        // CALLER and CALLVALUE: no environment is attached, so both are zero.
        0
    }
}

pub open spec fn is_env(op: u8) -> bool {
    op == MSIZE || op == PC || op == ADDRESS || op == CALLDATASIZE || op == CODESIZE || op
        == CALLER || op == CALLVALUE
}

pub open spec fn underflow() -> InstructionError {
    InstructionError::StackError(StackError::StackUnderflow)
}

pub open spec fn overflow() -> InstructionError {
    InstructionError::StackError(StackError::StackOverflow)
}

/// `s` with the stack replaced and the program counter moved past a one-byte opcode.
pub open spec fn advance(s: EvmState, stack: Seq<nat>) -> EvmState {
    EvmState { stack, pc: s.pc + 1, ..s }
}

/// Pushes `v` and moves on, or fails where the stack is full.
pub open spec fn push_result(s: EvmState, v: nat) -> Result<EvmState, InstructionError> {
    if s.stack.len() >= MAX_DEPTH {
        Err(overflow())
    } else {
        Ok(advance(s, s.stack.push(v)))
    }
}

/// Jumps to `dest`, which must be inside the code and hold JUMPDEST.
pub open spec fn jump_result(s: EvmState, stack: Seq<nat>, dest: nat) -> Result<
    EvmState,
    InstructionError,
> {
    if dest < s.code.len() && s.code[dest as int] == JUMPDEST {
        Ok(EvmState { stack, pc: dest, ..s })
    } else {
        Err(InstructionError::InvalidJump)
    }
}

/// CALLDATACOPY and CODECOPY: `(mem_offset, src_offset, length →)`, copying from `src`.
pub open spec fn copy_result(s: EvmState, src: Seq<u8>) -> Result<EvmState, InstructionError> {
    let st = s.stack;
    if st.len() < 3 {
        Err(underflow())
    } else if top(st, 0) > usize::MAX || top(st, 1) > usize::MAX || top(st, 2) > usize::MAX {
        Err(InstructionError::OffsetTooLarge)
    } else if top(st, 0) + top(st, 2) > usize::MAX {
        Err(InstructionError::MemoryError(MemoryError::MemoryOverflow))
    } else {
        Ok(
            EvmState {
                stack: popped(st, 3),
                memory: written(s.memory, top(st, 0), padded(src, top(st, 1), top(st, 2))),
                pc: s.pc + 1,
                ..s
            },
        )
    }
}

/// What executing `op` does to `s`: the next state, or the error it fails with.
pub open spec fn exec_spec(op: u8, s: EvmState) -> Result<EvmState, InstructionError> {
    let st = s.stack;
    if op == STOP {
        Ok(EvmState { halted: true, pc: s.pc + 1, ..s })
    } else if is_binary(op) {
        if st.len() < 2 {
            Err(underflow())
        } else {
            Ok(advance(s, popped(st, 2).push(binary_result(op, top(st, 0), top(st, 1)))))
        }
    } else if op == ISZERO || op == NOT {
        if st.len() < 1 {
            Err(underflow())
        } else {
            let r = if op == ISZERO {
                if top(st, 0) == 0 {
                    1
                } else {
                    0
                }
            } else {
                not_value(top(st, 0))
            };
            Ok(advance(s, popped(st, 1).push(r)))
        }
    } else if op == POP {
        if st.len() < 1 {
            Err(underflow())
        } else {
            Ok(advance(s, popped(st, 1)))
        }
    } else if DUP1 <= op <= DUP16 {
        let n = op - DUP1 + 1;
        if st.len() < n {
            Err(InstructionError::StackError(StackError::StackOutOfRange))
        } else {
            push_result(s, top(st, n - 1))
        }
    } else if SWAP1 <= op <= SWAP16 {
        let n = op - SWAP1 + 1;
        if st.len() < n + 1 {
            Err(underflow())
        } else {
            Ok(advance(s, swapped(st, n as nat)))
        }
    } else if op == MLOAD || op == CALLDATALOAD {
        if st.len() < 1 {
            Err(underflow())
        } else if top(st, 0) > usize::MAX {
            Err(InstructionError::OffsetTooLarge)
        } else {
            let v = if op == MLOAD {
                word_at(s.memory, top(st, 0))
            } else {
                be_value(padded(s.calldata, top(st, 0), 32))
            };
            Ok(advance(s, popped(st, 1).push(v)))
        }
    } else if op == MSTORE || op == MSTORE8 {
        let bytes = if op == MSTORE {
            be_bytes(top(st, 1), 32)
        } else {
            seq![(top(st, 1) % 256) as u8]
        };
        if st.len() < 2 {
            Err(underflow())
        } else if top(st, 0) > usize::MAX {
            Err(InstructionError::OffsetTooLarge)
        } else if top(st, 0) + bytes.len() > usize::MAX {
            Err(InstructionError::MemoryError(MemoryError::MemoryOverflow))
        } else {
            Ok(
                EvmState {
                    stack: popped(st, 2),
                    memory: written(s.memory, top(st, 0), bytes),
                    pc: s.pc + 1,
                    ..s
                },
            )
        }
    } else if is_env(op) {
        push_result(s, env_value(op, s))
    } else if op == JUMP {
        if st.len() < 1 {
            Err(underflow())
        } else {
            jump_result(s, popped(st, 1), top(st, 0))
        }
    } else if op == JUMPI {
        if st.len() < 2 {
            Err(underflow())
        } else if top(st, 1) != 0 {
            jump_result(s, popped(st, 2), top(st, 0))
        } else {
            Ok(advance(s, popped(st, 2)))
        }
    } else if op == JUMPDEST {
        Ok(advance(s, st))
    } else if PUSH1 <= op <= PUSH32 {
        let n = (op - PUSH1 + 1) as nat;
        if st.len() >= MAX_DEPTH {
            Err(overflow())
        } else {
            Ok(
                EvmState {
                    stack: st.push(be_value(padded(s.code, s.pc + 1, n))),
                    pc: s.pc + 1 + n,
                    ..s
                },
            )
        }
    } else if op == CALLDATACOPY {
        copy_result(s, s.calldata)
    } else if op == CODECOPY {
        copy_result(s, s.code)
    } else if op == RETURN {
        if st.len() < 2 {
            Err(underflow())
        } else if top(st, 0) > usize::MAX || top(st, 1) > usize::MAX {
            Err(InstructionError::OffsetTooLarge)
        } else {
            Ok(
                EvmState {
                    stack: popped(st, 2),
                    halted: true,
                    return_data: padded(s.memory, top(st, 0), top(st, 1)),
                    pc: s.pc + 1,
                    ..s
                },
            )
        }
    } else {
        Err(InstructionError::InvalidOpcode)
    }
}

/// A handler's outcome: on success the state `exec_spec` gives; on failure its error, with
/// the code, call data and address untouched and the stack still within bounds.
pub open spec fn handled(
    op: u8,
    pre: EvmState,
    post: EvmState,
    r: Result<(), InstructionError>,
) -> bool {
    match exec_spec(op, pre) {
        Ok(s) => r is Ok && post == s,
        Err(e) => r == Err::<(), InstructionError>(e) && post.code == pre.code && post.calldata
            == pre.calldata && post.address == pre.address && post.stack.len() <= MAX_DEPTH,
    }
}

/// After a failure: halted where it failed, with no return data.
pub open spec fn failed(pre: EvmState, post: EvmState) -> bool {
    &&& post.halted
    &&& post.pc == pre.pc
    &&& post.return_data.len() == 0
    &&& post.code == pre.code
    &&& post.calldata == pre.calldata
    &&& post.address == pre.address
}

// ---------------------------------------------------------------------------
// Handlers.
// ---------------------------------------------------------------------------

/// Pops the top word; the caller has made sure there is one.
fn pop_word(ctx: &mut ExecutionContext) -> (r: Word)
    requires
        old(ctx).wf(),
        old(ctx)@.stack.len() > 0,
    ensures
        r.value() == top(old(ctx)@.stack, 0),
        final(ctx)@ == (EvmState { stack: popped(old(ctx)@.stack, 1), ..old(ctx)@ }),
{
    let r = ctx.stack_mut().pop();
    assert(popped(old(ctx)@.stack, 1) =~= old(ctx)@.stack.drop_last());
    r.unwrap()
}

/// Pushes `w`; the caller has made sure there is room.
fn push_word(ctx: &mut ExecutionContext, w: Word)
    requires
        old(ctx).wf(),
        old(ctx)@.stack.len() < MAX_DEPTH,
    ensures
        final(ctx)@ == (EvmState { stack: old(ctx)@.stack.push(w.value()), ..old(ctx)@ }),
{
    let _ = ctx.stack_mut().push(w);
}

/// Moves the program counter on by `k`.
fn advance_pc(ctx: &mut ExecutionContext, k: usize)
    requires
        old(ctx)@.pc + k <= usize::MAX,
    ensures
        final(ctx)@ == (EvmState { pc: old(ctx)@.pc + k as nat, ..old(ctx)@ }),
{
    let pc = ctx.pc();
    ctx.set_pc(pc + k);
}

fn stack_error(e: StackError) -> (r: InstructionError)
    ensures
        r == InstructionError::StackError(e),
{
    InstructionError::StackError(e)
}

/// The result of a two-operand opcode on `a` (the top) and `b`.
fn binary_word(op: u8, a: Word, b: Word) -> (r: Word)
    requires
        is_binary(op),
    ensures
        r.value() == binary_result(op, a.value(), b.value()),
{
    if op == ADD {
        a.wrapping_add(b)
    } else if op == MUL {
        a.wrapping_mul(b)
    } else if op == SUB {
        a.wrapping_sub(b)
    } else if op == DIV {
        a.div_or_zero(b)
    } else if op == MOD {
        a.rem_or_zero(b)
    } else if op == EXP {
        a.wrapping_pow(b)
    } else if op == LT {
        Word::from_bool(u256_lt(a, b))
    } else if op == GT {
        Word::from_bool(u256_lt(b, a))
    } else if op == EQ {
        Word::from_bool(u256_eq(a, b))
    } else if op == AND {
        u256_and(a, b)
    } else if op == OR {
        u256_or(a, b)
    } else {
        u256_xor(a, b)
    }
}

fn op_binary(op: u8, ctx: &mut ExecutionContext) -> (r: Result<(), InstructionError>)
    requires
        old(ctx).wf(),
        old(ctx)@.pc < old(ctx)@.code.len(),
        is_binary(op),
    ensures
        handled(op, old(ctx)@, final(ctx)@, r),
{
    if ctx.stack().depth() < 2 {
        return Err(stack_error(StackError::StackUnderflow));
    }
    let a = pop_word(ctx);
    let b = pop_word(ctx);
    let r = binary_word(op, a, b);
    push_word(ctx, r);
    advance_pc(ctx, 1);
    assert(popped(old(ctx)@.stack, 2) =~= popped(popped(old(ctx)@.stack, 1), 1));
    Ok(())
}


fn op_unary(op: u8, ctx: &mut ExecutionContext) -> (r: Result<(), InstructionError>)
    requires
        old(ctx).wf(),
        old(ctx)@.pc < old(ctx)@.code.len(),
        op == ISZERO || op == NOT,
    ensures
        handled(op, old(ctx)@, final(ctx)@, r),
{
    if ctx.stack().depth() < 1 {
        return Err(stack_error(StackError::StackUnderflow));
    }
    let a = pop_word(ctx);
    let r = if op == ISZERO {
        Word::from_bool(u256_is_zero(a))
    } else {
        u256_not(a)
    };
    push_word(ctx, r);
    advance_pc(ctx, 1);
    Ok(())
}

fn op_pop(ctx: &mut ExecutionContext) -> (r: Result<(), InstructionError>)
    requires
        old(ctx).wf(),
        old(ctx)@.pc < old(ctx)@.code.len(),
    ensures
        handled(POP, old(ctx)@, final(ctx)@, r),
{
    if ctx.stack().depth() < 1 {
        return Err(stack_error(StackError::StackUnderflow));
    }
    let _ = pop_word(ctx);
    advance_pc(ctx, 1);
    Ok(())
}

/// DUPn: pushes a copy of the `n`-th word from the top.
fn op_dup(op: u8, ctx: &mut ExecutionContext) -> (r: Result<(), InstructionError>)
    requires
        old(ctx).wf(),
        old(ctx)@.pc < old(ctx)@.code.len(),
        DUP1 <= op <= DUP16,
    ensures
        handled(op, old(ctx)@, final(ctx)@, r),
{
    let n = (op - DUP1 + 1) as usize;
    let value = match ctx.stack().peek(n - 1) {
        Ok(w) => w,
        Err(e) => return Err(stack_error(e)),
    };
    if ctx.stack().depth() >= MAX_DEPTH {
        return Err(stack_error(StackError::StackOverflow));
    }
    push_word(ctx, value);
    advance_pc(ctx, 1);
    Ok(())
}

/// SWAPn: exchanges the top with the word `n` places below it.
fn op_swap(op: u8, ctx: &mut ExecutionContext) -> (r: Result<(), InstructionError>)
    requires
        old(ctx).wf(),
        old(ctx)@.pc < old(ctx)@.code.len(),
        SWAP1 <= op <= SWAP16,
    ensures
        handled(op, old(ctx)@, final(ctx)@, r),
{
    let n = (op - SWAP1 + 1) as usize;
    match ctx.stack_mut().swap(n) {
        Ok(()) => {},
        Err(e) => return Err(stack_error(e)),
    }
    advance_pc(ctx, 1);
    Ok(())
}

/// MLOAD and CALLDATALOAD: `(offset → word)`.
fn op_load(op: u8, ctx: &mut ExecutionContext) -> (r: Result<(), InstructionError>)
    requires
        old(ctx).wf(),
        old(ctx)@.pc < old(ctx)@.code.len(),
        op == MLOAD || op == CALLDATALOAD,
    ensures
        handled(op, old(ctx)@, final(ctx)@, r),
{
    if ctx.stack().depth() < 1 {
        return Err(stack_error(StackError::StackUnderflow));
    }
    let offset = match pop_word(ctx).to_usize() {
        Some(o) => o,
        None => return Err(InstructionError::OffsetTooLarge),
    };
    let value = if op == MLOAD {
        match ctx.memory().load(offset) {
            Ok(w) => w,
            Err(e) => return Err(InstructionError::MemoryError(e)),
        }
    } else {
        ctx.calldata().load(offset)
    };
    push_word(ctx, value);
    advance_pc(ctx, 1);
    Ok(())
}

/// MSTORE and MSTORE8: `(offset, value →)`.
fn op_store(op: u8, ctx: &mut ExecutionContext) -> (r: Result<(), InstructionError>)
    requires
        old(ctx).wf(),
        old(ctx)@.pc < old(ctx)@.code.len(),
        op == MSTORE || op == MSTORE8,
    ensures
        handled(op, old(ctx)@, final(ctx)@, r),
{
    if ctx.stack().depth() < 2 {
        return Err(stack_error(StackError::StackUnderflow));
    }
    let offset_word = pop_word(ctx);
    let value = pop_word(ctx);
    proof {
        lemma_be_bytes_len(value.value(), 32);
    }
    let offset = match offset_word.to_usize() {
        Some(o) => o,
        None => return Err(InstructionError::OffsetTooLarge),
    };
    let stored = if op == MSTORE {
        ctx.memory_mut().store(offset, value)
    } else {
        ctx.memory_mut().store_byte(offset, u256_low_byte(value))
    };
    match stored {
        Ok(()) => {},
        Err(e) => return Err(InstructionError::MemoryError(e)),
    }
    advance_pc(ctx, 1);
    assert(popped(old(ctx)@.stack, 2) =~= popped(popped(old(ctx)@.stack, 1), 1));
    Ok(())
}

/// The opcodes that push one word and take none: MSIZE, PC, ADDRESS, CALLDATASIZE,
/// CODESIZE, CALLER and CALLVALUE.
fn op_env(op: u8, ctx: &mut ExecutionContext) -> (r: Result<(), InstructionError>)
    requires
        old(ctx).wf(),
        old(ctx)@.pc < old(ctx)@.code.len(),
        is_env(op),
    ensures
        handled(op, old(ctx)@, final(ctx)@, r),
{
    if ctx.stack().depth() >= MAX_DEPTH {
        return Err(stack_error(StackError::StackOverflow));
    }
    let value = if op == MSIZE {
        Word::from_usize(ctx.memory().size())
    } else if op == PC {
        Word::from_usize(ctx.pc())
    } else if op == ADDRESS {
        Word::from_be_bytes(ctx.contract_address())
    } else if op == CALLDATASIZE {
        Word::from_usize(ctx.calldata().size())
    } else if op == CODESIZE {
        Word::from_usize(ctx.code().len())
    } else {
        Word::zero()
    };
    push_word(ctx, value);
    advance_pc(ctx, 1);
    Ok(())
}

/// Whether `dest` is inside the code and holds JUMPDEST.
fn valid_jump(ctx: &ExecutionContext, dest: Word) -> (r: Option<usize>)
    requires
        ctx.wf(),
    ensures
        dest.value() < ctx@.code.len() && ctx@.code[dest.value() as int] == JUMPDEST ==> r
            == Some(dest.value() as usize),
        !(dest.value() < ctx@.code.len() && ctx@.code[dest.value() as int] == JUMPDEST) ==> r
            is None,
{
    match dest.to_usize() {
        Some(d) => {
            if d < ctx.code().len() && ctx.code()[d] == JUMPDEST {
                Some(d)
            } else {
                None
            }
        },
        None => None,
    }
}

/// JUMP `(dest →)` and JUMPI `(dest, cond →)`.
fn op_jump(op: u8, ctx: &mut ExecutionContext) -> (r: Result<(), InstructionError>)
    requires
        old(ctx).wf(),
        old(ctx)@.pc < old(ctx)@.code.len(),
        op == JUMP || op == JUMPI,
    ensures
        handled(op, old(ctx)@, final(ctx)@, r),
{
    let needed: usize = if op == JUMP {
        1
    } else {
        2
    };
    if ctx.stack().depth() < needed {
        return Err(stack_error(StackError::StackUnderflow));
    }
    let dest = pop_word(ctx);
    if op == JUMPI {
        let cond = pop_word(ctx);
        assert(popped(old(ctx)@.stack, 2) =~= popped(popped(old(ctx)@.stack, 1), 1));
        if u256_is_zero(cond) {
            advance_pc(ctx, 1);
            return Ok(());
        }
    }
    match valid_jump(ctx, dest) {
        Some(d) => {
            ctx.set_pc(d);
            Ok(())
        },
        None => Err(InstructionError::InvalidJump),
    }
}

/// PUSHn: pushes the next `n` code bytes (zero past the end) as a big-endian word and
/// moves past them.
fn op_push(op: u8, ctx: &mut ExecutionContext) -> (r: Result<(), InstructionError>)
    requires
        old(ctx).wf(),
        old(ctx)@.pc < old(ctx)@.code.len(),
        PUSH1 <= op <= PUSH32,
    ensures
        handled(op, old(ctx)@, final(ctx)@, r),
{
    if ctx.stack().depth() >= MAX_DEPTH {
        return Err(stack_error(StackError::StackOverflow));
    }
    let n = (op - PUSH1 + 1) as usize;
    let bytes = read_padded(ctx.code().as_slice(), ctx.pc() + 1, n);
    let value = Word::from_be_bytes(bytes.as_slice());
    push_word(ctx, value);
    advance_pc(ctx, 1 + n);
    Ok(())
}

/// CALLDATACOPY and CODECOPY: `(mem_offset, src_offset, length →)`.
fn op_copy(op: u8, ctx: &mut ExecutionContext) -> (r: Result<(), InstructionError>)
    requires
        old(ctx).wf(),
        old(ctx)@.pc < old(ctx)@.code.len(),
        op == CALLDATACOPY || op == CODECOPY,
    ensures
        handled(op, old(ctx)@, final(ctx)@, r),
{
    if ctx.stack().depth() < 3 {
        return Err(stack_error(StackError::StackUnderflow));
    }
    let mem_word = pop_word(ctx);
    let src_word = pop_word(ctx);
    let len_word = pop_word(ctx);
    assert(popped(old(ctx)@.stack, 3) =~= popped(popped(popped(old(ctx)@.stack, 1), 1), 1));
    let (mem_offset, src_offset, length) = match (
        mem_word.to_usize(),
        src_word.to_usize(),
        len_word.to_usize(),
    ) {
        (Some(m), Some(o), Some(l)) => (m, o, l),
        _ => return Err(InstructionError::OffsetTooLarge),
    };
    if mem_offset > usize::MAX - length {
        return Err(InstructionError::MemoryError(MemoryError::MemoryOverflow));
    }
    if op == CALLDATACOPY {
        let (calldata, memory) = ctx.calldata_and_memory_mut();
        let _ = calldata.copy_to_memory(src_offset, mem_offset, length, memory);
    } else {
        let bytes = read_padded(ctx.code().as_slice(), src_offset, length);
        let _ = ctx.memory_mut().store_bytes(mem_offset, bytes.as_slice());
    }
    advance_pc(ctx, 1);
    Ok(())
}

/// RETURN `(offset, length →)`: halts with that range of memory as the return data.
fn op_return(ctx: &mut ExecutionContext) -> (r: Result<(), InstructionError>)
    requires
        old(ctx).wf(),
        old(ctx)@.pc < old(ctx)@.code.len(),
    ensures
        handled(RETURN, old(ctx)@, final(ctx)@, r),
{
    if ctx.stack().depth() < 2 {
        return Err(stack_error(StackError::StackUnderflow));
    }
    let offset_word = pop_word(ctx);
    let length_word = pop_word(ctx);
    assert(popped(old(ctx)@.stack, 2) =~= popped(popped(old(ctx)@.stack, 1), 1));
    let (offset, length) = match (offset_word.to_usize(), length_word.to_usize()) {
        (Some(o), Some(l)) => (o, l),
        _ => return Err(InstructionError::OffsetTooLarge),
    };
    ctx.set_return_data(offset, length);
    advance_pc(ctx, 1);
    Ok(())
}

/// Runs the handler of `op` on `ctx`. On failure the context is left halted, at the
/// program counter where it failed, with no return data.
pub fn execute_opcode(opcode: u8, ctx: &mut ExecutionContext) -> (r: Result<(), InstructionError>)
    requires
        old(ctx).wf(),
        old(ctx)@.pc < old(ctx)@.code.len(),
    ensures
        final(ctx).wf(),
        match exec_spec(opcode, old(ctx)@) {
            Ok(s) => r is Ok && final(ctx)@ == s,
            Err(e) => r == Err::<(), InstructionError>(e) && failed(old(ctx)@, final(ctx)@),
        },
{
    let op = opcode;
    let pc = ctx.pc();
    let r = if op == STOP {
        ctx.stop();
        advance_pc(ctx, 1);
        Ok(())
    } else if op == ADD || op == MUL || op == SUB || op == DIV || op == MOD || op == EXP || op
        == LT || op == GT || op == EQ || op == AND || op == OR || op == XOR {
        op_binary(op, ctx)
    } else if op == ISZERO || op == NOT {
        op_unary(op, ctx)
    } else if op == POP {
        op_pop(ctx)
    } else if DUP1 <= op && op <= DUP16 {
        op_dup(op, ctx)
    } else if SWAP1 <= op && op <= SWAP16 {
        op_swap(op, ctx)
    } else if op == MLOAD || op == CALLDATALOAD {
        op_load(op, ctx)
    } else if op == MSTORE || op == MSTORE8 {
        op_store(op, ctx)
    } else if op == MSIZE || op == PC || op == ADDRESS || op == CALLDATASIZE || op == CODESIZE
        || op == CALLER || op == CALLVALUE {
        op_env(op, ctx)
    } else if op == JUMP || op == JUMPI {
        op_jump(op, ctx)
    } else if op == JUMPDEST {
        advance_pc(ctx, 1);
        Ok(())
    } else if PUSH1 <= op && op <= PUSH32 {
        op_push(op, ctx)
    } else if op == CALLDATACOPY || op == CODECOPY {
        op_copy(op, ctx)
    } else if op == RETURN {
        op_return(ctx)
    } else {
        Err(InstructionError::InvalidOpcode)
    };
    match r {
        Ok(()) => Ok(()),
        Err(e) => {
            ctx.stop();
            ctx.set_pc(pc);
            ctx.clear_return_data();
            Err(e)
        },
    }
}


/// The opcode at the program counter; past the end of the code it is STOP.
pub open spec fn opcode_at(s: EvmState) -> u8 {
    if s.pc < s.code.len() {
        s.code[s.pc as int]
    } else {
        STOP
    }
}

/// One step: nothing once halted, else the opcode at the program counter.
pub open spec fn step_spec(s: EvmState) -> Result<EvmState, InstructionError> {
    if s.halted {
        Ok(s)
    } else {
        exec_spec(opcode_at(s), s)
    }
}

pub open spec fn outcome(s: EvmState) -> StepOutcome {
    if s.halted {
        StepOutcome::Halted
    } else {
        StepOutcome::Running
    }
}

/// Up to `fuel` steps, ending early at a halt or a failure; a failure gives its error and
/// the program counter where it happened.
pub open spec fn run_spec(s: EvmState, fuel: nat) -> Result<EvmState, (InstructionError, nat)>
    decreases fuel,
{
    if s.halted || fuel == 0 {
        Ok(s)
    } else {
        match exec_spec(opcode_at(s), s) {
            Ok(t) => run_spec(t, (fuel - 1) as nat),
            Err(e) => Err((e, s.pc)),
        }
    }
}

impl ExecutionContext {
    /// Executes the opcode at the program counter (STOP past the end of the code); a halted
    /// context stays as it is.
    pub fn step(&mut self) -> (r: Result<StepOutcome, InstructionError>)
        requires
            old(self).wf(),
        ensures
            final(self).wf(),
            match step_spec(old(self)@) {
                Ok(s) => r == Ok::<StepOutcome, InstructionError>(outcome(s)) && final(self)@ == s,
                Err(e) => r == Err::<StepOutcome, InstructionError>(e) && failed(
                    old(self)@,
                    final(self)@,
                ),
            },
    {
        if self.stopped() {
            return Ok(StepOutcome::Halted);
        }
        if self.pc() >= self.code().len() {
            self.stop();
            advance_pc(self, 1);
            return Ok(StepOutcome::Halted);
        }
        let op = self.code()[self.pc()];
        match execute_opcode(op, self) {
            Ok(()) => Ok(
                if self.stopped() {
                    StepOutcome::Halted
                } else {
                    StepOutcome::Running
                },
            ),
            Err(e) => Err(e),
        }
    }

    /// Steps until the execution halts or fails, or `max_steps` steps have run.
    pub fn run_to_halt(&mut self, max_steps: usize) -> (r: Result<StepOutcome, InstructionError>)
        requires
            old(self).wf(),
        ensures
            final(self).wf(),
            match run_spec(old(self)@, max_steps as nat) {
                Ok(s) => r == Ok::<StepOutcome, InstructionError>(outcome(s)) && final(self)@ == s,
                Err((e, pc)) => r == Err::<StepOutcome, InstructionError>(e) && final(self)@.halted
                    && final(self)@.pc == pc && final(self)@.return_data.len() == 0,
            },
    {
        let mut i: usize = 0;
        while i < max_steps && !self.stopped()
            invariant
                self.wf(),
                i <= max_steps,
                run_spec(old(self)@, max_steps as nat) == run_spec(self@, (max_steps - i) as nat),
            decreases max_steps - i,
        {
            match self.step() {
                Ok(_) => {},
                Err(e) => return Err(e),
            }
            i = i + 1;
        }
        Ok(
            if self.stopped() {
                StepOutcome::Halted
            } else {
                StepOutcome::Running
            },
        )
    }
}

/// The state a fresh execution starts in.
pub open spec fn initial_state(address: Seq<u8>, code: Seq<u8>, calldata: Seq<u8>) -> EvmState {
    EvmState {
        code,
        stack: Seq::empty(),
        memory: Seq::empty(),
        calldata,
        address,
        pc: 0,
        halted: false,
        return_data: Seq::empty(),
    }
}

/// A step from a well-formed state leads to a well-formed state: in particular the stack
/// never holds more than `MAX_DEPTH` words.
pub proof fn lemma_step_wf(s: EvmState)
    requires
        s.wf(),
    ensures
        step_spec(s) is Ok ==> step_spec(s)->Ok_0.wf(),
{
}

/// Every state a run passes through, from a well-formed start, is well-formed; so the
/// stack depth stays at or below `MAX_DEPTH` throughout.
pub proof fn lemma_run_wf(s: EvmState, fuel: nat)
    requires
        s.wf(),
    ensures
        run_spec(s, fuel) is Ok ==> run_spec(s, fuel)->Ok_0.wf(),
        run_spec(s, fuel) is Ok ==> run_spec(s, fuel)->Ok_0.stack.len() <= MAX_DEPTH,
    decreases fuel,
{
    if !s.halted && fuel > 0 {
        lemma_step_wf(s);
        if let Ok(t) = exec_spec(opcode_at(s), s) {
            lemma_run_wf(t, (fuel - 1) as nat);
        }
    }
}

/// Any opcode that pushes without popping fails with a stack overflow on a full stack.
pub proof fn lemma_push_on_full_stack(op: u8, s: EvmState)
    requires
        s.stack.len() == MAX_DEPTH,
        is_env(op) || PUSH1 <= op <= PUSH32 || (DUP1 <= op <= DUP16),
    ensures
        exec_spec(op, s) == Err::<EvmState, InstructionError>(overflow()),
{
}

/// A step never shrinks memory.
pub proof fn lemma_memory_monotonic(op: u8, s: EvmState)
    ensures
        exec_spec(op, s) is Ok ==> exec_spec(op, s)->Ok_0.memory.len() >= s.memory.len(),
{
    lemma_be_bytes_len(top(s.stack, 1), 32);
}

/// DIV and MOD by zero give zero and raise no error.
pub proof fn lemma_division_by_zero(op: u8, s: EvmState)
    requires
        op == DIV || op == MOD,
        s.stack.len() >= 2,
        top(s.stack, 1) == 0,
    ensures
        exec_spec(op, s) is Ok,
        exec_spec(op, s)->Ok_0.stack == popped(s.stack, 2).push(0),
{
}

/// PUSHn with all `n` immediate bytes inside the code pushes their big-endian value and
/// moves the program counter past them.
pub proof fn lemma_push_round_trip(op: u8, s: EvmState)
    requires
        PUSH1 <= op <= PUSH32,
        s.stack.len() == 0,
        s.pc + 1 + (op - PUSH1 + 1) <= s.code.len(),
    ensures
        exec_spec(op, s) is Ok,
        exec_spec(op, s)->Ok_0.stack == seq![
            be_value(s.code.subrange(s.pc + 1int, s.pc + 1 + (op - PUSH1 + 1))),
        ],
        exec_spec(op, s)->Ok_0.pc == s.pc + 1 + (op - PUSH1 + 1),
{
    let n = (op - PUSH1 + 1) as nat;
    assert(padded(s.code, s.pc + 1, n) =~= s.code.subrange(s.pc + 1int, s.pc + 1 + n as int));
    assert(Seq::<nat>::empty().push(be_value(padded(s.code, s.pc + 1, n))) =~= seq![
        be_value(s.code.subrange(s.pc + 1int, s.pc + 1 + n as int)),
    ]);
}

/// JUMP (and a taken JUMPI) to a byte that is not JUMPDEST, or to the end of the code or
/// beyond, fails with InvalidJump.
pub proof fn lemma_invalid_jump(op: u8, s: EvmState)
    requires
        op == JUMP || op == JUMPI,
        op == JUMP ==> s.stack.len() >= 1,
        op == JUMPI ==> s.stack.len() >= 2 && top(s.stack, 1) != 0,
        top(s.stack, 0) >= s.code.len() || s.code[top(s.stack, 0) as int] != JUMPDEST,
    ensures
        exec_spec(op, s) == Err::<EvmState, InstructionError>(InstructionError::InvalidJump),
{
}

/// DUPn keeps the `n`-th word from the top where it was, copies it onto the top, and
/// grows the stack by one.
pub proof fn lemma_dup(op: u8, s: EvmState)
    requires
        DUP1 <= op <= DUP16,
        op - DUP1 + 1 <= s.stack.len() < MAX_DEPTH,
    ensures
        exec_spec(op, s) is Ok,
        exec_spec(op, s)->Ok_0.stack.len() == s.stack.len() + 1,
        exec_spec(op, s)->Ok_0.stack.subrange(0, s.stack.len() as int) == s.stack,
        top(exec_spec(op, s)->Ok_0.stack, 0) == top(s.stack, op - DUP1),
{
    let t = exec_spec(op, s)->Ok_0;
    assert(t.stack.subrange(0, s.stack.len() as int) =~= s.stack);
}

/// SWAPn keeps the depth, exchanges the top with the word `n` places below it, and leaves
/// every other word in place.
pub proof fn lemma_swap(op: u8, s: EvmState)
    requires
        SWAP1 <= op <= SWAP16,
        op - SWAP1 + 1 < s.stack.len(),
    ensures
        exec_spec(op, s) is Ok,
        exec_spec(op, s)->Ok_0.stack.len() == s.stack.len(),
        top(exec_spec(op, s)->Ok_0.stack, 0) == top(s.stack, op - SWAP1 + 1),
        top(exec_spec(op, s)->Ok_0.stack, op - SWAP1 + 1) == top(s.stack, 0),
        forall|i: int|
            0 <= i < s.stack.len() && i != 0 && i != op - SWAP1 + 1 ==> top(
                exec_spec(op, s)->Ok_0.stack,
                i,
            ) == top(s.stack, i),
{
}

/// Two runs from the same address, code and call data, with the same step budget, end the
/// same way: the same outcome, the same halted status and the same return data.
pub proof fn lemma_run_deterministic(
    address1: Seq<u8>,
    code1: Seq<u8>,
    calldata1: Seq<u8>,
    address2: Seq<u8>,
    code2: Seq<u8>,
    calldata2: Seq<u8>,
    fuel: nat,
)
    requires
        address1 == address2,
        code1 == code2,
        calldata1 == calldata2,
    ensures
        run_spec(initial_state(address1, code1, calldata1), fuel) == run_spec(
            initial_state(address2, code2, calldata2),
            fuel,
        ),
{
}

} // verus!
