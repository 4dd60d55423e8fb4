use vstd::prelude::*;
use crate::codec::ByteCode;
use crate::isa::{TokenType, kind_of_opcode};
use crate::jit::jit_bytes;
use crate::STACK_CAPACITY;

verus! {

/// How many interpreted completions of a procedure precede its promotion to
/// native code.
pub const INTERPRETED_EXECUTIONS: u64 = 1;

/// A failure of the execution engine.
#[derive(Clone, Copy, Debug, PartialEq, Eq, Structural)]
pub enum RuntimeError {
    StackOverflow,
    StackUnderflow,
    BadTarget,
    Overflow,
    InvalidUnicode,
    UnknownOpcode,
}

/// The typed float operations, whose arithmetic the host performs.
#[derive(Clone, Copy, Debug, PartialEq, Eq, Structural)]
pub enum FloatOp {
    Addf64,
    Subf64,
    Addf32,
    Subf32,
}

/// An activation record: the caller's stack depth and the index of the
/// `Call` instruction.
#[derive(Clone, Copy, Debug, PartialEq, Eq, Structural)]
pub struct Frame {
    pub saved_sp: usize,
    pub ret_pc: usize,
}

/// What the machine is suspended on, awaiting a result from its driver.
#[derive(Clone, Copy, Debug, PartialEq, Eq, Structural)]
pub enum Waiting {
    /// A float operation on the two popped words, top first.
    Float(FloatOp, u64, u64),
    /// A native call of the promoted procedure at this entry index.
    Native(usize),
}

/// The outcome of one step.
#[derive(Clone, Copy, Debug, PartialEq, Eq, Structural)]
pub enum Step {
    /// The instruction completed; execution goes on.
    Cont,
    /// The program counter stands past the last instruction: halted.
    Halted,
    /// Execution failed and stops here.
    Fault(RuntimeError),
    /// The driver must compute the float operation on the two words and hand
    /// the result's bits back.
    NeedFloat(FloatOp, u64, u64),
    /// The driver must run the promoted procedure at this entry and hand its
    /// return value back.
    NeedNative(usize),
}

/// The machine's mathematical state.
#[verifier::ext_equal]
pub struct State {
    pub pc: int,
    pub proc_pc: int,
    pub bin: Seq<ByteCode>,
    pub stack: Seq<u64>,
    pub frames: Seq<Frame>,
    pub counts: Map<u64, u64>,
    pub compiled: Map<u64, Seq<u8>>,
    pub output: Seq<u32>,
    pub waiting: Option<Waiting>,
}

/// The machine's invariant: the program counter stays within the program
/// (its length meaning halted), the stack within capacity, and every frame
/// names a caller depth within capacity and a call site within the program.
pub open spec fn wf(s: State) -> bool {
    &&& 0 <= s.pc <= s.bin.len()
    &&& s.bin.len() <= usize::MAX
    &&& 0 <= s.proc_pc <= usize::MAX
    &&& s.stack.len() <= STACK_CAPACITY
    &&& forall|i: int|
        0 <= i < s.frames.len() ==> (#[trigger] s.frames[i]).saved_sp <= STACK_CAPACITY
            && s.frames[i].ret_pc < s.bin.len()
    &&& match s.waiting {
        Some(Waiting::Float(_, _, _)) => s.pc < s.bin.len() && s.stack.len() + 2
            <= STACK_CAPACITY,
        Some(Waiting::Native(_)) => s.pc < s.bin.len(),
        None => true,
    }
}

/// An integer width of the typed arithmetic.
#[derive(Clone, Copy, Debug, PartialEq, Eq, Structural)]
pub enum Width {
    W8,
    W16,
    W32,
    W64,
}

/// The modulus of a width: two to its bit count.
pub open spec fn modulus(w: Width) -> int {
    match w {
        Width::W8 => 0x100,
        Width::W16 => 0x1_0000,
        Width::W32 => 0x1_0000_0000,
        Width::W64 => 0x1_0000_0000_0000_0000,
    }
}

/// The sum of two words, wrapped at the width.
pub open spec fn low_bits_add(w: Width, a: u64, b: u64) -> u64 {
    ((a + b) % modulus(w)) as u64
}

/// The difference `b - a`, wrapped at the width.
pub open spec fn low_bits_sub(w: Width, a: u64, b: u64) -> u64 {
    ((b - a) % modulus(w)) as u64
}

/// Re-extension of a result narrower than the word: zero for the unsigned
/// widths, sign for the signed ones.
pub open spec fn extend(w: Width, signed: bool, low: u64) -> u64 {
    if !signed || w == Width::W64 {
        low
    } else if low < modulus(w) / 2 {
        low
    } else {
        (low + 0x1_0000_0000_0000_0000 - modulus(w)) as u64
    }
}

/// The word a typed add or subtract pushes, from the popped words `a` (top)
/// and `b` (under it).
pub open spec fn arith_value(w: Width, signed: bool, subtract: bool, a: u64, b: u64) -> u64 {
    extend(
        w,
        signed,
        if subtract {
            low_bits_sub(w, a, b)
        } else {
            low_bits_add(w, a, b)
        },
    )
}

/// A valid Unicode scalar: below the surrogate range, or above it and at
/// most the last code point.
pub open spec fn valid_scalar(u: u32) -> bool {
    u < 0xD800 || (0xE000 <= u && u <= 0x10FFFF)
}

/// The stack as `Ret` restores it to the saved depth: cut down, or padded
/// with zero words where the callee consumed below the caller's depth.
pub open spec fn restore_stack(st: Seq<u64>, ssp: int) -> Seq<u64>
    recommends
        0 <= ssp,
{
    if ssp <= st.len() {
        st.take(ssp)
    } else {
        st + Seq::new((ssp - st.len()) as nat, |i: int| 0u64)
    }
}

pub open spec fn fault(s: State, e: RuntimeError) -> (State, Step) {
    (s, Step::Fault(e))
}

/// The state one instruction later, pc advanced.
pub open spec fn adv(s: State, st: Seq<u64>) -> State {
    State { pc: s.pc + 1, stack: st, ..s }
}

pub open spec fn spec_push(s: State, v: u64) -> (State, Step) {
    if s.stack.len() == STACK_CAPACITY {
        fault(s, RuntimeError::StackOverflow)
    } else {
        (adv(s, s.stack.push(v)), Step::Cont)
    }
}

pub open spec fn spec_pop(s: State) -> (State, Step) {
    if s.stack.len() == 0 {
        fault(s, RuntimeError::StackUnderflow)
    } else {
        (adv(s, s.stack.drop_last()), Step::Cont)
    }
}

pub open spec fn spec_arith(s: State, w: Width, signed: bool, subtract: bool) -> (State, Step) {
    if s.stack.len() < 2 {
        fault(s, RuntimeError::StackUnderflow)
    } else {
        let a = s.stack.last();
        let b = s.stack.drop_last().last();
        let v = arith_value(w, signed, subtract, a, b);
        (adv(s, s.stack.drop_last().drop_last().push(v)), Step::Cont)
    }
}

pub open spec fn spec_float(s: State, op: FloatOp) -> (State, Step) {
    if s.stack.len() < 2 {
        fault(s, RuntimeError::StackUnderflow)
    } else {
        let a = s.stack.last();
        let b = s.stack.drop_last().last();
        let s2 = State {
            stack: s.stack.drop_last().drop_last(),
            waiting: Some(Waiting::Float(op, a, b)),
            ..s
        };
        (s2, Step::NeedFloat(op, a, b))
    }
}

/// The bits a completed float operation pushes; the machine then goes on
/// past the instruction.
pub open spec fn resume_float(s: State, bits: u64) -> State {
    State { pc: s.pc + 1, stack: s.stack.push(bits), waiting: None, ..s }
}

pub open spec fn spec_prt(s: State) -> (State, Step) {
    if s.stack.len() == 0 {
        fault(s, RuntimeError::StackUnderflow)
    } else {
        let u = (s.stack.last() % 0x1_0000_0000) as u32;
        if valid_scalar(u) {
            (State { pc: s.pc + 1, output: s.output.push(u), ..s }, Step::Cont)
        } else {
            fault(s, RuntimeError::InvalidUnicode)
        }
    }
}

pub open spec fn spec_inc(s: State) -> (State, Step) {
    if s.stack.len() == 0 {
        fault(s, RuntimeError::StackUnderflow)
    } else if s.stack.last() == u64::MAX {
        fault(s, RuntimeError::Overflow)
    } else {
        let v = (s.stack.last() + 1) as u64;
        (adv(s, s.stack.drop_last().push(v)), Step::Cont)
    }
}

pub open spec fn spec_dup(s: State) -> (State, Step) {
    if s.stack.len() == 0 {
        fault(s, RuntimeError::StackUnderflow)
    } else if s.stack.len() == STACK_CAPACITY {
        fault(s, RuntimeError::StackOverflow)
    } else {
        (adv(s, s.stack.push(s.stack.last())), Step::Cont)
    }
}

pub open spec fn spec_swap(s: State, k: u64) -> (State, Step) {
    if s.stack.len() <= k {
        fault(s, RuntimeError::StackUnderflow)
    } else if k == 0 {
        (adv(s, s.stack), Step::Cont)
    } else {
        let t = s.stack.last();
        let pos = s.stack.len() - 1 - k;
        let held = s.stack[pos];
        (adv(s, s.stack.drop_last().update(pos, t).push(held)), Step::Cont)
    }
}

pub open spec fn spec_jmp(s: State, t: u64) -> (State, Step) {
    if t >= s.bin.len() {
        fault(s, RuntimeError::BadTarget)
    } else {
        (State { pc: t as int, ..s }, Step::Cont)
    }
}

pub open spec fn spec_call(s: State, t: u64) -> (State, Step) {
    if s.compiled.contains_key(t) {
        (State { waiting: Some(Waiting::Native(t as usize)), ..s }, Step::NeedNative(t as usize))
    } else if t >= s.bin.len() {
        fault(s, RuntimeError::BadTarget)
    } else {
        let c = if s.counts.contains_key(t) {
            s.counts[t]
        } else {
            0
        };
        let c2: u64 = if c < u64::MAX {
            (c + 1) as u64
        } else {
            c
        };
        let s2 = State {
            pc: t as int,
            proc_pc: t as int,
            frames: s.frames.push(Frame { saved_sp: s.stack.len() as usize, ret_pc: s.pc as usize }),
            counts: s.counts.insert(t, c2),
            ..s
        };
        (s2, Step::Cont)
    }
}

/// The value a completed native call pushes; the machine then goes on past
/// the `Call`. A full stack is the one failure.
pub open spec fn resume_native(s: State, ret: u64) -> (State, Step) {
    if s.stack.len() == STACK_CAPACITY {
        fault(State { waiting: None, ..s }, RuntimeError::StackOverflow)
    } else {
        (State { pc: s.pc + 1, stack: s.stack.push(ret), waiting: None, ..s }, Step::Cont)
    }
}

/// A native call that could not be made: the procedure's native code is
/// dropped and the `Call` will run interpreted.
pub open spec fn spec_native_failed(s: State, entry: usize) -> State {
    State { compiled: s.compiled.remove(entry as u64), waiting: None, ..s }
}

pub open spec fn spec_jmpp(s: State) -> (State, Step) {
    if s.stack.len() == 0 {
        fault(s, RuntimeError::StackUnderflow)
    } else {
        let t = s.stack.last();
        if t >= s.bin.len() {
            fault(s, RuntimeError::BadTarget)
        } else {
            (State { pc: t as int, stack: s.stack.drop_last(), ..s }, Step::Cont)
        }
    }
}

pub open spec fn spec_jeq(s: State, t: u64) -> (State, Step) {
    if s.stack.len() == 0 {
        fault(s, RuntimeError::StackUnderflow)
    } else {
        let v = s.stack.last();
        let popped = s.stack.drop_last();
        if v == 0 {
            if t >= s.bin.len() {
                fault(s, RuntimeError::BadTarget)
            } else {
                (State { pc: t as int, stack: popped, ..s }, Step::Cont)
            }
        } else {
            (adv(s, popped), Step::Cont)
        }
    }
}

pub open spec fn spec_jnz(s: State, t: u64) -> (State, Step) {
    if s.stack.len() == 0 {
        fault(s, RuntimeError::StackUnderflow)
    } else {
        let v = s.stack.last();
        let popped = s.stack.drop_last();
        if v != 0 {
            if t >= s.bin.len() {
                fault(s, RuntimeError::BadTarget)
            } else {
                (State { pc: t as int, stack: popped, ..s }, Step::Cont)
            }
        } else {
            (adv(s, popped), Step::Cont)
        }
    }
}

pub open spec fn spec_cmp(s: State) -> (State, Step) {
    if s.stack.len() < 2 {
        fault(s, RuntimeError::StackUnderflow)
    } else {
        let a = s.stack.last();
        let b = s.stack.drop_last().last();
        let d = ((b - a) % 0x1_0000_0000_0000_0000) as u64;
        (adv(s, s.stack.drop_last().drop_last().push(d)), Step::Cont)
    }
}

pub open spec fn spec_int(s: State) -> (State, Step) {
    if s.stack.len() == 0 {
        fault(s, RuntimeError::StackUnderflow)
    } else {
        let v = s.stack.last();
        let popped = s.stack.drop_last();
        if v == 0 {
            (State { pc: s.bin.len() as int, stack: popped, ..s }, Step::Cont)
        } else {
            (adv(s, popped), Step::Cont)
        }
    }
}

pub open spec fn spec_halt(s: State) -> (State, Step) {
    (State { pc: s.bin.len() as int, ..s }, Step::Cont)
}

/// The promotion check made by `Ret`: after a procedure's threshold-th
/// interpreted completion, its body — entry through this `Ret` — is compiled,
/// and on success installed. A body the compiler refuses stays interpreted.
pub open spec fn promote(s: State) -> Map<u64, Seq<u8>> {
    let entry = s.proc_pc;
    if s.counts.contains_key(entry as u64) && s.counts[entry as u64] == INTERPRETED_EXECUTIONS
        && entry <= s.pc && !s.compiled.contains_key(entry as u64) {
        match jit_bytes(s.bin.subrange(entry, s.pc + 1)) {
            Some(code) => s.compiled.insert(entry as u64, code),
            None => s.compiled,
        }
    } else {
        s.compiled
    }
}

pub open spec fn spec_ret(s: State) -> (State, Step) {
    let s1 = State { compiled: promote(s), ..s };
    if s1.stack.len() == 0 || s1.frames.len() == 0 {
        fault(s1, RuntimeError::StackUnderflow)
    } else {
        let r = s1.stack.last();
        let f = s1.frames.last();
        if f.saved_sp == STACK_CAPACITY {
            fault(s1, RuntimeError::StackOverflow)
        } else {
            let s2 = State {
                pc: f.ret_pc + 1,
                stack: restore_stack(s1.stack.drop_last(), f.saved_sp as int).push(r),
                frames: s1.frames.drop_last(),
                ..s1
            };
            (s2, Step::Cont)
        }
    }
}

/// One step of the machine: fetch at `pc`, dispatch on the opcode.
pub open spec fn step_spec(s: State) -> (State, Step)
    recommends
        wf(s),
        s.waiting is None,
{
    if s.pc >= s.bin.len() {
        (s, Step::Halted)
    } else {
        let r = s.bin[s.pc];
        let k = kind_of_opcode(r.opcode);
        match k {
            TokenType::Push => spec_push(s, r.value),
            TokenType::Pop => spec_pop(s),
            TokenType::Uadd8 => spec_arith(s, Width::W8, false, false),
            TokenType::Usub8 => spec_arith(s, Width::W8, false, true),
            TokenType::Uadd16 => spec_arith(s, Width::W16, false, false),
            TokenType::Usub16 => spec_arith(s, Width::W16, false, true),
            TokenType::Uadd32 => spec_arith(s, Width::W32, false, false),
            TokenType::Usub32 => spec_arith(s, Width::W32, false, true),
            TokenType::Uadd64 => spec_arith(s, Width::W64, false, false),
            TokenType::Usub64 => spec_arith(s, Width::W64, false, true),
            TokenType::Add8 => spec_arith(s, Width::W8, true, false),
            TokenType::Sub8 => spec_arith(s, Width::W8, true, true),
            TokenType::Add16 => spec_arith(s, Width::W16, true, false),
            TokenType::Sub16 => spec_arith(s, Width::W16, true, true),
            TokenType::Add32 => spec_arith(s, Width::W32, true, false),
            TokenType::Sub32 => spec_arith(s, Width::W32, true, true),
            TokenType::Add64 => spec_arith(s, Width::W64, true, false),
            TokenType::Sub64 => spec_arith(s, Width::W64, true, true),
            TokenType::Addf64 => spec_float(s, FloatOp::Addf64),
            TokenType::Subf64 => spec_float(s, FloatOp::Subf64),
            TokenType::Addf32 => spec_float(s, FloatOp::Addf32),
            TokenType::Subf32 => spec_float(s, FloatOp::Subf32),
            TokenType::Prt => spec_prt(s),
            TokenType::Inc => spec_inc(s),
            TokenType::Dup => spec_dup(s),
            TokenType::Jmp => spec_jmp(s, r.value),
            TokenType::Call => spec_call(s, r.value),
            TokenType::Jmpp => spec_jmpp(s),
            TokenType::Halt => spec_halt(s),
            TokenType::Ret => spec_ret(s),
            TokenType::Swap => spec_swap(s, r.value),
            TokenType::Jeq => spec_jeq(s, r.value),
            TokenType::Jnz => spec_jnz(s, r.value),
            TokenType::Cmp => spec_cmp(s),
            TokenType::Int => spec_int(s),
            _ => fault(s, RuntimeError::UnknownOpcode),
        }
    }
}

/// Law: one step keeps the machine well formed — the program counter within
/// the program, the stack within capacity, and every frame valid.
pub proof fn lemma_step_preserves_wf(s: State)
    requires
        wf(s),
        s.waiting is None,
    ensures
        wf(step_spec(s).0),
{
    if s.pc < s.bin.len() {
        let s2 = step_spec(s).0;
        assert(forall|i: int|
            0 <= i < s.frames.len() ==> (#[trigger] s.frames[i]).saved_sp <= STACK_CAPACITY
                && s.frames[i].ret_pc < s.bin.len());
        let k = kind_of_opcode(s.bin[s.pc].opcode);
        if k == TokenType::Ret {
            let s1 = State { compiled: promote(s), ..s };
            if s1.stack.len() > 0 && s1.frames.len() > 0 && s1.frames.last().saved_sp
                != STACK_CAPACITY {
                let f = s1.frames.last();
                assert(f == s.frames[s.frames.len() - 1]);
                assert(f.saved_sp <= STACK_CAPACITY && f.ret_pc < s.bin.len());
                assert(restore_stack(s1.stack.drop_last(), f.saved_sp as int).len()
                    == f.saved_sp);
                assert(forall|i: int|
                    0 <= i < s2.frames.len() ==> s2.frames[i] == #[trigger] s.frames[i]);
            }
        } else if k == TokenType::Call {
            let t = s.bin[s.pc].value;
            if !s.compiled.contains_key(t) && t < s.bin.len() {
                let fr = Frame { saved_sp: s.stack.len() as usize, ret_pc: s.pc as usize };
                assert(s2.frames == s.frames.push(fr));
                assert(forall|i: int|
                    0 <= i < s2.frames.len() ==> (#[trigger] s2.frames[i]).saved_sp
                        <= STACK_CAPACITY && s2.frames[i].ret_pc < s2.bin.len());
            }
        }
    }
}

/// Law: a `Call` of an unpromoted, in-range target builds exactly one
/// activation record — the caller's stack depth and the call site — leaves
/// the operand stack alone, and transfers control to the target.
pub proof fn lemma_call_pushes_frame(s: State)
    requires
        wf(s),
        s.waiting is None,
        s.pc < s.bin.len(),
        kind_of_opcode(s.bin[s.pc].opcode) == TokenType::Call,
        !s.compiled.contains_key(s.bin[s.pc].value),
        s.bin[s.pc].value < s.bin.len(),
    ensures
        step_spec(s).1 == Step::Cont,
        step_spec(s).0.frames == s.frames.push(
            Frame { saved_sp: s.stack.len() as usize, ret_pc: s.pc as usize },
        ),
        step_spec(s).0.stack == s.stack,
        step_spec(s).0.pc == s.bin[s.pc].value,
        step_spec(s).0.proc_pc == s.bin[s.pc].value,
{
}

/// Law: the `Ret` matching a `Call` restores the caller. With the callee's
/// return value `r` on top and the matching frame below, the machine comes
/// back with the stack cut to the caller's saved depth plus the single word
/// `r` on top, and control just past the `Call` that built the frame.
pub proof fn lemma_ret_restores_caller(s: State)
    requires
        wf(s),
        s.waiting is None,
        s.pc < s.bin.len(),
        kind_of_opcode(s.bin[s.pc].opcode) == TokenType::Ret,
        s.stack.len() > 0,
        s.frames.len() > 0,
        s.frames.last().saved_sp < STACK_CAPACITY,
    ensures
        step_spec(s).1 == Step::Cont,
        step_spec(s).0.stack.len() == s.frames.last().saved_sp + 1,
        step_spec(s).0.stack.last() == s.stack.last(),
        step_spec(s).0.pc == s.frames.last().ret_pc + 1,
        step_spec(s).0.frames == s.frames.drop_last(),
{
    let f = s.frames.last();
    assert(restore_stack(s.stack.drop_last(), f.saved_sp as int).len() == f.saved_sp);
}

/// Law: the call stack obeys a stack discipline — one step leaves the
/// frames alone, pushes exactly the frame of the `Call` it executes, or pops
/// exactly the frame its `Ret` consumes. A frame below the top is never
/// touched before every frame above it is popped.
pub proof fn lemma_frames_stack_discipline(s: State)
    requires
        wf(s),
        s.waiting is None,
    ensures
        step_spec(s).0.frames == s.frames || step_spec(s).0.frames == s.frames.push(
            Frame { saved_sp: s.stack.len() as usize, ret_pc: s.pc as usize },
        ) || (s.frames.len() > 0 && step_spec(s).0.frames == s.frames.drop_last()),
{
}

/// Law: typed arithmetic agrees with two's-complement arithmetic at every
/// width — the pushed word, reduced at the width, is the sum (or the
/// difference `b - a`) of the popped words `a` (top) and `b`, reduced at
/// the width. This holds for the unsigned and the signed widths alike.
pub proof fn lemma_typed_arith_wraps(w: Width, signed: bool, a: u64, b: u64)
    ensures
        arith_value(w, signed, false, a, b) as int % modulus(w) == (a + b) % modulus(w),
        arith_value(w, signed, true, a, b) as int % modulus(w) == (b - a) % modulus(w),
{
    let m = modulus(w);
    let la = low_bits_add(w, a, b);
    let ls = low_bits_sub(w, a, b);
    assert(0 <= (a + b) % m < m && 0 <= (b - a) % m < m) by {
        vstd::arithmetic::div_mod::lemma_mod_bound(a + b, m);
        vstd::arithmetic::div_mod::lemma_mod_bound(b - a, m);
    }
    vstd::arithmetic::div_mod::lemma_small_mod(la as nat, m as nat);
    vstd::arithmetic::div_mod::lemma_small_mod(ls as nat, m as nat);
    vstd::arithmetic::div_mod::lemma_mod_twice(a + b, m);
    vstd::arithmetic::div_mod::lemma_mod_twice(b - a, m);
    if signed && w != Width::W64 {
        let gap = 0x1_0000_0000_0000_0000 - m;
        let k = gap / m;
        assert(m * k == gap) by (nonlinear_arith)
            requires
                (m == 0x100 || m == 0x1_0000 || m == 0x1_0000_0000) && k == (
                0x1_0000_0000_0000_0000 - m) / m && gap == 0x1_0000_0000_0000_0000 - m,
        ;
        if la >= m / 2 {
            vstd::arithmetic::div_mod::lemma_mod_multiples_vanish(k, la as int, m);
        }
        if ls >= m / 2 {
            vstd::arithmetic::div_mod::lemma_mod_multiples_vanish(k, ls as int, m);
        }
    }
}

/// Up to `n` steps, stopping early at the first outcome that is not plain
/// continuation.
pub open spec fn run_spec(s: State, n: nat) -> (State, Step)
    decreases n,
{
    if n == 0 {
        (s, Step::Cont)
    } else {
        let t = step_spec(s);
        if t.1 == Step::Cont {
            run_spec(t.0, (n - 1) as nat)
        } else {
            t
        }
    }
}

} // verus!
