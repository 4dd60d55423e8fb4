use vstd::prelude::*;
use std::collections::HashMap;
use crate::codec::ByteCode;
use crate::isa::TokenType;
use crate::jit::jit_compile;
use crate::machine::{
    State, Step, Waiting, Frame, FloatOp, RuntimeError, Width, wf, step_spec, run_spec,
    spec_push, spec_pop, spec_arith, spec_float, spec_prt, spec_inc, spec_dup, spec_swap,
    spec_jmp, spec_call, spec_jmpp, spec_jeq, spec_jnz, spec_cmp, spec_int, spec_halt, spec_ret,
    resume_float, resume_native, spec_native_failed, promote, arith_value, restore_stack,
    valid_scalar, INTERPRETED_EXECUTIONS,
};
use crate::STACK_CAPACITY;

verus! {

broadcast use vstd::std_specs::hash::group_hash_axioms;

/// The virtual machine: the program, the operand stack, the call stack, and
/// the promotion machinery — per-procedure call counts and the native code
/// of promoted procedures.
pub struct VM {
    pc: usize,
    bin: Vec<ByteCode>,
    stack: Vec<u64>,
    frames: Vec<Frame>,
    proc_pc: usize,
    funcs_used: HashMap<u64, u64>,
    compiled_procs: HashMap<u64, Vec<u8>>,
    output: Vec<u32>,
    waiting: Option<Waiting>,
}

impl View for VM {
    type V = State;

    closed spec fn view(&self) -> State {
        State {
            pc: self.pc as int,
            proc_pc: self.proc_pc as int,
            bin: self.bin@,
            stack: self.stack@,
            frames: self.frames@,
            counts: self.funcs_used@,
            compiled: Map::new(
                |k: u64| self.compiled_procs@.contains_key(k),
                |k: u64| self.compiled_procs@[k]@,
            ),
            output: self.output@,
            waiting: self.waiting,
        }
    }
}

impl VM {
    /// A fresh machine over a program: empty stack, no frames, nothing
    /// counted or promoted.
    pub fn new(bin: Vec<ByteCode>) -> (vm: VM)
        ensures
            wf(vm@),
            vm@.pc == 0,
            vm@.proc_pc == 0,
            vm@.bin == bin@,
            vm@.stack == Seq::<u64>::empty(),
            vm@.frames == Seq::<Frame>::empty(),
            vm@.counts == Map::<u64, u64>::empty(),
            vm@.compiled == Map::<u64, Seq<u8>>::empty(),
            vm@.output == Seq::<u32>::empty(),
            vm@.waiting is None,
    {
        let n = bin.len();
        assert(n <= usize::MAX);
        let vm = VM {
            pc: 0,
            bin,
            stack: Vec::new(),
            frames: Vec::new(),
            proc_pc: 0,
            funcs_used: HashMap::new(),
            compiled_procs: HashMap::new(),
            output: Vec::new(),
            waiting: None,
        };
        proof {
            assert(vm@.counts =~= Map::<u64, u64>::empty());
            assert(vm@.compiled =~= Map::<u64, Seq<u8>>::empty());
        }
        vm
    }

    fn push_op(&mut self, value: u64) -> (r: Step)
        requires
            wf(old(self)@),
            old(self)@.waiting is None,
            old(self)@.pc < old(self)@.bin.len(),
        ensures
            final(self)@ == spec_push(old(self)@, value).0,
            r == spec_push(old(self)@, value).1,
    {
        if self.stack.len() == STACK_CAPACITY {
            return Step::Fault(RuntimeError::StackOverflow);
        }
        self.stack.push(value);
        self.pc = self.pc + 1;
        assert(self@ =~= spec_push(old(self)@, value).0);
        Step::Cont
    }

    fn pop_op(&mut self) -> (r: Step)
        requires
            wf(old(self)@),
            old(self)@.waiting is None,
            old(self)@.pc < old(self)@.bin.len(),
        ensures
            final(self)@ == spec_pop(old(self)@).0,
            r == spec_pop(old(self)@).1,
    {
        if self.stack.len() == 0 {
            return Step::Fault(RuntimeError::StackUnderflow);
        }
        let _ = self.stack.pop();
        self.pc = self.pc + 1;
        assert(self@.stack =~= old(self)@.stack.drop_last());
        assert(self@ =~= spec_pop(old(self)@).0);
        Step::Cont
    }

    fn arith_op(&mut self, w: Width, signed: bool, subtract: bool) -> (r: Step)
        requires
            wf(old(self)@),
            old(self)@.waiting is None,
            old(self)@.pc < old(self)@.bin.len(),
        ensures
            final(self)@ == spec_arith(old(self)@, w, signed, subtract).0,
            r == spec_arith(old(self)@, w, signed, subtract).1,
    {
        if self.stack.len() < 2 {
            return Step::Fault(RuntimeError::StackUnderflow);
        }
        let a = self.stack.pop().unwrap();
        let b = self.stack.pop().unwrap();
        proof {
            assert(self@.stack =~= old(self)@.stack.drop_last().drop_last());
            assert(b == old(self)@.stack.drop_last().last());
        }
        let low: u64 = match w {
            Width::W64 => {
                if subtract {
                    if b >= a {
                        b - a
                    } else {
                        u64::MAX - (a - b - 1)
                    }
                } else {
                    (((a as u128) + (b as u128)) % 0x1_0000_0000_0000_0000u128) as u64
                }
            },
            _ => {
                let m: u64 = match w {
                    Width::W8 => 0x100,
                    Width::W16 => 0x1_0000,
                    _ => 0x1_0000_0000,
                };
                proof {
                    vstd::arithmetic::div_mod::lemma_add_mod_noop(a as int, b as int, m as int);
                    vstd::arithmetic::div_mod::lemma_sub_mod_noop(b as int, a as int, m as int);
                    vstd::arithmetic::div_mod::lemma_mod_add_multiples_vanish(
                        (b % m) - (a % m),
                        m as int,
                    );
                }
                if subtract {
                    ((b % m) + m - (a % m)) % m
                } else {
                    ((a % m) + (b % m)) % m
                }
            },
        };
        assert(low == if subtract {
            crate::machine::low_bits_sub(w, a, b)
        } else {
            crate::machine::low_bits_add(w, a, b)
        });
        let v: u64 = if signed {
            match w {
                Width::W8 => if low >= 0x80 {
                    low + 0xFFFF_FFFF_FFFF_FF00
                } else {
                    low
                },
                Width::W16 => if low >= 0x8000 {
                    low + 0xFFFF_FFFF_FFFF_0000
                } else {
                    low
                },
                Width::W32 => if low >= 0x8000_0000 {
                    low + 0xFFFF_FFFF_0000_0000
                } else {
                    low
                },
                Width::W64 => low,
            }
        } else {
            low
        };
        assert(v == arith_value(w, signed, subtract, a, b));
        self.stack.push(v);
        self.pc = self.pc + 1;
        assert(self@ =~= spec_arith(old(self)@, w, signed, subtract).0);
        Step::Cont
    }

    fn float_op(&mut self, op: FloatOp) -> (r: Step)
        requires
            wf(old(self)@),
            old(self)@.waiting is None,
            old(self)@.pc < old(self)@.bin.len(),
        ensures
            final(self)@ == spec_float(old(self)@, op).0,
            r == spec_float(old(self)@, op).1,
    {
        if self.stack.len() < 2 {
            return Step::Fault(RuntimeError::StackUnderflow);
        }
        let a = self.stack.pop().unwrap();
        let b = self.stack.pop().unwrap();
        proof {
            assert(self@.stack =~= old(self)@.stack.drop_last().drop_last());
            assert(b == old(self)@.stack.drop_last().last());
        }
        self.waiting = Some(Waiting::Float(op, a, b));
        assert(self@ =~= spec_float(old(self)@, op).0);
        Step::NeedFloat(op, a, b)
    }

    fn prt_op(&mut self) -> (r: Step)
        requires
            wf(old(self)@),
            old(self)@.waiting is None,
            old(self)@.pc < old(self)@.bin.len(),
        ensures
            final(self)@ == spec_prt(old(self)@).0,
            r == spec_prt(old(self)@).1,
    {
        if self.stack.len() == 0 {
            return Step::Fault(RuntimeError::StackUnderflow);
        }
        let v = self.stack[self.stack.len() - 1];
        let u = (v % 0x1_0000_0000) as u32;
        if u < 0xD800 || (u >= 0xE000 && u <= 0x10FFFF) {
            assert(valid_scalar(u));
            self.output.push(u);
            self.pc = self.pc + 1;
            assert(self@ =~= spec_prt(old(self)@).0);
            Step::Cont
        } else {
            assert(!valid_scalar(u));
            Step::Fault(RuntimeError::InvalidUnicode)
        }
    }

    fn inc_op(&mut self) -> (r: Step)
        requires
            wf(old(self)@),
            old(self)@.waiting is None,
            old(self)@.pc < old(self)@.bin.len(),
        ensures
            final(self)@ == spec_inc(old(self)@).0,
            r == spec_inc(old(self)@).1,
    {
        if self.stack.len() == 0 {
            return Step::Fault(RuntimeError::StackUnderflow);
        }
        let v = self.stack[self.stack.len() - 1];
        if v == u64::MAX {
            return Step::Fault(RuntimeError::Overflow);
        }
        let _ = self.stack.pop();
        self.stack.push(v + 1);
        self.pc = self.pc + 1;
        assert(self@.stack =~= old(self)@.stack.drop_last().push((v + 1) as u64));
        assert(self@ =~= spec_inc(old(self)@).0);
        Step::Cont
    }

    fn dup_op(&mut self) -> (r: Step)
        requires
            wf(old(self)@),
            old(self)@.waiting is None,
            old(self)@.pc < old(self)@.bin.len(),
        ensures
            final(self)@ == spec_dup(old(self)@).0,
            r == spec_dup(old(self)@).1,
    {
        if self.stack.len() == 0 {
            return Step::Fault(RuntimeError::StackUnderflow);
        }
        if self.stack.len() == STACK_CAPACITY {
            return Step::Fault(RuntimeError::StackOverflow);
        }
        let v = self.stack[self.stack.len() - 1];
        self.stack.push(v);
        self.pc = self.pc + 1;
        assert(self@ =~= spec_dup(old(self)@).0);
        Step::Cont
    }

    fn swap_op(&mut self, k: u64) -> (r: Step)
        requires
            wf(old(self)@),
            old(self)@.waiting is None,
            old(self)@.pc < old(self)@.bin.len(),
        ensures
            final(self)@ == spec_swap(old(self)@, k).0,
            r == spec_swap(old(self)@, k).1,
    {
        if (self.stack.len() as u64) <= k {
            return Step::Fault(RuntimeError::StackUnderflow);
        }
        if k == 0 {
            self.pc = self.pc + 1;
            assert(self@ =~= spec_swap(old(self)@, k).0);
            return Step::Cont;
        }
        let t = self.stack.pop().unwrap();
        let pos = self.stack.len() - (k as usize);
        proof {
            assert(self@.stack =~= old(self)@.stack.drop_last());
        }
        let held = self.stack[pos];
        self.stack[pos] = t;
        self.stack.push(held);
        self.pc = self.pc + 1;
        assert(self@ =~= spec_swap(old(self)@, k).0);
        Step::Cont
    }

    fn jmp_op(&mut self, t: u64) -> (r: Step)
        requires
            wf(old(self)@),
            old(self)@.waiting is None,
            old(self)@.pc < old(self)@.bin.len(),
        ensures
            final(self)@ == spec_jmp(old(self)@, t).0,
            r == spec_jmp(old(self)@, t).1,
    {
        if t >= self.bin.len() as u64 {
            return Step::Fault(RuntimeError::BadTarget);
        }
        self.pc = t as usize;
        assert(self@ =~= spec_jmp(old(self)@, t).0);
        Step::Cont
    }

    fn jmpp_op(&mut self) -> (r: Step)
        requires
            wf(old(self)@),
            old(self)@.waiting is None,
            old(self)@.pc < old(self)@.bin.len(),
        ensures
            final(self)@ == spec_jmpp(old(self)@).0,
            r == spec_jmpp(old(self)@).1,
    {
        if self.stack.len() == 0 {
            return Step::Fault(RuntimeError::StackUnderflow);
        }
        let t = self.stack[self.stack.len() - 1];
        if t >= self.bin.len() as u64 {
            return Step::Fault(RuntimeError::BadTarget);
        }
        let _ = self.stack.pop();
        self.pc = t as usize;
        assert(self@.stack =~= old(self)@.stack.drop_last());
        assert(self@ =~= spec_jmpp(old(self)@).0);
        Step::Cont
    }

    fn jeq_op(&mut self, t: u64) -> (r: Step)
        requires
            wf(old(self)@),
            old(self)@.waiting is None,
            old(self)@.pc < old(self)@.bin.len(),
        ensures
            final(self)@ == spec_jeq(old(self)@, t).0,
            r == spec_jeq(old(self)@, t).1,
    {
        if self.stack.len() == 0 {
            return Step::Fault(RuntimeError::StackUnderflow);
        }
        let v = self.stack[self.stack.len() - 1];
        if v == 0 {
            if t >= self.bin.len() as u64 {
                return Step::Fault(RuntimeError::BadTarget);
            }
            let _ = self.stack.pop();
            self.pc = t as usize;
        } else {
            let _ = self.stack.pop();
            self.pc = self.pc + 1;
        }
        assert(self@.stack =~= old(self)@.stack.drop_last());
        assert(self@ =~= spec_jeq(old(self)@, t).0);
        Step::Cont
    }

    fn jnz_op(&mut self, t: u64) -> (r: Step)
        requires
            wf(old(self)@),
            old(self)@.waiting is None,
            old(self)@.pc < old(self)@.bin.len(),
        ensures
            final(self)@ == spec_jnz(old(self)@, t).0,
            r == spec_jnz(old(self)@, t).1,
    {
        if self.stack.len() == 0 {
            return Step::Fault(RuntimeError::StackUnderflow);
        }
        let v = self.stack[self.stack.len() - 1];
        if v != 0 {
            if t >= self.bin.len() as u64 {
                return Step::Fault(RuntimeError::BadTarget);
            }
            let _ = self.stack.pop();
            self.pc = t as usize;
        } else {
            let _ = self.stack.pop();
            self.pc = self.pc + 1;
        }
        assert(self@.stack =~= old(self)@.stack.drop_last());
        assert(self@ =~= spec_jnz(old(self)@, t).0);
        Step::Cont
    }

    fn cmp_op(&mut self) -> (r: Step)
        requires
            wf(old(self)@),
            old(self)@.waiting is None,
            old(self)@.pc < old(self)@.bin.len(),
        ensures
            final(self)@ == spec_cmp(old(self)@).0,
            r == spec_cmp(old(self)@).1,
    {
        if self.stack.len() < 2 {
            return Step::Fault(RuntimeError::StackUnderflow);
        }
        let a = self.stack.pop().unwrap();
        let b = self.stack.pop().unwrap();
        proof {
            assert(self@.stack =~= old(self)@.stack.drop_last().drop_last());
            assert(b == old(self)@.stack.drop_last().last());
        }
        let d: u64 = if b >= a {
            b - a
        } else {
            u64::MAX - (a - b - 1)
        };
        assert(d == ((b - a) % 0x1_0000_0000_0000_0000) as u64);
        self.stack.push(d);
        self.pc = self.pc + 1;
        assert(self@ =~= spec_cmp(old(self)@).0);
        Step::Cont
    }

    fn int_op(&mut self) -> (r: Step)
        requires
            wf(old(self)@),
            old(self)@.waiting is None,
            old(self)@.pc < old(self)@.bin.len(),
        ensures
            final(self)@ == spec_int(old(self)@).0,
            r == spec_int(old(self)@).1,
    {
        if self.stack.len() == 0 {
            return Step::Fault(RuntimeError::StackUnderflow);
        }
        let v = self.stack.pop().unwrap();
        if v == 0 {
            self.pc = self.bin.len();
        } else {
            self.pc = self.pc + 1;
        }
        assert(self@.stack =~= old(self)@.stack.drop_last());
        assert(self@ =~= spec_int(old(self)@).0);
        Step::Cont
    }

    fn halt_op(&mut self) -> (r: Step)
        requires
            wf(old(self)@),
            old(self)@.waiting is None,
            old(self)@.pc < old(self)@.bin.len(),
        ensures
            final(self)@ == spec_halt(old(self)@).0,
            r == spec_halt(old(self)@).1,
    {
        self.pc = self.bin.len();
        assert(self@ =~= spec_halt(old(self)@).0);
        Step::Cont
    }

    fn call_op(&mut self, t: u64) -> (r: Step)
        requires
            wf(old(self)@),
            old(self)@.waiting is None,
            old(self)@.pc < old(self)@.bin.len(),
        ensures
            final(self)@ == spec_call(old(self)@, t).0,
            r == spec_call(old(self)@, t).1,
    {
        if self.compiled_procs.contains_key(&t) {
            self.waiting = Some(Waiting::Native(t as usize));
            assert(self@ =~= spec_call(old(self)@, t).0);
            return Step::NeedNative(t as usize);
        }
        assert(!old(self)@.compiled.contains_key(t));
        if t >= self.bin.len() as u64 {
            return Step::Fault(RuntimeError::BadTarget);
        }
        let c: u64 = match self.funcs_used.get(&t) {
            Some(c) => *c,
            None => 0,
        };
        let c2: u64 = if c < u64::MAX {
            c + 1
        } else {
            c
        };
        self.funcs_used.insert(t, c2);
        self.frames.push(Frame { saved_sp: self.stack.len(), ret_pc: self.pc });
        self.proc_pc = t as usize;
        self.pc = t as usize;
        assert(self@ =~= spec_call(old(self)@, t).0);
        Step::Cont
    }

    fn ret_op(&mut self) -> (r: Step)
        requires
            wf(old(self)@),
            old(self)@.waiting is None,
            old(self)@.pc < old(self)@.bin.len(),
        ensures
            final(self)@ == spec_ret(old(self)@).0,
            r == spec_ret(old(self)@).1,
    {
        let entry = self.proc_pc;
        let entry_key = entry as u64;
        let counted = match self.funcs_used.get(&entry_key) {
            Some(c) => *c == INTERPRETED_EXECUTIONS,
            None => false,
        };
        if counted && entry <= self.pc && !self.compiled_procs.contains_key(&entry_key) {
            let body: &[ByteCode] = vstd::slice::slice_subrange(
                self.bin.as_slice(),
                entry,
                self.pc + 1,
            );
            assert(body@ =~= old(self)@.bin.subrange(entry as int, old(self)@.pc + 1));
            match jit_compile(body) {
                Ok(code) => {
                    self.compiled_procs.insert(entry_key, code);
                },
                Err(_) => {},
            }
        }
        proof {
            assert(self@.compiled =~= promote(old(self)@));
            assert(self@ =~= (State { compiled: promote(old(self)@), ..old(self)@ }));
        }
        let ghost s1 = State { compiled: promote(old(self)@), ..old(self)@ };
        if self.stack.len() == 0 || self.frames.len() == 0 {
            return Step::Fault(RuntimeError::StackUnderflow);
        }
        let f = self.frames[self.frames.len() - 1];
        if f.saved_sp == STACK_CAPACITY {
            return Step::Fault(RuntimeError::StackOverflow);
        }
        let ret = self.stack.pop().unwrap();
        let _ = self.frames.pop();
        proof {
            assert(self@.stack =~= s1.stack.drop_last());
            assert(self@.frames =~= s1.frames.drop_last());
        }
        let ghost popped = s1.stack.drop_last();
        let ghost s2 = State { stack: popped, frames: s1.frames.drop_last(), ..s1 };
        assert(self@ =~= s2);
        if self.stack.len() > f.saved_sp {
            self.stack.truncate(f.saved_sp);
            assert(self@.stack =~= restore_stack(popped, f.saved_sp as int));
        } else {
            while self.stack.len() < f.saved_sp
                invariant
                    popped.len() <= self.stack@.len() <= f.saved_sp,
                    f.saved_sp < STACK_CAPACITY,
                    self.stack@ == restore_stack(popped, self.stack@.len() as int),
                    self@ == (State { stack: self.stack@, ..s2 }),
                decreases f.saved_sp - self.stack@.len(),
            {
                let ghost pre = self.stack@;
                self.stack.push(0);
                assert(self.stack@ =~= restore_stack(popped, pre.len() as int + 1)) by {
                    assert(restore_stack(popped, pre.len() as int) =~= pre);
                    assert(restore_stack(popped, pre.len() as int + 1) =~= pre.push(0u64));
                }
            }
            assert(self.stack@ =~= restore_stack(popped, f.saved_sp as int));
        }
        self.stack.push(ret);
        self.pc = f.ret_pc + 1;
        assert(self@ =~= spec_ret(old(self)@).0);
        Step::Cont
    }

    /// One instruction: fetch at `pc`, dispatch on the opcode, and report
    /// the outcome. A machine whose `pc` stands past the program is halted.
    pub fn step(&mut self) -> (r: Step)
        requires
            wf(old(self)@),
            old(self)@.waiting is None,
        ensures
            final(self)@ == step_spec(old(self)@).0,
            r == step_spec(old(self)@).1,
            wf(final(self)@),
    {
        proof {
            crate::machine::lemma_step_preserves_wf(old(self)@);
        }
        if self.pc >= self.bin.len() {
            return Step::Halted;
        }
        let rec = self.bin[self.pc];
        match TokenType::from(rec.opcode) {
            TokenType::Push => self.push_op(rec.value),
            TokenType::Pop => self.pop_op(),
            TokenType::Uadd8 => self.arith_op(Width::W8, false, false),
            TokenType::Usub8 => self.arith_op(Width::W8, false, true),
            TokenType::Uadd16 => self.arith_op(Width::W16, false, false),
            TokenType::Usub16 => self.arith_op(Width::W16, false, true),
            TokenType::Uadd32 => self.arith_op(Width::W32, false, false),
            TokenType::Usub32 => self.arith_op(Width::W32, false, true),
            TokenType::Uadd64 => self.arith_op(Width::W64, false, false),
            TokenType::Usub64 => self.arith_op(Width::W64, false, true),
            TokenType::Add8 => self.arith_op(Width::W8, true, false),
            TokenType::Sub8 => self.arith_op(Width::W8, true, true),
            TokenType::Add16 => self.arith_op(Width::W16, true, false),
            TokenType::Sub16 => self.arith_op(Width::W16, true, true),
            TokenType::Add32 => self.arith_op(Width::W32, true, false),
            TokenType::Sub32 => self.arith_op(Width::W32, true, true),
            TokenType::Add64 => self.arith_op(Width::W64, true, false),
            TokenType::Sub64 => self.arith_op(Width::W64, true, true),
            TokenType::Addf64 => self.float_op(FloatOp::Addf64),
            TokenType::Subf64 => self.float_op(FloatOp::Subf64),
            TokenType::Addf32 => self.float_op(FloatOp::Addf32),
            TokenType::Subf32 => self.float_op(FloatOp::Subf32),
            TokenType::Prt => self.prt_op(),
            TokenType::Inc => self.inc_op(),
            TokenType::Dup => self.dup_op(),
            TokenType::Jmp => self.jmp_op(rec.value),
            TokenType::Call => self.call_op(rec.value),
            TokenType::Jmpp => self.jmpp_op(),
            TokenType::Halt => self.halt_op(),
            TokenType::Ret => self.ret_op(),
            TokenType::Swap => self.swap_op(rec.value),
            TokenType::Jeq => self.jeq_op(rec.value),
            TokenType::Jnz => self.jnz_op(rec.value),
            TokenType::Cmp => self.cmp_op(),
            TokenType::Int => self.int_op(),
            _ => Step::Fault(RuntimeError::UnknownOpcode),
        }
    }

    /// Runs up to `budget` instructions, stopping early at a halt, a fault,
    /// or a request the driver must answer; `Cont` means the budget ran out
    /// with the machine still going.
    pub fn run(&mut self, budget: u64) -> (r: Step)
        requires
            wf(old(self)@),
            old(self)@.waiting is None,
        ensures
            final(self)@ == run_spec(old(self)@, budget as nat).0,
            r == run_spec(old(self)@, budget as nat).1,
            wf(final(self)@),
    {
        let mut left: u64 = budget;
        while left > 0
            invariant
                wf(self@),
                self@.waiting is None,
                run_spec(old(self)@, budget as nat) == run_spec(self@, left as nat),
            decreases left,
        {
            let ghost pre = self@;
            let r = self.step();
            if !matches!(r, Step::Cont) {
                proof {
                    assert(run_spec(pre, left as nat) == (self@, r));
                }
                return r;
            }
            left = left - 1;
        }
        assert(run_spec(self@, 0nat) == (self@, Step::Cont));
        Step::Cont
    }

    /// Hands back the bits of a completed float operation; the machine
    /// pushes them and goes on past the instruction.
    pub fn provide_float_result(&mut self, bits: u64)
        requires
            wf(old(self)@),
            old(self)@.waiting matches Some(Waiting::Float(_, _, _)),
        ensures
            final(self)@ == resume_float(old(self)@, bits),
            wf(final(self)@),
            final(self)@.waiting is None,
    {
        self.stack.push(bits);
        self.pc = self.pc + 1;
        self.waiting = None;
        assert(self@ =~= resume_float(old(self)@, bits));
    }

    /// Hands back the return value of a completed native call; the machine
    /// pushes it and goes on past the `Call`. A full stack faults.
    pub fn provide_native_result(&mut self, ret: u64) -> (r: Step)
        requires
            wf(old(self)@),
            old(self)@.waiting matches Some(Waiting::Native(_)),
        ensures
            final(self)@ == resume_native(old(self)@, ret).0,
            r == resume_native(old(self)@, ret).1,
            wf(final(self)@),
    {
        if self.stack.len() == STACK_CAPACITY {
            self.waiting = None;
            assert(self@ =~= resume_native(old(self)@, ret).0);
            return Step::Fault(RuntimeError::StackOverflow);
        }
        self.stack.push(ret);
        self.pc = self.pc + 1;
        self.waiting = None;
        assert(self@ =~= resume_native(old(self)@, ret).0);
        Step::Cont
    }

    /// Reports that the awaited native call could not be made: the entry's
    /// native code is dropped and the `Call` will run interpreted instead.
    pub fn native_failed(&mut self)
        requires
            wf(old(self)@),
            old(self)@.waiting matches Some(Waiting::Native(_)),
        ensures
            final(self)@ == spec_native_failed(
                old(self)@,
                old(self)@.waiting->Some_0->Native_0,
            ),
            wf(final(self)@),
            final(self)@.waiting is None,
    {
        let entry: usize = match self.waiting {
            Some(Waiting::Native(e)) => e,
            _ => 0,
        };
        let key = entry as u64;
        self.compiled_procs.remove(&key);
        self.waiting = None;
        assert(self@.compiled =~= old(self)@.compiled.remove(key));
        assert(self@ =~= spec_native_failed(old(self)@, entry));
    }

    /// The program counter.
    pub fn pc(&self) -> (r: usize)
        ensures
            r == self@.pc,
    {
        self.pc
    }

    /// The stack pointer: how many words the operand stack holds.
    pub fn sp(&self) -> (r: usize)
        ensures
            r == self@.stack.len(),
    {
        self.stack.len()
    }

    /// The stack word at depth `i`, counted from the bottom.
    pub fn stack_at(&self, i: usize) -> (r: u64)
        requires
            i < self@.stack.len(),
        ensures
            r == self@.stack[i as int],
    {
        self.stack[i]
    }

    /// Everything `prt` has written so far, as code points in print order.
    pub fn output(&self) -> (r: &Vec<u32>)
        ensures
            r@ == self@.output,
    {
        &self.output
    }

    /// Whether the procedure at this entry index has been promoted to
    /// native code.
    pub fn is_promoted(&self, entry: u64) -> (r: bool)
        ensures
            r == self@.compiled.contains_key(entry),
    {
        self.compiled_procs.contains_key(&entry)
    }

    /// How often the procedure at this entry index has been called
    /// interpreted.
    pub fn call_count(&self, entry: u64) -> (r: u64)
        ensures
            r == if self@.counts.contains_key(entry) {
                self@.counts[entry]
            } else {
                0
            },
    {
        match self.funcs_used.get(&entry) {
            Some(c) => *c,
            None => 0,
        }
    }

    /// How many records the loaded program holds.
    pub fn program_len(&self) -> (r: usize)
        ensures
            r == self@.bin.len(),
    {
        self.bin.len()
    }

    /// The program record at an instruction index.
    pub fn record_at(&self, i: usize) -> (r: ByteCode)
        requires
            i < self@.bin.len(),
        ensures
            r == self@.bin[i as int],
    {
        self.bin[i]
    }

    /// The native code installed for a promoted procedure.
    pub fn compiled_code(&self, entry: u64) -> (r: Option<&Vec<u8>>)
        ensures
            match r {
                Some(code) => self@.compiled.contains_key(entry) && code@ == self@.compiled[entry],
                None => !self@.compiled.contains_key(entry),
            },
    {
        self.compiled_procs.get(&entry)
    }
}

} // verus!
