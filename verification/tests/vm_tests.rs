use smachine::assembler::{byte_code_compiler, AsmOutput};
use smachine::codec::ByteCode;
use smachine::machine::{FloatOp, RuntimeError, Step};
use smachine::vm::VM;

const BUDGET: u64 = 10_000_000;

fn assemble(src: &str) -> Vec<ByteCode> {
    match byte_code_compiler(src.as_bytes()) {
        Ok(AsmOutput::Done(v)) => v,
        _ => panic!("assembly failed"),
    }
}

fn run_to_halt(src: &str) -> VM {
    let mut vm = VM::new(assemble(src));
    assert_eq!(vm.run(BUDGET), Step::Halted);
    vm
}

fn top(vm: &VM) -> u64 {
    vm.stack_at(vm.sp() - 1)
}

#[test]
fn char_arithmetic_prints_two() {
    // 49 - 10 + 11 = 50, the code point of '2'; prt peeks and prints
    let vm = run_to_halt("push 49 push 10 sub64 push 11 add64 prt halt");
    assert_eq!(vm.output().len(), 1);
    assert_eq!(vm.output()[0], '2' as u32);
    assert_eq!(vm.sp(), 1);
    assert_eq!(vm.stack_at(0), 50);
}

#[test]
fn call_ret_squares_via_dup() {
    // dup; uadd64 doubles the argument: 7 + 7 = 14 on top after ret,
    // and sp comes back one above its pre-call value
    let vm = run_to_halt("push 7 call sq halt sq: dup uadd64 ret");
    assert_eq!(vm.sp(), 2);
    assert_eq!(top(&vm), 14);
}

#[test]
fn conditional_takes_branch() {
    let vm = run_to_halt("push 5 push 5 cmp jeq eq push 1 halt eq: push 0 halt");
    assert_eq!(vm.sp(), 1);
    assert_eq!(top(&vm), 0);
}

#[test]
fn conditional_falls_through() {
    let vm = run_to_halt("push 5 push 6 cmp jeq eq push 1 halt eq: push 0 halt");
    assert_eq!(top(&vm), 1);
}

#[test]
fn jnz_branches_on_nonzero() {
    let vm = run_to_halt("push 1 jnz t push 7 halt t: push 9 halt");
    assert_eq!(top(&vm), 9);
}

#[test]
fn uadd8_wraps_at_width() {
    let vm = run_to_halt("push 255 push 1 uadd8 halt");
    assert_eq!(top(&vm), 0);
}

#[test]
fn usub16_wraps_at_width() {
    let vm = run_to_halt("push 0 push 1 usub16 halt");
    assert_eq!(top(&vm), 0xFFFF);
}

#[test]
fn sub8_sign_extends() {
    // 0 - 1 at signed width 8 is -1, re-extended over the whole word
    let vm = run_to_halt("push 0 push 1 sub8 halt");
    assert_eq!(top(&vm), u64::MAX);
}

#[test]
fn add32_sign_extends() {
    // 0x7FFFFFFF + 1 wraps to the most negative 32-bit value
    let vm = run_to_halt("push 2147483647 push 1 add32 halt");
    assert_eq!(top(&vm), (-2147483648i64) as u64);
}

#[test]
fn uadd64_wraps_at_word() {
    let vm = run_to_halt("push 18446744073709551615 push 1 uadd64 halt");
    assert_eq!(top(&vm), 0);
}

#[test]
fn sub64_is_b_minus_a() {
    let vm = run_to_halt("push 49 push 10 sub64 halt");
    assert_eq!(top(&vm), 39);
}

#[test]
fn cmp_pushes_wrapped_difference() {
    // cmp pushes b - a as a two's-complement word: 7 - 9 = -2
    let vm = run_to_halt("push 7 push 9 cmp halt");
    assert_eq!(top(&vm), (-2i64) as u64);
}

#[test]
fn swap_exchanges_with_depth() {
    let mut vm = VM::new(assemble("push 1 push 2 push 3 swap 2 halt"));
    assert_eq!(vm.run(BUDGET), Step::Halted);
    assert_eq!(vm.sp(), 3);
    assert_eq!(vm.stack_at(0), 3);
    assert_eq!(vm.stack_at(1), 2);
    assert_eq!(vm.stack_at(2), 1);
}

#[test]
fn jmpp_jumps_to_popped_target() {
    let vm = run_to_halt("push 3 jmpp halt push 9 halt");
    assert_eq!(vm.sp(), 1);
    assert_eq!(top(&vm), 9);
}

#[test]
fn int_zero_halts() {
    let vm = run_to_halt("push 0 int push 5 halt");
    assert_eq!(vm.sp(), 0);
}

#[test]
fn int_nonzero_continues() {
    let vm = run_to_halt("push 1 int push 5 halt");
    assert_eq!(top(&vm), 5);
}

#[test]
fn inc_increments() {
    let vm = run_to_halt("push 41 inc halt");
    assert_eq!(top(&vm), 42);
}

#[test]
fn dup_duplicates() {
    let vm = run_to_halt("push 8 dup halt");
    assert_eq!(vm.sp(), 2);
    assert_eq!(vm.stack_at(0), 8);
    assert_eq!(vm.stack_at(1), 8);
}

#[test]
fn pop_removes_top() {
    let vm = run_to_halt("push 8 push 9 pop halt");
    assert_eq!(vm.sp(), 1);
    assert_eq!(top(&vm), 8);
}

#[test]
fn pc_stays_at_length_after_halt() {
    let vm = run_to_halt("push 1 halt");
    assert_eq!(vm.pc(), vm.program_len());
}

#[test]
fn underflow_faults() {
    let mut vm = VM::new(assemble("pop halt"));
    assert_eq!(vm.run(BUDGET), Step::Fault(RuntimeError::StackUnderflow));
}

#[test]
fn arith_underflow_faults() {
    let mut vm = VM::new(assemble("push 1 uadd64 halt"));
    assert_eq!(vm.run(BUDGET), Step::Fault(RuntimeError::StackUnderflow));
}

#[test]
fn bad_jump_target_faults() {
    let mut vm = VM::new(assemble("jmp 99 halt"));
    assert_eq!(vm.run(BUDGET), Step::Fault(RuntimeError::BadTarget));
}

#[test]
fn bad_call_target_faults() {
    let mut vm = VM::new(assemble("call 99 halt"));
    assert_eq!(vm.run(BUDGET), Step::Fault(RuntimeError::BadTarget));
}

#[test]
fn inc_overflow_faults() {
    let mut vm = VM::new(assemble("push 18446744073709551615 inc halt"));
    assert_eq!(vm.run(BUDGET), Step::Fault(RuntimeError::Overflow));
}

#[test]
fn invalid_unicode_faults() {
    // 0xD800 is a surrogate, no scalar value
    let mut vm = VM::new(assemble("push 55296 prt halt"));
    assert_eq!(vm.run(BUDGET), Step::Fault(RuntimeError::InvalidUnicode));
}

#[test]
fn unknown_opcode_faults() {
    let mut vm = VM::new(vec![ByteCode { opcode: 38, value: 0 }]);
    assert_eq!(vm.run(BUDGET), Step::Fault(RuntimeError::UnknownOpcode));
}

#[test]
fn lexer_internal_opcode_faults() {
    // Value's ordinal never belongs in emitted bytecode
    let mut vm = VM::new(vec![ByteCode { opcode: 35, value: 0 }]);
    assert_eq!(vm.run(BUDGET), Step::Fault(RuntimeError::UnknownOpcode));
}

#[test]
fn stack_overflow_faults() {
    let mut vm = VM::new(assemble("l: push 1 jmp l"));
    assert_eq!(vm.run(BUDGET), Step::Fault(RuntimeError::StackOverflow));
    assert_eq!(vm.sp(), smachine::STACK_CAPACITY);
}

#[test]
fn budget_exhaustion_reports_cont() {
    let mut vm = VM::new(assemble("l: push 1 pop jmp l"));
    assert_eq!(vm.run(10), Step::Cont);
    assert_eq!(vm.run(10), Step::Cont);
}

#[test]
fn float_add_roundtrip() {
    let bits = (2.0f64).to_bits();
    let src = format!("push {} push {} addf64 halt", bits, bits);
    let mut vm = VM::new(assemble(&src));
    match vm.run(BUDGET) {
        Step::NeedFloat(FloatOp::Addf64, a, b) => {
            let sum = f64::from_bits(b) + f64::from_bits(a);
            vm.provide_float_result(sum.to_bits());
        },
        other => panic!("expected a float request, got {:?}", other),
    }
    assert_eq!(vm.run(BUDGET), Step::Halted);
    assert_eq!(top(&vm), (4.0f64).to_bits());
}

#[test]
fn float_sub_is_b_minus_a() {
    let a = (1.5f64).to_bits();
    let b = (4.0f64).to_bits();
    let src = format!("push {} push {} subf64 halt", b, a);
    let mut vm = VM::new(assemble(&src));
    match vm.run(BUDGET) {
        Step::NeedFloat(FloatOp::Subf64, top_bits, under_bits) => {
            assert_eq!(top_bits, a);
            assert_eq!(under_bits, b);
            let d = f64::from_bits(under_bits) - f64::from_bits(top_bits);
            vm.provide_float_result(d.to_bits());
        },
        other => panic!("expected a float request, got {:?}", other),
    }
    assert_eq!(vm.run(BUDGET), Step::Halted);
    assert_eq!(top(&vm), (2.5f64).to_bits());
}

#[test]
fn prt_rejects_high_garbage_but_truncates() {
    // prt reads the low 32 bits only
    let v = (1u64 << 32) | ('A' as u64);
    let src = format!("push {} prt halt", v);
    let vm = run_to_halt(&src);
    assert_eq!(vm.output()[0], 'A' as u32);
}
