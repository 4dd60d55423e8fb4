use smachine::assembler::{byte_code_compiler, AsmOutput};
use smachine::codec::ByteCode;
use smachine::jit::{jit_compile, JitError};
use smachine::machine::Step;
use smachine::vm::VM;

const BUDGET: u64 = 10_000_000;

fn assemble(src: &str) -> Vec<ByteCode> {
    match byte_code_compiler(src.as_bytes()) {
        Ok(AsmOutput::Done(v)) => v,
        _ => panic!("assembly failed"),
    }
}

#[test]
fn lowering_of_supported_subset() {
    let body = vec![
        ByteCode { opcode: 0, value: 4 },  // push 4
        ByteCode { opcode: 8, value: 0 },  // uadd64
        ByteCode { opcode: 29, value: 0 }, // ret
    ];
    let code = jit_compile(&body).unwrap();
    let expected: Vec<u8> = vec![
        0x48, 0xb8, 4, 0, 0, 0, 0, 0, 0, 0, // mov rax, 4
        0x50, // push rax
        0x58, 0x5b, 0x48, 0x01, 0xd8, 0x50, // pop rax; pop rbx; add rax, rbx; push rax
        0x58, 0xc3, // pop rax; ret
    ];
    assert_eq!(code, expected);
}

#[test]
fn lowering_of_pop_and_swap() {
    let body = vec![
        ByteCode { opcode: 1, value: 0 },  // pop
        ByteCode { opcode: 30, value: 2 }, // swap 2
    ];
    let code = jit_compile(&body).unwrap();
    let expected: Vec<u8> = vec![
        0x59, // pop rcx
        0x48, 0x8b, 0x04, 0x24, // mov rax, [rsp]
        0x48, 0xb9, 16, 0, 0, 0, 0, 0, 0, 0, // mov rcx, 16
        0x48, 0x87, 0x04, 0x0c, // xchg rax, [rsp + rcx]
        0x48, 0x89, 0x04, 0x24, // mov [rsp], rax
    ];
    assert_eq!(code, expected);
}

#[test]
fn unsupported_opcode_refused() {
    let body = vec![ByteCode { opcode: 24, value: 0 }]; // dup
    assert_eq!(jit_compile(&body), Err(JitError::UnsupportedInJit));
}

#[test]
fn jit_promotion_on_second_call() {
    // After the first complete interpreted run of f, it is promoted; the
    // second call goes native, and the observable top of stack matches the
    // interpreted result: 3 + 4 = 7 after each call.
    let mut vm = VM::new(assemble("push 3 call f push 3 call f halt f: push 4 uadd64 ret"));
    let entry: u64 = 5;
    let r = vm.run(BUDGET);
    assert_eq!(r, Step::NeedNative(entry as usize));
    assert!(vm.is_promoted(entry));
    assert_eq!(vm.call_count(entry), 1);
    // the native body computes argument + 4, as the interpreter would
    let arg = vm.stack_at(vm.sp() - 1);
    assert_eq!(arg, 3);
    assert_eq!(vm.provide_native_result(arg + 4), Step::Cont);
    assert_eq!(vm.run(BUDGET), Step::Halted);
    assert_eq!(vm.stack_at(vm.sp() - 1), 7);
    // the interpreted first call also left 7 on top
    assert_eq!(vm.stack_at(1), 7);
}

#[test]
fn installed_code_matches_compiler_output() {
    let mut vm = VM::new(assemble("push 3 call f push 3 call f halt f: push 4 uadd64 ret"));
    assert_eq!(vm.run(BUDGET), Step::NeedNative(5));
    let body = vec![
        ByteCode { opcode: 0, value: 4 },
        ByteCode { opcode: 8, value: 0 },
        ByteCode { opcode: 29, value: 0 },
    ];
    let expected = jit_compile(&body).unwrap();
    assert_eq!(vm.compiled_code(5).unwrap(), &expected);
}

#[test]
fn unsupported_procedure_stays_interpreted() {
    // dup is outside the native subset: the procedure keeps interpreting
    let mut vm = VM::new(assemble("push 7 call sq push 1 call sq halt sq: dup uadd64 ret"));
    assert_eq!(vm.run(BUDGET), Step::Halted);
    assert!(!vm.is_promoted(5));
    // the second call was interpreted and counted
    assert_eq!(vm.call_count(5), 2);
}

#[test]
fn native_failure_falls_back_to_interpreter() {
    let mut vm = VM::new(assemble("push 3 call f push 3 call f halt f: push 4 uadd64 ret"));
    assert_eq!(vm.run(BUDGET), Step::NeedNative(5));
    // the driver could not place the code in executable memory
    vm.native_failed();
    assert!(!vm.is_promoted(5));
    assert_eq!(vm.run(BUDGET), Step::Halted);
    assert_eq!(vm.stack_at(vm.sp() - 1), 7);
}
