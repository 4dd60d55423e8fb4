use smachine::assembler::{byte_code_compiler, AsmOutput};
use smachine::codec::ByteCode;
use smachine::disasm::disassemble;

fn assemble(src: &str) -> Vec<ByteCode> {
    match byte_code_compiler(src.as_bytes()) {
        Ok(AsmOutput::Done(v)) => v,
        _ => panic!("assembly failed"),
    }
}

#[test]
fn disassembly_text_is_canonical() {
    let v = assemble("start: push 1 push 2 add64 jmp start");
    let text = disassemble(&v).unwrap();
    assert_eq!(text, b"push 1 push 2 add64 jmp 0 halt".to_vec());
}

#[test]
fn reassembling_disassembly_is_identity() {
    let v = assemble("push 7 call sq halt sq: dup uadd64 ret");
    let text = disassemble(&v).unwrap();
    let v2 = assemble(std::str::from_utf8(&text).unwrap());
    assert_eq!(v2, v);
}

#[test]
fn reassembling_disassembly_keeps_signed_bits() {
    // a negative immediate comes back as its unsigned bit pattern and
    // re-encodes to the same record
    let v = assemble("push -1 halt");
    let text = disassemble(&v).unwrap();
    assert_eq!(text, format!("push {} halt", u64::MAX).into_bytes());
    let v2 = assemble(std::str::from_utf8(&text).unwrap());
    assert_eq!(v2, v);
}

#[test]
fn disassembler_refuses_internal_opcodes() {
    let v = vec![ByteCode { opcode: 37, value: 0 }];
    assert!(disassemble(&v).is_none());
}

#[test]
fn disassembler_refuses_lost_immediates() {
    // pop carries no immediate in source text, so a nonzero value cannot be
    // rendered
    let v = vec![ByteCode { opcode: 1, value: 5 }];
    assert!(disassemble(&v).is_none());
}

#[test]
fn empty_program_disassembles_empty() {
    let v: Vec<ByteCode> = Vec::new();
    assert_eq!(disassemble(&v).unwrap(), Vec::<u8>::new());
}
