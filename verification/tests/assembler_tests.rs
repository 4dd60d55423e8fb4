use smachine::assembler::{byte_code_compiler, AsmError, AsmOutput};
use smachine::codec::ByteCode;

fn assemble(src: &str) -> Vec<ByteCode> {
    match byte_code_compiler(src.as_bytes()) {
        Ok(AsmOutput::Done(v)) => v,
        Ok(AsmOutput::NeedFloats(_)) => panic!("unexpected float immediates"),
        Err(e) => panic!("assembly failed: {:?}", e),
    }
}

fn asm_err(src: &str) -> AsmError {
    match byte_code_compiler(src.as_bytes()) {
        Err(e) => e,
        Ok(_) => panic!("assembly unexpectedly succeeded"),
    }
}

#[test]
fn label_resolution_addresses() {
    // The three instructions before the jump occupy positions 0, 1 and 2;
    // the backward jump encodes the label's position, 0.
    let v = assemble("start: push 1 push 2 add64 jmp start");
    assert_eq!(v.len(), 5);
    assert_eq!(v[0], ByteCode { opcode: 0, value: 1 });
    assert_eq!(v[1], ByteCode { opcode: 0, value: 2 });
    assert_eq!(v[2], ByteCode { opcode: 16, value: 0 });
    assert_eq!(v[3], ByteCode { opcode: 25, value: 0 });
    // the implicit halt
    assert_eq!(v[4], ByteCode { opcode: 28, value: 0 });
}

#[test]
fn implicit_halt_appended() {
    let v = assemble("push 3");
    assert_eq!(v.len(), 2);
    assert_eq!(v[1].opcode, 28);
}

#[test]
fn explicit_halt_not_doubled() {
    let v = assemble("push 3 halt");
    assert_eq!(v.len(), 2);
}

#[test]
fn empty_source_is_empty_program() {
    let v = assemble("   \t\n  ");
    assert_eq!(v.len(), 0);
}

#[test]
fn signed_immediate_bit_cast() {
    let v = assemble("push -1 halt");
    assert_eq!(v[0].value, u64::MAX);
    let v = assemble("push -9223372036854775808 halt");
    assert_eq!(v[0].value, 0x8000_0000_0000_0000);
}

#[test]
fn unsigned_immediate_max() {
    let v = assemble("push 18446744073709551615 halt");
    assert_eq!(v[0].value, u64::MAX);
}

#[test]
fn numeric_name_falls_through() {
    // A jump target that is no label still assembles when it is a plain
    // unsigned number.
    let v = assemble("jmp 1 halt");
    assert_eq!(v[0], ByteCode { opcode: 25, value: 1 });
}

#[test]
fn duplicate_label_overwrites() {
    let v = assemble("l: push 1 l: jmp l halt");
    // the later definition (position 1) wins
    assert_eq!(v[1], ByteCode { opcode: 25, value: 1 });
}

#[test]
fn unresolved_symbol_error() {
    assert_eq!(asm_err("jmp nowhere halt"), AsmError::UnresolvedSymbol);
}

#[test]
fn orphan_immediate_error() {
    assert_eq!(asm_err("5 halt"), AsmError::OrphanImmediate);
}

#[test]
fn unknown_mnemonic_error() {
    assert_eq!(asm_err("foo: foo halt"), AsmError::UnknownMnemonic);
}

#[test]
fn malformed_immediate_error() {
    assert_eq!(asm_err("push halt"), AsmError::MalformedImmediate);
    assert_eq!(asm_err("push"), AsmError::MalformedImmediate);
}

#[test]
fn float_immediate_pending_f64() {
    let p = match byte_code_compiler(b"push 1.5 halt") {
        Ok(AsmOutput::NeedFloats(p)) => p,
        _ => panic!("expected pending floats"),
    };
    assert_eq!(p.records.len(), 2);
    assert_eq!(p.slots.len(), 1);
    assert_eq!(p.slots[0].index, 0);
    assert_eq!(p.slots[0].lexeme, b"1.5".to_vec());
    assert!(!p.slots[0].single);
    let bits = vec![(1.5f64).to_bits()];
    let v = p.fill(&bits);
    assert_eq!(v[0], ByteCode { opcode: 0, value: (1.5f64).to_bits() });
    assert_eq!(v[1].opcode, 28);
}

#[test]
fn float_immediate_pending_f32() {
    let p = match byte_code_compiler(b"push 2.5f halt") {
        Ok(AsmOutput::NeedFloats(p)) => p,
        _ => panic!("expected pending floats"),
    };
    assert_eq!(p.slots.len(), 1);
    // the suffix is stripped from the stored lexeme
    assert_eq!(p.slots[0].lexeme, b"2.5".to_vec());
    assert!(p.slots[0].single);
    let bits = vec![(2.5f32).to_bits() as u64];
    let v = p.fill(&bits);
    assert_eq!(v[0].value, (2.5f32).to_bits() as u64);
}

#[test]
fn jmpp_takes_no_immediate() {
    // jmpp is grouped with the jumps semantically but consumes no operand
    let v = assemble("push 3 jmpp halt");
    assert_eq!(v.len(), 3);
    assert_eq!(v[1], ByteCode { opcode: 27, value: 0 });
}
