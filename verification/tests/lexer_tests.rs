use smachine::isa::TokenType;
use smachine::lexer::Token;
use smachine::literals::{parse_i64, parse_u64};

#[test]
fn mnemonics_classify() {
    assert_eq!(Token::new(b"push").kind, TokenType::Push);
    assert_eq!(Token::new(b"uadd64").kind, TokenType::Uadd64);
    assert_eq!(Token::new(b"subf32").kind, TokenType::Subf32);
    assert_eq!(Token::new(b"ret").kind, TokenType::Ret);
    assert_eq!(Token::new(b"halt").kind, TokenType::Halt);
}

#[test]
fn mnemonics_are_case_sensitive() {
    assert_eq!(Token::new(b"PUSH").kind, TokenType::Name);
    assert_eq!(Token::new(b"Push").kind, TokenType::Name);
}

#[test]
fn label_definitions_classify() {
    assert_eq!(Token::new(b"start:").kind, TokenType::Label);
    // even a mnemonic-shaped word is a label when it ends in a colon
    assert_eq!(Token::new(b"push:").kind, TokenType::Label);
}

#[test]
fn integers_classify_as_values() {
    assert_eq!(Token::new(b"0").kind, TokenType::Value);
    assert_eq!(Token::new(b"123").kind, TokenType::Value);
    assert_eq!(Token::new(b"+7").kind, TokenType::Value);
    assert_eq!(Token::new(b"-7").kind, TokenType::Value);
    assert_eq!(Token::new(b"18446744073709551615").kind, TokenType::Value);
}

#[test]
fn floats_classify_as_values() {
    assert_eq!(Token::new(b"1.5").kind, TokenType::Value);
    assert_eq!(Token::new(b".5").kind, TokenType::Value);
    assert_eq!(Token::new(b"1.").kind, TokenType::Value);
    assert_eq!(Token::new(b"1e5").kind, TokenType::Value);
    assert_eq!(Token::new(b"-2.5e-3").kind, TokenType::Value);
    assert_eq!(Token::new(b"inf").kind, TokenType::Value);
    assert_eq!(Token::new(b"NaN").kind, TokenType::Value);
    assert_eq!(Token::new(b"2.5f").kind, TokenType::Value);
}

#[test]
fn names_classify_last() {
    assert_eq!(Token::new(b"loop_top").kind, TokenType::Name);
    assert_eq!(Token::new(b"1.5g").kind, TokenType::Name);
    assert_eq!(Token::new(b".").kind, TokenType::Name);
    assert_eq!(Token::new(b"1.2.3").kind, TokenType::Name);
    assert_eq!(Token::new(b"").kind, TokenType::Name);
}

#[test]
fn token_keeps_its_lexeme() {
    let t = Token::new(b"start:");
    assert_eq!(t.value, b"start:".to_vec());
}

#[test]
fn opcode_bytes_round_trip() {
    assert_eq!(TokenType::from(0), TokenType::Push);
    assert_eq!(TokenType::from(28), TokenType::Halt);
    assert_eq!(TokenType::from(34), TokenType::Int);
    assert_eq!(TokenType::Push.opcode(), 0);
    assert_eq!(TokenType::Invalid.opcode(), 38);
    // any byte at or past the sentinel decodes to Invalid
    assert_eq!(TokenType::from(38), TokenType::Invalid);
    assert_eq!(TokenType::from(200), TokenType::Invalid);
}

#[test]
fn immediate_arity_set() {
    assert!(TokenType::Push.consumes_immediate());
    assert!(TokenType::Jmp.consumes_immediate());
    assert!(TokenType::Call.consumes_immediate());
    assert!(TokenType::Jeq.consumes_immediate());
    assert!(TokenType::Jnz.consumes_immediate());
    assert!(TokenType::Swap.consumes_immediate());
    assert!(!TokenType::Jmpp.consumes_immediate());
    assert!(!TokenType::Pop.consumes_immediate());
}

#[test]
fn unsigned_parse_bounds() {
    assert_eq!(parse_u64(b"18446744073709551615"), Some(u64::MAX));
    assert_eq!(parse_u64(b"18446744073709551616"), None);
    assert_eq!(parse_u64(b"+42"), Some(42));
    assert_eq!(parse_u64(b"-1"), None);
    assert_eq!(parse_u64(b""), None);
    assert_eq!(parse_u64(b"+"), None);
    assert_eq!(parse_u64(b"12a"), None);
}

#[test]
fn signed_parse_bounds() {
    assert_eq!(parse_i64(b"-9223372036854775808"), Some(i64::MIN));
    assert_eq!(parse_i64(b"-9223372036854775809"), None);
    assert_eq!(parse_i64(b"9223372036854775807"), Some(i64::MAX));
    assert_eq!(parse_i64(b"9223372036854775808"), None);
    assert_eq!(parse_i64(b"-0"), Some(0));
}
