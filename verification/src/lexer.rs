use vstd::prelude::*;
use crate::isa::{TokenType, mnemonic_kind, lookup_mnemonic};
use crate::literals::{
    is_u64_literal, is_i64_literal, is_float_literal, parse_u64, parse_i64,
    is_float_literal_bytes,
};

verus! {

/// One lexeme with its classification. The lexeme is kept as the raw bytes of
/// the source word.
#[derive(Debug)]
pub struct Token {
    pub kind: TokenType,
    pub value: Vec<u8>,
}

/// A lexeme that reads as an immediate: an unsigned or signed 64-bit decimal,
/// a double-precision float, or a float with the single-precision suffix `f`.
pub open spec fn is_value_lexeme(s: Seq<u8>) -> bool {
    ||| is_u64_literal(s)
    ||| is_i64_literal(s)
    ||| is_float_literal(s)
    ||| (s.len() > 0 && s.last() == 'f' as u8 && is_float_literal(s.drop_last()))
}

/// Classification of one lexeme, applied in this order: a word ending in `:`
/// defines a label; a mnemonic names its instruction; an immediate is a
/// `Value`; anything else is an unresolved `Name`.
pub open spec fn classify(s: Seq<u8>) -> TokenType {
    if s.len() > 0 && s.last() == ':' as u8 {
        TokenType::Label
    } else if mnemonic_kind(s) is Some {
        mnemonic_kind(s)->0
    } else if is_value_lexeme(s) {
        TokenType::Value
    } else {
        TokenType::Name
    }
}

impl Token {
    /// Classifies one source word.
    pub fn new(text: &[u8]) -> (t: Token)
        ensures
            t.kind == classify(text@),
            t.value@ == text@,
    {
        let kind = if text.len() > 0 && text[text.len() - 1] == 58 {
            assert(text@.last() == ':' as u8);
            TokenType::Label
        } else {
            match lookup_mnemonic(text) {
                Some(k) => k,
                None => {
                    if parse_u64(text).is_some() || parse_i64(text).is_some()
                        || is_float_literal_bytes(text) {
                        TokenType::Value
                    } else if text.len() > 0 && text[text.len() - 1] == 102 {
                        let head: &[u8] = vstd::slice::slice_subrange(text, 0, text.len() - 1);
                        assert(head@ =~= text@.drop_last());
                        assert(text@.last() == 'f' as u8);
                        if is_float_literal_bytes(head) {
                            TokenType::Value
                        } else {
                            TokenType::Name
                        }
                    } else {
                        TokenType::Name
                    }
                },
            }
        };
        let mut value: Vec<u8> = Vec::new();
        let mut i: usize = 0;
        while i < text.len()
            invariant
                0 <= i <= text@.len(),
                value@ =~= text@.take(i as int),
            decreases text@.len() - i,
        {
            value.push(text[i]);
            i = i + 1;
        }
        assert(value@ =~= text@);
        Token { kind, value }
    }
}

} // verus!
