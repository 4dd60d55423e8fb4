use vstd::prelude::*;

verus! {

/// The instruction set. The declaration order fixes each kind's opcode byte:
/// `Push` is 0 and `Invalid` is 38. The last four kinds (`Value`, `Label`,
/// `Name`, `Invalid`) are lexer-internal and never appear in emitted bytecode.
#[derive(Clone, Copy, Debug, PartialEq, Eq, Structural)]
pub enum TokenType {
    Push,
    Pop,
    Uadd8,
    Usub8,
    Uadd16,
    Usub16,
    Uadd32,
    Usub32,
    Uadd64,
    Usub64,
    Add8,
    Sub8,
    Add16,
    Sub16,
    Add32,
    Sub32,
    Add64,
    Sub64,
    Addf64,
    Subf64,
    Addf32,
    Subf32,
    Prt,
    Inc,
    Dup,
    Jmp,
    Call,
    Jmpp,
    Halt,
    Ret,
    Swap,
    Jeq,
    Jnz,
    Cmp,
    Int,
    Value,
    Label,
    Name,
    Invalid,
}

/// The opcode byte of each instruction kind (its ordinal in the declaration).
pub open spec fn opcode_of(t: TokenType) -> u8 {
    match t {
        TokenType::Push => 0,
        TokenType::Pop => 1,
        TokenType::Uadd8 => 2,
        TokenType::Usub8 => 3,
        TokenType::Uadd16 => 4,
        TokenType::Usub16 => 5,
        TokenType::Uadd32 => 6,
        TokenType::Usub32 => 7,
        TokenType::Uadd64 => 8,
        TokenType::Usub64 => 9,
        TokenType::Add8 => 10,
        TokenType::Sub8 => 11,
        TokenType::Add16 => 12,
        TokenType::Sub16 => 13,
        TokenType::Add32 => 14,
        TokenType::Sub32 => 15,
        TokenType::Add64 => 16,
        TokenType::Sub64 => 17,
        TokenType::Addf64 => 18,
        TokenType::Subf64 => 19,
        TokenType::Addf32 => 20,
        TokenType::Subf32 => 21,
        TokenType::Prt => 22,
        TokenType::Inc => 23,
        TokenType::Dup => 24,
        TokenType::Jmp => 25,
        TokenType::Call => 26,
        TokenType::Jmpp => 27,
        TokenType::Halt => 28,
        TokenType::Ret => 29,
        TokenType::Swap => 30,
        TokenType::Jeq => 31,
        TokenType::Jnz => 32,
        TokenType::Cmp => 33,
        TokenType::Int => 34,
        TokenType::Value => 35,
        TokenType::Label => 36,
        TokenType::Name => 37,
        TokenType::Invalid => 38,
    }
}

/// The instruction kind a raw opcode byte decodes to; any byte at or past
/// `Invalid`'s ordinal decodes to `Invalid`.
pub open spec fn kind_of_opcode(op: u8) -> TokenType {
    if op == 0 { TokenType::Push } else
    if op == 1 { TokenType::Pop } else
    if op == 2 { TokenType::Uadd8 } else
    if op == 3 { TokenType::Usub8 } else
    if op == 4 { TokenType::Uadd16 } else
    if op == 5 { TokenType::Usub16 } else
    if op == 6 { TokenType::Uadd32 } else
    if op == 7 { TokenType::Usub32 } else
    if op == 8 { TokenType::Uadd64 } else
    if op == 9 { TokenType::Usub64 } else
    if op == 10 { TokenType::Add8 } else
    if op == 11 { TokenType::Sub8 } else
    if op == 12 { TokenType::Add16 } else
    if op == 13 { TokenType::Sub16 } else
    if op == 14 { TokenType::Add32 } else
    if op == 15 { TokenType::Sub32 } else
    if op == 16 { TokenType::Add64 } else
    if op == 17 { TokenType::Sub64 } else
    if op == 18 { TokenType::Addf64 } else
    if op == 19 { TokenType::Subf64 } else
    if op == 20 { TokenType::Addf32 } else
    if op == 21 { TokenType::Subf32 } else
    if op == 22 { TokenType::Prt } else
    if op == 23 { TokenType::Inc } else
    if op == 24 { TokenType::Dup } else
    if op == 25 { TokenType::Jmp } else
    if op == 26 { TokenType::Call } else
    if op == 27 { TokenType::Jmpp } else
    if op == 28 { TokenType::Halt } else
    if op == 29 { TokenType::Ret } else
    if op == 30 { TokenType::Swap } else
    if op == 31 { TokenType::Jeq } else
    if op == 32 { TokenType::Jnz } else
    if op == 33 { TokenType::Cmp } else
    if op == 34 { TokenType::Int } else
    if op == 35 { TokenType::Value } else
    if op == 36 { TokenType::Label } else
    if op == 37 { TokenType::Name } else
    { TokenType::Invalid }
}

impl TokenType {
    /// Decodes an opcode byte, as the binary loader does.
    pub fn from(opcode: u8) -> (t: TokenType)
        ensures
            t == kind_of_opcode(opcode),
    {
        match opcode {
            0 => TokenType::Push,
            1 => TokenType::Pop,
            2 => TokenType::Uadd8,
            3 => TokenType::Usub8,
            4 => TokenType::Uadd16,
            5 => TokenType::Usub16,
            6 => TokenType::Uadd32,
            7 => TokenType::Usub32,
            8 => TokenType::Uadd64,
            9 => TokenType::Usub64,
            10 => TokenType::Add8,
            11 => TokenType::Sub8,
            12 => TokenType::Add16,
            13 => TokenType::Sub16,
            14 => TokenType::Add32,
            15 => TokenType::Sub32,
            16 => TokenType::Add64,
            17 => TokenType::Sub64,
            18 => TokenType::Addf64,
            19 => TokenType::Subf64,
            20 => TokenType::Addf32,
            21 => TokenType::Subf32,
            22 => TokenType::Prt,
            23 => TokenType::Inc,
            24 => TokenType::Dup,
            25 => TokenType::Jmp,
            26 => TokenType::Call,
            27 => TokenType::Jmpp,
            28 => TokenType::Halt,
            29 => TokenType::Ret,
            30 => TokenType::Swap,
            31 => TokenType::Jeq,
            32 => TokenType::Jnz,
            33 => TokenType::Cmp,
            34 => TokenType::Int,
            35 => TokenType::Value,
            36 => TokenType::Label,
            37 => TokenType::Name,
            _ => TokenType::Invalid,
        }
    }

    /// The opcode byte this kind is emitted as.
    pub fn opcode(self) -> (op: u8)
        ensures
            op == opcode_of(self),
    {
        match self {
            TokenType::Push => 0,
            TokenType::Pop => 1,
            TokenType::Uadd8 => 2,
            TokenType::Usub8 => 3,
            TokenType::Uadd16 => 4,
            TokenType::Usub16 => 5,
            TokenType::Uadd32 => 6,
            TokenType::Usub32 => 7,
            TokenType::Uadd64 => 8,
            TokenType::Usub64 => 9,
            TokenType::Add8 => 10,
            TokenType::Sub8 => 11,
            TokenType::Add16 => 12,
            TokenType::Sub16 => 13,
            TokenType::Add32 => 14,
            TokenType::Sub32 => 15,
            TokenType::Add64 => 16,
            TokenType::Sub64 => 17,
            TokenType::Addf64 => 18,
            TokenType::Subf64 => 19,
            TokenType::Addf32 => 20,
            TokenType::Subf32 => 21,
            TokenType::Prt => 22,
            TokenType::Inc => 23,
            TokenType::Dup => 24,
            TokenType::Jmp => 25,
            TokenType::Call => 26,
            TokenType::Jmpp => 27,
            TokenType::Halt => 28,
            TokenType::Ret => 29,
            TokenType::Swap => 30,
            TokenType::Jeq => 31,
            TokenType::Jnz => 32,
            TokenType::Cmp => 33,
            TokenType::Int => 34,
            TokenType::Value => 35,
            TokenType::Label => 36,
            TokenType::Name => 37,
            TokenType::Invalid => 38,
        }
    }

    /// The source-text mnemonic of an executable instruction kind.
    pub fn mnemonic_of(self) -> (v: Vec<u8>)
        requires
            !is_lexer_internal(self),
        ensures
            v@ == mnemonic_bytes(self),
    {
        match self {
            TokenType::Push => {
                let lit: [u8; 4] = [('p' as u8), ('u' as u8), ('s' as u8), ('h' as u8)];
                proof { assert(lit@ =~= mnemonic_bytes(TokenType::Push)); }
                crate::bytes::to_vec(lit.as_slice())
            },
            TokenType::Pop => {
                let lit: [u8; 3] = [('p' as u8), ('o' as u8), ('p' as u8)];
                proof { assert(lit@ =~= mnemonic_bytes(TokenType::Pop)); }
                crate::bytes::to_vec(lit.as_slice())
            },
            TokenType::Uadd8 => {
                let lit: [u8; 5] = [('u' as u8), ('a' as u8), ('d' as u8), ('d' as u8), ('8' as u8)];
                proof { assert(lit@ =~= mnemonic_bytes(TokenType::Uadd8)); }
                crate::bytes::to_vec(lit.as_slice())
            },
            TokenType::Usub8 => {
                let lit: [u8; 5] = [('u' as u8), ('s' as u8), ('u' as u8), ('b' as u8), ('8' as u8)];
                proof { assert(lit@ =~= mnemonic_bytes(TokenType::Usub8)); }
                crate::bytes::to_vec(lit.as_slice())
            },
            TokenType::Uadd16 => {
                let lit: [u8; 6] = [('u' as u8), ('a' as u8), ('d' as u8), ('d' as u8), ('1' as u8), ('6' as u8)];
                proof { assert(lit@ =~= mnemonic_bytes(TokenType::Uadd16)); }
                crate::bytes::to_vec(lit.as_slice())
            },
            TokenType::Usub16 => {
                let lit: [u8; 6] = [('u' as u8), ('s' as u8), ('u' as u8), ('b' as u8), ('1' as u8), ('6' as u8)];
                proof { assert(lit@ =~= mnemonic_bytes(TokenType::Usub16)); }
                crate::bytes::to_vec(lit.as_slice())
            },
            TokenType::Uadd32 => {
                let lit: [u8; 6] = [('u' as u8), ('a' as u8), ('d' as u8), ('d' as u8), ('3' as u8), ('2' as u8)];
                proof { assert(lit@ =~= mnemonic_bytes(TokenType::Uadd32)); }
                crate::bytes::to_vec(lit.as_slice())
            },
            TokenType::Usub32 => {
                let lit: [u8; 6] = [('u' as u8), ('s' as u8), ('u' as u8), ('b' as u8), ('3' as u8), ('2' as u8)];
                proof { assert(lit@ =~= mnemonic_bytes(TokenType::Usub32)); }
                crate::bytes::to_vec(lit.as_slice())
            },
            TokenType::Uadd64 => {
                let lit: [u8; 6] = [('u' as u8), ('a' as u8), ('d' as u8), ('d' as u8), ('6' as u8), ('4' as u8)];
                proof { assert(lit@ =~= mnemonic_bytes(TokenType::Uadd64)); }
                crate::bytes::to_vec(lit.as_slice())
            },
            TokenType::Usub64 => {
                let lit: [u8; 6] = [('u' as u8), ('s' as u8), ('u' as u8), ('b' as u8), ('6' as u8), ('4' as u8)];
                proof { assert(lit@ =~= mnemonic_bytes(TokenType::Usub64)); }
                crate::bytes::to_vec(lit.as_slice())
            },
            TokenType::Add8 => {
                let lit: [u8; 4] = [('a' as u8), ('d' as u8), ('d' as u8), ('8' as u8)];
                proof { assert(lit@ =~= mnemonic_bytes(TokenType::Add8)); }
                crate::bytes::to_vec(lit.as_slice())
            },
            TokenType::Sub8 => {
                let lit: [u8; 4] = [('s' as u8), ('u' as u8), ('b' as u8), ('8' as u8)];
                proof { assert(lit@ =~= mnemonic_bytes(TokenType::Sub8)); }
                crate::bytes::to_vec(lit.as_slice())
            },
            TokenType::Add16 => {
                let lit: [u8; 5] = [('a' as u8), ('d' as u8), ('d' as u8), ('1' as u8), ('6' as u8)];
                proof { assert(lit@ =~= mnemonic_bytes(TokenType::Add16)); }
                crate::bytes::to_vec(lit.as_slice())
            },
            TokenType::Sub16 => {
                let lit: [u8; 5] = [('s' as u8), ('u' as u8), ('b' as u8), ('1' as u8), ('6' as u8)];
                proof { assert(lit@ =~= mnemonic_bytes(TokenType::Sub16)); }
                crate::bytes::to_vec(lit.as_slice())
            },
            TokenType::Add32 => {
                let lit: [u8; 5] = [('a' as u8), ('d' as u8), ('d' as u8), ('3' as u8), ('2' as u8)];
                proof { assert(lit@ =~= mnemonic_bytes(TokenType::Add32)); }
                crate::bytes::to_vec(lit.as_slice())
            },
            TokenType::Sub32 => {
                let lit: [u8; 5] = [('s' as u8), ('u' as u8), ('b' as u8), ('3' as u8), ('2' as u8)];
                proof { assert(lit@ =~= mnemonic_bytes(TokenType::Sub32)); }
                crate::bytes::to_vec(lit.as_slice())
            },
            TokenType::Add64 => {
                let lit: [u8; 5] = [('a' as u8), ('d' as u8), ('d' as u8), ('6' as u8), ('4' as u8)];
                proof { assert(lit@ =~= mnemonic_bytes(TokenType::Add64)); }
                crate::bytes::to_vec(lit.as_slice())
            },
            TokenType::Sub64 => {
                let lit: [u8; 5] = [('s' as u8), ('u' as u8), ('b' as u8), ('6' as u8), ('4' as u8)];
                proof { assert(lit@ =~= mnemonic_bytes(TokenType::Sub64)); }
                crate::bytes::to_vec(lit.as_slice())
            },
            TokenType::Addf64 => {
                let lit: [u8; 6] = [('a' as u8), ('d' as u8), ('d' as u8), ('f' as u8), ('6' as u8), ('4' as u8)];
                proof { assert(lit@ =~= mnemonic_bytes(TokenType::Addf64)); }
                crate::bytes::to_vec(lit.as_slice())
            },
            TokenType::Subf64 => {
                let lit: [u8; 6] = [('s' as u8), ('u' as u8), ('b' as u8), ('f' as u8), ('6' as u8), ('4' as u8)];
                proof { assert(lit@ =~= mnemonic_bytes(TokenType::Subf64)); }
                crate::bytes::to_vec(lit.as_slice())
            },
            TokenType::Addf32 => {
                let lit: [u8; 6] = [('a' as u8), ('d' as u8), ('d' as u8), ('f' as u8), ('3' as u8), ('2' as u8)];
                proof { assert(lit@ =~= mnemonic_bytes(TokenType::Addf32)); }
                crate::bytes::to_vec(lit.as_slice())
            },
            TokenType::Subf32 => {
                let lit: [u8; 6] = [('s' as u8), ('u' as u8), ('b' as u8), ('f' as u8), ('3' as u8), ('2' as u8)];
                proof { assert(lit@ =~= mnemonic_bytes(TokenType::Subf32)); }
                crate::bytes::to_vec(lit.as_slice())
            },
            TokenType::Prt => {
                let lit: [u8; 3] = [('p' as u8), ('r' as u8), ('t' as u8)];
                proof { assert(lit@ =~= mnemonic_bytes(TokenType::Prt)); }
                crate::bytes::to_vec(lit.as_slice())
            },
            TokenType::Inc => {
                let lit: [u8; 3] = [('i' as u8), ('n' as u8), ('c' as u8)];
                proof { assert(lit@ =~= mnemonic_bytes(TokenType::Inc)); }
                crate::bytes::to_vec(lit.as_slice())
            },
            TokenType::Dup => {
                let lit: [u8; 3] = [('d' as u8), ('u' as u8), ('p' as u8)];
                proof { assert(lit@ =~= mnemonic_bytes(TokenType::Dup)); }
                crate::bytes::to_vec(lit.as_slice())
            },
            TokenType::Jmp => {
                let lit: [u8; 3] = [('j' as u8), ('m' as u8), ('p' as u8)];
                proof { assert(lit@ =~= mnemonic_bytes(TokenType::Jmp)); }
                crate::bytes::to_vec(lit.as_slice())
            },
            TokenType::Call => {
                let lit: [u8; 4] = [('c' as u8), ('a' as u8), ('l' as u8), ('l' as u8)];
                proof { assert(lit@ =~= mnemonic_bytes(TokenType::Call)); }
                crate::bytes::to_vec(lit.as_slice())
            },
            TokenType::Jmpp => {
                let lit: [u8; 4] = [('j' as u8), ('m' as u8), ('p' as u8), ('p' as u8)];
                proof { assert(lit@ =~= mnemonic_bytes(TokenType::Jmpp)); }
                crate::bytes::to_vec(lit.as_slice())
            },
            TokenType::Halt => {
                let lit: [u8; 4] = [('h' as u8), ('a' as u8), ('l' as u8), ('t' as u8)];
                proof { assert(lit@ =~= mnemonic_bytes(TokenType::Halt)); }
                crate::bytes::to_vec(lit.as_slice())
            },
            TokenType::Ret => {
                let lit: [u8; 3] = [('r' as u8), ('e' as u8), ('t' as u8)];
                proof { assert(lit@ =~= mnemonic_bytes(TokenType::Ret)); }
                crate::bytes::to_vec(lit.as_slice())
            },
            TokenType::Swap => {
                let lit: [u8; 4] = [('s' as u8), ('w' as u8), ('a' as u8), ('p' as u8)];
                proof { assert(lit@ =~= mnemonic_bytes(TokenType::Swap)); }
                crate::bytes::to_vec(lit.as_slice())
            },
            TokenType::Jeq => {
                let lit: [u8; 3] = [('j' as u8), ('e' as u8), ('q' as u8)];
                proof { assert(lit@ =~= mnemonic_bytes(TokenType::Jeq)); }
                crate::bytes::to_vec(lit.as_slice())
            },
            TokenType::Jnz => {
                let lit: [u8; 3] = [('j' as u8), ('n' as u8), ('z' as u8)];
                proof { assert(lit@ =~= mnemonic_bytes(TokenType::Jnz)); }
                crate::bytes::to_vec(lit.as_slice())
            },
            TokenType::Cmp => {
                let lit: [u8; 3] = [('c' as u8), ('m' as u8), ('p' as u8)];
                proof { assert(lit@ =~= mnemonic_bytes(TokenType::Cmp)); }
                crate::bytes::to_vec(lit.as_slice())
            },
            TokenType::Int => {
                let lit: [u8; 3] = [('i' as u8), ('n' as u8), ('t' as u8)];
                proof { assert(lit@ =~= mnemonic_bytes(TokenType::Int)); }
                crate::bytes::to_vec(lit.as_slice())
            },
            _ => Vec::new(),
        }
    }

    /// Whether the instruction consumes the 64-bit immediate that follows its
    /// mnemonic in source text. `Jmpp` takes its target from the stack and is
    /// emitted without an immediate.
    pub fn consumes_immediate(self) -> (r: bool)
        ensures
            r == spec_consumes_immediate(self),
    {
        match self {
            TokenType::Push | TokenType::Jmp | TokenType::Call | TokenType::Jeq
            | TokenType::Jnz | TokenType::Swap => true,
            _ => false,
        }
    }
}

/// The kinds that consume the immediate operand slot at emission.
pub open spec fn spec_consumes_immediate(t: TokenType) -> bool {
    t == TokenType::Push || t == TokenType::Jmp || t == TokenType::Call
        || t == TokenType::Jeq || t == TokenType::Jnz || t == TokenType::Swap
}

/// The kinds the lexer keeps to itself: they never become instructions.
pub open spec fn is_lexer_internal(t: TokenType) -> bool {
    t == TokenType::Value || t == TokenType::Label || t == TokenType::Name
        || t == TokenType::Invalid
}

/// The source-text mnemonic of each executable instruction kind; the
/// lexer-internal kinds have none and map to the empty sequence.
pub open spec fn mnemonic_bytes(t: TokenType) -> Seq<u8> {
    match t {
        TokenType::Push => seq![('p' as u8), ('u' as u8), ('s' as u8), ('h' as u8)],
        TokenType::Pop => seq![('p' as u8), ('o' as u8), ('p' as u8)],
        TokenType::Uadd8 => seq![('u' as u8), ('a' as u8), ('d' as u8), ('d' as u8), ('8' as u8)],
        TokenType::Usub8 => seq![('u' as u8), ('s' as u8), ('u' as u8), ('b' as u8), ('8' as u8)],
        TokenType::Uadd16 => seq![('u' as u8), ('a' as u8), ('d' as u8), ('d' as u8), ('1' as u8), ('6' as u8)],
        TokenType::Usub16 => seq![('u' as u8), ('s' as u8), ('u' as u8), ('b' as u8), ('1' as u8), ('6' as u8)],
        TokenType::Uadd32 => seq![('u' as u8), ('a' as u8), ('d' as u8), ('d' as u8), ('3' as u8), ('2' as u8)],
        TokenType::Usub32 => seq![('u' as u8), ('s' as u8), ('u' as u8), ('b' as u8), ('3' as u8), ('2' as u8)],
        TokenType::Uadd64 => seq![('u' as u8), ('a' as u8), ('d' as u8), ('d' as u8), ('6' as u8), ('4' as u8)],
        TokenType::Usub64 => seq![('u' as u8), ('s' as u8), ('u' as u8), ('b' as u8), ('6' as u8), ('4' as u8)],
        TokenType::Add8 => seq![('a' as u8), ('d' as u8), ('d' as u8), ('8' as u8)],
        TokenType::Sub8 => seq![('s' as u8), ('u' as u8), ('b' as u8), ('8' as u8)],
        TokenType::Add16 => seq![('a' as u8), ('d' as u8), ('d' as u8), ('1' as u8), ('6' as u8)],
        TokenType::Sub16 => seq![('s' as u8), ('u' as u8), ('b' as u8), ('1' as u8), ('6' as u8)],
        TokenType::Add32 => seq![('a' as u8), ('d' as u8), ('d' as u8), ('3' as u8), ('2' as u8)],
        TokenType::Sub32 => seq![('s' as u8), ('u' as u8), ('b' as u8), ('3' as u8), ('2' as u8)],
        TokenType::Add64 => seq![('a' as u8), ('d' as u8), ('d' as u8), ('6' as u8), ('4' as u8)],
        TokenType::Sub64 => seq![('s' as u8), ('u' as u8), ('b' as u8), ('6' as u8), ('4' as u8)],
        TokenType::Addf64 => seq![('a' as u8), ('d' as u8), ('d' as u8), ('f' as u8), ('6' as u8), ('4' as u8)],
        TokenType::Subf64 => seq![('s' as u8), ('u' as u8), ('b' as u8), ('f' as u8), ('6' as u8), ('4' as u8)],
        TokenType::Addf32 => seq![('a' as u8), ('d' as u8), ('d' as u8), ('f' as u8), ('3' as u8), ('2' as u8)],
        TokenType::Subf32 => seq![('s' as u8), ('u' as u8), ('b' as u8), ('f' as u8), ('3' as u8), ('2' as u8)],
        TokenType::Prt => seq![('p' as u8), ('r' as u8), ('t' as u8)],
        TokenType::Inc => seq![('i' as u8), ('n' as u8), ('c' as u8)],
        TokenType::Dup => seq![('d' as u8), ('u' as u8), ('p' as u8)],
        TokenType::Jmp => seq![('j' as u8), ('m' as u8), ('p' as u8)],
        TokenType::Call => seq![('c' as u8), ('a' as u8), ('l' as u8), ('l' as u8)],
        TokenType::Jmpp => seq![('j' as u8), ('m' as u8), ('p' as u8), ('p' as u8)],
        TokenType::Halt => seq![('h' as u8), ('a' as u8), ('l' as u8), ('t' as u8)],
        TokenType::Ret => seq![('r' as u8), ('e' as u8), ('t' as u8)],
        TokenType::Swap => seq![('s' as u8), ('w' as u8), ('a' as u8), ('p' as u8)],
        TokenType::Jeq => seq![('j' as u8), ('e' as u8), ('q' as u8)],
        TokenType::Jnz => seq![('j' as u8), ('n' as u8), ('z' as u8)],
        TokenType::Cmp => seq![('c' as u8), ('m' as u8), ('p' as u8)],
        TokenType::Int => seq![('i' as u8), ('n' as u8), ('t' as u8)],
        _ => seq![],
    }
}

/// The instruction kind whose mnemonic is exactly `s`, if any.
pub open spec fn mnemonic_kind(s: Seq<u8>) -> Option<TokenType> {
    if s == mnemonic_bytes(TokenType::Push) { Some(TokenType::Push) } else
    if s == mnemonic_bytes(TokenType::Pop) { Some(TokenType::Pop) } else
    if s == mnemonic_bytes(TokenType::Uadd8) { Some(TokenType::Uadd8) } else
    if s == mnemonic_bytes(TokenType::Usub8) { Some(TokenType::Usub8) } else
    if s == mnemonic_bytes(TokenType::Uadd16) { Some(TokenType::Uadd16) } else
    if s == mnemonic_bytes(TokenType::Usub16) { Some(TokenType::Usub16) } else
    if s == mnemonic_bytes(TokenType::Uadd32) { Some(TokenType::Uadd32) } else
    if s == mnemonic_bytes(TokenType::Usub32) { Some(TokenType::Usub32) } else
    if s == mnemonic_bytes(TokenType::Uadd64) { Some(TokenType::Uadd64) } else
    if s == mnemonic_bytes(TokenType::Usub64) { Some(TokenType::Usub64) } else
    if s == mnemonic_bytes(TokenType::Add8) { Some(TokenType::Add8) } else
    if s == mnemonic_bytes(TokenType::Sub8) { Some(TokenType::Sub8) } else
    if s == mnemonic_bytes(TokenType::Add16) { Some(TokenType::Add16) } else
    if s == mnemonic_bytes(TokenType::Sub16) { Some(TokenType::Sub16) } else
    if s == mnemonic_bytes(TokenType::Add32) { Some(TokenType::Add32) } else
    if s == mnemonic_bytes(TokenType::Sub32) { Some(TokenType::Sub32) } else
    if s == mnemonic_bytes(TokenType::Add64) { Some(TokenType::Add64) } else
    if s == mnemonic_bytes(TokenType::Sub64) { Some(TokenType::Sub64) } else
    if s == mnemonic_bytes(TokenType::Addf64) { Some(TokenType::Addf64) } else
    if s == mnemonic_bytes(TokenType::Subf64) { Some(TokenType::Subf64) } else
    if s == mnemonic_bytes(TokenType::Addf32) { Some(TokenType::Addf32) } else
    if s == mnemonic_bytes(TokenType::Subf32) { Some(TokenType::Subf32) } else
    if s == mnemonic_bytes(TokenType::Prt) { Some(TokenType::Prt) } else
    if s == mnemonic_bytes(TokenType::Inc) { Some(TokenType::Inc) } else
    if s == mnemonic_bytes(TokenType::Dup) { Some(TokenType::Dup) } else
    if s == mnemonic_bytes(TokenType::Jmp) { Some(TokenType::Jmp) } else
    if s == mnemonic_bytes(TokenType::Call) { Some(TokenType::Call) } else
    if s == mnemonic_bytes(TokenType::Jmpp) { Some(TokenType::Jmpp) } else
    if s == mnemonic_bytes(TokenType::Halt) { Some(TokenType::Halt) } else
    if s == mnemonic_bytes(TokenType::Ret) { Some(TokenType::Ret) } else
    if s == mnemonic_bytes(TokenType::Swap) { Some(TokenType::Swap) } else
    if s == mnemonic_bytes(TokenType::Jeq) { Some(TokenType::Jeq) } else
    if s == mnemonic_bytes(TokenType::Jnz) { Some(TokenType::Jnz) } else
    if s == mnemonic_bytes(TokenType::Cmp) { Some(TokenType::Cmp) } else
    if s == mnemonic_bytes(TokenType::Int) { Some(TokenType::Int) } else
    { None }
}

/// Looks a lexeme up in the mnemonic table.
#[verifier::rlimit(50)]
pub fn lookup_mnemonic(text: &[u8]) -> (r: Option<TokenType>)
    ensures
        r == mnemonic_kind(text@),
{
    let lit: [u8; 4] = [('p' as u8), ('u' as u8), ('s' as u8), ('h' as u8)];
    proof { assert(lit@ =~= mnemonic_bytes(TokenType::Push)); }
    if crate::bytes::bytes_eq(text, lit.as_slice()) { return Some(TokenType::Push); }
    let lit: [u8; 3] = [('p' as u8), ('o' as u8), ('p' as u8)];
    proof { assert(lit@ =~= mnemonic_bytes(TokenType::Pop)); }
    if crate::bytes::bytes_eq(text, lit.as_slice()) { return Some(TokenType::Pop); }
    let lit: [u8; 5] = [('u' as u8), ('a' as u8), ('d' as u8), ('d' as u8), ('8' as u8)];
    proof { assert(lit@ =~= mnemonic_bytes(TokenType::Uadd8)); }
    if crate::bytes::bytes_eq(text, lit.as_slice()) { return Some(TokenType::Uadd8); }
    let lit: [u8; 5] = [('u' as u8), ('s' as u8), ('u' as u8), ('b' as u8), ('8' as u8)];
    proof { assert(lit@ =~= mnemonic_bytes(TokenType::Usub8)); }
    if crate::bytes::bytes_eq(text, lit.as_slice()) { return Some(TokenType::Usub8); }
    let lit: [u8; 6] = [('u' as u8), ('a' as u8), ('d' as u8), ('d' as u8), ('1' as u8), ('6' as u8)];
    proof { assert(lit@ =~= mnemonic_bytes(TokenType::Uadd16)); }
    if crate::bytes::bytes_eq(text, lit.as_slice()) { return Some(TokenType::Uadd16); }
    let lit: [u8; 6] = [('u' as u8), ('s' as u8), ('u' as u8), ('b' as u8), ('1' as u8), ('6' as u8)];
    proof { assert(lit@ =~= mnemonic_bytes(TokenType::Usub16)); }
    if crate::bytes::bytes_eq(text, lit.as_slice()) { return Some(TokenType::Usub16); }
    let lit: [u8; 6] = [('u' as u8), ('a' as u8), ('d' as u8), ('d' as u8), ('3' as u8), ('2' as u8)];
    proof { assert(lit@ =~= mnemonic_bytes(TokenType::Uadd32)); }
    if crate::bytes::bytes_eq(text, lit.as_slice()) { return Some(TokenType::Uadd32); }
    let lit: [u8; 6] = [('u' as u8), ('s' as u8), ('u' as u8), ('b' as u8), ('3' as u8), ('2' as u8)];
    proof { assert(lit@ =~= mnemonic_bytes(TokenType::Usub32)); }
    if crate::bytes::bytes_eq(text, lit.as_slice()) { return Some(TokenType::Usub32); }
    let lit: [u8; 6] = [('u' as u8), ('a' as u8), ('d' as u8), ('d' as u8), ('6' as u8), ('4' as u8)];
    proof { assert(lit@ =~= mnemonic_bytes(TokenType::Uadd64)); }
    if crate::bytes::bytes_eq(text, lit.as_slice()) { return Some(TokenType::Uadd64); }
    let lit: [u8; 6] = [('u' as u8), ('s' as u8), ('u' as u8), ('b' as u8), ('6' as u8), ('4' as u8)];
    proof { assert(lit@ =~= mnemonic_bytes(TokenType::Usub64)); }
    if crate::bytes::bytes_eq(text, lit.as_slice()) { return Some(TokenType::Usub64); }
    let lit: [u8; 4] = [('a' as u8), ('d' as u8), ('d' as u8), ('8' as u8)];
    proof { assert(lit@ =~= mnemonic_bytes(TokenType::Add8)); }
    if crate::bytes::bytes_eq(text, lit.as_slice()) { return Some(TokenType::Add8); }
    let lit: [u8; 4] = [('s' as u8), ('u' as u8), ('b' as u8), ('8' as u8)];
    proof { assert(lit@ =~= mnemonic_bytes(TokenType::Sub8)); }
    if crate::bytes::bytes_eq(text, lit.as_slice()) { return Some(TokenType::Sub8); }
    let lit: [u8; 5] = [('a' as u8), ('d' as u8), ('d' as u8), ('1' as u8), ('6' as u8)];
    proof { assert(lit@ =~= mnemonic_bytes(TokenType::Add16)); }
    if crate::bytes::bytes_eq(text, lit.as_slice()) { return Some(TokenType::Add16); }
    let lit: [u8; 5] = [('s' as u8), ('u' as u8), ('b' as u8), ('1' as u8), ('6' as u8)];
    proof { assert(lit@ =~= mnemonic_bytes(TokenType::Sub16)); }
    if crate::bytes::bytes_eq(text, lit.as_slice()) { return Some(TokenType::Sub16); }
    let lit: [u8; 5] = [('a' as u8), ('d' as u8), ('d' as u8), ('3' as u8), ('2' as u8)];
    proof { assert(lit@ =~= mnemonic_bytes(TokenType::Add32)); }
    if crate::bytes::bytes_eq(text, lit.as_slice()) { return Some(TokenType::Add32); }
    let lit: [u8; 5] = [('s' as u8), ('u' as u8), ('b' as u8), ('3' as u8), ('2' as u8)];
    proof { assert(lit@ =~= mnemonic_bytes(TokenType::Sub32)); }
    if crate::bytes::bytes_eq(text, lit.as_slice()) { return Some(TokenType::Sub32); }
    let lit: [u8; 5] = [('a' as u8), ('d' as u8), ('d' as u8), ('6' as u8), ('4' as u8)];
    proof { assert(lit@ =~= mnemonic_bytes(TokenType::Add64)); }
    if crate::bytes::bytes_eq(text, lit.as_slice()) { return Some(TokenType::Add64); }
    let lit: [u8; 5] = [('s' as u8), ('u' as u8), ('b' as u8), ('6' as u8), ('4' as u8)];
    proof { assert(lit@ =~= mnemonic_bytes(TokenType::Sub64)); }
    if crate::bytes::bytes_eq(text, lit.as_slice()) { return Some(TokenType::Sub64); }
    let lit: [u8; 6] = [('a' as u8), ('d' as u8), ('d' as u8), ('f' as u8), ('6' as u8), ('4' as u8)];
    proof { assert(lit@ =~= mnemonic_bytes(TokenType::Addf64)); }
    if crate::bytes::bytes_eq(text, lit.as_slice()) { return Some(TokenType::Addf64); }
    let lit: [u8; 6] = [('s' as u8), ('u' as u8), ('b' as u8), ('f' as u8), ('6' as u8), ('4' as u8)];
    proof { assert(lit@ =~= mnemonic_bytes(TokenType::Subf64)); }
    if crate::bytes::bytes_eq(text, lit.as_slice()) { return Some(TokenType::Subf64); }
    let lit: [u8; 6] = [('a' as u8), ('d' as u8), ('d' as u8), ('f' as u8), ('3' as u8), ('2' as u8)];
    proof { assert(lit@ =~= mnemonic_bytes(TokenType::Addf32)); }
    if crate::bytes::bytes_eq(text, lit.as_slice()) { return Some(TokenType::Addf32); }
    let lit: [u8; 6] = [('s' as u8), ('u' as u8), ('b' as u8), ('f' as u8), ('3' as u8), ('2' as u8)];
    proof { assert(lit@ =~= mnemonic_bytes(TokenType::Subf32)); }
    if crate::bytes::bytes_eq(text, lit.as_slice()) { return Some(TokenType::Subf32); }
    let lit: [u8; 3] = [('p' as u8), ('r' as u8), ('t' as u8)];
    proof { assert(lit@ =~= mnemonic_bytes(TokenType::Prt)); }
    if crate::bytes::bytes_eq(text, lit.as_slice()) { return Some(TokenType::Prt); }
    let lit: [u8; 3] = [('i' as u8), ('n' as u8), ('c' as u8)];
    proof { assert(lit@ =~= mnemonic_bytes(TokenType::Inc)); }
    if crate::bytes::bytes_eq(text, lit.as_slice()) { return Some(TokenType::Inc); }
    let lit: [u8; 3] = [('d' as u8), ('u' as u8), ('p' as u8)];
    proof { assert(lit@ =~= mnemonic_bytes(TokenType::Dup)); }
    if crate::bytes::bytes_eq(text, lit.as_slice()) { return Some(TokenType::Dup); }
    let lit: [u8; 3] = [('j' as u8), ('m' as u8), ('p' as u8)];
    proof { assert(lit@ =~= mnemonic_bytes(TokenType::Jmp)); }
    if crate::bytes::bytes_eq(text, lit.as_slice()) { return Some(TokenType::Jmp); }
    let lit: [u8; 4] = [('c' as u8), ('a' as u8), ('l' as u8), ('l' as u8)];
    proof { assert(lit@ =~= mnemonic_bytes(TokenType::Call)); }
    if crate::bytes::bytes_eq(text, lit.as_slice()) { return Some(TokenType::Call); }
    let lit: [u8; 4] = [('j' as u8), ('m' as u8), ('p' as u8), ('p' as u8)];
    proof { assert(lit@ =~= mnemonic_bytes(TokenType::Jmpp)); }
    if crate::bytes::bytes_eq(text, lit.as_slice()) { return Some(TokenType::Jmpp); }
    let lit: [u8; 4] = [('h' as u8), ('a' as u8), ('l' as u8), ('t' as u8)];
    proof { assert(lit@ =~= mnemonic_bytes(TokenType::Halt)); }
    if crate::bytes::bytes_eq(text, lit.as_slice()) { return Some(TokenType::Halt); }
    let lit: [u8; 3] = [('r' as u8), ('e' as u8), ('t' as u8)];
    proof { assert(lit@ =~= mnemonic_bytes(TokenType::Ret)); }
    if crate::bytes::bytes_eq(text, lit.as_slice()) { return Some(TokenType::Ret); }
    let lit: [u8; 4] = [('s' as u8), ('w' as u8), ('a' as u8), ('p' as u8)];
    proof { assert(lit@ =~= mnemonic_bytes(TokenType::Swap)); }
    if crate::bytes::bytes_eq(text, lit.as_slice()) { return Some(TokenType::Swap); }
    let lit: [u8; 3] = [('j' as u8), ('e' as u8), ('q' as u8)];
    proof { assert(lit@ =~= mnemonic_bytes(TokenType::Jeq)); }
    if crate::bytes::bytes_eq(text, lit.as_slice()) { return Some(TokenType::Jeq); }
    let lit: [u8; 3] = [('j' as u8), ('n' as u8), ('z' as u8)];
    proof { assert(lit@ =~= mnemonic_bytes(TokenType::Jnz)); }
    if crate::bytes::bytes_eq(text, lit.as_slice()) { return Some(TokenType::Jnz); }
    let lit: [u8; 3] = [('c' as u8), ('m' as u8), ('p' as u8)];
    proof { assert(lit@ =~= mnemonic_bytes(TokenType::Cmp)); }
    if crate::bytes::bytes_eq(text, lit.as_slice()) { return Some(TokenType::Cmp); }
    let lit: [u8; 3] = [('i' as u8), ('n' as u8), ('t' as u8)];
    proof { assert(lit@ =~= mnemonic_bytes(TokenType::Int)); }
    if crate::bytes::bytes_eq(text, lit.as_slice()) { return Some(TokenType::Int); }
    None
}

} // verus!
