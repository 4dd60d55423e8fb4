use vstd::prelude::*;
use crate::assembler::{
    asm_spec, emit_spec, encode_imm, is_ws, pass1_run, pass1_step, records_of, resolve_all,
    resolve_tok, slots_of, split_run, with_halt, words_of, AsmError, ERec, ImmEnc, SplitState,
};
use crate::codec::ByteCode;
use crate::isa::{
    TokenType, is_lexer_internal, kind_of_opcode, mnemonic_bytes, mnemonic_kind, opcode_of,
    spec_consumes_immediate,
};
use crate::lexer::classify;
use crate::literals::{dec_rep, is_digit, lemma_dec_rep_literal, lemma_dec_rep_val};

verus! {

/// A byte a mnemonic may hold: a lower-case letter or a digit.
pub open spec fn mnemonic_char(b: u8) -> bool {
    (48 <= b && b <= 57) || (97 <= b && b <= 122)
}

/// A word the splitter keeps whole: nonempty, with no whitespace inside.
pub open spec fn plain_word(w: Seq<u8>) -> bool {
    w.len() > 0 && forall|i: int| 0 <= i < w.len() ==> !is_ws(#[trigger] w[i])
}

/// The fingerprint that tells the mnemonics apart: length, first two bytes,
/// last byte.
pub open spec fn mnemonic_fp(s: Seq<u8>) -> (int, int, int, int)
    recommends
        s.len() >= 2,
{
    (s.len() as int, s[0] as int, s[1] as int, s.last() as int)
}

/// Every mnemonic is made of letters and digits, starts with a letter, and
/// is at least two bytes long.
proof fn lemma_mb_shape(k: TokenType)
    requires
        !is_lexer_internal(k),
    ensures
        mnemonic_bytes(k).len() >= 2,
        forall|i: int|
            0 <= i < mnemonic_bytes(k).len() ==> mnemonic_char(#[trigger] mnemonic_bytes(k)[i]),
        97 <= mnemonic_bytes(k)[0],
{
    match k {
        TokenType::Push => {
            let s = mnemonic_bytes(TokenType::Push);
            assert(s[0] == 'p' as u8);
            assert(s[1] == 'u' as u8);
            assert(s[2] == 's' as u8);
            assert(s[3] == 'h' as u8);
            assert(forall|i: int| 0 <= i < s.len() ==> mnemonic_char(#[trigger] s[i]));
        },
        TokenType::Pop => {
            let s = mnemonic_bytes(TokenType::Pop);
            assert(s[0] == 'p' as u8);
            assert(s[1] == 'o' as u8);
            assert(s[2] == 'p' as u8);
            assert(forall|i: int| 0 <= i < s.len() ==> mnemonic_char(#[trigger] s[i]));
        },
        TokenType::Uadd8 => {
            let s = mnemonic_bytes(TokenType::Uadd8);
            assert(s[0] == 'u' as u8);
            assert(s[1] == 'a' as u8);
            assert(s[2] == 'd' as u8);
            assert(s[3] == 'd' as u8);
            assert(s[4] == '8' as u8);
            assert(forall|i: int| 0 <= i < s.len() ==> mnemonic_char(#[trigger] s[i]));
        },
        TokenType::Usub8 => {
            let s = mnemonic_bytes(TokenType::Usub8);
            assert(s[0] == 'u' as u8);
            assert(s[1] == 's' as u8);
            assert(s[2] == 'u' as u8);
            assert(s[3] == 'b' as u8);
            assert(s[4] == '8' as u8);
            assert(forall|i: int| 0 <= i < s.len() ==> mnemonic_char(#[trigger] s[i]));
        },
        TokenType::Uadd16 => {
            let s = mnemonic_bytes(TokenType::Uadd16);
            assert(s[0] == 'u' as u8);
            assert(s[1] == 'a' as u8);
            assert(s[2] == 'd' as u8);
            assert(s[3] == 'd' as u8);
            assert(s[4] == '1' as u8);
            assert(s[5] == '6' as u8);
            assert(forall|i: int| 0 <= i < s.len() ==> mnemonic_char(#[trigger] s[i]));
        },
        TokenType::Usub16 => {
            let s = mnemonic_bytes(TokenType::Usub16);
            assert(s[0] == 'u' as u8);
            assert(s[1] == 's' as u8);
            assert(s[2] == 'u' as u8);
            assert(s[3] == 'b' as u8);
            assert(s[4] == '1' as u8);
            assert(s[5] == '6' as u8);
            assert(forall|i: int| 0 <= i < s.len() ==> mnemonic_char(#[trigger] s[i]));
        },
        TokenType::Uadd32 => {
            let s = mnemonic_bytes(TokenType::Uadd32);
            assert(s[0] == 'u' as u8);
            assert(s[1] == 'a' as u8);
            assert(s[2] == 'd' as u8);
            assert(s[3] == 'd' as u8);
            assert(s[4] == '3' as u8);
            assert(s[5] == '2' as u8);
            assert(forall|i: int| 0 <= i < s.len() ==> mnemonic_char(#[trigger] s[i]));
        },
        TokenType::Usub32 => {
            let s = mnemonic_bytes(TokenType::Usub32);
            assert(s[0] == 'u' as u8);
            assert(s[1] == 's' as u8);
            assert(s[2] == 'u' as u8);
            assert(s[3] == 'b' as u8);
            assert(s[4] == '3' as u8);
            assert(s[5] == '2' as u8);
            assert(forall|i: int| 0 <= i < s.len() ==> mnemonic_char(#[trigger] s[i]));
        },
        TokenType::Uadd64 => {
            let s = mnemonic_bytes(TokenType::Uadd64);
            assert(s[0] == 'u' as u8);
            assert(s[1] == 'a' as u8);
            assert(s[2] == 'd' as u8);
            assert(s[3] == 'd' as u8);
            assert(s[4] == '6' as u8);
            assert(s[5] == '4' as u8);
            assert(forall|i: int| 0 <= i < s.len() ==> mnemonic_char(#[trigger] s[i]));
        },
        TokenType::Usub64 => {
            let s = mnemonic_bytes(TokenType::Usub64);
            assert(s[0] == 'u' as u8);
            assert(s[1] == 's' as u8);
            assert(s[2] == 'u' as u8);
            assert(s[3] == 'b' as u8);
            assert(s[4] == '6' as u8);
            assert(s[5] == '4' as u8);
            assert(forall|i: int| 0 <= i < s.len() ==> mnemonic_char(#[trigger] s[i]));
        },
        TokenType::Add8 => {
            let s = mnemonic_bytes(TokenType::Add8);
            assert(s[0] == 'a' as u8);
            assert(s[1] == 'd' as u8);
            assert(s[2] == 'd' as u8);
            assert(s[3] == '8' as u8);
            assert(forall|i: int| 0 <= i < s.len() ==> mnemonic_char(#[trigger] s[i]));
        },
        TokenType::Sub8 => {
            let s = mnemonic_bytes(TokenType::Sub8);
            assert(s[0] == 's' as u8);
            assert(s[1] == 'u' as u8);
            assert(s[2] == 'b' as u8);
            assert(s[3] == '8' as u8);
            assert(forall|i: int| 0 <= i < s.len() ==> mnemonic_char(#[trigger] s[i]));
        },
        TokenType::Add16 => {
            let s = mnemonic_bytes(TokenType::Add16);
            assert(s[0] == 'a' as u8);
            assert(s[1] == 'd' as u8);
            assert(s[2] == 'd' as u8);
            assert(s[3] == '1' as u8);
            assert(s[4] == '6' as u8);
            assert(forall|i: int| 0 <= i < s.len() ==> mnemonic_char(#[trigger] s[i]));
        },
        TokenType::Sub16 => {
            let s = mnemonic_bytes(TokenType::Sub16);
            assert(s[0] == 's' as u8);
            assert(s[1] == 'u' as u8);
            assert(s[2] == 'b' as u8);
            assert(s[3] == '1' as u8);
            assert(s[4] == '6' as u8);
            assert(forall|i: int| 0 <= i < s.len() ==> mnemonic_char(#[trigger] s[i]));
        },
        TokenType::Add32 => {
            let s = mnemonic_bytes(TokenType::Add32);
            assert(s[0] == 'a' as u8);
            assert(s[1] == 'd' as u8);
            assert(s[2] == 'd' as u8);
            assert(s[3] == '3' as u8);
            assert(s[4] == '2' as u8);
            assert(forall|i: int| 0 <= i < s.len() ==> mnemonic_char(#[trigger] s[i]));
        },
        TokenType::Sub32 => {
            let s = mnemonic_bytes(TokenType::Sub32);
            assert(s[0] == 's' as u8);
            assert(s[1] == 'u' as u8);
            assert(s[2] == 'b' as u8);
            assert(s[3] == '3' as u8);
            assert(s[4] == '2' as u8);
            assert(forall|i: int| 0 <= i < s.len() ==> mnemonic_char(#[trigger] s[i]));
        },
        TokenType::Add64 => {
            let s = mnemonic_bytes(TokenType::Add64);
            assert(s[0] == 'a' as u8);
            assert(s[1] == 'd' as u8);
            assert(s[2] == 'd' as u8);
            assert(s[3] == '6' as u8);
            assert(s[4] == '4' as u8);
            assert(forall|i: int| 0 <= i < s.len() ==> mnemonic_char(#[trigger] s[i]));
        },
        TokenType::Sub64 => {
            let s = mnemonic_bytes(TokenType::Sub64);
            assert(s[0] == 's' as u8);
            assert(s[1] == 'u' as u8);
            assert(s[2] == 'b' as u8);
            assert(s[3] == '6' as u8);
            assert(s[4] == '4' as u8);
            assert(forall|i: int| 0 <= i < s.len() ==> mnemonic_char(#[trigger] s[i]));
        },
        TokenType::Addf64 => {
            let s = mnemonic_bytes(TokenType::Addf64);
            assert(s[0] == 'a' as u8);
            assert(s[1] == 'd' as u8);
            assert(s[2] == 'd' as u8);
            assert(s[3] == 'f' as u8);
            assert(s[4] == '6' as u8);
            assert(s[5] == '4' as u8);
            assert(forall|i: int| 0 <= i < s.len() ==> mnemonic_char(#[trigger] s[i]));
        },
        TokenType::Subf64 => {
            let s = mnemonic_bytes(TokenType::Subf64);
            assert(s[0] == 's' as u8);
            assert(s[1] == 'u' as u8);
            assert(s[2] == 'b' as u8);
            assert(s[3] == 'f' as u8);
            assert(s[4] == '6' as u8);
            assert(s[5] == '4' as u8);
            assert(forall|i: int| 0 <= i < s.len() ==> mnemonic_char(#[trigger] s[i]));
        },
        TokenType::Addf32 => {
            let s = mnemonic_bytes(TokenType::Addf32);
            assert(s[0] == 'a' as u8);
            assert(s[1] == 'd' as u8);
            assert(s[2] == 'd' as u8);
            assert(s[3] == 'f' as u8);
            assert(s[4] == '3' as u8);
            assert(s[5] == '2' as u8);
            assert(forall|i: int| 0 <= i < s.len() ==> mnemonic_char(#[trigger] s[i]));
        },
        TokenType::Subf32 => {
            let s = mnemonic_bytes(TokenType::Subf32);
            assert(s[0] == 's' as u8);
            assert(s[1] == 'u' as u8);
            assert(s[2] == 'b' as u8);
            assert(s[3] == 'f' as u8);
            assert(s[4] == '3' as u8);
            assert(s[5] == '2' as u8);
            assert(forall|i: int| 0 <= i < s.len() ==> mnemonic_char(#[trigger] s[i]));
        },
        TokenType::Prt => {
            let s = mnemonic_bytes(TokenType::Prt);
            assert(s[0] == 'p' as u8);
            assert(s[1] == 'r' as u8);
            assert(s[2] == 't' as u8);
            assert(forall|i: int| 0 <= i < s.len() ==> mnemonic_char(#[trigger] s[i]));
        },
        TokenType::Inc => {
            let s = mnemonic_bytes(TokenType::Inc);
            assert(s[0] == 'i' as u8);
            assert(s[1] == 'n' as u8);
            assert(s[2] == 'c' as u8);
            assert(forall|i: int| 0 <= i < s.len() ==> mnemonic_char(#[trigger] s[i]));
        },
        TokenType::Dup => {
            let s = mnemonic_bytes(TokenType::Dup);
            assert(s[0] == 'd' as u8);
            assert(s[1] == 'u' as u8);
            assert(s[2] == 'p' as u8);
            assert(forall|i: int| 0 <= i < s.len() ==> mnemonic_char(#[trigger] s[i]));
        },
        TokenType::Jmp => {
            let s = mnemonic_bytes(TokenType::Jmp);
            assert(s[0] == 'j' as u8);
            assert(s[1] == 'm' as u8);
            assert(s[2] == 'p' as u8);
            assert(forall|i: int| 0 <= i < s.len() ==> mnemonic_char(#[trigger] s[i]));
        },
        TokenType::Call => {
            let s = mnemonic_bytes(TokenType::Call);
            assert(s[0] == 'c' as u8);
            assert(s[1] == 'a' as u8);
            assert(s[2] == 'l' as u8);
            assert(s[3] == 'l' as u8);
            assert(forall|i: int| 0 <= i < s.len() ==> mnemonic_char(#[trigger] s[i]));
        },
        TokenType::Jmpp => {
            let s = mnemonic_bytes(TokenType::Jmpp);
            assert(s[0] == 'j' as u8);
            assert(s[1] == 'm' as u8);
            assert(s[2] == 'p' as u8);
            assert(s[3] == 'p' as u8);
            assert(forall|i: int| 0 <= i < s.len() ==> mnemonic_char(#[trigger] s[i]));
        },
        TokenType::Halt => {
            let s = mnemonic_bytes(TokenType::Halt);
            assert(s[0] == 'h' as u8);
            assert(s[1] == 'a' as u8);
            assert(s[2] == 'l' as u8);
            assert(s[3] == 't' as u8);
            assert(forall|i: int| 0 <= i < s.len() ==> mnemonic_char(#[trigger] s[i]));
        },
        TokenType::Ret => {
            let s = mnemonic_bytes(TokenType::Ret);
            assert(s[0] == 'r' as u8);
            assert(s[1] == 'e' as u8);
            assert(s[2] == 't' as u8);
            assert(forall|i: int| 0 <= i < s.len() ==> mnemonic_char(#[trigger] s[i]));
        },
        TokenType::Swap => {
            let s = mnemonic_bytes(TokenType::Swap);
            assert(s[0] == 's' as u8);
            assert(s[1] == 'w' as u8);
            assert(s[2] == 'a' as u8);
            assert(s[3] == 'p' as u8);
            assert(forall|i: int| 0 <= i < s.len() ==> mnemonic_char(#[trigger] s[i]));
        },
        TokenType::Jeq => {
            let s = mnemonic_bytes(TokenType::Jeq);
            assert(s[0] == 'j' as u8);
            assert(s[1] == 'e' as u8);
            assert(s[2] == 'q' as u8);
            assert(forall|i: int| 0 <= i < s.len() ==> mnemonic_char(#[trigger] s[i]));
        },
        TokenType::Jnz => {
            let s = mnemonic_bytes(TokenType::Jnz);
            assert(s[0] == 'j' as u8);
            assert(s[1] == 'n' as u8);
            assert(s[2] == 'z' as u8);
            assert(forall|i: int| 0 <= i < s.len() ==> mnemonic_char(#[trigger] s[i]));
        },
        TokenType::Cmp => {
            let s = mnemonic_bytes(TokenType::Cmp);
            assert(s[0] == 'c' as u8);
            assert(s[1] == 'm' as u8);
            assert(s[2] == 'p' as u8);
            assert(forall|i: int| 0 <= i < s.len() ==> mnemonic_char(#[trigger] s[i]));
        },
        TokenType::Int => {
            let s = mnemonic_bytes(TokenType::Int);
            assert(s[0] == 'i' as u8);
            assert(s[1] == 'n' as u8);
            assert(s[2] == 't' as u8);
            assert(forall|i: int| 0 <= i < s.len() ==> mnemonic_char(#[trigger] s[i]));
        },
        _ => {},
    }
}

/// A mnemonic is a plain word and ends in no colon.
proof fn lemma_mb_word(k: TokenType)
    requires
        !is_lexer_internal(k),
    ensures
        plain_word(mnemonic_bytes(k)),
        mnemonic_bytes(k).last() != ':' as u8,
{
    lemma_mb_shape(k);
    let s = mnemonic_bytes(k);
    assert(forall|i: int| 0 <= i < s.len() ==> !is_ws(#[trigger] s[i])) by {
        assert(forall|i: int| 0 <= i < s.len() ==> mnemonic_char(#[trigger] s[i]));
    }
    assert(mnemonic_char(s.last()));
}

/// Distinct instruction kinds have distinct mnemonics.
proof fn lemma_mb_distinct()
    ensures
        forall|k1: TokenType, k2: TokenType|
            !is_lexer_internal(k1) && !is_lexer_internal(k2) && k1 != k2
                ==> mnemonic_bytes(k1) != mnemonic_bytes(k2),
{
    assert forall|k1: TokenType, k2: TokenType|
        !is_lexer_internal(k1) && !is_lexer_internal(k2) && k1 != k2 implies mnemonic_bytes(k1)
        != mnemonic_bytes(k2) by {
        lemma_mb_shape(k1);
        lemma_mb_shape(k2);
        if mnemonic_bytes(k1) == mnemonic_bytes(k2) {
            assert(mnemonic_fp(mnemonic_bytes(k1)) == mnemonic_fp(mnemonic_bytes(k2)));
            assert(false);
        }
    }
}

/// The mnemonic table maps each executable kind's own mnemonic back to it.
proof fn lemma_mnemonic_kind_self(k: TokenType)
    requires
        !is_lexer_internal(k),
    ensures
        mnemonic_kind(mnemonic_bytes(k)) == Some(k),
        classify(mnemonic_bytes(k)) == k,
{
    lemma_mb_distinct();
    lemma_mb_word(k);
}

/// A digit string is no mnemonic and classifies as an immediate value.
proof fn lemma_number_classifies(v: u64)
    ensures
        classify(dec_rep(v as nat)) == TokenType::Value,
{
    lemma_dec_rep_val(v as nat);
    lemma_dec_rep_literal(v);
    let w = dec_rep(v as nat);
    assert(is_digit(w.last()));
    assert(w.last() != ':' as u8);
    assert forall|k: TokenType| !is_lexer_internal(k) implies mnemonic_bytes(k) != w by {
        lemma_mb_shape(k);
        if mnemonic_bytes(k) == w {
            assert(w[0] == mnemonic_bytes(k)[0]);
            assert(is_digit(w[0]));
            assert(false);
        }
    }
    assert(mnemonic_kind(w) is None);
}

/// The words a single record disassembles to: the mnemonic, then the
/// immediate in decimal for the kinds that carry one.
pub open spec fn record_words(r: ByteCode) -> Seq<Seq<u8>> {
    let k = kind_of_opcode(r.opcode);
    if spec_consumes_immediate(k) {
        seq![mnemonic_bytes(k), dec_rep(r.value as nat)]
    } else {
        seq![mnemonic_bytes(k)]
    }
}

/// The words of a whole program, in instruction order.
pub open spec fn disasm_words(p: Seq<ByteCode>) -> Seq<Seq<u8>>
    decreases p.len(),
{
    if p.len() == 0 {
        seq![]
    } else {
        disasm_words(p.drop_last()) + record_words(p.last())
    }
}

/// Words joined by single spaces.
pub open spec fn join_words(ws: Seq<Seq<u8>>) -> Seq<u8>
    decreases ws.len(),
{
    if ws.len() == 0 {
        seq![]
    } else if ws.len() == 1 {
        ws[0]
    } else {
        join_words(ws.drop_last()) + seq![' ' as u8] + ws.last()
    }
}

/// The disassembled source text of a program.
pub open spec fn disasm_text(p: Seq<ByteCode>) -> Seq<u8> {
    join_words(disasm_words(p))
}

/// A program the disassembler can render: every opcode is a real
/// instruction, and a kind that carries no immediate carries zero — nothing
/// the text could not say.
pub open spec fn disassemblable(p: Seq<ByteCode>) -> bool {
    forall|i: int|
        0 <= i < p.len() ==> {
            let k = kind_of_opcode((#[trigger] p[i]).opcode);
            !is_lexer_internal(k) && (spec_consumes_immediate(k) || p[i].value == 0)
        }
}

proof fn lemma_split_plain_word(w: Seq<u8>)
    requires
        forall|i: int| 0 <= i < w.len() ==> !is_ws(#[trigger] w[i]),
    ensures
        split_run(w) == (SplitState { words: Seq::<Seq<u8>>::empty(), cur: w }),
    decreases w.len(),
{
    if w.len() == 0 {
        assert(split_run(w) == (SplitState { words: Seq::<Seq<u8>>::empty(), cur: Seq::empty() }));
        assert(w =~= Seq::<u8>::empty());
    } else {
        lemma_split_plain_word(w.drop_last());
        assert(!is_ws(w.last()));
        assert(w.drop_last().push(w.last()) =~= w);
    }
}

proof fn lemma_split_append_word(t: Seq<u8>, w: Seq<u8>)
    requires
        forall|i: int| 0 <= i < w.len() ==> !is_ws(#[trigger] w[i]),
    ensures
        split_run(t + seq![' ' as u8] + w) == (SplitState { words: words_of(t), cur: w }),
    decreases w.len(),
{
    if w.len() == 0 {
        let u = t + seq![' ' as u8] + w;
        assert(u =~= t + seq![' ' as u8]);
        assert(u.drop_last() =~= t);
        assert(u.last() == ' ' as u8);
        assert(is_ws(' ' as u8));
        assert(split_run(u) =~= (SplitState { words: words_of(t), cur: w }));
    } else {
        lemma_split_append_word(t, w.drop_last());
        let u = t + seq![' ' as u8] + w;
        assert(u.drop_last() =~= t + seq![' ' as u8] + w.drop_last());
        assert(u.last() == w.last());
        assert(!is_ws(w.last()));
        assert(w.drop_last().push(w.last()) =~= w);
        assert(split_run(u) =~= (SplitState { words: words_of(t), cur: w }));
    }
}

/// Splitting the joined text of plain words gives the words back.
proof fn lemma_words_of_join(ws: Seq<Seq<u8>>)
    requires
        forall|i: int| 0 <= i < ws.len() ==> plain_word(#[trigger] ws[i]),
    ensures
        words_of(join_words(ws)) == ws,
    decreases ws.len(),
{
    if ws.len() == 0 {
        assert(words_of(join_words(ws)) =~= ws);
    } else if ws.len() == 1 {
        assert(plain_word(ws[0]));
        lemma_split_plain_word(ws[0]);
        assert(words_of(ws[0]) =~= seq![ws[0]]);
        assert(ws =~= seq![ws[0]]);
    } else {
        lemma_words_of_join(ws.drop_last());
        assert(plain_word(ws.last()));
        lemma_split_append_word(join_words(ws.drop_last()), ws.last());
        assert(words_of(join_words(ws)) =~= ws.drop_last().push(ws.last()));
        assert(ws.drop_last().push(ws.last()) =~= ws);
    }
}

/// Every word the disassembler writes is plain.
proof fn lemma_disasm_words_plain(p: Seq<ByteCode>)
    requires
        disassemblable(p),
    ensures
        forall|i: int| 0 <= i < disasm_words(p).len() ==> plain_word(#[trigger] disasm_words(p)[i]),
    decreases p.len(),
{
    if p.len() > 0 {
        assert(disassemblable(p.drop_last())) by {
            assert(forall|i: int|
                0 <= i < p.len() - 1 ==> p.drop_last()[i] == #[trigger] p[i]);
        }
        lemma_disasm_words_plain(p.drop_last());
        let r = p.last();
        let k = kind_of_opcode(r.opcode);
        assert(!is_lexer_internal(k));
        lemma_mb_word(k);
        lemma_dec_rep_val(r.value as nat);
        assert(plain_word(dec_rep(r.value as nat))) by {
            let w = dec_rep(r.value as nat);
            assert(forall|i: int| 0 <= i < w.len() ==> !is_ws(#[trigger] w[i])) by {
                assert(forall|i: int| 0 <= i < w.len() ==> is_digit(#[trigger] w[i]));
            }
        }
        assert(forall|i: int|
            0 <= i < disasm_words(p).len() ==> plain_word(#[trigger] disasm_words(p)[i])) by {
            let front = disasm_words(p.drop_last());
            assert(forall|i: int|
                0 <= i < front.len() ==> disasm_words(p)[i] == #[trigger] front[i]);
            assert(forall|i: int|
                front.len() <= i < disasm_words(p).len() ==> #[trigger] disasm_words(p)[i]
                    == record_words(r)[i - front.len()]);
        }
    }
}

/// The tokens the assembler's first pass reads back from the disassembled
/// words of a program.
pub open spec fn disasm_toks(p: Seq<ByteCode>) -> Seq<(TokenType, Seq<u8>)>
    decreases p.len(),
{
    if p.len() == 0 {
        seq![]
    } else {
        let r = p.last();
        let k = kind_of_opcode(r.opcode);
        disasm_toks(p.drop_last()) + if spec_consumes_immediate(k) {
            seq![(k, mnemonic_bytes(k)), (TokenType::Value, dec_rep(r.value as nat))]
        } else {
            seq![(k, mnemonic_bytes(k))]
        }
    }
}

/// The first pass reads the disassembled words back as exactly the expected
/// tokens, defining no labels.
proof fn lemma_pass1_disasm(p: Seq<ByteCode>)
    requires
        disassemblable(p),
    ensures
        pass1_run(disasm_words(p)).toks == disasm_toks(p),
        pass1_run(disasm_words(p)).labels == Map::<Seq<u8>, nat>::empty(),
    decreases p.len(),
{
    if p.len() == 0 {
        assert(disasm_words(p) =~= Seq::<Seq<u8>>::empty());
    } else {
        assert(disassemblable(p.drop_last())) by {
            assert(forall|i: int|
                0 <= i < p.len() - 1 ==> p.drop_last()[i] == #[trigger] p[i]);
        }
        lemma_pass1_disasm(p.drop_last());
        let r = p.last();
        let k = kind_of_opcode(r.opcode);
        assert(!is_lexer_internal(k));
        lemma_mnemonic_kind_self(k);
        lemma_mb_word(k);
        let front = disasm_words(p.drop_last());
        let ws = disasm_words(p);
        if spec_consumes_immediate(k) {
            lemma_number_classifies(r.value);
            lemma_dec_rep_val(r.value as nat);
            let w1 = mnemonic_bytes(k);
            let w2 = dec_rep(r.value as nat);
            assert(ws =~= front.push(w1).push(w2));
            assert(ws.drop_last() =~= front.push(w1));
            assert(front.push(w1).drop_last() =~= front);
            assert(pass1_run(front.push(w1)) == pass1_step(pass1_run(front), w1));
            assert(w1.last() != ':' as u8);
            assert(is_digit(w2.last()));
            assert(w2.last() != ':' as u8);
            assert(pass1_run(ws).toks =~= disasm_toks(p));
        } else {
            let w1 = mnemonic_bytes(k);
            assert(ws =~= front.push(w1));
            assert(ws.drop_last() =~= front);
            assert(w1.last() != ':' as u8);
            assert(pass1_run(ws).toks =~= disasm_toks(p));
        }
    }
}

/// No disassembled token is an unresolved name.
proof fn lemma_disasm_toks_no_names(p: Seq<ByteCode>)
    requires
        disassemblable(p),
    ensures
        forall|i: int|
            0 <= i < disasm_toks(p).len() ==> (#[trigger] disasm_toks(p)[i]).0 != TokenType::Name,
    decreases p.len(),
{
    if p.len() > 0 {
        assert(disassemblable(p.drop_last())) by {
            assert(forall|i: int|
                0 <= i < p.len() - 1 ==> p.drop_last()[i] == #[trigger] p[i]);
        }
        lemma_disasm_toks_no_names(p.drop_last());
        let front = disasm_toks(p.drop_last());
        assert(forall|i: int|
            0 <= i < front.len() ==> disasm_toks(p)[i] == #[trigger] front[i]);
        let k = kind_of_opcode(p.last().opcode);
        assert(k != TokenType::Name);
    }
}

/// Emission appended to an emission: a token list that emits cleanly can be
/// extended, and the records concatenate.
proof fn lemma_emit_append(ts: Seq<(TokenType, Seq<u8>)>, tail: Seq<(TokenType, Seq<u8>)>)
    requires
        emit_spec(ts) is Ok,
    ensures
        emit_spec(ts + tail) == match emit_spec(tail) {
            Ok(r2) => Ok::<Seq<ERec>, AsmError>(emit_spec(ts)->Ok_0 + r2),
            Err(e) => Err::<Seq<ERec>, AsmError>(e),
        },
    decreases ts.len(),
{
    if ts.len() == 0 {
        assert(ts + tail =~= tail);
        if emit_spec(tail) is Ok {
            assert(emit_spec(ts)->Ok_0 + emit_spec(tail)->Ok_0 =~= emit_spec(tail)->Ok_0);
        }
    } else {
        let u = ts + tail;
        let k = ts.first().0;
        assert(u.first() == ts.first());
        assert(!is_lexer_internal(k));
        if spec_consumes_immediate(k) {
            assert(ts.len() >= 2);
            assert(u[1] == ts[1]);
            assert(u.skip(2) =~= ts.skip(2) + tail);
            lemma_emit_append(ts.skip(2), tail);
            if emit_spec(tail) is Ok {
                assert(emit_spec(u)->Ok_0 =~= emit_spec(ts)->Ok_0 + emit_spec(tail)->Ok_0);
            }
        } else {
            assert(u.drop_first() =~= ts.drop_first() + tail);
            lemma_emit_append(ts.drop_first(), tail);
            if emit_spec(tail) is Ok {
                assert(emit_spec(u)->Ok_0 =~= emit_spec(ts)->Ok_0 + emit_spec(tail)->Ok_0);
            }
        }
    }
}

/// The emitted units of a disassembled program: each record, complete.
pub open spec fn val_recs(p: Seq<ByteCode>) -> Seq<ERec> {
    p.map_values(|r: ByteCode| ERec::Val(r))
}

proof fn lemma_val_recs_no_slots(p: Seq<ByteCode>)
    ensures
        slots_of(val_recs(p)).len() == 0,
        records_of(val_recs(p)) == p,
    decreases p.len(),
{
    if p.len() == 0 {
        assert(val_recs(p) =~= Seq::<ERec>::empty());
        assert(records_of(val_recs(p)) =~= p);
    } else {
        lemma_val_recs_no_slots(p.drop_last());
        assert(val_recs(p).drop_last() =~= val_recs(p.drop_last()));
        assert(val_recs(p).last() == ERec::Val(p.last()));
        assert(records_of(val_recs(p)) =~= p);
    }
}

/// Emission turns the disassembled tokens back into the records.
proof fn lemma_emit_disasm(p: Seq<ByteCode>)
    requires
        disassemblable(p),
    ensures
        emit_spec(disasm_toks(p)) == Ok::<Seq<ERec>, AsmError>(val_recs(p)),
    decreases p.len(),
{
    if p.len() == 0 {
        assert(disasm_toks(p) =~= Seq::<(TokenType, Seq<u8>)>::empty());
        assert(val_recs(p) =~= Seq::<ERec>::empty());
    } else {
        assert(disassemblable(p.drop_last())) by {
            assert(forall|i: int|
                0 <= i < p.len() - 1 ==> p.drop_last()[i] == #[trigger] p[i]);
        }
        lemma_emit_disasm(p.drop_last());
        let r = p.last();
        let k = kind_of_opcode(r.opcode);
        assert(!is_lexer_internal(k));
        assert(opcode_of(k) == r.opcode);
        let tail = if spec_consumes_immediate(k) {
            seq![(k, mnemonic_bytes(k)), (TokenType::Value, dec_rep(r.value as nat))]
        } else {
            seq![(k, mnemonic_bytes(k))]
        };
        lemma_emit_append(disasm_toks(p.drop_last()), tail);
        if spec_consumes_immediate(k) {
            lemma_dec_rep_literal(r.value);
            assert(tail.len() == 2);
            assert(tail.first() == (k, mnemonic_bytes(k)));
            assert(tail[1] == (TokenType::Value, dec_rep(r.value as nat)));
            assert(encode_imm(tail[1].1) == ImmEnc::Int(r.value));
            assert(tail.skip(2) =~= Seq::<(TokenType, Seq<u8>)>::empty());
            assert(emit_spec(tail.skip(2)) == Ok::<Seq<ERec>, AsmError>(Seq::empty()));
            let r0 = ERec::Val(ByteCode { opcode: opcode_of(k), value: r.value });
            assert(emit_spec(tail) == Ok::<Seq<ERec>, AsmError>(seq![r0] + Seq::<ERec>::empty()));
            assert(r0 == ERec::Val(r));
            assert(seq![r0] + Seq::<ERec>::empty() =~= seq![ERec::Val(r)]);
        } else {
            assert(r.value == 0);
            assert(tail.len() == 1);
            assert(tail.first() == (k, mnemonic_bytes(k)));
            assert(tail.drop_first() =~= Seq::<(TokenType, Seq<u8>)>::empty());
            assert(emit_spec(tail.drop_first()) == Ok::<Seq<ERec>, AsmError>(Seq::empty()));
            let r0 = ERec::Val(ByteCode { opcode: opcode_of(k), value: 0 });
            assert(emit_spec(tail) == Ok::<Seq<ERec>, AsmError>(seq![r0] + Seq::<ERec>::empty()));
            assert(r0 == ERec::Val(r));
            assert(seq![r0] + Seq::<ERec>::empty() =~= seq![ERec::Val(r)]);
        }
        assert(emit_spec(tail) == Ok::<Seq<ERec>, AsmError>(seq![ERec::Val(r)]));
        assert(val_recs(p.drop_last()) + seq![ERec::Val(r)] =~= val_recs(p));
    }
}

/// The assembler is the disassembler's inverse: re-assembling the
/// disassembled text of a renderable program whose last instruction is
/// `halt` (or which is empty) yields exactly the program back, with no
/// pending float immediates.
pub proof fn lemma_assemble_disassemble(p: Seq<ByteCode>)
    requires
        disassemblable(p),
        p.len() == 0 || kind_of_opcode(p.last().opcode) == TokenType::Halt,
    ensures
        asm_spec(disasm_text(p)) is Ok,
        records_of(asm_spec(disasm_text(p))->Ok_0) == p,
        slots_of(asm_spec(disasm_text(p))->Ok_0).len() == 0,
{
    lemma_disasm_words_plain(p);
    lemma_words_of_join(disasm_words(p));
    lemma_pass1_disasm(p);
    let toks = disasm_toks(p);
    lemma_disasm_toks_no_names(p);
    assert forall|i: int| 0 <= i < toks.len() implies resolve_tok(
        #[trigger] toks[i],
        Map::<Seq<u8>, nat>::empty(),
    ) == Ok::<(TokenType, Seq<u8>), AsmError>(toks[i]) by {
        assert(toks[i].0 != TokenType::Name);
    }
    lemma_resolve_all_identity(toks);
    if p.len() > 0 {
        let k = kind_of_opcode(p.last().opcode);
        assert(!spec_consumes_immediate(TokenType::Halt));
        assert(toks.last().0 == TokenType::Halt);
        assert(with_halt(toks) == toks);
    } else {
        assert(toks =~= Seq::<(TokenType, Seq<u8>)>::empty());
    }
    lemma_emit_disasm(p);
    lemma_val_recs_no_slots(p);
}

proof fn lemma_resolve_all_identity(ts: Seq<(TokenType, Seq<u8>)>)
    requires
        forall|i: int|
            0 <= i < ts.len() ==> resolve_tok(#[trigger] ts[i], Map::<Seq<u8>, nat>::empty())
                == Ok::<(TokenType, Seq<u8>), AsmError>(ts[i]),
    ensures
        resolve_all(ts, Map::<Seq<u8>, nat>::empty()) == Ok::<Seq<(TokenType, Seq<u8>)>, AsmError>(
            ts,
        ),
    decreases ts.len(),
{
    if ts.len() > 0 {
        let dropped = ts.drop_first();
        assert forall|i: int|
            0 <= i < dropped.len() implies resolve_tok(
            #[trigger] dropped[i],
            Map::<Seq<u8>, nat>::empty(),
        ) == Ok::<(TokenType, Seq<u8>), AsmError>(dropped[i]) by {
            assert(dropped[i] == ts[i + 1]);
        }
        lemma_resolve_all_identity(dropped);
        assert(resolve_tok(ts.first(), Map::<Seq<u8>, nat>::empty()) == Ok::<
            (TokenType, Seq<u8>),
            AsmError,
        >(ts.first())) by {
            assert(ts.first() == ts[0]);
        }
        assert(seq![ts.first()] + dropped =~= ts);
    } else {
        assert(ts =~= Seq::<(TokenType, Seq<u8>)>::empty());
    }
}

/// Renders a program back to source text: one mnemonic per record, the
/// immediate in decimal after the kinds that carry one, single spaces
/// between words. Refused when a record's opcode is no real instruction or
/// an immediate-less record carries a nonzero value.
pub fn disassemble(bin: &Vec<ByteCode>) -> (r: Option<Vec<u8>>)
    ensures
        match r {
            Some(t) => disassemblable(bin@) && t@ == disasm_text(bin@),
            None => !disassemblable(bin@),
        },
{
    let mut words: Vec<Vec<u8>> = Vec::new();
    let mut i: usize = 0;
    proof {
        assert(bin@.take(0) =~= Seq::<ByteCode>::empty());
        assert(disasm_words(bin@.take(0)) =~= Seq::<Seq<u8>>::empty());
        assert(crate::assembler::words_view(words@) =~= Seq::<Seq<u8>>::empty());
    }
    while i < bin.len()
        invariant
            0 <= i <= bin@.len(),
            disassemblable(bin@.take(i as int)),
            crate::assembler::words_view(words@) == disasm_words(bin@.take(i as int)),
        decreases bin@.len() - i,
    {
        let rec = bin[i];
        proof {
            assert(bin@.take(i + 1).drop_last() =~= bin@.take(i as int));
            assert(bin@.take(i + 1).last() == rec);
        }
        let k = TokenType::from(rec.opcode);
        let internal = matches!(k, TokenType::Value | TokenType::Label
            | TokenType::Name | TokenType::Invalid);
        if internal || (!k.consumes_immediate() && rec.value != 0) {
            proof {
                assert(!disassemblable(bin@)) by {
                    assert(bin@[i as int] == rec);
                }
            }
            return None;
        }
        let ghost pre = crate::assembler::words_view(words@);
        words.push(k.mnemonic_of());
        proof {
            assert(crate::assembler::words_view(words@) =~= pre.push(mnemonic_bytes(k)));
        }
        if k.consumes_immediate() {
            let ghost pre2 = crate::assembler::words_view(words@);
            words.push(crate::literals::u64_to_dec(rec.value));
            proof {
                assert(crate::assembler::words_view(words@) =~= pre2.push(
                    dec_rep(rec.value as nat),
                ));
            }
        }
        proof {
            assert(crate::assembler::words_view(words@) =~= disasm_words(bin@.take(i + 1)));
            assert(disassemblable(bin@.take(i + 1)));
        }
        i = i + 1;
    }
    assert(bin@.take(i as int) =~= bin@);
    let ghost ws = crate::assembler::words_view(words@);
    let mut text: Vec<u8> = Vec::new();
    let mut j: usize = 0;
    proof {
        assert(join_words(ws.take(0)) =~= Seq::<u8>::empty());
    }
    while j < words.len()
        invariant
            0 <= j <= words@.len(),
            ws == crate::assembler::words_view(words@),
            text@ == join_words(ws.take(j as int)),
        decreases words@.len() - j,
    {
        proof {
            assert(ws.take(j + 1).drop_last() =~= ws.take(j as int));
            assert(ws.take(j + 1).last() == ws[j as int]);
            assert(ws[j as int] == words@[j as int]@);
        }
        if j > 0 {
            text.push(32);
            assert(text@ =~= join_words(ws.take(j as int)) + seq![' ' as u8]);
        }
        crate::bytes::append_bytes(&mut text, words[j].as_slice());
        proof {
            if j == 0 {
                assert(ws.take(1) =~= seq![ws[0]]);
                assert(text@ =~= join_words(ws.take(1)));
            } else {
                assert(text@ =~= join_words(ws.take(j + 1)));
            }
        }
        j = j + 1;
    }
    assert(ws.take(j as int) =~= ws);
    Some(text)
}

} // verus!
