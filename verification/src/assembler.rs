use vstd::prelude::*;
use crate::codec::ByteCode;
use crate::isa::{TokenType, is_lexer_internal, opcode_of, spec_consumes_immediate};
use crate::lexer::{Token, classify};
use crate::literals::{
    dec_rep, is_u64_literal, is_i64_literal, is_float_literal, i64_literal_val, u64_literal_val,
    parse_u64, parse_i64, u64_to_dec, is_float_literal_bytes,
};

verus! {

/// A failure of the assembler.
#[derive(Clone, Copy, Debug, PartialEq, Eq, Structural)]
pub enum AsmError {
    /// A bare word that names no mnemonic stood where an instruction was
    /// expected.
    UnknownMnemonic,
    /// An immediate stood on its own, with no instruction to consume it.
    OrphanImmediate,
    /// A name was neither a defined label nor a plain unsigned number.
    UnresolvedSymbol,
    /// An operand lexeme reads as no supported immediate form.
    MalformedImmediate,
}

/// ASCII whitespace, the only token separators of the source language.
pub open spec fn is_ws(b: u8) -> bool {
    b == 32 || b == 9 || b == 10 || b == 11 || b == 12 || b == 13
}

/// The splitter's running state: the words already closed and the word being
/// gathered.
#[verifier::ext_equal]
pub struct SplitState {
    pub words: Seq<Seq<u8>>,
    pub cur: Seq<u8>,
}

/// One byte of splitting: whitespace closes the gathered word, anything else
/// extends it.
pub open spec fn split_step(st: SplitState, b: u8) -> SplitState {
    if is_ws(b) {
        if st.cur.len() > 0 {
            SplitState { words: st.words.push(st.cur), cur: seq![] }
        } else {
            st
        }
    } else {
        SplitState { words: st.words, cur: st.cur.push(b) }
    }
}

/// Splitting state after reading all of `s`.
pub open spec fn split_run(s: Seq<u8>) -> SplitState
    decreases s.len(),
{
    if s.len() == 0 {
        SplitState { words: seq![], cur: seq![] }
    } else {
        split_step(split_run(s.drop_last()), s.last())
    }
}

/// The whitespace-separated words of the source, in order.
pub open spec fn words_of(s: Seq<u8>) -> Seq<Seq<u8>> {
    let st = split_run(s);
    if st.cur.len() > 0 {
        st.words.push(st.cur)
    } else {
        st.words
    }
}

/// The views of a word list.
pub open spec fn words_view(ws: Seq<Vec<u8>>) -> Seq<Seq<u8>> {
    ws.map_values(|w: Vec<u8>| w@)
}

fn split_words(code: &[u8]) -> (r: Vec<Vec<u8>>)
    ensures
        words_view(r@) == words_of(code@),
{
    let mut words: Vec<Vec<u8>> = Vec::new();
    let mut cur: Vec<u8> = Vec::new();
    let mut i: usize = 0;
    while i < code.len()
        invariant
            0 <= i <= code@.len(),
            split_run(code@.take(i as int)).words == words_view(words@),
            split_run(code@.take(i as int)).cur == cur@,
        decreases code@.len() - i,
    {
        let b = code[i];
        proof {
            assert(code@.take(i + 1).drop_last() =~= code@.take(i as int));
            assert(code@.take(i + 1).last() == b);
        }
        let ghost pre_words = words_view(words@);
        let ghost pre_cur = cur@;
        if b == 32 || b == 9 || b == 10 || b == 11 || b == 12 || b == 13 {
            if cur.len() > 0 {
                words.push(cur);
                cur = Vec::new();
                assert(words_view(words@) =~= pre_words.push(pre_cur));
            }
        } else {
            assert(!is_ws(b));
            cur.push(b);
        }
        i = i + 1;
    }
    assert(code@.take(i as int) =~= code@);
    if cur.len() > 0 {
        let ghost pre_words = words_view(words@);
        words.push(cur);
        assert(words_view(words@) =~= pre_words.push(split_run(code@).cur));
    }
    words
}

/// A label word with every trailing `:` removed.
pub open spec fn strip_label_colons(w: Seq<u8>) -> Seq<u8>
    decreases w.len(),
{
    if w.len() > 0 && w.last() == ':' as u8 {
        strip_label_colons(w.drop_last())
    } else {
        w
    }
}

fn strip_colons(w: &[u8]) -> (r: Vec<u8>)
    ensures
        r@ == strip_label_colons(w@),
{
    let mut e = w.len();
    assert(w@.take(e as int) =~= w@);
    while e > 0 && w[e - 1] == 58
        invariant
            0 <= e <= w@.len(),
            strip_label_colons(w@) == strip_label_colons(w@.take(e as int)),
        decreases e,
    {
        proof {
            assert(w@.take(e as int).last() == ':' as u8);
            assert(w@.take(e as int).drop_last() =~= w@.take(e - 1));
        }
        e = e - 1;
    }
    proof {
        if e > 0 {
            assert(w@.take(e as int).last() != ':' as u8);
        }
        assert(strip_label_colons(w@.take(e as int)) == w@.take(e as int));
    }
    crate::bytes::to_vec(vstd::slice::slice_subrange(w, 0, e))
}

/// The first pass's running state: classified tokens, the label table, and
/// the position the next instruction will occupy.
#[verifier::ext_equal]
pub struct Pass1 {
    pub toks: Seq<(TokenType, Seq<u8>)>,
    pub labels: Map<Seq<u8>, nat>,
    pub pos: nat,
}

/// One word of the first pass. A label definition records the current
/// position and emits no token; any other word is classified and kept, and
/// only instruction words advance the position.
pub open spec fn pass1_step(st: Pass1, w: Seq<u8>) -> Pass1 {
    if w.len() > 0 && w.last() == ':' as u8 {
        Pass1 { toks: st.toks, labels: st.labels.insert(strip_label_colons(w), st.pos), pos: st.pos }
    } else {
        let k = classify(w);
        Pass1 {
            toks: st.toks.push((k, w)),
            labels: st.labels,
            pos: if is_lexer_internal(k) {
                st.pos
            } else {
                st.pos + 1
            },
        }
    }
}

/// First-pass state after all words.
pub open spec fn pass1_run(ws: Seq<Seq<u8>>) -> Pass1
    decreases ws.len(),
{
    if ws.len() == 0 {
        Pass1 { toks: seq![], labels: Map::empty(), pos: 0 }
    } else {
        pass1_step(pass1_run(ws.drop_last()), ws.last())
    }
}

/// The mapping an association list denotes; a later entry overrides an
/// earlier one with the same name.
pub open spec fn map_of(es: Seq<(Vec<u8>, u64)>) -> Map<Seq<u8>, nat>
    decreases es.len(),
{
    if es.len() == 0 {
        Map::empty()
    } else {
        map_of(es.drop_last()).insert(es.last().0@, es.last().1 as nat)
    }
}

fn lookup_label(es: &Vec<(Vec<u8>, u64)>, key: &[u8]) -> (r: Option<u64>)
    ensures
        match r {
            Some(v) => map_of(es@).contains_key(key@) && map_of(es@)[key@] == v as nat,
            None => !map_of(es@).contains_key(key@),
        },
{
    let mut i = es.len();
    assert(es@.take(i as int) =~= es@);
    while i > 0
        invariant
            0 <= i <= es@.len(),
            map_of(es@).contains_key(key@) == map_of(es@.take(i as int)).contains_key(key@),
            map_of(es@).contains_key(key@) ==> map_of(es@)[key@] == map_of(
                es@.take(i as int),
            )[key@],
        decreases i,
    {
        proof {
            assert(es@.take(i as int).drop_last() =~= es@.take(i - 1));
            assert(es@.take(i as int).last() == es@[i - 1]);
        }
        i = i - 1;
        if crate::bytes::bytes_eq(es[i].0.as_slice(), key) {
            return Some(es[i].1);
        }
    }
    assert(es@.take(0) =~= Seq::<(Vec<u8>, u64)>::empty());
    None
}

/// The view of a token list: each token as its kind and lexeme.
pub open spec fn toks_view(ts: Seq<Token>) -> Seq<(TokenType, Seq<u8>)> {
    ts.map_values(|t: Token| (t.kind, t.value@))
}

/// First pass over the source: split, classify, and collect labels.
fn pass1_exec(code: &[u8]) -> (r: (Vec<Token>, Vec<(Vec<u8>, u64)>))
    ensures
        toks_view(r.0@) == pass1_run(words_of(code@)).toks,
        map_of(r.1@) == pass1_run(words_of(code@)).labels,
{
    let words = split_words(code);
    let ghost ws = words_view(words@);
    let mut toks: Vec<Token> = Vec::new();
    let mut labels: Vec<(Vec<u8>, u64)> = Vec::new();
    let mut pos: u64 = 0;
    let mut j: usize = 0;
    while j < words.len()
        invariant
            0 <= j <= words@.len(),
            ws == words_view(words@),
            toks_view(toks@) == pass1_run(ws.take(j as int)).toks,
            map_of(labels@) == pass1_run(ws.take(j as int)).labels,
            pos == pass1_run(ws.take(j as int)).pos,
            pos <= j,
        decreases words@.len() - j,
    {
        proof {
            assert(ws.take(j + 1).drop_last() =~= ws.take(j as int));
            assert(ws.take(j + 1).last() == ws[j as int]);
            assert(ws[j as int] == words@[j as int]@);
        }
        let w: &Vec<u8> = &words[j];
        let ghost pre_toks = toks_view(toks@);
        let ghost pre_labels = map_of(labels@);
        if w.len() > 0 && w[w.len() - 1] == 58 {
            assert(w@.last() == ':' as u8);
            let name = strip_colons(w.as_slice());
            let ghost pre = labels@;
            labels.push((name, pos));
            proof {
                assert(labels@.drop_last() =~= pre);
                assert(map_of(labels@) == pre_labels.insert(strip_label_colons(w@), pos as nat));
            }
        } else {
            let t = Token::new(w.as_slice());
            let is_internal = matches!(t.kind, TokenType::Value | TokenType::Label
                | TokenType::Name | TokenType::Invalid);
            assert(is_internal == is_lexer_internal(t.kind));
            let ghost pre = toks@;
            toks.push(t);
            proof {
                assert(toks@.drop_last() =~= pre);
                assert(toks_view(toks@) =~= pre_toks.push((t.kind, t.value@)));
            }
            if !is_internal {
                pos = pos + 1;
            }
        }
        j = j + 1;
    }
    assert(ws.take(j as int) =~= ws);
    (toks, labels)
}

/// Resolution of one token: a `Name` is replaced by its label's position
/// written in decimal; a name that is no label must itself read as a plain
/// unsigned number.
pub open spec fn resolve_tok(t: (TokenType, Seq<u8>), labels: Map<Seq<u8>, nat>) -> Result<
    (TokenType, Seq<u8>),
    AsmError,
> {
    if t.0 == TokenType::Name {
        if labels.contains_key(t.1) {
            Ok((TokenType::Name, dec_rep(labels[t.1])))
        } else if is_u64_literal(t.1) {
            Ok(t)
        } else {
            Err(AsmError::UnresolvedSymbol)
        }
    } else {
        Ok(t)
    }
}

/// Resolution of a token list; the first failure wins.
pub open spec fn resolve_all(ts: Seq<(TokenType, Seq<u8>)>, labels: Map<Seq<u8>, nat>) -> Result<
    Seq<(TokenType, Seq<u8>)>,
    AsmError,
>
    decreases ts.len(),
{
    if ts.len() == 0 {
        Ok(seq![])
    } else {
        match resolve_tok(ts.first(), labels) {
            Err(e) => Err(e),
            Ok(t0) => match resolve_all(ts.drop_first(), labels) {
                Err(e) => Err(e),
                Ok(r) => Ok(seq![t0] + r),
            },
        }
    }
}

proof fn lemma_resolve_all_ok(
    orig: Seq<(TokenType, Seq<u8>)>,
    cur: Seq<(TokenType, Seq<u8>)>,
    labels: Map<Seq<u8>, nat>,
)
    requires
        orig.len() == cur.len(),
        forall|k: int| 0 <= k < orig.len() ==> resolve_tok(#[trigger] orig[k], labels) == Ok::<
            (TokenType, Seq<u8>),
            AsmError,
        >(cur[k]),
    ensures
        resolve_all(orig, labels) == Ok::<Seq<(TokenType, Seq<u8>)>, AsmError>(cur),
    decreases orig.len(),
{
    if orig.len() == 0 {
        assert(cur =~= Seq::<(TokenType, Seq<u8>)>::empty());
    } else {
        assert(resolve_tok(orig[0], labels) == Ok::<(TokenType, Seq<u8>), AsmError>(cur[0]));
        lemma_resolve_all_ok(orig.drop_first(), cur.drop_first(), labels);
        assert(seq![cur[0]] + cur.drop_first() =~= cur);
    }
}

proof fn lemma_resolve_all_err(
    orig: Seq<(TokenType, Seq<u8>)>,
    j: int,
    e: AsmError,
    labels: Map<Seq<u8>, nat>,
)
    requires
        0 <= j < orig.len(),
        forall|k: int| 0 <= k < j ==> resolve_tok(#[trigger] orig[k], labels) is Ok,
        resolve_tok(orig[j], labels) == Err::<(TokenType, Seq<u8>), AsmError>(e),
    ensures
        resolve_all(orig, labels) == Err::<Seq<(TokenType, Seq<u8>)>, AsmError>(e),
    decreases j,
{
    if j == 0 {
    } else {
        assert(resolve_tok(orig[0], labels) is Ok);
        lemma_resolve_all_err(orig.drop_first(), j - 1, e, labels);
    }
}

/// A token list with the implicit final halt: if the last token is not
/// already `halt`, one is appended.
pub open spec fn with_halt(ts: Seq<(TokenType, Seq<u8>)>) -> Seq<(TokenType, Seq<u8>)> {
    if ts.len() == 0 {
        ts
    } else if ts.last().0 == TokenType::Halt {
        ts
    } else {
        ts.push((TokenType::Halt, crate::isa::mnemonic_bytes(TokenType::Halt)))
    }
}

/// The whole front end: first pass, resolution, implicit halt.
pub open spec fn parse_code_spec(code: Seq<u8>) -> Result<Seq<(TokenType, Seq<u8>)>, AsmError> {
    let p = pass1_run(words_of(code));
    match resolve_all(p.toks, p.labels) {
        Err(e) => Err(e),
        Ok(ts) => Ok(with_halt(ts)),
    }
}

/// Splits the source into tokens, records label positions, resolves names to
/// their labels' positions, and appends the implicit final `halt`.
pub fn parse_code(code: &[u8]) -> (r: Result<Vec<Token>, AsmError>)
    ensures
        match r {
            Ok(ts) => parse_code_spec(code@) == Ok::<_, AsmError>(toks_view(ts@)),
            Err(e) => parse_code_spec(code@) == Err::<Seq<(TokenType, Seq<u8>)>, AsmError>(e),
        },
{
    let (mut toks, labels) = pass1_exec(code);
    let ghost orig = toks_view(toks@);
    let ghost lmap = map_of(labels@);
    let mut j: usize = 0;
    while j < toks.len()
        invariant
            0 <= j <= toks@.len(),
            toks@.len() == orig.len(),
            lmap == map_of(labels@),
            orig == pass1_run(words_of(code@)).toks,
            lmap == pass1_run(words_of(code@)).labels,
            forall|k: int| j <= k < orig.len() ==> toks_view(toks@)[k] == orig[k],
            forall|k: int| 0 <= k < j ==> resolve_tok(#[trigger] orig[k], lmap) == Ok::<
                (TokenType, Seq<u8>),
                AsmError,
            >(toks_view(toks@)[k]),
        decreases toks@.len() - j,
    {
        let kind = toks[j].kind;
        if matches!(kind, TokenType::Name) {
            let ghost pre = toks_view(toks@);
            match lookup_label(&labels, toks[j].value.as_slice()) {
                Some(v) => {
                    let newval = u64_to_dec(v);
                    proof {
                        crate::literals::lemma_dec_rep_val(v as nat);
                    }
                    toks[j] = Token { kind: TokenType::Name, value: newval };
                    proof {
                        assert(toks_view(toks@) =~= pre.update(
                            j as int,
                            (TokenType::Name, dec_rep(v as nat)),
                        ));
                    }
                },
                None => {
                    if parse_u64(toks[j].value.as_slice()).is_none() {
                        proof {
                            assert(orig[j as int] == toks_view(toks@)[j as int]);
                            lemma_resolve_all_err(orig, j as int, AsmError::UnresolvedSymbol, lmap);
                        }
                        return Err(AsmError::UnresolvedSymbol);
                    }
                },
            }
        }
        j = j + 1;
    }
    proof {
        lemma_resolve_all_ok(orig, toks_view(toks@), lmap);
    }
    let n = toks.len();
    if n > 0 {
        let last_is_halt = matches!(toks[n - 1].kind, TokenType::Halt);
        assert(toks_view(toks@).last().0 == toks@[n - 1].kind);
        if !last_is_halt {
            let ghost pre = toks_view(toks@);
            let lit: [u8; 4] = ['h' as u8, 'a' as u8, 'l' as u8, 't' as u8];
            let value = crate::bytes::to_vec(lit.as_slice());
            assert(value@ =~= crate::isa::mnemonic_bytes(TokenType::Halt));
            toks.push(Token { kind: TokenType::Halt, value });
            proof {
                assert(toks_view(toks@) =~= pre.push(
                    (TokenType::Halt, crate::isa::mnemonic_bytes(TokenType::Halt)),
                ));
            }
        }
    }
    Ok(toks)
}

/// An immediate operand as the emitter reads it.
pub enum ImmEnc {
    /// Encoded outright: an unsigned value or the two's-complement bits of a
    /// signed one.
    Int(u64),
    /// A double-precision float lexeme whose bits the caller must supply.
    F64(Seq<u8>),
    /// A single-precision float lexeme (suffix stripped) whose bits the
    /// caller must supply.
    F32(Seq<u8>),
    /// No immediate form matches.
    Bad,
}

/// The two's-complement 64-bit image of a signed value.
pub open spec fn i64_bits(v: int) -> u64
    recommends
        -0x8000_0000_0000_0000 <= v < 0x8000_0000_0000_0000,
{
    if v >= 0 {
        v as u64
    } else {
        (v + 0x1_0000_0000_0000_0000) as u64
    }
}

/// How an operand lexeme encodes, trying unsigned, signed, double, then
/// suffixed single precision, in that order.
pub open spec fn encode_imm(s: Seq<u8>) -> ImmEnc {
    if is_u64_literal(s) {
        ImmEnc::Int(u64_literal_val(s) as u64)
    } else if is_i64_literal(s) {
        ImmEnc::Int(i64_bits(i64_literal_val(s)))
    } else if is_float_literal(s) {
        ImmEnc::F64(s)
    } else if s.len() > 0 && s.last() == 'f' as u8 && is_float_literal(s.drop_last()) {
        ImmEnc::F32(s.drop_last())
    } else {
        ImmEnc::Bad
    }
}

/// An emitted record: complete, or awaiting the bits of a float literal.
pub enum ERec {
    Val(ByteCode),
    F64(u8, Seq<u8>),
    F32(u8, Seq<u8>),
}

/// The record a unit occupies; a pending float occupies its record with a
/// zero immediate until its bits arrive.
pub open spec fn erec_record(e: ERec) -> ByteCode {
    match e {
        ERec::Val(b) => b,
        ERec::F64(op, _) => ByteCode { opcode: op, value: 0 },
        ERec::F32(op, _) => ByteCode { opcode: op, value: 0 },
    }
}

/// The records of an emitted unit list.
pub open spec fn records_of(ers: Seq<ERec>) -> Seq<ByteCode> {
    ers.map_values(|e: ERec| erec_record(e))
}

/// The pending float requests of an emitted unit list: each record index
/// with its lexeme and whether it is single precision.
pub open spec fn slots_of(ers: Seq<ERec>) -> Seq<(int, Seq<u8>, bool)>
    decreases ers.len(),
{
    if ers.len() == 0 {
        seq![]
    } else {
        slots_of(ers.drop_last()) + (match ers.last() {
            ERec::Val(_) => seq![],
            ERec::F64(_, l) => seq![(ers.len() - 1, l, false)],
            ERec::F32(_, l) => seq![(ers.len() - 1, l, true)],
        })
    }
}

/// Emission: each instruction token becomes one record; the kinds that take
/// an immediate consume the following token as their operand.
pub open spec fn emit_spec(ts: Seq<(TokenType, Seq<u8>)>) -> Result<Seq<ERec>, AsmError>
    decreases ts.len(),
{
    if ts.len() == 0 {
        Ok(seq![])
    } else {
        let k = ts.first().0;
        if is_lexer_internal(k) {
            if k == TokenType::Value {
                Err(AsmError::OrphanImmediate)
            } else {
                Err(AsmError::UnknownMnemonic)
            }
        } else if spec_consumes_immediate(k) {
            if ts.len() < 2 {
                Err(AsmError::MalformedImmediate)
            } else {
                let r0 = match encode_imm(ts[1].1) {
                    ImmEnc::Int(v) => Some(ERec::Val(ByteCode { opcode: opcode_of(k), value: v })),
                    ImmEnc::F64(l) => Some(ERec::F64(opcode_of(k), l)),
                    ImmEnc::F32(l) => Some(ERec::F32(opcode_of(k), l)),
                    ImmEnc::Bad => None,
                };
                match r0 {
                    None => Err(AsmError::MalformedImmediate),
                    Some(r0) => match emit_spec(ts.skip(2)) {
                        Err(e) => Err(e),
                        Ok(rest) => Ok(seq![r0] + rest),
                    },
                }
            }
        } else {
            match emit_spec(ts.drop_first()) {
                Err(e) => Err(e),
                Ok(rest) => Ok(
                    seq![ERec::Val(ByteCode { opcode: opcode_of(k), value: 0 })] + rest,
                ),
            }
        }
    }
}

/// The whole assembler: front end, then emission.
pub open spec fn asm_spec(code: Seq<u8>) -> Result<Seq<ERec>, AsmError> {
    match parse_code_spec(code) {
        Err(e) => Err(e),
        Ok(ts) => emit_spec(ts),
    }
}

/// An operand lexeme as the emitter classifies it.
pub enum Encoded {
    /// Integer immediate, ready.
    Int(u64),
    /// Needs the bits of the lexeme read as a double-precision float.
    Double,
    /// Needs the bits of the lexeme, suffix stripped, read as a
    /// single-precision float.
    Single,
    /// No immediate form matches.
    Malformed,
}

/// Classifies an operand lexeme and encodes it when it is an integer.
pub fn encode_immediate(lex: &[u8]) -> (r: Encoded)
    ensures
        match r {
            Encoded::Int(v) => encode_imm(lex@) == ImmEnc::Int(v),
            Encoded::Double => encode_imm(lex@) == ImmEnc::F64(lex@),
            Encoded::Single => encode_imm(lex@) == ImmEnc::F32(lex@.drop_last()),
            Encoded::Malformed => encode_imm(lex@) == ImmEnc::Bad,
        },
{
    if let Some(v) = parse_u64(lex) {
        return Encoded::Int(v);
    }
    if let Some(w) = parse_i64(lex) {
        let bits: u64 = if w >= 0 {
            w as u64
        } else {
            let mag = (-(w + 1)) as u64;
            u64::MAX - mag
        };
        assert(bits == i64_bits(i64_literal_val(lex@)));
        return Encoded::Int(bits);
    }
    if is_float_literal_bytes(lex) {
        return Encoded::Double;
    }
    if lex.len() > 0 && lex[lex.len() - 1] == 102 {
        assert(lex@.last() == 'f' as u8);
        let head: &[u8] = vstd::slice::slice_subrange(lex, 0, lex.len() - 1);
        assert(head@ =~= lex@.drop_last());
        if is_float_literal_bytes(head) {
            return Encoded::Single;
        }
    }
    Encoded::Malformed
}

/// One float immediate still wanting its bits: the record it belongs to, its
/// lexeme, and whether it is single precision.
pub struct FloatSlot {
    pub index: usize,
    pub lexeme: Vec<u8>,
    pub single: bool,
}

/// An assembled program some of whose immediates await float bits.
pub struct PendingProgram {
    pub records: Vec<ByteCode>,
    pub slots: Vec<FloatSlot>,
}

/// The view of a float-slot list.
pub open spec fn slots_view(ss: Seq<FloatSlot>) -> Seq<(int, Seq<u8>, bool)> {
    ss.map_values(|s: FloatSlot| (s.index as int, s.lexeme@, s.single))
}

/// Records with the pending immediates replaced by the given bits, slot by
/// slot.
pub open spec fn filled_spec(
    records: Seq<ByteCode>,
    slots: Seq<(int, Seq<u8>, bool)>,
    bits: Seq<u64>,
) -> Seq<ByteCode>
    recommends
        slots.len() == bits.len(),
    decreases slots.len(),
{
    if slots.len() == 0 {
        records
    } else {
        filled_spec(records, slots.drop_last(), bits.drop_last()).update(
            slots.last().0,
            ByteCode { opcode: records[slots.last().0].opcode, value: bits.last() },
        )
    }
}

impl PendingProgram {
    /// Every slot points into the record list.
    pub open spec fn wf(self) -> bool {
        forall|k: int|
            0 <= k < self.slots@.len() ==> (#[trigger] self.slots@[k]).index
                < self.records@.len()
    }

    /// Completes the program: writes the supplied bits into the pending
    /// records, one per slot, in order.
    pub fn fill(&self, bits: &Vec<u64>) -> (r: Vec<ByteCode>)
        requires
            bits@.len() == self.slots@.len(),
            self.wf(),
        ensures
            r@ == filled_spec(self.records@, slots_view(self.slots@), bits@),
    {
        let mut out: Vec<ByteCode> = Vec::new();
        let mut i: usize = 0;
        while i < self.records.len()
            invariant
                0 <= i <= self.records@.len(),
                out@ =~= self.records@.take(i as int),
            decreases self.records@.len() - i,
        {
            out.push(self.records[i]);
            i = i + 1;
        }
        assert(out@ =~= self.records@);
        let mut k: usize = 0;
        while k < self.slots.len()
            invariant
                0 <= k <= self.slots@.len(),
                bits@.len() == self.slots@.len(),
                self.wf(),
                out@.len() == self.records@.len(),
                forall|j: int|
                    0 <= j < out@.len() ==> (#[trigger] out@[j]).opcode
                        == self.records@[j].opcode,
                out@ == filled_spec(
                    self.records@,
                    slots_view(self.slots@).take(k as int),
                    bits@.take(k as int),
                ),
            decreases self.slots@.len() - k,
        {
            let idx = self.slots[k].index;
            let b = bits[k];
            let op = out[idx].opcode;
            proof {
                let sv = slots_view(self.slots@);
                assert(sv.take(k + 1).drop_last() =~= sv.take(k as int));
                assert(bits@.take(k + 1).drop_last() =~= bits@.take(k as int));
                assert(sv.take(k + 1).last() == sv[k as int]);
                assert(bits@.take(k + 1).last() == bits@[k as int]);
            }
            out[idx] = ByteCode { opcode: op, value: b };
            k = k + 1;
        }
        proof {
            assert(slots_view(self.slots@).take(k as int) =~= slots_view(self.slots@));
            assert(bits@.take(k as int) =~= bits@);
        }
        out
    }
}

/// The assembler's output: a complete program, or one awaiting float bits.
pub enum AsmOutput {
    Done(Vec<ByteCode>),
    NeedFloats(PendingProgram),
}

/// Assembles source text into bytecode records. Integer immediates are
/// encoded outright; float immediates come back as a pending program whose
/// bits the caller supplies through [`PendingProgram::fill`].
pub fn byte_code_compiler(code: &[u8]) -> (r: Result<AsmOutput, AsmError>)
    ensures
        match r {
            Err(e) => asm_spec(code@) == Err::<Seq<ERec>, AsmError>(e),
            Ok(out) => asm_spec(code@) is Ok && {
                let ers = asm_spec(code@)->Ok_0;
                match out {
                    AsmOutput::Done(v) => v@ == records_of(ers) && slots_of(ers).len() == 0,
                    AsmOutput::NeedFloats(p) => {
                        &&& p.records@ == records_of(ers)
                        &&& slots_view(p.slots@) == slots_of(ers)
                        &&& slots_of(ers).len() > 0
                        &&& p.wf()
                    },
                }
            },
        },
{
    let toks = match parse_code(code) {
        Ok(ts) => ts,
        Err(e) => {
            return Err(e);
        },
    };
    let ghost ts = toks_view(toks@);
    let mut records: Vec<ByteCode> = Vec::new();
    let mut slots: Vec<FloatSlot> = Vec::new();
    let ghost mut ers_done: Seq<ERec> = Seq::empty();
    let mut i: usize = 0;
    proof {
        assert(ts.skip(0) =~= ts);
    }
    while i < toks.len()
        invariant
            0 <= i <= toks@.len(),
            ts == toks_view(toks@),
            parse_code_spec(code@) == Ok::<Seq<(TokenType, Seq<u8>)>, AsmError>(ts),
            records@ == records_of(ers_done),
            records@.len() == ers_done.len(),
            slots_view(slots@) == slots_of(ers_done),
            forall|j: int|
                0 <= j < slots@.len() ==> (#[trigger] slots@[j]).index < records@.len(),
            match emit_spec(ts.skip(i as int)) {
                Ok(rest) => emit_spec(ts) == Ok::<Seq<ERec>, AsmError>(ers_done + rest),
                Err(e) => emit_spec(ts) == Err::<Seq<ERec>, AsmError>(e),
            },
        decreases toks@.len() - i,
    {
        let ghost rem = ts.skip(i as int);
        proof {
            assert(rem[0] == ts[i as int]);
            assert(rem.first() == (toks@[i as int].kind, toks@[i as int].value@));
        }
        let k = toks[i].kind;
        if matches!(k, TokenType::Value) {
            return Err(AsmError::OrphanImmediate);
        }
        if matches!(k, TokenType::Label | TokenType::Name | TokenType::Invalid) {
            return Err(AsmError::UnknownMnemonic);
        }
        assert(!is_lexer_internal(k));
        let op = k.opcode();
        let ghost pre_ers = ers_done;
        let ghost pre_slots = slots_view(slots@);
        if k.consumes_immediate() {
            if i + 1 >= toks.len() {
                assert(rem.len() < 2);
                return Err(AsmError::MalformedImmediate);
            }
            proof {
                assert(rem[1] == ts[i + 1]);
                assert(rem[1] == (toks@[i + 1].kind, toks@[i + 1].value@));
                assert(rem.skip(2) =~= ts.skip(i + 2));
            }
            let arg: &Vec<u8> = &toks[i + 1].value;
            match encode_immediate(arg.as_slice()) {
                Encoded::Malformed => {
                    return Err(AsmError::MalformedImmediate);
                },
                Encoded::Int(v) => {
                    records.push(ByteCode { opcode: op, value: v });
                    proof {
                        ers_done = pre_ers.push(ERec::Val(ByteCode { opcode: op, value: v }));
                        assert(ers_done.drop_last() =~= pre_ers);
                        assert(records@ =~= records_of(ers_done));
                        assert(slots_view(slots@) =~= slots_of(ers_done));
                        assert(emit_spec(rem) == match emit_spec(ts.skip(i + 2)) {
                            Ok(rest) => Ok::<Seq<ERec>, AsmError>(seq![ers_done.last()] + rest),
                            Err(e) => Err::<Seq<ERec>, AsmError>(e),
                        });
                        if emit_spec(ts.skip(i + 2)) is Ok {
                            assert(pre_ers + (seq![ers_done.last()] + emit_spec(
                                ts.skip(i + 2),
                            )->Ok_0) =~= ers_done + emit_spec(ts.skip(i + 2))->Ok_0);
                        }
                    }
                },
                Encoded::Double => {
                    records.push(ByteCode { opcode: op, value: 0 });
                    let lexeme = crate::bytes::to_vec(arg.as_slice());
                    slots.push(FloatSlot { index: records.len() - 1, lexeme, single: false });
                    proof {
                        ers_done = pre_ers.push(ERec::F64(op, toks@[i + 1].value@));
                        assert(ers_done.drop_last() =~= pre_ers);
                        assert(records@ =~= records_of(ers_done));
                        assert(slots@.drop_last().map_values(
                            |s: FloatSlot| (s.index as int, s.lexeme@, s.single),
                        ) =~= pre_slots);
                        assert(slots_view(slots@) =~= slots_of(ers_done));
                        if emit_spec(ts.skip(i + 2)) is Ok {
                            assert(pre_ers + (seq![ers_done.last()] + emit_spec(
                                ts.skip(i + 2),
                            )->Ok_0) =~= ers_done + emit_spec(ts.skip(i + 2))->Ok_0);
                        }
                    }
                },
                Encoded::Single => {
                    records.push(ByteCode { opcode: op, value: 0 });
                    let head: &[u8] = vstd::slice::slice_subrange(
                        arg.as_slice(),
                        0,
                        arg.len() - 1,
                    );
                    let lexeme = crate::bytes::to_vec(head);
                    slots.push(FloatSlot { index: records.len() - 1, lexeme, single: true });
                    proof {
                        assert(head@ =~= toks@[i + 1].value@.drop_last());
                        ers_done = pre_ers.push(ERec::F32(op, toks@[i + 1].value@.drop_last()));
                        assert(ers_done.drop_last() =~= pre_ers);
                        assert(records@ =~= records_of(ers_done));
                        assert(slots@.drop_last().map_values(
                            |s: FloatSlot| (s.index as int, s.lexeme@, s.single),
                        ) =~= pre_slots);
                        assert(slots_view(slots@) =~= slots_of(ers_done));
                        if emit_spec(ts.skip(i + 2)) is Ok {
                            assert(pre_ers + (seq![ers_done.last()] + emit_spec(
                                ts.skip(i + 2),
                            )->Ok_0) =~= ers_done + emit_spec(ts.skip(i + 2))->Ok_0);
                        }
                    }
                },
            }
            i = i + 2;
        } else {
            proof {
                assert(rem.drop_first() =~= ts.skip(i + 1));
            }
            records.push(ByteCode { opcode: op, value: 0 });
            proof {
                ers_done = pre_ers.push(ERec::Val(ByteCode { opcode: op, value: 0 }));
                assert(ers_done.drop_last() =~= pre_ers);
                assert(records@ =~= records_of(ers_done));
                assert(slots_view(slots@) =~= slots_of(ers_done));
                if emit_spec(ts.skip(i + 1)) is Ok {
                    assert(pre_ers + (seq![ers_done.last()] + emit_spec(
                        ts.skip(i + 1),
                    )->Ok_0) =~= ers_done + emit_spec(ts.skip(i + 1))->Ok_0);
                }
            }
            i = i + 1;
        }
    }
    proof {
        assert(ts.skip(i as int) =~= Seq::<(TokenType, Seq<u8>)>::empty());
        assert(emit_spec(ts.skip(i as int)) == Ok::<Seq<ERec>, AsmError>(Seq::empty()));
        assert(ers_done + Seq::<ERec>::empty() =~= ers_done);
    }
    if slots.len() == 0 {
        assert(slots_of(ers_done).len() == 0);
        Ok(AsmOutput::Done(records))
    } else {
        Ok(AsmOutput::NeedFloats(PendingProgram { records, slots }))
    }
}

} // verus!
