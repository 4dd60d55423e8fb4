use vstd::prelude::*;

verus! {

/// Decimal digit, ASCII.
pub open spec fn is_digit(b: u8) -> bool {
    48 <= b && b <= 57
}

/// Every byte of `s` is a decimal digit.
pub open spec fn all_digits(s: Seq<u8>) -> bool {
    forall|i: int| 0 <= i < s.len() ==> is_digit(#[trigger] s[i])
}

/// The value of a digit string read in base ten.
pub open spec fn dec_val(s: Seq<u8>) -> nat
    recommends
        all_digits(s),
    decreases s.len(),
{
    if s.len() == 0 {
        0
    } else {
        (dec_val(s.drop_last()) * 10 + (s.last() - 48)) as nat
    }
}

/// A longer digit prefix never reads as a smaller value.
pub proof fn lemma_dec_val_prefix_le(s: Seq<u8>, i: int)
    requires
        0 <= i <= s.len(),
        all_digits(s),
    ensures
        dec_val(s.take(i)) <= dec_val(s),
    decreases s.len() - i,
{
    if i < s.len() {
        let t = s.take(i + 1);
        assert(t.drop_last() =~= s.take(i));
        assert(dec_val(t) == dec_val(s.take(i)) * 10 + (s[i] - 48));
        lemma_dec_val_prefix_le(s, i + 1);
        assert(s.take(s.len() as int) =~= s);
    } else {
        assert(s.take(i) =~= s);
    }
}

/// The digit string of a source lexeme: what follows an optional `+` sign.
pub open spec fn unsigned_digits(s: Seq<u8>) -> Seq<u8> {
    if s.len() > 0 && s[0] == '+' as u8 {
        s.drop_first()
    } else {
        s
    }
}

/// The lexeme reads as an unsigned 64-bit decimal literal.
pub open spec fn is_u64_literal(s: Seq<u8>) -> bool {
    let d = unsigned_digits(s);
    d.len() > 0 && all_digits(d) && dec_val(d) <= u64::MAX
}

/// The value of an unsigned decimal literal.
pub open spec fn u64_literal_val(s: Seq<u8>) -> nat {
    dec_val(unsigned_digits(s))
}

/// Reads the digits of `s` from `start` on as a base-ten `u64`.
/// Fails on an empty digit string, a non-digit, or a value past `u64::MAX`.
fn parse_digits(s: &[u8], start: usize) -> (r: Option<u64>)
    requires
        start <= s@.len(),
    ensures
        match r {
            Some(v) => {
                let d = s@.skip(start as int);
                &&& d.len() > 0
                &&& all_digits(d)
                &&& dec_val(d) <= u64::MAX
                &&& v == dec_val(d)
            },
            None => {
                let d = s@.skip(start as int);
                !(d.len() > 0 && all_digits(d) && dec_val(d) <= u64::MAX)
            },
        },
{
    let ghost d = s@.skip(start as int);
    if start == s.len() {
        return None;
    }
    let mut acc: u64 = 0;
    let mut i: usize = start;
    while i < s.len()
        invariant
            start <= i <= s@.len(),
            d == s@.skip(start as int),
            all_digits(d.take(i - start)),
            acc == dec_val(d.take(i - start)),
        decreases s@.len() - i,
    {
        let b = s[i];
        assert(d[i - start] == b);
        if b < 48 || b > 57 {
            assert(!is_digit(d[i - start]));
            return None;
        }
        let dig = (b - 48) as u64;
        let wide: u128 = (acc as u128) * 10 + (dig as u128);
        proof {
            let t = d.take(i - start + 1);
            assert(t.drop_last() =~= d.take(i - start));
            assert(t.last() == b);
            assert(dec_val(t) == dec_val(d.take(i - start)) * 10 + (b - 48));
        }
        if wide > u64::MAX as u128 {
            proof {
                if all_digits(d) {
                    lemma_dec_val_prefix_le(d, i - start + 1);
                }
            }
            return None;
        }
        acc = wide as u64;
        i = i + 1;
    }
    assert(d.take(i - start) =~= d);
    Some(acc)
}

/// Parses a lexeme as an unsigned 64-bit decimal literal (optional `+` sign,
/// then one or more digits, value at most `u64::MAX`).
pub fn parse_u64(s: &[u8]) -> (r: Option<u64>)
    ensures
        r is Some <==> is_u64_literal(s@),
        r is Some ==> r->0 == u64_literal_val(s@),
{
    if s.len() > 0 && s[0] == 43 {
        assert(s@[0] == '+' as u8);
        let r = parse_digits(s, 1);
        assert(s@.skip(1) =~= unsigned_digits(s@));
        r
    } else {
        assert(s@.skip(0) =~= s@);
        assert(unsigned_digits(s@) =~= s@);
        parse_digits(s, 0)
    }
}

/// The digit string and sign of a signed lexeme.
pub open spec fn signed_digits(s: Seq<u8>) -> Seq<u8> {
    if s.len() > 0 && (s[0] == '+' as u8 || s[0] == '-' as u8) {
        s.drop_first()
    } else {
        s
    }
}

/// Whether the lexeme carries a `-` sign.
pub open spec fn is_negative(s: Seq<u8>) -> bool {
    s.len() > 0 && s[0] == '-' as u8
}

/// The lexeme reads as a signed 64-bit decimal literal.
pub open spec fn is_i64_literal(s: Seq<u8>) -> bool {
    let d = signed_digits(s);
    &&& d.len() > 0
    &&& all_digits(d)
    &&& if is_negative(s) {
        dec_val(d) <= 0x8000_0000_0000_0000
    } else {
        dec_val(d) <= 0x7fff_ffff_ffff_ffff
    }
}

/// The value of a signed decimal literal.
pub open spec fn i64_literal_val(s: Seq<u8>) -> int {
    if is_negative(s) {
        -(dec_val(signed_digits(s)) as int)
    } else {
        dec_val(signed_digits(s)) as int
    }
}

/// Parses a lexeme as a signed 64-bit decimal literal (optional `+` or `-`
/// sign, then one or more digits, value within the `i64` range).
pub fn parse_i64(s: &[u8]) -> (r: Option<i64>)
    ensures
        r is Some <==> is_i64_literal(s@),
        r is Some ==> r->0 == i64_literal_val(s@),
{
    if s.len() > 0 && (s[0] == 43 || s[0] == 45) {
        let neg = s[0] == 45;
        assert(s@[0] == '+' as u8 || s@[0] == '-' as u8);
        let m = parse_digits(s, 1);
        assert(s@.skip(1) =~= signed_digits(s@));
        match m {
            None => None,
            Some(v) => {
                if neg {
                    if v > 0x8000_0000_0000_0000u64 {
                        None
                    } else if v == 0x8000_0000_0000_0000u64 {
                        Some(i64::MIN)
                    } else {
                        Some(-(v as i64))
                    }
                } else {
                    if v > 0x7fff_ffff_ffff_ffffu64 {
                        None
                    } else {
                        Some(v as i64)
                    }
                }
            },
        }
    } else {
        assert(signed_digits(s@) =~= s@);
        assert(!is_negative(s@));
        match parse_digits(s, 0) {
            None => {
                assert(s@.skip(0) =~= s@);
                None
            },
            Some(v) => {
                assert(s@.skip(0) =~= s@);
                if v > 0x7fff_ffff_ffff_ffffu64 {
                    None
                } else {
                    Some(v as i64)
                }
            },
        }
    }
}

/// The canonical base-ten rendering of a value, most significant digit first.
pub open spec fn dec_rep(v: nat) -> Seq<u8>
    decreases v,
{
    if v < 10 {
        seq![(48 + v) as u8]
    } else {
        dec_rep(v / 10).push((48 + v % 10) as u8)
    }
}

/// The canonical rendering is made of digits and reads back as the value.
pub proof fn lemma_dec_rep_val(v: nat)
    ensures
        all_digits(dec_rep(v)),
        dec_rep(v).len() > 0,
        dec_val(dec_rep(v)) == v,
    decreases v,
{
    if v < 10 {
        let r = dec_rep(v);
        assert(r =~= seq![(48 + v) as u8]);
        assert(r.drop_last() =~= Seq::<u8>::empty());
        assert(dec_val(r) == dec_val(r.drop_last()) * 10 + (r.last() - 48));
        assert(dec_val(r) == v);
    } else {
        lemma_dec_rep_val(v / 10);
        let r = dec_rep(v);
        assert(r.drop_last() =~= dec_rep(v / 10));
        assert(r.last() == (48 + v % 10) as u8);
        assert(dec_val(r) == (v / 10) * 10 + v % 10);
        assert((v / 10) * 10 + v % 10 == v) by (nonlinear_arith);
        assert(forall|i: int|
            0 <= i < r.len() ==> is_digit(#[trigger] r[i]) == if i < r.len() - 1 {
                is_digit(dec_rep(v / 10)[i])
            } else {
                is_digit(r.last())
            });
    }
}

/// Rendering a value and reading it back is the identity; the rendering is an
/// unsigned literal.
pub proof fn lemma_dec_rep_literal(v: u64)
    ensures
        is_u64_literal(dec_rep(v as nat)),
        u64_literal_val(dec_rep(v as nat)) == v,
{
    lemma_dec_rep_val(v as nat);
    let r = dec_rep(v as nat);
    assert(is_digit(r[0]));
    assert(r[0] != '+' as u8);
    assert(unsigned_digits(r) =~= r);
}

/// First index at or past `i` that does not hold a digit.
pub open spec fn digits_end(s: Seq<u8>, i: int) -> int
    decreases s.len() - i,
{
    if i < s.len() && is_digit(s[i]) {
        digits_end(s, i + 1)
    } else {
        i
    }
}

proof fn lemma_digits_end(s: Seq<u8>, i: int)
    requires
        0 <= i <= s.len(),
    ensures
        i <= digits_end(s, i) <= s.len(),
    decreases s.len() - i,
{
    if i < s.len() && is_digit(s[i]) {
        lemma_digits_end(s, i + 1);
    }
}

/// Scans past a run of digits.
fn scan_digits(s: &[u8], i: usize) -> (j: usize)
    requires
        i <= s@.len(),
    ensures
        j == digits_end(s@, i as int),
        i <= j <= s@.len(),
{
    let mut j = i;
    while j < s.len() && s[j] >= 48 && s[j] <= 57
        invariant
            i <= j <= s@.len(),
            digits_end(s@, i as int) == digits_end(s@, j as int),
        decreases s@.len() - j,
    {
        j = j + 1;
    }
    proof {
        lemma_digits_end(s@, i as int);
    }
    j
}

/// What may follow the digits of a decimal number: nothing, or an exponent
/// (`e` or `E`, an optional sign, then one or more digits reaching the end).
pub open spec fn exp_ok(s: Seq<u8>, i: int) -> bool {
    let n = s.len() as int;
    if i == n {
        true
    } else {
        &&& (s[i] == 'e' as u8 || s[i] == 'E' as u8)
        &&& {
            let j = if i + 1 < n && (s[i + 1] == '+' as u8 || s[i + 1] == '-' as u8) {
                i + 2
            } else {
                i + 1
            };
            let d = digits_end(s, j);
            d > j && d == n
        }
    }
}

/// An unsigned decimal float body: `digits`, `digits . digits?`, or
/// `. digits`, each with an optional exponent.
pub open spec fn is_decimal_number(s: Seq<u8>) -> bool {
    let n = s.len() as int;
    let d1 = digits_end(s, 0);
    if d1 == 0 {
        n > 1 && s[0] == '.' as u8 && {
            let d2 = digits_end(s, 1);
            d2 > 1 && exp_ok(s, d2)
        }
    } else if d1 == n {
        true
    } else if s[d1] == '.' as u8 {
        exp_ok(s, digits_end(s, d1 + 1))
    } else {
        exp_ok(s, d1)
    }
}

fn exp_check(s: &[u8], i: usize) -> (r: bool)
    requires
        i <= s@.len(),
    ensures
        r == exp_ok(s@, i as int),
{
    let n = s.len();
    if i == n {
        return true;
    }
    if s[i] != 101 && s[i] != 69 {
        assert(!(s@[i as int] == 'e' as u8 || s@[i as int] == 'E' as u8));
        return false;
    }
    let j = if i + 1 < n && (s[i + 1] == 43 || s[i + 1] == 45) {
        i + 2
    } else {
        i + 1
    };
    let d = scan_digits(s, j);
    d > j && d == n
}

/// ASCII lower-casing of one byte.
pub open spec fn lower_byte(b: u8) -> u8 {
    if 65 <= b && b <= 90 {
        (b + 32) as u8
    } else {
        b
    }
}

/// Case-insensitive match of `s` against a lower-case word.
pub open spec fn matches_ci(s: Seq<u8>, lit: Seq<u8>) -> bool {
    s.len() == lit.len() && forall|k: int|
        0 <= k < s.len() ==> lower_byte(#[trigger] s[k]) == lit[k]
}

fn eq_ci(s: &[u8], lit: &[u8]) -> (r: bool)
    ensures
        r == matches_ci(s@, lit@),
{
    if s.len() != lit.len() {
        return false;
    }
    let mut k: usize = 0;
    while k < s.len()
        invariant
            0 <= k <= s@.len(),
            s@.len() == lit@.len(),
            forall|j: int| 0 <= j < k ==> lower_byte(#[trigger] s@[j]) == lit@[j],
        decreases s@.len() - k,
    {
        let b = s[k];
        let low = if b >= 65 && b <= 90 {
            b + 32
        } else {
            b
        };
        if low != lit[k] {
            return false;
        }
        k = k + 1;
    }
    true
}

/// The special float words: `inf`, `infinity` and `nan`, any casing.
pub open spec fn is_inf_nan(s: Seq<u8>) -> bool {
    ||| matches_ci(s, seq!['i' as u8, 'n' as u8, 'f' as u8])
    ||| matches_ci(
        s,
        seq![
            'i' as u8,
            'n' as u8,
            'f' as u8,
            'i' as u8,
            'n' as u8,
            'i' as u8,
            't' as u8,
            'y' as u8,
        ],
    )
    ||| matches_ci(s, seq!['n' as u8, 'a' as u8, 'n' as u8])
}

/// The lexeme reads as a double-precision decimal literal: an optional sign,
/// then a special float word or a decimal number body.
pub open spec fn is_float_literal(s: Seq<u8>) -> bool {
    let b = signed_digits(s);
    is_inf_nan(b) || is_decimal_number(b)
}

/// Decides float-literal membership.
pub fn is_float_literal_bytes(s: &[u8]) -> (r: bool)
    ensures
        r == is_float_literal(s@),
{
    let start: usize = if s.len() > 0 && (s[0] == 43 || s[0] == 45) {
        1
    } else {
        0
    };
    proof {
        if start == 1 {
            assert(s@.skip(1) =~= signed_digits(s@));
        } else {
            assert(s@.skip(0) =~= signed_digits(s@));
        }
    }
    let body: &[u8] = vstd::slice::slice_subrange(s, start, s.len());
    let inf3: [u8; 3] = ['i' as u8, 'n' as u8, 'f' as u8];
    let inf8: [u8; 8] = [
        'i' as u8,
        'n' as u8,
        'f' as u8,
        'i' as u8,
        'n' as u8,
        'i' as u8,
        't' as u8,
        'y' as u8,
    ];
    let nan3: [u8; 3] = ['n' as u8, 'a' as u8, 'n' as u8];
    if eq_ci(body, inf3.as_slice()) || eq_ci(body, inf8.as_slice()) || eq_ci(
        body,
        nan3.as_slice(),
    ) {
        return true;
    }
    let n = body.len();
    let d1 = scan_digits(body, 0);
    if d1 == 0 {
        if n > 1 && body[0] == 46 {
            let d2 = scan_digits(body, 1);
            d2 > 1 && exp_check(body, d2)
        } else {
            assert(!is_decimal_number(body@));
            false
        }
    } else if d1 == n {
        true
    } else if body[d1] == 46 {
        let d2 = scan_digits(body, d1 + 1);
        exp_check(body, d2)
    } else {
        exp_check(body, d1)
    }
}

/// Renders a value in base ten.
pub fn u64_to_dec(v: u64) -> (r: Vec<u8>)
    ensures
        r@ == dec_rep(v as nat),
    decreases v,
{
    if v < 10 {
        let mut r: Vec<u8> = Vec::new();
        r.push(48 + (v as u8));
        assert(r@ =~= dec_rep(v as nat));
        r
    } else {
        let mut r = u64_to_dec(v / 10);
        r.push(48 + ((v % 10) as u8));
        assert(r@ =~= dec_rep(v as nat));
        r
    }
}

} // verus!
