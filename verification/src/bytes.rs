//! Byte-level text utilities shared by the assembler: whitespace
//! tokenization and hexadecimal / decimal literal parsing.
//!
//! Source lines are handled as byte sequences; the ASCII bytes the
//! assembler's syntax gives a meaning to are named here once.

use vstd::prelude::*;

verus! {

/// ASCII space.
pub const SP: u8 = 32;

/// ASCII horizontal tab.
pub const HT: u8 = 9;

/// ASCII apostrophe, the label marker.
pub const QUOTE: u8 = 39;

/// ASCII full stop, the directive marker.
pub const DOT: u8 = 46;

/// ASCII backslash, the escape marker in raw-byte literals.
pub const BSLASH: u8 = 92;

/// ASCII lower-case `x`, the hex-escape marker.
pub const LOW_X: u8 = 120;

/// ASCII digit zero.
pub const D0: u8 = 48;

/// ASCII digit nine.
pub const D9: u8 = 57;

/// ASCII lower-case `a`.
pub const LOW_A: u8 = 97;

/// ASCII lower-case `f`.
pub const LOW_F: u8 = 102;

/// ASCII upper-case `A`.
pub const UP_A: u8 = 65;

/// ASCII upper-case `F`.
pub const UP_F: u8 = 70;

/// ASCII lower-case `b`.
pub const LOW_B: u8 = 98;

/// ASCII lower-case `o`.
pub const LOW_O: u8 = 111;

/// ASCII lower-case `r`.
pub const LOW_R: u8 = 114;

/// ASCII lower-case `i`.
pub const LOW_I: u8 = 105;

/// ASCII lower-case `g`.
pub const LOW_G: u8 = 103;

/// ASCII lower-case `n`.
pub const LOW_N: u8 = 110;

/// ASCII lower-case `s`.
pub const LOW_S: u8 = 115;

/// ASCII lower-case `e`.
pub const LOW_E: u8 = 101;

/// ASCII lower-case `t`.
pub const LOW_T: u8 = 116;

/// A byte is line-internal whitespace (space or horizontal tab).
pub open spec fn is_ws(b: u8) -> bool {
    b == SP || b == HT
}

/// A byte is an ASCII hexadecimal digit (`0-9`, `a-f` or `A-F`: digits
/// fold case everywhere they appear).
pub open spec fn is_hex_digit(b: u8) -> bool {
    (D0 <= b && b <= D9) || (LOW_A <= b && b <= LOW_F) || (UP_A <= b && b <= UP_F)
}

/// Numeric value of a hexadecimal digit, of either case.
pub open spec fn hex_val(b: u8) -> u8 {
    if D0 <= b && b <= D9 {
        (b - D0) as u8
    } else if LOW_A <= b && b <= LOW_F {
        (b - LOW_A + 10) as u8
    } else {
        (b - UP_A + 10) as u8
    }
}

/// A byte is an ASCII decimal digit.
pub open spec fn is_dec_digit(b: u8) -> bool {
    D0 <= b && b <= D9
}

/// Value of a single hexadecimal digit, `None` when the byte is not a digit.
pub fn parse_hex(x: u8) -> (r: Option<u8>)
    ensures
        r is Some <==> is_hex_digit(x),
        r is Some ==> r->0 == hex_val(x) && r->0 < 16,
{
    if D0 <= x && x <= D9 {
        Some(x - D0)
    } else if LOW_A <= x && x <= LOW_F {
        Some(x - LOW_A + 10)
    } else if UP_A <= x && x <= UP_F {
        Some(x - UP_A + 10)
    } else {
        None
    }
}

/// An operand token read as one byte: a single hexadecimal digit, or
/// the token's two leading hexadecimal digits (whatever follows them is
/// ignored).
pub open spec fn parse_hex_byte_spec(s: Seq<u8>) -> Option<u8> {
    if s.len() == 1 && is_hex_digit(s[0]) {
        Some(hex_val(s[0]))
    } else if s.len() >= 2 && is_hex_digit(s[0]) && is_hex_digit(s[1]) {
        Some((hex_val(s[0]) * 16 + hex_val(s[1])) as u8)
    } else {
        None
    }
}

/// Reads an operand token as one byte.
pub fn parse_hex_byte(s: &Vec<u8>) -> (r: Option<u8>)
    ensures
        r == parse_hex_byte_spec(s@),
{
    if s.len() == 1 {
        parse_hex(s[0])
    } else if s.len() >= 2 {
        match (parse_hex(s[0]), parse_hex(s[1])) {
            (Some(h), Some(l)) => Some(h * 16 + l),
            _ => None,
        }
    } else {
        None
    }
}

/// An origin address half, read as one byte from a token's two leading
/// hexadecimal digits (whatever follows them is ignored; a shorter
/// token is malformed).
pub open spec fn parse_hex_pair_spec(s: Seq<u8>) -> Option<u8> {
    if s.len() >= 2 && is_hex_digit(s[0]) && is_hex_digit(s[1]) {
        Some((hex_val(s[0]) * 16 + hex_val(s[1])) as u8)
    } else {
        None
    }
}

/// Reads an origin address half from a token's two leading digits.
pub fn parse_hex_pair(s: &Vec<u8>) -> (r: Option<u8>)
    ensures
        r == parse_hex_pair_spec(s@),
{
    if s.len() >= 2 {
        match (parse_hex(s[0]), parse_hex(s[1])) {
            (Some(h), Some(l)) => Some(h * 16 + l),
            _ => None,
        }
    } else {
        None
    }
}

/// Value of a sequence of decimal digits, most significant first.
pub open spec fn dec_val(s: Seq<u8>) -> int
    decreases s.len(),
{
    if s.len() == 0 {
        0
    } else {
        dec_val(s.take(s.len() - 1)) * 10 + (s[s.len() - 1] - D0)
    }
}

/// Every byte of the sequence is a decimal digit.
pub open spec fn all_dec_digits(s: Seq<u8>) -> bool {
    forall|j: int| 0 <= j < s.len() ==> is_dec_digit(#[trigger] s[j])
}

/// A non-empty run of decimal digits whose value fits in sixteen bits.
pub open spec fn parse_dec_spec(s: Seq<u8>) -> Option<u16> {
    if s.len() >= 1 && all_dec_digits(s) && dec_val(s) <= 0xffff {
        Some(dec_val(s) as u16)
    } else {
        None
    }
}

proof fn lemma_dec_val_step(s: Seq<u8>, i: int)
    requires
        0 <= i < s.len(),
    ensures
        dec_val(s.take(i + 1)) == dec_val(s.take(i)) * 10 + (s[i] - D0),
{
    assert(s.take(i + 1).take(i) =~= s.take(i));
    assert(s.take(i + 1)[i] == s[i]);
}

proof fn lemma_dec_val_nonneg(s: Seq<u8>, i: int)
    requires
        0 <= i <= s.len(),
        forall|j: int| 0 <= j < i ==> is_dec_digit(#[trigger] s[j]),
    ensures
        dec_val(s.take(i)) >= 0,
    decreases i,
{
    if i > 0 {
        lemma_dec_val_step(s, i - 1);
        lemma_dec_val_nonneg(s, i - 1);
    }
}

proof fn lemma_dec_val_grows(s: Seq<u8>, i: int, j: int)
    requires
        0 <= i <= j <= s.len(),
        all_dec_digits(s),
    ensures
        dec_val(s.take(i)) <= dec_val(s.take(j)),
    decreases j - i,
{
    if i < j {
        lemma_dec_val_step(s, i);
        lemma_dec_val_nonneg(s, i);
        lemma_dec_val_grows(s, i + 1, j);
    }
}

/// Reads a non-empty run of decimal digits as a sixteen-bit value;
/// `None` on an empty token, a non-digit, or a value past `0xffff`.
pub fn parse_dec(s: &Vec<u8>) -> (r: Option<u16>)
    ensures
        r == parse_dec_spec(s@),
{
    if s.len() == 0 {
        return None;
    }
    let mut i: usize = 0;
    let mut acc: u32 = 0;
    while i < s.len()
        invariant
            0 <= i <= s.len(),
            acc == dec_val(s@.take(i as int)),
            acc <= 0xffff,
            forall|j: int| 0 <= j < i ==> is_dec_digit(#[trigger] s@[j]),
        decreases s.len() - i,
    {
        let b = s[i];
        if !(D0 <= b && b <= D9) {
            assert(!all_dec_digits(s@));
            return None;
        }
        proof {
            lemma_dec_val_step(s@, i as int);
        }
        let step: u32 = acc * 10 + (b - D0) as u32;
        if step > 0xffff {
            proof {
                if all_dec_digits(s@) {
                    lemma_dec_val_grows(s@, i as int + 1, s@.len() as int);
                    assert(s@.take(s@.len() as int) =~= s@);
                }
            }
            return None;
        }
        acc = step;
        i = i + 1;
    }
    assert(s@.take(s@.len() as int) =~= s@);
    Some(acc as u16)
}

/// Index of the first whitespace byte at or after `i` (or the end of the
/// sequence); the bytes in between form one token.
pub open spec fn token_end(s: Seq<u8>, i: int) -> int
    decreases s.len() - i,
{
    if i < 0 || i >= s.len() || is_ws(s[i]) {
        i
    } else {
        token_end(s, i + 1)
    }
}

pub proof fn lemma_token_end_bounds(s: Seq<u8>, i: int)
    ensures
        token_end(s, i) >= i,
        0 <= i <= s.len() ==> token_end(s, i) <= s.len(),
        0 <= i < s.len() && !is_ws(s[i]) ==> token_end(s, i) > i,
    decreases s.len() - i,
{
    if !(i < 0 || i >= s.len() || is_ws(s[i])) {
        lemma_token_end_bounds(s, i + 1);
    }
}

proof fn lemma_token_end_at(s: Seq<u8>, i: int, j: int)
    requires
        0 <= i <= j <= s.len(),
        forall|k: int| i <= k < j ==> !is_ws(#[trigger] s[k]),
        j == s.len() || is_ws(s[j]),
    ensures
        token_end(s, i) == j,
    decreases j - i,
{
    if i < j {
        lemma_token_end_at(s, i + 1, j);
    }
}

/// The whitespace-separated tokens of `s`, starting at position `i`.
pub open spec fn tokens_of_from(s: Seq<u8>, i: int) -> Seq<Seq<u8>>
    decreases s.len() - i,
    when i >= 0
    via tokens_of_from_dec
{
    if i >= s.len() {
        Seq::empty()
    } else if is_ws(s[i]) {
        tokens_of_from(s, i + 1)
    } else {
        seq![s.subrange(i, token_end(s, i))] + tokens_of_from(s, token_end(s, i))
    }
}

#[via_fn]
proof fn tokens_of_from_dec(s: Seq<u8>, i: int) {
    lemma_token_end_bounds(s, i);
}

/// The whitespace-separated tokens of a line.
pub open spec fn tokens_of(s: Seq<u8>) -> Seq<Seq<u8>> {
    tokens_of_from(s, 0)
}

/// Copies the bytes of `v` from `a` (inclusive) to `b` (exclusive).
pub fn slice_range(v: &Vec<u8>, a: usize, b: usize) -> (r: Vec<u8>)
    requires
        a <= b <= v.len(),
    ensures
        r@ == v@.subrange(a as int, b as int),
{
    let mut r: Vec<u8> = Vec::new();
    let mut i: usize = a;
    while i < b
        invariant
            a <= i <= b <= v.len(),
            r@ == v@.subrange(a as int, i as int),
        decreases b - i,
    {
        r.push(v[i]);
        assert(r@ =~= v@.subrange(a as int, i as int + 1));
        i = i + 1;
    }
    r
}

/// Splits a line into its whitespace-separated tokens.
pub fn tokenize(v: &Vec<u8>) -> (r: Vec<Vec<u8>>)
    ensures
        r.deep_view() == tokens_of(v@),
{
    let mut r: Vec<Vec<u8>> = Vec::new();
    let mut i: usize = 0;
    while i < v.len()
        invariant
            0 <= i <= v.len(),
            tokens_of(v@) == r.deep_view() + tokens_of_from(v@, i as int),
        decreases v.len() - i,
    {
        let b = v[i];
        if b == SP || b == HT {
            i = i + 1;
        } else {
            let start = i;
            let mut j = i;
            while j < v.len() && !(v[j] == SP || v[j] == HT)
                invariant
                    start <= j <= v.len(),
                    forall|k: int| start <= k < j ==> !is_ws(#[trigger] v@[k]),
                decreases v.len() - j,
            {
                j = j + 1;
            }
            proof {
                lemma_token_end_at(v@, start as int, j as int);
            }
            let tok = slice_range(v, start, j);
            let ghost old_r = r.deep_view();
            r.push(tok);
            proof {
                assert(tok.deep_view() =~= tok@);
                assert(r.deep_view() =~~= old_r.push(tok@));
                assert(r.deep_view() + tokens_of_from(v@, j as int) =~~= old_r + (seq![
                    tok@,
                ] + tokens_of_from(v@, j as int)));
            }
            i = j;
        }
    }
    proof {
        assert(r.deep_view() + tokens_of_from(v@, i as int) =~= r.deep_view());
    }
    r
}

/// Byte-for-byte equality of two byte vectors.
pub fn bytes_eq(a: &Vec<u8>, b: &Vec<u8>) -> (r: bool)
    ensures
        r <==> a@ == b@,
{
    if a.len() != b.len() {
        return false;
    }
    let mut i: usize = 0;
    while i < a.len()
        invariant
            0 <= i <= a.len(),
            a.len() == b.len(),
            forall|j: int| 0 <= j < i ==> a@[j] == b@[j],
        decreases a.len() - i,
    {
        if a[i] != b[i] {
            return false;
        }
        i = i + 1;
    }
    assert(a@ =~= b@);
    true
}

} // verus!
