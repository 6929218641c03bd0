//! The two-pass assembler.
//!
//! Input is the program as an ordered sequence of non-empty source lines
//! (blank lines and comments are stripped by the caller). The first line
//! must be the origin directive; the rest are label definitions,
//! directives, or instructions. Pass 1 sizes every line and binds each
//! label to the running address cursor; pass 2 encodes every line against
//! the completed label table. Any failure aborts assembly with the error
//! and the index of the offending line; no partial image is produced.

use vstd::prelude::*;

use crate::bytes::{
    is_hex_digit, hex_val, parse_hex, parse_hex_byte, parse_hex_byte_spec, parse_hex_pair,
    parse_hex_pair_spec, parse_dec, parse_dec_spec, tokens_of, tokenize, slice_range, bytes_eq,
    QUOTE, DOT, SP, BSLASH, LOW_X, LOW_B, LOW_O, LOW_R, LOW_I, LOW_G, LOW_N, LOW_F, LOW_S, LOW_E,
    LOW_T,
};
use crate::isa::{
    opcode_of, opcode_of_spec, encode_word, disp_fits8, as_signed, lemma_disp_fits8_signed_range,
    lemma_encode_decode_roundtrip, lemma_wrapping_add_is_mod, op_of, r1_of, val_of, OP_PUTH,
    OP_PUTL, OP_BRK, OP_LEA,
};

verus! {

/// What went wrong during assembly.
#[derive(Clone, Copy, Debug, PartialEq, Eq, Structural)]
pub enum AsmErrorKind {
    /// The origin header is missing or malformed.
    Config,
    /// An instruction line's mnemonic is not in the encoding table.
    UnknownMnemonic,
    /// An operand or directive argument could not be parsed.
    InvalidOperand,
    /// A referenced label was never defined.
    UndefinedLabel,
    /// A relative branch target does not fit the signed displacement field.
    BranchOutOfRange,
    /// A label name was defined twice.
    DuplicateLabel,
}

/// An assembly failure: what went wrong, and on which input line.
#[derive(Clone, Copy, Debug, PartialEq, Eq, Structural)]
pub struct AsmError {
    pub kind: AsmErrorKind,
    /// Index of the offending line in the input sequence.
    pub line: usize,
}

/// A line defines a label: it begins with the label marker.
pub open spec fn is_label_line(l: Seq<u8>) -> bool {
    l.len() >= 1 && l[0] == QUOTE
}

/// A line is a raw-byte literal directive: it begins with `.b `.
pub open spec fn is_lit_line(l: Seq<u8>) -> bool {
    l.len() >= 3 && l[0] == DOT && l[1] == LOW_B && l[2] == SP
}

/// A line is a zero-padding directive: it begins with `.offset `.
pub open spec fn is_offset_line(l: Seq<u8>) -> bool {
    l.len() >= 8 && l[0] == DOT && l[1] == LOW_O && l[2] == LOW_F && l[3] == LOW_F && l[4] == LOW_S
        && l[5] == LOW_E && l[6] == LOW_T && l[7] == SP
}

/// A line is the origin directive: it begins with `.origin `.
pub open spec fn is_origin_line(l: Seq<u8>) -> bool {
    l.len() >= 8 && l[0] == DOT && l[1] == LOW_O && l[2] == LOW_R && l[3] == LOW_I && l[4] == LOW_G
        && l[5] == LOW_I && l[6] == LOW_N && l[7] == SP
}

fn check_label_line(l: &Vec<u8>) -> (r: bool)
    ensures
        r == is_label_line(l@),
{
    l.len() >= 1 && l[0] == QUOTE
}

fn check_lit_line(l: &Vec<u8>) -> (r: bool)
    ensures
        r == is_lit_line(l@),
{
    l.len() >= 3 && l[0] == DOT && l[1] == LOW_B && l[2] == SP
}

fn check_offset_line(l: &Vec<u8>) -> (r: bool)
    ensures
        r == is_offset_line(l@),
{
    l.len() >= 8 && l[0] == DOT && l[1] == LOW_O && l[2] == LOW_F && l[3] == LOW_F && l[4] == LOW_S
        && l[5] == LOW_E && l[6] == LOW_T && l[7] == SP
}

fn check_origin_line(l: &Vec<u8>) -> (r: bool)
    ensures
        r == is_origin_line(l@),
{
    l.len() >= 8 && l[0] == DOT && l[1] == LOW_O && l[2] == LOW_R && l[3] == LOW_I && l[4] == LOW_G
        && l[5] == LOW_I && l[6] == LOW_N && l[7] == SP
}

/// The bytes a raw literal denotes, reading escapes from position `i` on:
/// `\xHH` is the hexadecimal byte `HH`, `\c` is the byte `c` itself, any
/// other byte stands for itself. `None` when an escape is malformed.
pub open spec fn decode_lit_from(s: Seq<u8>, i: int) -> Option<Seq<u8>>
    decreases s.len() - i,
    when i >= 0
{
    if i >= s.len() {
        Some(Seq::empty())
    } else if s[i] == BSLASH {
        if i + 1 >= s.len() {
            None
        } else if s[i + 1] == LOW_X {
            if i + 3 < s.len() && is_hex_digit(s[i + 2]) && is_hex_digit(s[i + 3]) {
                match decode_lit_from(s, i + 4) {
                    Some(r) => Some(
                        seq![(hex_val(s[i + 2]) * 16 + hex_val(s[i + 3])) as u8] + r,
                    ),
                    None => None,
                }
            } else {
                None
            }
        } else {
            match decode_lit_from(s, i + 2) {
                Some(r) => Some(seq![s[i + 1]] + r),
                None => None,
            }
        }
    } else {
        match decode_lit_from(s, i + 1) {
            Some(r) => Some(seq![s[i]] + r),
            None => None,
        }
    }
}

/// View of an optional byte vector as an optional byte sequence.
pub open spec fn opt_bytes_view(r: Option<Vec<u8>>) -> Option<Seq<u8>> {
    match r {
        Some(v) => Some(v@),
        None => None,
    }
}

/// Decodes the escapes of a raw-byte literal.
pub fn decode_literal(v: &Vec<u8>) -> (r: Option<Vec<u8>>)
    ensures
        opt_bytes_view(r) == decode_lit_from(v@, 0),
{
    let mut out: Vec<u8> = Vec::new();
    let mut i: usize = 0;
    while i < v.len()
        invariant
            0 <= i <= v.len(),
            decode_lit_from(v@, 0) == (match decode_lit_from(v@, i as int) {
                Some(r) => Some(out@ + r),
                None => None::<Seq<u8>>,
            }),
        decreases v.len() - i,
    {
        let ghost prev = out@;
        let b = v[i];
        let step: usize;
        if b == BSLASH {
            if v.len() - i < 2 {
                return None;
            }
            let e = v[i + 1];
            if e == LOW_X {
                if v.len() - i < 4 {
                    return None;
                }
                match (parse_hex(v[i + 2]), parse_hex(v[i + 3])) {
                    (Some(h), Some(lo)) => {
                        out.push(h * 16 + lo);
                        step = 4;
                    },
                    _ => {
                        return None;
                    },
                }
            } else {
                out.push(e);
                step = 2;
            }
        } else {
            out.push(b);
            step = 1;
        }
        proof {
            let bs = decode_lit_from(v@, i + step);
            if bs is Some {
                assert(prev + (seq![out@[out@.len() - 1]] + bs->0) =~= out@ + bs->0);
            }
        }
        i = i + step;
    }
    proof {
        assert(out@ + Seq::<u8>::empty() =~= out@);
    }
    Some(out)
}

/// A literal of odd decoded length is padded with one zero byte, so that
/// it fills whole sixteen-bit words.
pub open spec fn pad_even(bs: Seq<u8>) -> Seq<u8> {
    if bs.len() % 2 == 1 {
        bs.push(0u8)
    } else {
        bs
    }
}

/// The number of words a raw literal of `n` decoded bytes occupies, as a
/// wrapped cursor advance.
pub open spec fn lit_words(n: nat) -> u16 {
    (((n / 2 + n % 2) as int) % 0x10000) as u16
}

/// The label table: each defined label with its bound address, in
/// definition order.
pub type SpecTbl = Seq<(Seq<u8>, u16)>;

/// First binding of `k` in the table at or after position `i`.
pub open spec fn tbl_lookup_from(t: SpecTbl, i: int, k: Seq<u8>) -> Option<u16>
    decreases t.len() - i,
    when i >= 0
{
    if i >= t.len() {
        None
    } else if t[i].0 == k {
        Some(t[i].1)
    } else {
        tbl_lookup_from(t, i + 1, k)
    }
}

/// The address bound to label `k`, if any.
pub open spec fn tbl_lookup(t: SpecTbl, k: Seq<u8>) -> Option<u16> {
    tbl_lookup_from(t, 0, k)
}

/// Looks a label up in the table built by pass 1.
pub fn tbl_get(t: &Vec<(Vec<u8>, u16)>, k: &Vec<u8>) -> (r: Option<u16>)
    ensures
        r == tbl_lookup(t.deep_view(), k@),
{
    let mut i: usize = 0;
    while i < t.len()
        invariant
            0 <= i <= t.len(),
            tbl_lookup(t.deep_view(), k@) == tbl_lookup_from(t.deep_view(), i as int, k@),
        decreases t.len() - i,
    {
        proof {
            assert(t.deep_view()[i as int].0 =~= t@[i as int].0@);
        }
        if bytes_eq(&t[i].0, k) {
            return Some(t[i].1);
        }
        i = i + 1;
    }
    None
}

/// How far one line advances the address cursor in pass 1, in words:
/// nothing for a label definition, the padded word count of a raw
/// literal, the requested count of a padding directive, and one word for
/// an instruction.
pub open spec fn line_advance(l: Seq<u8>) -> Result<u16, AsmErrorKind> {
    if is_label_line(l) {
        Ok(0u16)
    } else if is_lit_line(l) {
        match decode_lit_from(l.subrange(3, l.len() as int), 0) {
            None => Err(AsmErrorKind::InvalidOperand),
            Some(bs) => Ok(lit_words(bs.len())),
        }
    } else if is_offset_line(l) {
        match parse_dec_spec(l.subrange(8, l.len() as int)) {
            None => Err(AsmErrorKind::InvalidOperand),
            Some(n) => Ok(n),
        }
    } else {
        Ok(1u16)
    }
}

/// Pass 1 over the lines from `i` on: advance the address cursor by each
/// line's size in words and bind each label line (the whole line is the
/// label) to the cursor. Label definitions do not advance the cursor;
/// redefining a label is an error. Never emits a byte.
pub open spec fn pass1_from(lines: Seq<Seq<u8>>, i: int, cur: u16, tbl: SpecTbl) -> Result<
    SpecTbl,
    AsmError,
>
    decreases lines.len() - i,
    when i >= 0
{
    if i >= lines.len() {
        Ok(tbl)
    } else {
        let l = lines[i];
        if is_label_line(l) {
            if tbl_lookup(tbl, l) is Some {
                Err(AsmError { kind: AsmErrorKind::DuplicateLabel, line: i as usize })
            } else {
                pass1_from(lines, i + 1, cur, tbl.push((l, cur)))
            }
        } else {
            match line_advance(l) {
                Err(k) => Err(AsmError { kind: k, line: i as usize }),
                Ok(n) => pass1_from(lines, i + 1, cur.wrapping_add(n), tbl),
            }
        }
    }
}

/// Runs pass 1 over the lines after the origin line, building the label
/// table.
pub fn run_pass1(lines: &Vec<Vec<u8>>, origin: u16) -> (r: Result<Vec<(Vec<u8>, u16)>, AsmError>)
    requires
        lines@.len() >= 1,
    ensures
        match r {
            Ok(t) => pass1_from(lines.deep_view(), 1, origin, Seq::empty()) == Ok::<
                SpecTbl,
                AsmError,
            >(t.deep_view()),
            Err(e) => pass1_from(lines.deep_view(), 1, origin, Seq::empty()) == Err::<
                SpecTbl,
                AsmError,
            >(e),
        },
{
    let ghost all = lines.deep_view();
    let mut tbl: Vec<(Vec<u8>, u16)> = Vec::new();
    let mut cur: u16 = origin;
    let mut i: usize = 1;
    proof {
        assert(tbl.deep_view() =~~= Seq::<(Seq<u8>, u16)>::empty());
    }
    while i < lines.len()
        invariant
            1 <= i <= lines.len(),
            all == lines.deep_view(),
            pass1_from(all, 1, origin, Seq::empty()) == pass1_from(
                all,
                i as int,
                cur,
                tbl.deep_view(),
            ),
        decreases lines.len() - i,
    {
        let l = &lines[i];
        proof {
            assert(all[i as int] =~= l@);
        }
        if check_label_line(l) {
            if tbl_get(&tbl, l).is_some() {
                return Err(AsmError { kind: AsmErrorKind::DuplicateLabel, line: i });
            }
            let key = slice_range(l, 0, l.len());
            proof {
                assert(key@ =~= l@);
            }
            let ghost old_tbl = tbl.deep_view();
            tbl.push((key, cur));
            proof {
                assert(tbl.deep_view() =~~= old_tbl.push((l@, cur)));
            }
        } else if check_lit_line(l) {
            let body = slice_range(l, 3, l.len());
            match decode_literal(&body) {
                None => {
                    return Err(AsmError { kind: AsmErrorKind::InvalidOperand, line: i });
                },
                Some(bs) => {
                    let words: usize = bs.len() / 2 + bs.len() % 2;
                    cur = cur.wrapping_add((words % 0x10000) as u16);
                },
            }
        } else if check_offset_line(l) {
            let tail = slice_range(l, 8, l.len());
            match parse_dec(&tail) {
                None => {
                    return Err(AsmError { kind: AsmErrorKind::InvalidOperand, line: i });
                },
                Some(n) => {
                    cur = cur.wrapping_add(n);
                },
            }
        } else {
            cur = cur.wrapping_add(1);
        }
        i = i + 1;
    }
    Ok(tbl)
}

/// The low twelve-bit field of an instruction line. A third token that
/// begins with the label marker resolves through the label table when the
/// opcode can carry a label: `puth`/`putl` take the high/low half of the
/// label's absolute address, `lea` and `brk` take the wrapped displacement
/// from the address after the instruction, range-checked against the
/// eight-bit signed field (`brk` also sets its immediate-form flag bit).
/// Any other third token is a plain hexadecimal byte.
pub open spec fn low_field_spec(toks: Seq<Seq<u8>>, tbl: SpecTbl, addr: u16, opc: u16) -> Result<
    u16,
    AsmErrorKind,
> {
    if toks.len() >= 3 && toks[2].len() >= 1 && toks[2][0] == QUOTE && (opc == OP_PUTH || opc
        == OP_PUTL || opc == OP_BRK || opc == OP_LEA) {
        match tbl_lookup(tbl, toks[2]) {
            None => Err(AsmErrorKind::UndefinedLabel),
            Some(a) => if opc == OP_PUTH {
                Ok(a >> 8)
            } else if opc == OP_PUTL {
                Ok(a & 0xff)
            } else {
                let d = a.wrapping_sub(addr.wrapping_add(1));
                if disp_fits8(d) {
                    if opc == OP_BRK {
                        Ok(0x800 | (d & 0xff))
                    } else {
                        Ok(d & 0xff)
                    }
                } else {
                    Err(AsmErrorKind::BranchOutOfRange)
                }
            },
        }
    } else if toks.len() >= 3 {
        match parse_hex_byte_spec(toks[2]) {
            None => Err(AsmErrorKind::InvalidOperand),
            Some(b) => Ok(b as u16),
        }
    } else {
        Ok(0)
    }
}

/// The first register slot of an instruction line: the second token's
/// leading hexadecimal digit (whatever follows it is ignored), or zero
/// when the line has no second token.
pub open spec fn reg_field_spec(toks: Seq<Seq<u8>>) -> Result<u16, AsmErrorKind> {
    if toks.len() >= 2 {
        if toks[1].len() >= 1 && is_hex_digit(toks[1][0]) {
            Ok(hex_val(toks[1][0]) as u16)
        } else {
            Err(AsmErrorKind::InvalidOperand)
        }
    } else {
        Ok(0)
    }
}

/// The encoding of one instruction line standing at word address `addr`:
/// the mnemonic's opcode in the top four bits, the register digit in the
/// next four, and the low field under them.
pub open spec fn encode_instr_spec(l: Seq<u8>, tbl: SpecTbl, addr: u16) -> Result<
    u16,
    AsmErrorKind,
> {
    let toks = tokens_of(l);
    if toks.len() == 0 {
        Err(AsmErrorKind::UnknownMnemonic)
    } else {
        match opcode_of_spec(toks[0]) {
            None => Err(AsmErrorKind::UnknownMnemonic),
            Some(opc) => match low_field_spec(toks, tbl, addr, opc) {
                Err(k) => Err(k),
                Ok(low) => match reg_field_spec(toks) {
                    Err(k) => Err(k),
                    Ok(r1) => Ok(encode_word(opc, r1, low)),
                },
            },
        }
    }
}

/// Encodes one instruction line against the label table.
pub fn encode_instr(l: &Vec<u8>, tbl: &Vec<(Vec<u8>, u16)>, addr: u16) -> (r: Result<
    u16,
    AsmErrorKind,
>)
    ensures
        r == encode_instr_spec(l@, tbl.deep_view(), addr),
{
    let toks = tokenize(l);
    let ghost stoks = tokens_of(l@);
    if toks.len() == 0 {
        return Err(AsmErrorKind::UnknownMnemonic);
    }
    proof {
        assert(stoks[0] =~= toks@[0]@);
    }
    let opc = match opcode_of(&toks[0]) {
        None => {
            return Err(AsmErrorKind::UnknownMnemonic);
        },
        Some(o) => o,
    };
    let low: u16;
    if toks.len() >= 3 {
        proof {
            assert(stoks[2] =~= toks@[2]@);
        }
        let t2 = &toks[2];
        if t2.len() >= 1 && t2[0] == QUOTE && (opc == OP_PUTH || opc == OP_PUTL || opc == OP_BRK
            || opc == OP_LEA) {
            match tbl_get(tbl, t2) {
                None => {
                    return Err(AsmErrorKind::UndefinedLabel);
                },
                Some(a) => {
                    if opc == OP_PUTH {
                        low = a >> 8;
                    } else if opc == OP_PUTL {
                        low = a & 0xff;
                    } else {
                        let d = a.wrapping_sub(addr.wrapping_add(1));
                        if (d >> 7) == 0 || (d >> 7) == 0x1ff {
                            low = if opc == OP_BRK {
                                0x800 | (d & 0xff)
                            } else {
                                d & 0xff
                            };
                        } else {
                            return Err(AsmErrorKind::BranchOutOfRange);
                        }
                    }
                },
            }
        } else {
            match parse_hex_byte(t2) {
                None => {
                    return Err(AsmErrorKind::InvalidOperand);
                },
                Some(b) => {
                    low = b as u16;
                },
            }
        }
    } else {
        low = 0;
    }
    let r1: u16;
    if toks.len() >= 2 {
        proof {
            assert(stoks[1] =~= toks@[1]@);
        }
        let t1 = &toks[1];
        if t1.len() >= 1 {
            match parse_hex(t1[0]) {
                None => {
                    return Err(AsmErrorKind::InvalidOperand);
                },
                Some(v) => {
                    r1 = v as u16;
                },
            }
        } else {
            return Err(AsmErrorKind::InvalidOperand);
        }
    } else {
        r1 = 0;
    }
    Ok((opc << 12) | (r1 << 8) | low)
}

/// A run of zero bytes.
pub open spec fn zero_seq(n: nat) -> Seq<u8> {
    Seq::new(n, |j: int| 0u8)
}

/// The word address at which the next instruction will stand, derived
/// from the output produced so far (two origin header bytes, then two
/// bytes per word) wrapped to the address space.
pub open spec fn cur_addr(origin: u16, out: Seq<u8>) -> u16 {
    origin.wrapping_add((((out.len() - 2) / 2) % 0x10000) as u16)
}

/// What one line contributes to the image in pass 2, standing at word
/// address `addr`: nothing for a label definition, the decoded and
/// padded bytes of a raw literal, the requested count of zero words for
/// a padding directive, and an instruction's encoding, high byte first.
pub open spec fn line_emit(l: Seq<u8>, tbl: SpecTbl, addr: u16) -> Result<Seq<u8>, AsmErrorKind> {
    if is_label_line(l) {
        Ok(Seq::empty())
    } else if is_lit_line(l) {
        match decode_lit_from(l.subrange(3, l.len() as int), 0) {
            None => Err(AsmErrorKind::InvalidOperand),
            Some(bs) => Ok(pad_even(bs)),
        }
    } else if is_offset_line(l) {
        match parse_dec_spec(l.subrange(8, l.len() as int)) {
            None => Err(AsmErrorKind::InvalidOperand),
            Some(n) => Ok(zero_seq(2 * n as nat)),
        }
    } else {
        match encode_instr_spec(l, tbl, addr) {
            Err(k) => Err(k),
            Ok(w) => Ok(seq![(w >> 8) as u8, (w & 0xff) as u8]),
        }
    }
}

/// Pass 2 over the lines from `i` on: append what each line emits.
/// `out` already holds the two origin bytes.
pub open spec fn pass2_from(
    lines: Seq<Seq<u8>>,
    i: int,
    tbl: SpecTbl,
    origin: u16,
    out: Seq<u8>,
) -> Result<Seq<u8>, AsmError>
    decreases lines.len() - i,
    when i >= 0
{
    if i >= lines.len() {
        Ok(out)
    } else {
        match line_emit(lines[i], tbl, cur_addr(origin, out)) {
            Err(k) => Err(AsmError { kind: k, line: i as usize }),
            Ok(bs) => pass2_from(lines, i + 1, tbl, origin, out + bs),
        }
    }
}

/// View of an assembly result as a byte sequence.
pub open spec fn res_bytes_view(r: Result<Vec<u8>, AsmError>) -> Result<Seq<u8>, AsmError> {
    match r {
        Ok(v) => Ok(v@),
        Err(e) => Err(e),
    }
}

/// Runs pass 2 over the lines after the origin line, emitting the image.
pub fn run_pass2(lines: &Vec<Vec<u8>>, tbl: &Vec<(Vec<u8>, u16)>, origin: u16, hi: u8, lo: u8) -> (r:
    Result<Vec<u8>, AsmError>)
    requires
        lines@.len() >= 1,
    ensures
        res_bytes_view(r) == pass2_from(
            lines.deep_view(),
            1,
            tbl.deep_view(),
            origin,
            seq![hi, lo],
        ),
{
    let ghost all = lines.deep_view();
    let ghost stbl = tbl.deep_view();
    let mut out: Vec<u8> = Vec::new();
    out.push(hi);
    out.push(lo);
    proof {
        assert(out@ =~= seq![hi, lo]);
    }
    let mut i: usize = 1;
    while i < lines.len()
        invariant
            1 <= i <= lines.len(),
            all == lines.deep_view(),
            stbl == tbl.deep_view(),
            out@.len() >= 2,
            pass2_from(all, 1, stbl, origin, seq![hi, lo]) == pass2_from(
                all,
                i as int,
                stbl,
                origin,
                out@,
            ),
        decreases lines.len() - i,
    {
        let l = &lines[i];
        proof {
            assert(all[i as int] =~= l@);
        }
        if check_label_line(l) {
        } else if check_lit_line(l) {
            let body = slice_range(l, 3, l.len());
            match decode_literal(&body) {
                None => {
                    return Err(AsmError { kind: AsmErrorKind::InvalidOperand, line: i });
                },
                Some(mut bs) => {
                    let ghost bs0 = bs@;
                    if bs.len() % 2 == 1 {
                        bs.push(0);
                    }
                    proof {
                        assert(bs@ =~= pad_even(bs0));
                    }
                    out.append(&mut bs);
                },
            }
        } else if check_offset_line(l) {
            let tail = slice_range(l, 8, l.len());
            match parse_dec(&tail) {
                None => {
                    return Err(AsmError { kind: AsmErrorKind::InvalidOperand, line: i });
                },
                Some(n) => {
                    let ghost before = out@;
                    let total: usize = 2 * (n as usize);
                    let mut k: usize = 0;
                    while k < total
                        invariant
                            k <= total,
                            out@ =~= before + zero_seq(k as nat),
                        decreases total - k,
                    {
                        out.push(0);
                        k = k + 1;
                    }
                    proof {
                        assert(before + zero_seq((2 * n) as nat) =~= out@);
                    }
                },
            }
        } else {
            let words: usize = (out.len() - 2) / 2;
            let addr: u16 = origin.wrapping_add((words % 0x10000) as u16);
            proof {
                assert(addr == cur_addr(origin, out@));
            }
            match encode_instr(l, tbl, addr) {
                Err(k) => {
                    return Err(AsmError { kind: k, line: i });
                },
                Ok(w) => {
                    let ghost before = out@;
                    proof {
                        assert(w >> 8 < 256) by (bit_vector);
                        assert(w & 0xff < 256) by (bit_vector);
                    }
                    out.push((w >> 8) as u8);
                    out.push((w & 0xff) as u8);
                    proof {
                        assert(out@ =~= before + seq![(w >> 8) as u8, (w & 0xff) as u8]);
                    }
                },
            }
        }
        i = i + 1;
    }
    Ok(out)
}

/// The two address bytes of the origin directive, when the line is a
/// well-formed origin header.
pub open spec fn parse_origin_spec(l: Seq<u8>) -> Option<(u8, u8)> {
    if is_origin_line(l) {
        let toks = tokens_of(l.subrange(8, l.len() as int));
        if toks.len() >= 2 {
            match (parse_hex_pair_spec(toks[0]), parse_hex_pair_spec(toks[1])) {
                (Some(h), Some(lo)) => Some((h, lo)),
                _ => None,
            }
        } else {
            None
        }
    } else {
        None
    }
}

/// Reads the origin header line.
pub fn parse_origin(l: &Vec<u8>) -> (r: Option<(u8, u8)>)
    ensures
        r == parse_origin_spec(l@),
{
    if !check_origin_line(l) {
        return None;
    }
    let tail = slice_range(l, 8, l.len());
    let toks = tokenize(&tail);
    let ghost stoks = tokens_of(l@.subrange(8, l@.len() as int));
    if toks.len() < 2 {
        return None;
    }
    proof {
        assert(stoks[0] =~= toks@[0]@);
        assert(stoks[1] =~= toks@[1]@);
    }
    match (parse_hex_pair(&toks[0]), parse_hex_pair(&toks[1])) {
        (Some(h), Some(lo)) => Some((h, lo)),
        _ => None,
    }
}

/// The whole assembly of a program: read the origin header from the first
/// line (its two bytes open the image), run pass 1 to build the label
/// table, then pass 2 to emit the image. Any failure aborts assembly with
/// the offending line's index; no partial image is produced.
pub open spec fn assemble_spec(lines: Seq<Seq<u8>>) -> Result<Seq<u8>, AsmError> {
    if lines.len() == 0 {
        Err(AsmError { kind: AsmErrorKind::Config, line: 0 })
    } else {
        match parse_origin_spec(lines[0]) {
            None => Err(AsmError { kind: AsmErrorKind::Config, line: 0 }),
            Some(hl) => {
                let origin = ((hl.0 as int) * 256 + hl.1 as int) as u16;
                match pass1_from(lines, 1, origin, Seq::empty()) {
                    Err(e) => Err(e),
                    Ok(tbl) => pass2_from(lines, 1, tbl, origin, seq![hl.0, hl.1]),
                }
            },
        }
    }
}

/// Assembles a program, handed as its ordered non-empty source lines.
pub fn assemble(lines: &Vec<Vec<u8>>) -> (r: Result<Vec<u8>, AsmError>)
    ensures
        res_bytes_view(r) == assemble_spec(lines.deep_view()),
{
    if lines.len() == 0 {
        return Err(AsmError { kind: AsmErrorKind::Config, line: 0 });
    }
    proof {
        assert(lines.deep_view()[0] =~= lines@[0]@);
    }
    let origin_bytes = match parse_origin(&lines[0]) {
        None => {
            return Err(AsmError { kind: AsmErrorKind::Config, line: 0 });
        },
        Some(p) => p,
    };
    let hi = origin_bytes.0;
    let lo = origin_bytes.1;
    let origin: u16 = (hi as u16) * 256 + (lo as u16);
    let tbl = match run_pass1(lines, origin) {
        Err(e) => {
            return Err(e);
        },
        Ok(t) => t,
    };
    run_pass2(lines, &tbl, origin, hi, lo)
}

} // verus!

verus! {

/// Looking a key up in a table extended by one entry: an existing
/// binding wins (first match), else the new entry answers.
proof fn lemma_lookup_from_push(t: SpecTbl, e: (Seq<u8>, u16), k: Seq<u8>, i: int)
    requires
        0 <= i <= t.len(),
    ensures
        tbl_lookup_from(t.push(e), i, k) == (match tbl_lookup_from(t, i, k) {
            Some(v) => Some(v),
            None => if e.0 == k {
                Some(e.1)
            } else {
                None
            },
        }),
    decreases t.len() - i,
{
    if i < t.len() {
        assert(t.push(e)[i] == t[i]);
        lemma_lookup_from_push(t, e, k, i + 1);
    } else {
        assert(t.push(e)[i] == e);
        assert(tbl_lookup_from(t, i, k) is None);
        if e.0 == k {
            assert(tbl_lookup_from(t.push(e), i, k) == Some(e.1));
        } else {
            assert(tbl_lookup_from(t.push(e), i + 1, k) is None);
            assert(tbl_lookup_from(t.push(e), i, k) == tbl_lookup_from(t.push(e), i + 1, k));
        }
    }
}

proof fn lemma_lookup_push(t: SpecTbl, e: (Seq<u8>, u16), k: Seq<u8>)
    ensures
        tbl_lookup(t.push(e), k) == (match tbl_lookup(t, k) {
            Some(v) => Some(v),
            None => if e.0 == k {
                Some(e.1)
            } else {
                None
            },
        }),
{
    lemma_lookup_from_push(t, e, k, 0);
}

/// A binding already in the table survives the rest of pass 1 unchanged:
/// later definitions only append, and lookup takes the first match.
proof fn lemma_pass1_preserves_binding(
    lines: Seq<Seq<u8>>,
    i: int,
    cur: u16,
    tbl: SpecTbl,
    k: Seq<u8>,
)
    requires
        0 <= i,
        pass1_from(lines, i, cur, tbl) is Ok,
        tbl_lookup(tbl, k) is Some,
    ensures
        tbl_lookup(pass1_from(lines, i, cur, tbl)->Ok_0, k) == tbl_lookup(tbl, k),
    decreases lines.len() - i,
{
    if i < lines.len() {
        let l = lines[i];
        if is_label_line(l) {
            lemma_lookup_push(tbl, (l, cur), k);
            lemma_pass1_preserves_binding(lines, i + 1, cur, tbl.push((l, cur)), k);
        } else {
            match line_advance(l) {
                Ok(n) => {
                    lemma_pass1_preserves_binding(lines, i + 1, cur.wrapping_add(n), tbl, k);
                },
                Err(_) => {},
            }
        }
    }
}

/// Pass 1 fails on a label line whose name the table already binds.
proof fn lemma_pass1_dup_err(lines: Seq<Seq<u8>>, i: int, cur: u16, tbl: SpecTbl, j: int)
    requires
        0 <= i <= j < lines.len(),
        is_label_line(lines[j]),
        tbl_lookup(tbl, lines[j]) is Some,
    ensures
        pass1_from(lines, i, cur, tbl) is Err,
    decreases j - i,
{
    if i < j {
        let l = lines[i];
        if is_label_line(l) {
            if tbl_lookup(tbl, l) is None {
                lemma_lookup_push(tbl, (l, cur), lines[j]);
                lemma_pass1_dup_err(lines, i + 1, cur, tbl.push((l, cur)), j);
            }
        } else {
            match line_advance(l) {
                Ok(n) => {
                    lemma_pass1_dup_err(lines, i + 1, cur.wrapping_add(n), tbl, j);
                },
                Err(_) => {},
            }
        }
    }
}

/// The address cursor pass 1 reaches just before line `j`, having
/// started at line `i` with value `cur`.
pub open spec fn cursor_before(lines: Seq<Seq<u8>>, i: int, cur: u16, j: int) -> u16
    decreases j - i,
    when i <= j
{
    if i >= j {
        cur
    } else {
        let n = match line_advance(lines[i]) {
            Ok(n) => n,
            Err(_) => 0u16,
        };
        cursor_before(lines, i + 1, cur.wrapping_add(n), j)
    }
}

proof fn lemma_label_binds_cursor(lines: Seq<Seq<u8>>, i: int, cur: u16, tbl: SpecTbl, j: int)
    requires
        0 <= i <= j < lines.len(),
        is_label_line(lines[j]),
        pass1_from(lines, i, cur, tbl) is Ok,
        tbl_lookup(tbl, lines[j]) is None,
    ensures
        tbl_lookup(pass1_from(lines, i, cur, tbl)->Ok_0, lines[j]) == Some(
            cursor_before(lines, i, cur, j),
        ),
    decreases j - i,
{
    let l = lines[i];
    if i == j {
        lemma_lookup_push(tbl, (l, cur), l);
        lemma_pass1_preserves_binding(lines, i + 1, cur, tbl.push((l, cur)), l);
    } else {
        if is_label_line(l) {
            lemma_lookup_push(tbl, (l, cur), lines[j]);
            if l == lines[j] {
                lemma_pass1_dup_err(lines, i + 1, cur, tbl.push((l, cur)), j);
            }
            lemma_label_binds_cursor(lines, i + 1, cur, tbl.push((l, cur)), j);
        } else {
            match line_advance(l) {
                Ok(n) => {
                    lemma_label_binds_cursor(lines, i + 1, cur.wrapping_add(n), tbl, j);
                },
                Err(_) => {},
            }
        }
    }
}

/// Label ordering independence. Pass 1 binds every label to the address
/// its cursor had at the definition line, and that binding is what the
/// completed table answers for the label. Pass 2 resolves every label
/// operand through this one table (`low_field_spec` consults
/// `tbl_lookup` alone), so a reference standing before the definition
/// line resolves to exactly the same address as one standing after it.
pub proof fn lemma_label_order_independence(lines: Seq<Seq<u8>>, origin: u16, j: int)
    requires
        pass1_from(lines, 1, origin, Seq::empty()) is Ok,
        1 <= j < lines.len(),
        is_label_line(lines[j]),
    ensures
        tbl_lookup(pass1_from(lines, 1, origin, Seq::empty())->Ok_0, lines[j]) == Some(
            cursor_before(lines, 1, origin, j),
        ),
{
    lemma_label_binds_cursor(lines, 1, origin, Seq::empty(), j);
}

/// The central two-pass invariant: whenever pass 2 emits bytes for a
/// line, the emission fills whole words, and pass 1 charged exactly its
/// length in words (wrapped to the cursor's width). Both passes size
/// every line from the same encoding table, so the addresses pass 1
/// bound to labels are the addresses pass 2's output reaches.
pub proof fn lemma_sizing_matches_emission(l: Seq<u8>, tbl: SpecTbl, addr: u16)
    ensures
        line_emit(l, tbl, addr) matches Ok(bs) ==> bs.len() % 2 == 0 && line_advance(l) == Ok::<
            u16,
            AsmErrorKind,
        >((((bs.len() / 2) as int) % 0x10000) as u16),
{
    if line_emit(l, tbl, addr) is Ok {
        let bs = line_emit(l, tbl, addr)->Ok_0;
        if is_label_line(l) {
        } else if is_lit_line(l) {
            let dec = decode_lit_from(l.subrange(3, l.len() as int), 0)->0;
            let n = dec.len() as int;
            assert(pad_even(dec).len() == n + n % 2);
            assert((n + n % 2) / 2 == n / 2 + n % 2);
        } else if is_offset_line(l) {
            let n = parse_dec_spec(l.subrange(8, l.len() as int))->0;
            assert(zero_seq(2 * n as nat).len() == 2 * n);
            assert((2 * n as int) / 2 == n as int);
        } else {
        }
    }
}

/// A raw-byte literal of odd decoded length is padded with exactly one
/// zero byte; one of even length is emitted as it is.
pub proof fn lemma_odd_literal_padding(bs: Seq<u8>)
    ensures
        bs.len() % 2 == 1 ==> pad_even(bs) == bs.push(0u8),
        bs.len() % 2 == 0 ==> pad_even(bs) == bs,
        pad_even(bs).len() % 2 == 0,
{
}

/// The branch range check: a label operand of `brk` or `lea` bound to
/// address `a` is accepted exactly when the wrapped displacement from
/// the address after the instruction reads, as a signed number, within
/// the eight-bit two's-complement range; every displacement outside it
/// raises `BranchOutOfRange`.
pub proof fn lemma_branch_range_check(toks: Seq<Seq<u8>>, tbl: SpecTbl, addr: u16, opc: u16)
    requires
        toks.len() >= 3,
        toks[2].len() >= 1,
        toks[2][0] == QUOTE,
        opc == OP_BRK || opc == OP_LEA,
        tbl_lookup(tbl, toks[2]) is Some,
    ensures
        ({
            let d = (tbl_lookup(tbl, toks[2])->0).wrapping_sub(addr.wrapping_add(1));
            &&& (low_field_spec(toks, tbl, addr, opc) is Ok <==> -128 <= as_signed(d) < 128)
            &&& (low_field_spec(toks, tbl, addr, opc) == Err::<u16, AsmErrorKind>(
                AsmErrorKind::BranchOutOfRange,
            ) <==> !(-128 <= as_signed(d) < 128))
        }),
{
    let d = (tbl_lookup(tbl, toks[2])->0).wrapping_sub(addr.wrapping_add(1));
    lemma_disp_fits8_signed_range(d);
}

/// Round trip of assembly and decoding: for an instruction line without
/// a label operand, every field the engine decodes from the emitted word
/// is what the assembler read from the line: the mnemonic's opcode, the
/// register digit, and the operand byte.
pub proof fn lemma_instruction_roundtrip(l: Seq<u8>, tbl: SpecTbl, addr: u16)
    requires
        encode_instr_spec(l, tbl, addr) is Ok,
        tokens_of(l).len() >= 3 ==> tokens_of(l)[2][0] != QUOTE,
    ensures
        ({
            let toks = tokens_of(l);
            let w = encode_instr_spec(l, tbl, addr)->Ok_0;
            &&& op_of(w) == opcode_of_spec(toks[0])->0
            &&& r1_of(w) == (if toks.len() >= 2 {
                hex_val(toks[1][0]) as u16
            } else {
                0u16
            })
            &&& val_of(w) == (if toks.len() >= 3 {
                parse_hex_byte_spec(toks[2])->0 as u16
            } else {
                0u16
            })
        }),
{
    let toks = tokens_of(l);
    let opc = opcode_of_spec(toks[0])->0;
    let low = low_field_spec(toks, tbl, addr, opc)->Ok_0;
    let r1 = reg_field_spec(toks)->Ok_0;
    assert(opc < 16);
    assert(r1 < 16);
    assert(low < 256);
    lemma_encode_decode_roundtrip(opc, r1, low);
}

} // verus!

verus! {

/// Adding two word counts and wrapping once is the same as wrapping each
/// and adding with wraparound.
proof fn lemma_wadd_splits(x: u16, p: int, q: int)
    requires
        p >= 0,
        q >= 0,
    ensures
        x.wrapping_add(((p + q) % 0x10000) as u16) == x.wrapping_add(
            (p % 0x10000) as u16,
        ).wrapping_add((q % 0x10000) as u16),
{
    let m = 0x10000int;
    let a = p % m;
    let b = q % m;
    vstd::arithmetic::div_mod::lemma_mod_bound(p, m);
    vstd::arithmetic::div_mod::lemma_mod_bound(q, m);
    lemma_wrapping_add_is_mod(x, ((p + q) % m) as u16);
    lemma_wrapping_add_is_mod(x, a as u16);
    lemma_wrapping_add_is_mod(x.wrapping_add(a as u16), b as u16);
    // left side: (x + (p + q) % m) % m == (x + p + q) % m
    vstd::arithmetic::div_mod::lemma_add_mod_noop_right(x as int, p + q, m);
    // right side folds the same way, one addend at a time
    vstd::arithmetic::div_mod::lemma_add_mod_noop_right(x as int, p, m);
    vstd::arithmetic::div_mod::lemma_mod_bound((x + p) % m, m);
    vstd::arithmetic::div_mod::lemma_small_mod(((x + p) % m) as nat, m as nat);
    vstd::arithmetic::div_mod::lemma_add_mod_noop((x + p) as int, q, m);
    vstd::arithmetic::div_mod::lemma_add_mod_noop_right(((x + p) % m) as int, q, m);
}

/// Two-pass assembly is deterministic: the image is a function of the
/// source lines alone, with no other state, so assembling the same
/// source twice yields byte-identical output (the ensures of `assemble`
/// ties every run to this one function of the input).
pub proof fn lemma_assemble_deterministic(a: Seq<Seq<u8>>, b: Seq<Seq<u8>>)
    requires
        a == b,
    ensures
        assemble_spec(a) == assemble_spec(b),
{
}

/// The central two-pass agreement, over whole programs: wherever pass 2
/// completes, the word address its output reaches is the cursor pass 1
/// reaches over the same lines. The two passes consult the one encoding
/// table, so the addresses pass 1 bound to labels are the addresses at
/// which pass 2 places the bytes.
pub proof fn lemma_passes_agree_on_addresses(
    lines: Seq<Seq<u8>>,
    i: int,
    tbl: SpecTbl,
    origin: u16,
    out: Seq<u8>,
)
    requires
        1 <= i <= lines.len(),
        out.len() >= 2,
        out.len() % 2 == 0,
        pass2_from(lines, i, tbl, origin, out) is Ok,
    ensures
        cur_addr(origin, pass2_from(lines, i, tbl, origin, out)->Ok_0) == cursor_before(
            lines,
            i,
            cur_addr(origin, out),
            lines.len() as int,
        ),
    decreases lines.len() - i,
{
    if i < lines.len() {
        let l = lines[i];
        let addr = cur_addr(origin, out);
        let bs = line_emit(l, tbl, addr)->Ok_0;
        lemma_sizing_matches_emission(l, tbl, addr);
        let p = (out.len() - 2) / 2;
        let q = bs.len() as int / 2;
        assert((out + bs).len() - 2 == out.len() - 2 + bs.len());
        assert(((out + bs).len() - 2) / 2 == p + q);
        lemma_wadd_splits(origin, p, q);
        vstd::arithmetic::div_mod::lemma_mod_bound(p, 0x10000);
        lemma_wrapping_add_is_mod(origin, (p % 0x10000) as u16);
        lemma_passes_agree_on_addresses(lines, i + 1, tbl, origin, out + bs);
    }
}

} // verus!
