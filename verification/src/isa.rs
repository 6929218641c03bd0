//! The instruction set: the encoding table shared by the assembler and the
//! execution engine.
//!
//! An instruction is one 16-bit word: a 4-bit opcode in the top bits,
//! then three 4-bit operand slots (a register index `r1` and either two
//! further register indices `r2`, `r3` or one 8-bit immediate `val`).
//! Both the assembler's encoder and the engine's decoder are specified
//! against the field functions here, so the two cannot drift apart.

use vstd::prelude::*;

verus! {

// Opcode values. The comment gives the operand shape the assembler
// expects: `reg` a register digit, `val` an immediate byte, `addr` a
// trap index, `cnd` a condition mask.
pub const OP_HALT: u16 = 0;

// trap: addr
pub const OP_TRAP: u16 = 1;

// cmp: reg
pub const OP_CMP: u16 = 2;

// puth: reg val
pub const OP_PUTH: u16 = 3;

// putl: reg val
pub const OP_PUTL: u16 = 4;

// brk: cnd reg reg, or (with a label) cnd disp8
pub const OP_BRK: u16 = 5;

// lea: reg imm8
pub const OP_LEA: u16 = 6;

// ld: reg 0 reg
pub const OP_LD: u16 = 7;

// st: reg 0 reg
pub const OP_ST: u16 = 8;

// mv: reg 0 reg
pub const OP_MV: u16 = 9;

// not: reg 0 reg
pub const OP_NOT: u16 = 10;

// and: reg reg reg
pub const OP_AND: u16 = 11;

// or: reg reg reg
pub const OP_OR: u16 = 12;

// ls: reg reg reg
pub const OP_LS: u16 = 13;

// rs: reg reg reg
pub const OP_RS: u16 = 14;

// add: reg reg reg
pub const OP_ADD: u16 = 15;

/// A mnemonic token packed into one number: a leading 1 sentinel followed
/// by the token's bytes, base 256. Distinct tokens give distinct keys.
pub open spec fn mn_key(s: Seq<u8>) -> int
    decreases s.len(),
{
    if s.len() == 0 {
        1
    } else {
        mn_key(s.take(s.len() - 1)) * 256 + s[s.len() - 1]
    }
}

// The packed keys of the sixteen mnemonics (sentinel 1, then ASCII).
// "halt"
pub const MN_HALT: u64 = 0x168616c74;

// "trap"
pub const MN_TRAP: u64 = 0x174726170;

// "cmp"
pub const MN_CMP: u64 = 0x1636d70;

// "puth"
pub const MN_PUTH: u64 = 0x170757468;

// "putl"
pub const MN_PUTL: u64 = 0x17075746c;

// "brk"
pub const MN_BRK: u64 = 0x162726b;

// "lea"
pub const MN_LEA: u64 = 0x16c6561;

// "ld"
pub const MN_LD: u64 = 0x16c64;

// "st"
pub const MN_ST: u64 = 0x17374;

// "mv"
pub const MN_MV: u64 = 0x16d76;

// "not"
pub const MN_NOT: u64 = 0x16e6f74;

// "and"
pub const MN_AND: u64 = 0x1616e64;

// "or"
pub const MN_OR: u64 = 0x16f72;

// "ls"
pub const MN_LS: u64 = 0x16c73;

// "rs"
pub const MN_RS: u64 = 0x17273;

// "add"
pub const MN_ADD: u64 = 0x1616464;

/// The encoding table: the opcode of a mnemonic token, `None` when the
/// token is no mnemonic. Consulted by both assembler passes, so sizing
/// and encoding can never disagree on an instruction's length.
pub open spec fn opcode_of_spec(s: Seq<u8>) -> Option<u16> {
    if s.len() > 4 {
        None
    } else {
        let k = mn_key(s);
        if k == MN_HALT {
            Some(OP_HALT)
        } else if k == MN_TRAP {
            Some(OP_TRAP)
        } else if k == MN_CMP {
            Some(OP_CMP)
        } else if k == MN_PUTH {
            Some(OP_PUTH)
        } else if k == MN_PUTL {
            Some(OP_PUTL)
        } else if k == MN_BRK {
            Some(OP_BRK)
        } else if k == MN_LEA {
            Some(OP_LEA)
        } else if k == MN_LD {
            Some(OP_LD)
        } else if k == MN_ST {
            Some(OP_ST)
        } else if k == MN_MV {
            Some(OP_MV)
        } else if k == MN_NOT {
            Some(OP_NOT)
        } else if k == MN_AND {
            Some(OP_AND)
        } else if k == MN_OR {
            Some(OP_OR)
        } else if k == MN_LS {
            Some(OP_LS)
        } else if k == MN_RS {
            Some(OP_RS)
        } else if k == MN_ADD {
            Some(OP_ADD)
        } else {
            None
        }
    }
}

/// Looks a mnemonic token up in the encoding table.
pub fn opcode_of(t: &Vec<u8>) -> (r: Option<u16>)
    ensures
        r == opcode_of_spec(t@),
        r is Some ==> r->0 < 16,
{
    if t.len() > 4 {
        return None;
    }
    let mut k: u64 = 1;
    let mut i: usize = 0;
    while i < t.len()
        invariant
            0 <= i <= t.len() <= 4,
            k == mn_key(t@.take(i as int)),
            k <= (if i == 0 {
                0x1u64
            } else if i == 1 {
                0x1ffu64
            } else if i == 2 {
                0x1ffffu64
            } else if i == 3 {
                0x1ffffffu64
            } else {
                0x1ffffffffu64
            }),
        decreases t.len() - i,
    {
        proof {
            assert(t@.take(i + 1).take(i as int) =~= t@.take(i as int));
            assert(t@.take(i + 1)[i as int] == t@[i as int]);
        }
        k = k * 256 + (t[i] as u64);
        i = i + 1;
    }
    proof {
        assert(t@.take(t@.len() as int) =~= t@);
    }
    if k == MN_HALT {
        Some(OP_HALT)
    } else if k == MN_TRAP {
        Some(OP_TRAP)
    } else if k == MN_CMP {
        Some(OP_CMP)
    } else if k == MN_PUTH {
        Some(OP_PUTH)
    } else if k == MN_PUTL {
        Some(OP_PUTL)
    } else if k == MN_BRK {
        Some(OP_BRK)
    } else if k == MN_LEA {
        Some(OP_LEA)
    } else if k == MN_LD {
        Some(OP_LD)
    } else if k == MN_ST {
        Some(OP_ST)
    } else if k == MN_MV {
        Some(OP_MV)
    } else if k == MN_NOT {
        Some(OP_NOT)
    } else if k == MN_AND {
        Some(OP_AND)
    } else if k == MN_OR {
        Some(OP_OR)
    } else if k == MN_LS {
        Some(OP_LS)
    } else if k == MN_RS {
        Some(OP_RS)
    } else if k == MN_ADD {
        Some(OP_ADD)
    } else {
        None
    }
}

/// Packs an instruction word from its opcode, first register slot, and
/// low twelve-bit field (an immediate byte, or two register digits, or a
/// branch form flag with a displacement).
pub open spec fn encode_word(opc: u16, r1: u16, low: u16) -> u16 {
    (opc << 12) | (r1 << 8) | low
}

/// Opcode field of an instruction word: the top four bits.
pub open spec fn op_of(w: u16) -> u16 {
    w >> 12
}

/// First operand slot: bits 8 to 11.
pub open spec fn r1_of(w: u16) -> u16 {
    (w >> 8) & 0xf
}

/// Second operand slot: bits 4 to 7.
pub open spec fn r2_of(w: u16) -> u16 {
    (w >> 4) & 0xf
}

/// Third operand slot: the low four bits.
pub open spec fn r3_of(w: u16) -> u16 {
    w & 0xf
}

/// Immediate byte: the low eight bits.
pub open spec fn val_of(w: u16) -> u16 {
    w & 0xff
}

/// Sign extension of an eight-bit immediate to the full word: the sign
/// bit is replicated into all higher bits.
pub open spec fn sext8(v: u16) -> u16 {
    if v & 0x80 != 0 {
        v | 0xff00
    } else {
        v & 0xff
    }
}

/// The value of a wrapped sixteen-bit addition, as modular arithmetic.
pub proof fn lemma_wrapping_add_is_mod(x: u16, y: u16)
    ensures
        x.wrapping_add(y) == (x + y) % 0x10000,
{
    if x + y > 0xffff {
        vstd::arithmetic::div_mod::lemma_mod_sub_multiples_vanish((x + y) as int, 0x10000);
        vstd::arithmetic::div_mod::lemma_small_mod((x + y - 0x10000) as nat, 0x10000);
    } else {
        vstd::arithmetic::div_mod::lemma_small_mod((x + y) as nat, 0x10000);
    }
}

/// A relative displacement (as a wrapped sixteen-bit difference) fits the
/// eight-bit signed branch field: the bits truncated away are all zero or
/// all one.
pub open spec fn disp_fits8(d: u16) -> bool {
    d >> 7 == 0 || d >> 7 == 0x1ff
}

/// The signed reading of a sixteen-bit word.
pub open spec fn as_signed(d: u16) -> int {
    if d < 0x8000 {
        d as int
    } else {
        d - 0x10000
    }
}

/// A wrapped displacement passes the branch range check exactly when its
/// signed reading lies in the eight-bit two's-complement range
/// `-128 <= d < 128`.
pub proof fn lemma_disp_fits8_signed_range(d: u16)
    ensures
        disp_fits8(d) <==> -128 <= as_signed(d) < 128,
{
    assert((d >> 7 == 0 || d >> 7 == 0x1ff) <==> (d < 128 || d >= 0xff80)) by (bit_vector);
}

/// Round trip of the shared encoding: every field the engine decodes from
/// an assembled word is the field the assembler packed into it.
pub proof fn lemma_encode_decode_roundtrip(opc: u16, r1: u16, low: u16)
    requires
        opc < 16,
        r1 < 16,
        low < 256,
    ensures
        op_of(encode_word(opc, r1, low)) == opc,
        r1_of(encode_word(opc, r1, low)) == r1,
        val_of(encode_word(opc, r1, low)) == low,
        r2_of(encode_word(opc, r1, low)) == low >> 4,
        r3_of(encode_word(opc, r1, low)) == low & 0xf,
{
    let w = encode_word(opc, r1, low);
    assert(opc < 16 && r1 < 16 && low < 256 ==> ((opc << 12) | (r1 << 8) | low) >> 12 == opc
        && (((opc << 12) | (r1 << 8) | low) >> 8) & 0xf == r1 && ((opc << 12) | (r1 << 8) | low)
        & 0xff == low && (((opc << 12) | (r1 << 8) | low) >> 4) & 0xf == low >> 4 && ((opc << 12)
        | (r1 << 8) | low) & 0xf == low & 0xf) by (bit_vector);
}

} // verus!

