use mc::assembler::decode_literal;
use mc::bytes::{parse_dec, parse_hex, parse_hex_byte, tokenize};
use mc::isa::opcode_of;

#[test]
fn tokenize_splits_on_spaces_and_tabs() {
    let toks = tokenize(&b" add \t1  23 ".to_vec());
    let toks: Vec<&[u8]> = toks.iter().map(|t| t.as_slice()).collect();
    assert_eq!(toks, vec![&b"add"[..], &b"1"[..], &b"23"[..]]);
}

#[test]
fn tokenize_of_blank_line_is_empty() {
    assert!(tokenize(&b" \t ".to_vec()).is_empty());
    assert!(tokenize(&b"".to_vec()).is_empty());
}

#[test]
fn hex_digit_values_fold_case() {
    assert_eq!(parse_hex(b'0'), Some(0));
    assert_eq!(parse_hex(b'9'), Some(9));
    assert_eq!(parse_hex(b'a'), Some(10));
    assert_eq!(parse_hex(b'f'), Some(15));
    assert_eq!(parse_hex(b'A'), Some(10));
    assert_eq!(parse_hex(b'F'), Some(15));
    assert_eq!(parse_hex(b'g'), None);
    assert_eq!(parse_hex(b'G'), None);
}

#[test]
fn hex_byte_reads_the_leading_digits() {
    assert_eq!(parse_hex_byte(&b"7".to_vec()), Some(0x7));
    assert_eq!(parse_hex_byte(&b"41".to_vec()), Some(0x41));
    assert_eq!(parse_hex_byte(&b"4F".to_vec()), Some(0x4f));
    // anything after the two leading digits is ignored.
    assert_eq!(parse_hex_byte(&b"123".to_vec()), Some(0x12));
    assert_eq!(parse_hex_byte(&b"12zz".to_vec()), Some(0x12));
    assert_eq!(parse_hex_byte(&b"".to_vec()), None);
    assert_eq!(parse_hex_byte(&b"4z".to_vec()), None);
    assert_eq!(parse_hex_byte(&b"z4".to_vec()), None);
}

#[test]
fn decimal_parse_bounds() {
    assert_eq!(parse_dec(&b"0".to_vec()), Some(0));
    assert_eq!(parse_dec(&b"65535".to_vec()), Some(65535));
    assert_eq!(parse_dec(&b"65536".to_vec()), None);
    assert_eq!(parse_dec(&b"00042".to_vec()), Some(42));
    assert_eq!(parse_dec(&b"".to_vec()), None);
    assert_eq!(parse_dec(&b"1x".to_vec()), None);
}

#[test]
fn encoding_table_knows_every_mnemonic() {
    let table: [(&[u8], u16); 16] = [
        (b"halt", 0),
        (b"trap", 1),
        (b"cmp", 2),
        (b"puth", 3),
        (b"putl", 4),
        (b"brk", 5),
        (b"lea", 6),
        (b"ld", 7),
        (b"st", 8),
        (b"mv", 9),
        (b"not", 10),
        (b"and", 11),
        (b"or", 12),
        (b"ls", 13),
        (b"rs", 14),
        (b"add", 15),
    ];
    for (name, opcode) in table {
        assert_eq!(opcode_of(&name.to_vec()), Some(opcode));
    }
    assert_eq!(opcode_of(&b"nop".to_vec()), None);
    assert_eq!(opcode_of(&b"halts".to_vec()), None);
    assert_eq!(opcode_of(&b"".to_vec()), None);
}

#[test]
fn literal_escapes_decode() {
    assert_eq!(decode_literal(&b"hey".to_vec()), Some(b"hey".to_vec()));
    assert_eq!(decode_literal(&b"\\x00b".to_vec()), Some(vec![0, b'b']));
    assert_eq!(decode_literal(&b"a\\\\b".to_vec()), Some(b"a\\b".to_vec()));
    assert_eq!(decode_literal(&b"\\".to_vec()), None);
    assert_eq!(decode_literal(&b"\\xg0".to_vec()), None);
    assert_eq!(decode_literal(&b"\\x1".to_vec()), None);
}
