use mc::assembler::{assemble, AsmError, AsmErrorKind};

fn lines(src: &[&str]) -> Vec<Vec<u8>> {
    src.iter().map(|s| s.as_bytes().to_vec()).collect()
}

fn ok(src: &[&str]) -> Vec<u8> {
    assemble(&lines(src)).expect("assembly should succeed")
}

fn err(src: &[&str]) -> AsmError {
    assemble(&lines(src)).expect_err("assembly should fail")
}

#[test]
fn put_trap_assembles_to_known_bytes() {
    let img = ok(&[".origin 00 00", "puth 0 41", "trap 0 0"]);
    assert_eq!(img, vec![0x00, 0x00, 0x30, 0x41, 0x10, 0x00]);
}

#[test]
fn origin_header_opens_the_image() {
    let img = ok(&[".origin 00 10", "halt"]);
    assert_eq!(img, vec![0x00, 0x10, 0x00, 0x00]);
}

#[test]
fn offset_places_next_instruction_past_zero_fill() {
    let img = ok(&[".origin 00 00", ".offset 4", "add 1 23"]);
    assert_eq!(img, vec![0x00, 0x00, 0, 0, 0, 0, 0, 0, 0, 0, 0xf1, 0x23]);
}

#[test]
fn odd_literal_padded_with_one_zero() {
    let img = ok(&[".origin 00 00", ".b abc"]);
    assert_eq!(img, vec![0x00, 0x00, 97, 98, 99, 0]);
}

#[test]
fn even_literal_not_padded() {
    let img = ok(&[".origin 00 00", ".b ab"]);
    assert_eq!(img, vec![0x00, 0x00, 97, 98]);
}

#[test]
fn hex_escape_decodes_to_byte() {
    let img = ok(&[".origin 00 00", ".b \\x2aZ"]);
    assert_eq!(img, vec![0x00, 0x00, 0x2a, b'Z']);
}

#[test]
fn char_escape_passes_byte_through() {
    let img = ok(&[".origin 00 00", ".b \\qq"]);
    assert_eq!(img, vec![0x00, 0x00, b'q', b'q']);
}

#[test]
fn label_reference_before_and_after_definition_resolve_alike() {
    // 'x stands at word address 1; the reference before the definition
    // line and the one after it both resolve to 1.
    let img = ok(&[".origin 00 00", "puth 1 'x", "'x", "putl 1 'x"]);
    assert_eq!(img, vec![0x00, 0x00, 0x31, 0x00, 0x41, 0x01]);
}

#[test]
fn backward_branch_encodes_negative_displacement() {
    let img = ok(&[".origin 00 00", "'loop", "brk f 'loop"]);
    // displacement 0 - 1 = -1, masked to 0xff, with the immediate-form bit.
    assert_eq!(img, vec![0x00, 0x00, 0x5f, 0xff]);
}

#[test]
fn branch_displacement_127_is_accepted() {
    // The branch stands at word 0; 'far stands at 1 + 127, so the
    // displacement past the advanced counter is exactly 127.
    let img = ok(&[".origin 00 00", "brk 8 'far", ".offset 127", "'far", "halt"]);
    assert_eq!(img[2], 0x58);
    assert_eq!(img[3], 127);
}

#[test]
fn branch_displacement_128_is_out_of_range() {
    let e = err(&[".origin 00 00", "brk 8 'far", ".offset 128", "'far", "halt"]);
    assert_eq!(e.kind, AsmErrorKind::BranchOutOfRange);
    assert_eq!(e.line, 1);
}

#[test]
fn branch_displacement_minus_128_is_accepted() {
    let img = ok(&[".origin 00 00", "'back", ".offset 127", "brk 8 'back"]);
    let n = img.len();
    assert_eq!(img[n - 2], 0x58);
    assert_eq!(img[n - 1], 0x80);
}

#[test]
fn branch_displacement_minus_129_is_out_of_range() {
    let e = err(&[".origin 00 00", "'back", ".offset 128", "brk 8 'back"]);
    assert_eq!(e.kind, AsmErrorKind::BranchOutOfRange);
    assert_eq!(e.line, 3);
}

#[test]
fn missing_origin_header_is_a_config_error() {
    let e = err(&["halt"]);
    assert_eq!(e.kind, AsmErrorKind::Config);
    assert_eq!(e.line, 0);
}

#[test]
fn empty_program_is_a_config_error() {
    let e = err(&[]);
    assert_eq!(e.kind, AsmErrorKind::Config);
    assert_eq!(e.line, 0);
}

#[test]
fn malformed_origin_operand_is_a_config_error() {
    let e = err(&[".origin zz 00", "halt"]);
    assert_eq!(e.kind, AsmErrorKind::Config);
    assert_eq!(e.line, 0);
}

#[test]
fn unknown_mnemonic_is_reported_with_its_line() {
    let e = err(&[".origin 00 00", "halt", "frob 1 2"]);
    assert_eq!(e.kind, AsmErrorKind::UnknownMnemonic);
    assert_eq!(e.line, 2);
}

#[test]
fn bad_hex_operand_is_invalid() {
    let e = err(&[".origin 00 00", "add 1 zz"]);
    assert_eq!(e.kind, AsmErrorKind::InvalidOperand);
    assert_eq!(e.line, 1);
}

#[test]
fn bad_register_digit_is_invalid() {
    let e = err(&[".origin 00 00", "add xy 12"]);
    assert_eq!(e.kind, AsmErrorKind::InvalidOperand);
    assert_eq!(e.line, 1);
}

#[test]
fn bad_offset_count_is_invalid() {
    let e = err(&[".origin 00 00", ".offset ten"]);
    assert_eq!(e.kind, AsmErrorKind::InvalidOperand);
    assert_eq!(e.line, 1);
}

#[test]
fn truncated_hex_escape_is_invalid() {
    let e = err(&[".origin 00 00", ".b \\x4"]);
    assert_eq!(e.kind, AsmErrorKind::InvalidOperand);
    assert_eq!(e.line, 1);
}

#[test]
fn undefined_label_is_reported() {
    let e = err(&[".origin 00 00", "putl 0 'nowhere"]);
    assert_eq!(e.kind, AsmErrorKind::UndefinedLabel);
    assert_eq!(e.line, 1);
}

#[test]
fn duplicate_label_is_reported() {
    let e = err(&[".origin 00 00", "'a", "halt", "'a"]);
    assert_eq!(e.kind, AsmErrorKind::DuplicateLabel);
    assert_eq!(e.line, 3);
}

#[test]
fn label_operand_on_plain_opcode_is_invalid() {
    // Only puth, putl, lea and brk may take a label operand.
    let e = err(&[".origin 00 00", "'a", "add 1 'a"]);
    assert_eq!(e.kind, AsmErrorKind::InvalidOperand);
    assert_eq!(e.line, 2);
}

#[test]
fn assembly_is_deterministic() {
    let src = [".origin 00 00", "'top", "puth 0 41", "trap 0 0", "brk f 'top"];
    let a = ok(&src);
    let b = ok(&src);
    assert_eq!(a, b);
}

#[test]
fn every_mnemonic_encodes_its_opcode() {
    let img = ok(&[
        ".origin 00 00",
        "halt",
        "trap 0 00",
        "cmp 1",
        "puth 1 22",
        "putl 1 33",
        "brk 2 34",
        "lea 3 10",
        "ld 4 05",
        "st 4 06",
        "mv 5 06",
        "not 6 07",
        "and 7 12",
        "or 8 12",
        "ls 9 12",
        "rs a 12",
        "add b 12",
    ]);
    let words: Vec<u16> = img[2..]
        .chunks(2)
        .map(|p| u16::from_be_bytes([p[0], p[1]]))
        .collect();
    let opcodes: Vec<u16> = words.iter().map(|w| w >> 12).collect();
    assert_eq!(opcodes, (0..16).collect::<Vec<u16>>());
    assert_eq!(words[3], 0x3122);
    assert_eq!(words[15], 0xfb12);
}

#[test]
fn lea_label_encodes_zero_displacement_to_next_word() {
    let img = ok(&[".origin 00 00", "lea 1 'dst", "'dst"]);
    assert_eq!(img, vec![0x00, 0x00, 0x61, 0x00]);
}

#[test]
fn put_label_halves_give_the_absolute_address() {
    let img = ok(&[".origin 12 34", "'here", "puth 0 'here", "putl 0 'here"]);
    assert_eq!(img, vec![0x12, 0x34, 0x30, 0x12, 0x40, 0x34]);
}

#[test]
fn branch_displacement_is_origin_independent() {
    let at_zero = ok(&[".origin 00 00", "'top", "brk f 'top"]);
    let at_sixteen = ok(&[".origin 00 10", "'top", "brk f 'top"]);
    assert_eq!(&at_zero[2..], &at_sixteen[2..]);
    assert_eq!(&at_zero[2..], &[0x5f, 0xff]);
}

#[test]
fn upper_case_hex_digits_are_accepted() {
    let img = ok(&[".origin 00 1A", "putl 0 FF", ".b \\x4Fa"]);
    assert_eq!(img, vec![0x00, 0x1a, 0x40, 0xff, 0x4f, b'a']);
}

#[test]
fn operand_tails_past_the_leading_digits_are_ignored() {
    // the byte operand reads its two leading digits, the register
    // operand its first digit; what follows is ignored.
    let img = ok(&[".origin 00 00", "add 1x 234"]);
    assert_eq!(img, vec![0x00, 0x00, 0xf1, 0x23]);
}
