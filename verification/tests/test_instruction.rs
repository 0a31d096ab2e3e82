use gekko_interpreter::instruction::Kind;
use gekko_interpreter::{Instruction, Spr, Tbr, OPCODE_BREAK};

#[test]
fn test_decode() {
    assert_eq!(
        Instruction::decode_instruction(0b011111_00010_00011_00100_0_100001010_1),
        Some(Instruction::Addx(2, 3, 4, false, true))
    );
}

#[test]
fn test_decode_break() {
    assert_eq!(
        Instruction::decode_instruction(OPCODE_BREAK),
        Some(Instruction::CustomBreak)
    );
    assert_eq!(OPCODE_BREAK, 0b111011_00_00000000_00000000_00000000);
    assert_eq!(Instruction::decode_instruction(OPCODE_BREAK | 0b10), None);
    assert_eq!(
        Instruction::decode_instruction(OPCODE_BREAK | 1),
        Some(Instruction::CustomBreak)
    );
}

#[test]
fn test_decode_is_a_function_of_the_word() {
    let word = 0b011111_00010_00011_00100_0_100001010_1;
    assert_eq!(
        Instruction::decode_instruction(word),
        Instruction::decode_instruction(word)
    );
}

#[test]
fn test_decode_spr_names() {
    assert_eq!(Spr::decode_from_mfspr(0b00001_00000), Spr::XER);
    assert_eq!(Spr::decode_from_mfspr(0b01000_00000), Spr::LR);
    assert_eq!(Spr::decode_from_mfspr(0b01001_00000), Spr::CTR);
    assert_eq!(Spr::lookup(0b01010_00000), None);
    assert_eq!(Tbr::decode_from_mftb(0b01100_01000), Tbr::Tbl);
    assert_eq!(Tbr::decode_from_mftb(0b01101_01000), Tbr::Tbu);
    assert_eq!(Tbr::lookup(0b01110_01000), None);
}

#[test]
fn test_decode_immediate_forms() {
    assert_eq!(
        Instruction::decode_instruction(0b001010_101_0_0_00100_00000000_00000101),
        Some(Instruction::Cmpli(5, 4, 5))
    );
    assert_eq!(
        Instruction::decode_instruction(0b001011_111_0_0_11111_11111111_11111110),
        Some(Instruction::Cmpi(7, 31, -2))
    );
    assert_eq!(
        Instruction::decode_instruction(0b001101_00001_00010_10000000_00000000),
        Some(Instruction::Addicdot(1, 2, i16::MIN))
    );
    assert_eq!(
        Instruction::decode_instruction(0b001110_10100_00000_11111111_11110000),
        Some(Instruction::Addi(20, 0, -16))
    );
    assert_eq!(
        Instruction::decode_instruction(0b001111_00100_00011_11111111_11111111),
        Some(Instruction::Addis(4, 3, 0xFFFF))
    );
    assert_eq!(Instruction::decode_instruction(0x60000000), Some(Instruction::Ori(0, 0, 0)));
    assert_eq!(
        Instruction::decode_instruction(0b011000_00001_00010_00000000_11111111),
        Some(Instruction::Ori(1, 2, 0xFF))
    );
    assert_eq!(
        Instruction::decode_instruction(0b011100_00001_00010_01111111_11111111),
        Some(Instruction::Andidot(1, 2, 0x7FFF))
    );
    assert_eq!(
        Instruction::decode_instruction(0b010101_00011_00100_00010_01010_10100_1),
        Some(Instruction::Rlwinmx(3, 4, 2, 10, 20, true))
    );
}

#[test]
fn test_decode_branches() {
    assert_eq!(
        Instruction::decode_instruction(0b010000_00100_00000_00000000_000010_0_0),
        Some(Instruction::Bcx(4, 0, 2, false, false))
    );
    assert_eq!(
        Instruction::decode_instruction(0b010000_01100_10110_11111111_111111_1_1),
        Some(Instruction::Bcx(12, 22, -1, true, true))
    );
    assert_eq!(
        Instruction::decode_instruction(0b010000_01100_10110_10000000_000000_0_1),
        Some(Instruction::Bcx(12, 22, -0x2000, false, true))
    );
    assert_eq!(
        Instruction::decode_instruction(0b010010_11_11111111_11111111_111111_0_1),
        Some(Instruction::Bx(-1, false, true))
    );
    assert_eq!(
        Instruction::decode_instruction(0b010010_01_11111111_11111111_111111_1_0),
        Some(Instruction::Bx(0x7F_FFFF, true, false))
    );
    assert_eq!(
        Instruction::decode_instruction(0b010010_10_00000000_00000000_000000_0_0),
        Some(Instruction::Bx(-0x80_0000, false, false))
    );
    assert_eq!(
        Instruction::decode_instruction(0x4e800020),
        Some(Instruction::Bclrx(20, 0, false))
    );
    assert_eq!(
        Instruction::decode_instruction(0x4e800021),
        Some(Instruction::Bclrx(20, 0, true))
    );
    assert_eq!(
        Instruction::decode_instruction(0b010011_00001_00010_00011_0011000001_0),
        Some(Instruction::Crxor(1, 2, 3))
    );
    assert_eq!(
        Instruction::decode_instruction(0b010011_00001_00010_00011_0011000010_0),
        None
    );
}

#[test]
fn test_decode_register_forms() {
    let word = |d: u32, a: u32, b: u32, oe: u32, xo: u32, rc: u32| {
        (31 << 26) | (d << 21) | (a << 16) | (b << 11) | (oe << 10) | (xo << 1) | rc
    };
    assert_eq!(
        Instruction::decode_instruction(word(5, 1, 2, 0, 0, 0)),
        Some(Instruction::Cmp(1, 1, 2))
    );
    assert_eq!(
        Instruction::decode_instruction(word(28, 1, 2, 0, 32, 0)),
        Some(Instruction::Cmpl(7, 1, 2))
    );
    assert_eq!(
        Instruction::decode_instruction(word(1, 2, 3, 1, 10, 1)),
        Some(Instruction::Addcx(1, 2, 3, true, true))
    );
    assert_eq!(
        Instruction::decode_instruction(word(1, 2, 3, 0, 23, 0)),
        Some(Instruction::Lwzx(1, 2, 3))
    );
    assert_eq!(
        Instruction::decode_instruction(word(1, 2, 3, 1, 40, 0)),
        Some(Instruction::Subfx(1, 2, 3, true, false))
    );
    assert_eq!(
        Instruction::decode_instruction(word(1, 2, 3, 0, 124, 1)),
        Some(Instruction::Nor(1, 2, 3, true))
    );
    assert_eq!(
        Instruction::decode_instruction(word(1, 2, 3, 0, 138, 0)),
        Some(Instruction::Addex(1, 2, 3, false, false))
    );
    assert_eq!(
        Instruction::decode_instruction(word(1, 2, 3, 0, 151, 0)),
        Some(Instruction::Stwx(1, 2, 3))
    );
    assert_eq!(
        Instruction::decode_instruction(word(31, 30, 29, 1, 266, 0)),
        Some(Instruction::Addx(31, 30, 29, true, false))
    );
    assert_eq!(
        Instruction::decode_instruction(word(4, 3, 0, 0, 442, 1)),
        Some(Instruction::Extsbx(4, 3, true))
    );
    assert_eq!(
        Instruction::decode_instruction(word(2, 1, 3, 0, 444, 0)),
        Some(Instruction::Orx(2, 1, 3, false))
    );
    assert_eq!(Instruction::decode_instruction(word(1, 2, 3, 0, 1, 0)), None);
    assert_eq!(Instruction::decode_instruction(word(1, 2, 3, 0, 445, 0)), None);
}

#[test]
fn test_decode_special_registers() {
    assert_eq!(
        Instruction::decode_instruction(0x7C0802A6),
        Some(Instruction::Mfspr(0, Spr::LR))
    );
    assert_eq!(
        Instruction::decode_instruction(0x7C6102A6),
        Some(Instruction::Mfspr(3, Spr::XER))
    );
    assert_eq!(
        Instruction::decode_instruction(0x7CC902A6),
        Some(Instruction::Mfspr(6, Spr::CTR))
    );
    assert_eq!(
        Instruction::decode_instruction(0x7CA903A6),
        Some(Instruction::Mtspr(5, Spr::CTR))
    );
    assert_eq!(
        Instruction::decode_instruction(0x7C0803A6),
        Some(Instruction::Mtspr(0, Spr::LR))
    );
    assert_eq!(
        Instruction::decode_instruction(0x7C6C42E6),
        Some(Instruction::Mftb(3, Tbr::Tbl))
    );
    assert_eq!(
        Instruction::decode_instruction(0x7C8D42E6),
        Some(Instruction::Mftb(4, Tbr::Tbu))
    );
    // a register that has no name here
    assert_eq!(Instruction::decode_instruction(0x7C1A02A6), None);
    assert_eq!(Instruction::decode_instruction(0x7C1A03A6), None);
    assert_eq!(Instruction::decode_instruction(0x7C6E42E6), None);
}

#[test]
fn test_decode_loads_and_stores() {
    let word = |primary: u32, d: u32, a: u32, offset: u16| {
        (primary << 26) | (d << 21) | (a << 16) | offset as u32
    };
    assert_eq!(
        Instruction::decode_instruction(word(32, 3, 5, 4)),
        Some(Instruction::Lwz(3, 5, 4))
    );
    assert_eq!(
        Instruction::decode_instruction(word(33, 3, 5, 0xFFFC)),
        Some(Instruction::Lwzu(3, 5, -4))
    );
    assert_eq!(
        Instruction::decode_instruction(word(34, 3, 5, 4)),
        Some(Instruction::Lbz(3, 5, 4))
    );
    assert_eq!(
        Instruction::decode_instruction(word(35, 3, 5, 4)),
        Some(Instruction::Lbzu(3, 5, 4))
    );
    assert_eq!(
        Instruction::decode_instruction(word(36, 1, 2, 0xFFFC)),
        Some(Instruction::Stw(1, 2, -4))
    );
    assert_eq!(
        Instruction::decode_instruction(word(37, 1, 2, 0xFFF8)),
        Some(Instruction::Stwu(1, 2, -8))
    );
    assert_eq!(
        Instruction::decode_instruction(word(38, 3, 5, 0)),
        Some(Instruction::Stb(3, 5, 0))
    );
    assert_eq!(
        Instruction::decode_instruction(word(39, 3, 5, 0x7FFF)),
        Some(Instruction::Stbu(3, 5, 0x7FFF))
    );
    assert_eq!(
        Instruction::decode_instruction(word(40, 3, 5, 2)),
        Some(Instruction::Lhz(3, 5, 2))
    );
    assert_eq!(
        Instruction::decode_instruction(word(46, 20, 3, 12)),
        Some(Instruction::Lmw(20, 3, 12))
    );
    assert_eq!(
        Instruction::decode_instruction(word(47, 29, 3, 0xFFFC)),
        Some(Instruction::Stmw(29, 3, -4))
    );
    assert_eq!(
        Instruction::decode_instruction(word(48, 1, 4, 8)),
        Some(Instruction::Lfs(1, 4, 8))
    );
    assert_eq!(
        Instruction::decode_instruction(word(50, 1, 4, 8)),
        Some(Instruction::Lfd(1, 4, 8))
    );
    assert_eq!(
        Instruction::decode_instruction(word(52, 1, 4, 8)),
        Some(Instruction::Stfs(1, 4, 8))
    );
    for primary in [41, 42, 43, 44, 45, 49, 51, 53, 54, 55, 56, 60] {
        assert_eq!(Instruction::decode_instruction(word(primary, 1, 4, 8)), None);
    }
}

#[test]
fn test_decode_float_forms() {
    assert_eq!(
        Instruction::decode_instruction(0b111111_00001_00010_00000_00011_11001_0),
        Some(Instruction::Fmulx(1, 2, 3, false))
    );
    assert_eq!(
        Instruction::decode_instruction(0b111111_00100_00000_00001_00000_01100_1),
        Some(Instruction::Frspx(4, 1, true))
    );
    assert_eq!(
        Instruction::decode_instruction(0b111111_00101_00010_00011_00001_11110_0),
        Some(Instruction::Fnmsubx(5, 2, 3, 1, false))
    );
    assert_eq!(
        Instruction::decode_instruction(0b111111_00110_00000_00011_00000_11010_0),
        Some(Instruction::Frsqrtex(6, 3, false))
    );
    assert_eq!(
        Instruction::decode_instruction(0b111111_00110_00000_00011_00000_11011_0),
        None
    );
}

#[test]
fn test_decode_unknown_primaries() {
    for primary in [0u32, 1, 2, 3, 4, 5, 6, 7, 8, 9, 12, 17, 20, 22, 23, 25, 26, 27, 29, 30, 57, 58, 61, 62] {
        assert_eq!(Instruction::decode_instruction(primary << 26), None);
        assert_eq!(Instruction::decode_instruction((primary << 26) | 0x03FF_FFFF), None);
    }
}

#[test]
fn test_decoded_instructions_are_well_formed() {
    let mut word: u32 = 0x1234_5678;
    for _ in 0..20000 {
        word = word.wrapping_mul(1664525).wrapping_add(1013904223);
        if let Some(instruction) = Instruction::decode_instruction(word) {
            assert!(instruction.is_well_formed(), "{:#x} {:?}", word, instruction);
        }
    }
}

#[test]
fn test_kinds() {
    assert_eq!(Instruction::Addx(0, 0, 0, false, false).get_kind(), Kind::Arithmetic);
    assert_eq!(Instruction::Cmp(0, 0, 0).get_kind(), Kind::Logic);
    assert_eq!(Instruction::Bx(0, false, false).get_kind(), Kind::Branch);
    assert_eq!(Instruction::Lfd(0, 0, 0).get_kind(), Kind::Load);
    assert_eq!(Instruction::Stfd(0, 0, 0).get_kind(), Kind::Store);
    assert_eq!(Instruction::CustomBreak.get_kind(), Kind::Special);
    assert_eq!(Instruction::Stfs(0, 0, 0).get_kind(), Kind::Float);
    assert_eq!(Instruction::Psq_l(0, 0, false, 0, 0).get_kind(), Kind::Float);
}
