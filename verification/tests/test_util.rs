use gekko_interpreter::util::{
    extend_sign_16, extend_sign_32, get_bit_section, get_bit_value, get_size_for_quantized_type,
    make_rotation_mask, rotate_left, set_bit_value, to_signed, u16_get_section, u8_get_bit,
};

#[test]
fn test_get_bit() {
    assert_eq!(
        get_bit_section(0b00001111_10000000_00000000_00000000, 4, 5),
        0x0000001F
    );
    assert_eq!(get_bit_value(0xFF7FFFFF, 8), false);
    assert_eq!(get_bit_value(0x00010000, 15), true);
}

#[test]
fn test_extend_sign() {
    assert_eq!(
        extend_sign_16(0x4000, 15),
        i16::from_be_bytes((0xC000u16).to_be_bytes())
    );
    assert_eq!(
        extend_sign_16(0x0F0F, 12),
        i16::from_be_bytes((0xFF0Fu16).to_be_bytes())
    );
    assert_eq!(extend_sign_16(0x1F0F, 15), 0x1F0F);
}

#[test]
fn test_bit_section_whole_word_and_edges() {
    assert_eq!(get_bit_section(0xDEAD_BEEF, 0, 32), 0xDEAD_BEEF);
    assert_eq!(get_bit_section(0xDEAD_BEEF, 0, 6), 0b110111);
    assert_eq!(get_bit_section(0xDEAD_BEEF, 31, 1), 1);
    assert_eq!(get_bit_section(0xDEAD_BEEF, 16, 16), 0xBEEF);
    assert_eq!(get_bit_section(0xDEAD_BEEF, 8, 8), 0xAD);
}

#[test]
fn test_u16_section() {
    assert_eq!(u16_get_section(0b0110_0000_1000_0000, 1, 2), 0b11);
    assert_eq!(u16_get_section(0x1234, 0, 16), 0x1234);
    assert_eq!(u16_get_section(0x1234, 11, 5), 0b10100);
    assert_eq!(u16_get_section(0x1234, 4, 8), 0x23);
}

#[test]
fn test_u8_get_bit() {
    assert_eq!(u8_get_bit(0b1000_0000, 0), true);
    assert_eq!(u8_get_bit(0b1000_0000, 1), false);
    assert_eq!(u8_get_bit(0b0000_0001, 7), true);
    assert_eq!(u8_get_bit(0b0000_0100, 5), true);
    assert_eq!(u8_get_bit(0b1111_1011, 5), false);
}

#[test]
fn test_extend_sign_16_full_width() {
    assert_eq!(extend_sign_16(0xFFFF, 16), -1);
    assert_eq!(extend_sign_16(0x8000, 16), i16::MIN);
    assert_eq!(extend_sign_16(0x7FFF, 16), i16::MAX);
    assert_eq!(extend_sign_16(1, 1), -1);
    assert_eq!(extend_sign_16(0, 1), 0);
}

#[test]
fn test_extend_sign_16_reads_only_the_low_bits() {
    assert_eq!(extend_sign_16(0x8001, 2), 1);
    assert_eq!(extend_sign_16(0xFFF3, 2), -1);
}

#[test]
fn test_extend_sign_32() {
    assert_eq!(extend_sign_32(0x00FF_FFFF, 24), -1);
    assert_eq!(extend_sign_32(0x0080_0000, 24), -0x80_0000);
    assert_eq!(extend_sign_32(0x007F_FFFF, 24), 0x7F_FFFF);
    assert_eq!(extend_sign_32(0xFFFF_FFFF, 32), -1);
    assert_eq!(extend_sign_32(0x8000_0000, 32), i32::MIN);
    assert_eq!(extend_sign_32(2, 24), 2);
}

#[test]
fn test_rotation_mask() {
    assert_eq!(make_rotation_mask(10, 20), 0x003F_F800);
    assert_eq!(make_rotation_mask(0, 31), 0xFFFF_FFFF);
    assert_eq!(make_rotation_mask(0, 0), 0x8000_0000);
    assert_eq!(make_rotation_mask(31, 31), 0x0000_0001);
    assert_eq!(make_rotation_mask(16, 31), 0x0000_FFFF);
}

#[test]
fn test_rotation_mask_wraps() {
    assert_eq!(make_rotation_mask(20, 10), 0xFFE0_0FFF);
    assert_eq!(make_rotation_mask(31, 0), 0x8000_0001);
    assert_eq!(make_rotation_mask(1, 0), 0xFFFF_FFFF);
}

#[test]
fn test_quantized_size() {
    assert_eq!(get_size_for_quantized_type(0), 4);
    assert_eq!(get_size_for_quantized_type(4), 10);
    assert_eq!(get_size_for_quantized_type(6), 10);
    assert_eq!(get_size_for_quantized_type(5), 20);
    assert_eq!(get_size_for_quantized_type(7), 20);
    assert_eq!(get_size_for_quantized_type(1), 4);
    assert_eq!(get_size_for_quantized_type(200), 4);
}

#[test]
fn test_rotate_left() {
    assert_eq!(rotate_left(0xabcdef12, 2), 0xabcdef12u32.rotate_left(2));
    assert_eq!(rotate_left(0x8000_0001, 1), 0x0000_0003);
    assert_eq!(rotate_left(0x1234_5678, 0), 0x1234_5678);
    assert_eq!(rotate_left(0x1234_5678, 31), 0x1234_5678u32.rotate_left(31));
}

#[test]
fn test_set_bit_value() {
    assert_eq!(set_bit_value(0, 0, true), 0x8000_0000);
    assert_eq!(set_bit_value(0, 31, true), 1);
    assert_eq!(set_bit_value(0xFFFF_FFFF, 29, false), 0xFFFF_FFFB);
    assert_eq!(set_bit_value(0x4, 29, true), 0x4);
    assert_eq!(set_bit_value(0x4, 29, false), 0);
}

#[test]
fn test_to_signed() {
    assert_eq!(to_signed(0), 0);
    assert_eq!(to_signed(0x7FFF_FFFF), 0x7FFF_FFFF);
    assert_eq!(to_signed(0x8000_0000), -0x8000_0000);
    assert_eq!(to_signed(0xFFFF_FFFF), -1);
}
