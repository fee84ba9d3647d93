use leds::display::leds_to_string;
use leds::instruction::{rotate_left8, rotate_right8, Instruction};
use leds::text::{parse_u8, push_decimal, same_text, trim_text};

#[test]
fn test_leds_to_string() {
    assert_eq!(leds_to_string(0x80), "*.......");
    assert_eq!(leds_to_string(0x55), ".*.*.*.*");
    assert_eq!(leds_to_string(0xAA), "*.*.*.*.");
    assert_eq!(leds_to_string(0x0F), "....****");
}

#[test]
fn leds_follow_bits() {
    for v in 0..=255u8 {
        let s: Vec<char> = leds_to_string(v).chars().collect();
        assert_eq!(s.len(), 8);
        for i in 0..8 {
            assert_eq!(s[i] == '*', (v >> (7 - i)) & 1 == 1);
        }
    }
    assert_eq!(leds_to_string(0), "........");
    assert_eq!(leds_to_string(255), "********");
}

#[test]
fn rotations_round_trip() {
    for v in 0..=255u8 {
        for n in 0..20u32 {
            assert_eq!(rotate_right8(rotate_left8(v, n), n), v);
            assert_eq!(rotate_left8(v, n), v.rotate_left(n));
            assert_eq!(rotate_right8(v, n), v.rotate_right(n));
        }
    }
    assert_eq!(rotate_left8(0x80, 1), 0x01);
    assert_eq!(rotate_right8(0x01, 1), 0x80);
    assert_eq!(rotate_left8(0x81, 4), 0x18);
}

#[test]
fn instruction_text() {
    assert_eq!(Instruction::LoadA(128).to_string(), "ld a,128");
    assert_eq!(Instruction::LoadB(0).to_string(), "ld b,0");
    assert_eq!(Instruction::Out.to_string(), "out (0),a");
    assert_eq!(Instruction::Rlca.to_string(), "rlca");
    assert_eq!(Instruction::Rrca.to_string(), "rrca");
    assert_eq!(Instruction::Djnz { index: 1204 }.to_string(), "djnz 1204");
}

#[test]
fn decimal_text() {
    let mut s = String::from("n=");
    push_decimal(&mut s, 90210);
    assert_eq!(s, "n=90210");
    let mut z = String::new();
    push_decimal(&mut z, 0);
    assert_eq!(z, "0");
}

#[test]
fn decimal_bytes() {
    assert_eq!(parse_u8("0"), Some(0));
    assert_eq!(parse_u8("255"), Some(255));
    assert_eq!(parse_u8("0255"), Some(255));
    assert_eq!(parse_u8("+1"), Some(1));
    assert_eq!(parse_u8("256"), None);
    assert_eq!(parse_u8("99999999999"), None);
    assert_eq!(parse_u8(""), None);
    assert_eq!(parse_u8(" 1"), None);
    assert_eq!(parse_u8("1x"), None);
}

#[test]
fn trimming() {
    assert_eq!(trim_text("  a b \t\n"), "a b");
    assert_eq!(trim_text("\u{3000}x\u{a0}"), "x");
    assert_eq!(trim_text("   "), "");
    assert_eq!(trim_text(""), "");
    assert!(same_text("abc", "abc"));
    assert!(!same_text("abc", "abd"));
    assert!(!same_text("ab", "abc"));
}
