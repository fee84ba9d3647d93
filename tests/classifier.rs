use leds::instruction::Instruction;
use leds::labels::LabelTable;
use leds::parser::{is_identifier, parse, try_jump, try_label, try_register_load, Line};

#[test]
fn test_try_register_load() {
    assert_eq!(try_register_load("ld a,4", true), Line::Instruction(Instruction::LoadA(4)));
    assert_eq!(try_register_load("ld a,4", true), Line::Instruction(Instruction::LoadA(4)));
    assert_eq!(try_register_load("ld b,4", false), Line::Instruction(Instruction::LoadB(4)));
    assert_eq!(try_register_load("ld a,400", true), Line::ParseError);
    assert_eq!(try_register_load("ld a,a123", true), Line::ParseError);
    assert_eq!(try_register_load("ld a,", true), Line::ParseError);
}

#[test]
fn test_try_label() {
    let labels = LabelTable::new();
    assert_eq!(try_label("lbl:", &labels), Line::Label("lbl".to_owned()));
    assert_eq!(try_label("longer_label:", &labels), Line::Label("longer_label".to_owned()));
    assert_eq!(try_label("bad:label:", &labels), Line::ParseError);
    assert_eq!(try_label("toomanycolons::", &labels), Line::ParseError);
    assert_eq!(try_label("foo", &labels), Line::ParseError);
    assert_eq!(try_label(":bar", &labels), Line::ParseError);
}

#[test]
fn test_try_jump() {
    let mut labels = LabelTable::new();
    labels.insert("label".to_string(), 0);
    assert_eq!(try_jump("djnz label", &labels), Line::Instruction(Instruction::Djnz { index: 0 }));
}

#[test]
fn test_parse() {
    let labels = LabelTable::new();

    assert_eq!(parse("  ld a,4", &labels), Line::Instruction(Instruction::LoadA(4)));
    assert_eq!(parse("ld b,4   ", &labels), Line::Instruction(Instruction::LoadB(4)));

    assert_eq!(parse("    ", &labels), Line::Empty);
    assert_eq!(parse(" rlca  ", &labels), Line::Instruction(Instruction::Rlca));
    assert_eq!(parse("  rrca ", &labels), Line::Instruction(Instruction::Rrca));
    assert_eq!(parse(" out (0),a ", &labels), Line::Instruction(Instruction::Out));
}

#[test]
fn load_bounds() {
    let labels = LabelTable::new();
    assert_eq!(parse("ld a,0", &labels), Line::Instruction(Instruction::LoadA(0)));
    assert_eq!(parse("ld a,255", &labels), Line::Instruction(Instruction::LoadA(255)));
    assert_eq!(parse("ld b,007", &labels), Line::Instruction(Instruction::LoadB(7)));
    assert_eq!(parse("ld a,+9", &labels), Line::Instruction(Instruction::LoadA(9)));
    assert_eq!(parse("ld a,256", &labels), Line::ParseError);
    assert_eq!(parse("ld a,-1", &labels), Line::ParseError);
    assert_eq!(parse("ld a,+", &labels), Line::ParseError);
}

#[test]
fn malformed_literals_are_errors() {
    let labels = LabelTable::new();
    assert_eq!(parse("ld a,256", &labels), Line::ParseError);
    assert_eq!(parse("ld a,abc", &labels), Line::ParseError);
    assert_eq!(parse("ld a,", &labels), Line::ParseError);
}

#[test]
fn one_space_after_comma() {
    let labels = LabelTable::new();
    assert_eq!(parse("ld a, 12", &labels), Line::Instruction(Instruction::LoadA(12)));
    assert_eq!(parse("ld b,\t3", &labels), Line::Instruction(Instruction::LoadB(3)));
    assert_eq!(parse("ld a,  12", &labels), Line::ParseError);
    assert_eq!(parse("ld a ,12", &labels), Line::ParseError);
}

#[test]
fn short_lines_are_label_candidates() {
    let labels = LabelTable::new();
    assert_eq!(parse("a:", &labels), Line::Label("a".to_owned()));
    assert_eq!(parse("ld", &labels), Line::ParseError);
    assert_eq!(parse(":", &labels), Line::ParseError);
    assert_eq!(parse("RLCA", &labels), Line::ParseError);
    assert_eq!(parse("x_1:", &labels), Line::Label("x_1".to_owned()));
}

#[test]
fn label_names_may_be_unicode_letters() {
    let labels = LabelTable::new();
    assert_eq!(parse("läufer:", &labels), Line::Label("läufer".to_owned()));
    assert_eq!(parse("two words:", &labels), Line::ParseError);
}

#[test]
fn redeclared_label_is_an_error() {
    let mut labels = LabelTable::new();
    assert!(labels.insert("foo".to_string(), 3));
    assert_eq!(parse("foo:", &labels), Line::ParseError);
    assert_eq!(parse("Foo:", &labels), Line::Label("Foo".to_owned()));
}

#[test]
fn jump_to_unknown_label_is_an_error() {
    let labels = LabelTable::new();
    assert_eq!(parse("djnz missing", &labels), Line::ParseError);
    assert_eq!(try_jump("djnz", &labels), Line::ParseError);
}

#[test]
fn identifier_characters() {
    assert!(is_identifier("abc_123"));
    assert!(is_identifier(""));
    assert!(!is_identifier("a-b"));
    assert!(!is_identifier("a b"));
    assert!(!is_identifier("a:"));
}

#[test]
fn label_table_keeps_first_index() {
    let mut labels = LabelTable::new();
    assert!(!labels.contains_key("x"));
    assert!(labels.insert("x".to_string(), 1));
    assert!(!labels.insert("x".to_string(), 5));
    assert_eq!(labels.get("x"), Some(1));
    assert!(labels.insert("y".to_string(), 2));
    assert_eq!(labels.get("y"), Some(2));
    assert_eq!(labels.get("x"), Some(1));
    assert_eq!(labels.get("z"), None);
}
