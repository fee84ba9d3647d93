//! The line classifier: one line of source text becomes an instruction, a
//! label declaration, nothing, or an error.

use vstd::prelude::*;
use vstd::string::*;
use crate::instruction::{kw_djnz, kw_load_a, kw_load_b, kw_out, kw_rlca, kw_rrca, Instruction};
use crate::labels::LabelTable;
use crate::text::{
    alphanumeric, decimal_u8, has_prefix, is_alnum, is_space, parse_u8, same_text, starts_with, trim_text,
    trimmed, white_space,
};

verus! {

/// What one source line holds.
#[derive(Debug, PartialEq, Eq)]
pub enum Line {
    Instruction(Instruction),
    Label(String),
    Empty,
    ParseError,
}

/// A source line's meaning, with the label name as a sequence of characters.
pub enum LineModel {
    Instruction(Instruction),
    Label(Seq<char>),
    Empty,
    ParseError,
}

impl View for Line {
    type V = LineModel;

    open spec fn view(&self) -> LineModel {
        match self {
            Line::Instruction(i) => LineModel::Instruction(*i),
            Line::Label(name) => LineModel::Label(name@),
            Line::Empty => LineModel::Empty,
            Line::ParseError => LineModel::ParseError,
        }
    }
}

/// What a register load's operand means: one optional whitespace character,
/// then a byte in decimal.
pub open spec fn load_model(operand: Seq<char>, register_a: bool) -> LineModel {
    let literal = if operand.len() > 0 && white_space(operand[0]) {
        operand.drop_first()
    } else {
        operand
    };
    match decimal_u8(literal) {
        Some(v) => LineModel::Instruction(
            if register_a {
                Instruction::LoadA(v)
            } else {
                Instruction::LoadB(v)
            },
        ),
        None => LineModel::ParseError,
    }
}

/// What a jump to `name` means against the table `targets`.
pub open spec fn jump_model(name: Seq<char>, targets: Map<Seq<char>, usize>) -> LineModel {
    if targets.contains_key(name) {
        LineModel::Instruction(Instruction::Djnz { index: targets[name] })
    } else {
        LineModel::ParseError
    }
}

/// Whether every character of `s` is alphanumeric or `_`.
pub open spec fn identifier_chars(s: Seq<char>) -> bool {
    forall|i: int| 0 <= i < s.len() ==> (alphanumeric(#[trigger] s[i]) || s[i] == '_')
}

/// Whether `name` may name a label: non-empty, alphanumeric or `_` only.
pub open spec fn is_label_name(name: Seq<char>) -> bool {
    name.len() > 0 && identifier_chars(name)
}

/// What a candidate label declaration means, given the names declared so far.
pub open spec fn label_model(t: Seq<char>, declared: Map<Seq<char>, usize>) -> LineModel {
    if t.len() > 0 && t.last() == ':' && is_label_name(t.drop_last()) && !declared.contains_key(
        t.drop_last(),
    ) {
        LineModel::Label(t.drop_last())
    } else {
        LineModel::ParseError
    }
}

/// What a trimmed line means. Declarations are checked against `declared`;
/// jumps are resolved against `targets`.
pub open spec fn classify(
    t: Seq<char>,
    declared: Map<Seq<char>, usize>,
    targets: Map<Seq<char>, usize>,
) -> LineModel {
    if t == kw_rlca() {
        LineModel::Instruction(Instruction::Rlca)
    } else if t == kw_rrca() {
        LineModel::Instruction(Instruction::Rrca)
    } else if t == kw_out() {
        LineModel::Instruction(Instruction::Out)
    } else if t.len() == 0 {
        LineModel::Empty
    } else if starts_with(t, kw_load_a()) {
        load_model(t.skip(5), true)
    } else if starts_with(t, kw_load_b()) {
        load_model(t.skip(5), false)
    } else if starts_with(t, kw_djnz()) {
        jump_model(t.skip(5), targets)
    } else {
        label_model(t, declared)
    }
}

/// Reads the operand of a register load: what follows the first five
/// characters of the trimmed line (`ld a,` or `ld b,`). `register_a` picks
/// the register.
pub fn try_register_load(trimmed: &str, register_a: bool) -> (r: Line)
    ensures
        r@ == (if trimmed@.len() >= 5 {
            load_model(trimmed@.skip(5), register_a)
        } else {
            LineModel::ParseError
        }),
{
    let n = trimmed.unicode_len();
    if n < 5 {
        return Line::ParseError;
    }
    let operand = trimmed.substring_char(5, n);
    let m = operand.unicode_len();
    let literal = if m > 0 && is_space(operand.get_char(0)) {
        operand.substring_char(1, m)
    } else {
        operand
    };
    assert(operand@.len() > 0 ==> operand@.drop_first() =~= operand@.subrange(1, m as int));
    match parse_u8(literal) {
        Some(v) => if register_a {
            Line::Instruction(Instruction::LoadA(v))
        } else {
            Line::Instruction(Instruction::LoadB(v))
        },
        None => Line::ParseError,
    }
}

/// Resolves a jump: the label named after the first five characters of the
/// trimmed line (`djnz `) is looked up in `labels`.
pub fn try_jump(trimmed: &str, labels: &LabelTable) -> (r: Line)
    ensures
        r@ == (if trimmed@.len() >= 5 {
            jump_model(trimmed@.skip(5), labels@)
        } else {
            LineModel::ParseError
        }),
{
    let n = trimmed.unicode_len();
    if n < 5 {
        return Line::ParseError;
    }
    let name = trimmed.substring_char(5, n);
    match labels.get(name) {
        Some(index) => Line::Instruction(Instruction::Djnz { index }),
        None => Line::ParseError,
    }
}

/// Whether every character is alphanumeric or an underscore.
pub fn is_identifier(chars: &str) -> (r: bool)
    ensures
        r == identifier_chars(chars@),
{
    let n = chars.unicode_len();
    let mut i: usize = 0;
    while i < n
        invariant
            i <= n,
            n == chars@.len(),
            identifier_chars(chars@.take(i as int)),
        decreases n - i,
    {
        let c = chars.get_char(i);
        if !is_alnum(c) && c != '_' {
            assert(!(alphanumeric(chars@[i as int]) || chars@[i as int] == '_'));
            return false;
        }
        assert(chars@.take(i + 1) =~= chars@.take(i as int).push(c));
        i = i + 1;
    }
    assert(chars@.take(n as int) =~= chars@);
    true
}

/// Reads a label declaration: a name, non-empty, of alphanumerics and `_`,
/// not yet in `labels`, followed by one `:`.
pub fn try_label(trimmed: &str, labels: &LabelTable) -> (r: Line)
    ensures
        r@ == label_model(trimmed@, labels@),
{
    let n = trimmed.unicode_len();
    if n < 2 || trimmed.get_char(n - 1) != ':' {
        return Line::ParseError;
    }
    let name = trimmed.substring_char(0, n - 1);
    assert(name@ =~= trimmed@.drop_last());
    if is_identifier(name) && !labels.contains_key(name) {
        Line::Label(String::from_str(name))
    } else {
        Line::ParseError
    }
}

/// Classifies a line against two tables: `declared` holds the labels
/// declared so far, against which a declaration must be new; `targets`
/// holds the labels that jumps resolve to.
pub fn classify_line(line: &str, declared: &LabelTable, targets: &LabelTable) -> (r: Line)
    ensures
        r@ == classify(trimmed(line@), declared@, targets@),
{
    let t = trim_text(line);
    proof {
        reveal_strlit("rlca");
        reveal_strlit("rrca");
        reveal_strlit("out (0),a");
        reveal_strlit("ld a,");
        reveal_strlit("ld b,");
        reveal_strlit("djnz ");
        assert("rlca"@ =~= kw_rlca());
        assert("rrca"@ =~= kw_rrca());
        assert("out (0),a"@ =~= kw_out());
        assert("ld a,"@ =~= kw_load_a());
        assert("ld b,"@ =~= kw_load_b());
        assert("djnz "@ =~= kw_djnz());
    }
    if same_text(t, "rlca") {
        Line::Instruction(Instruction::Rlca)
    } else if same_text(t, "rrca") {
        Line::Instruction(Instruction::Rrca)
    } else if same_text(t, "out (0),a") {
        Line::Instruction(Instruction::Out)
    } else if t.unicode_len() == 0 {
        Line::Empty
    } else if has_prefix(t, "ld a,") {
        try_register_load(t, true)
    } else if has_prefix(t, "ld b,") {
        try_register_load(t, false)
    } else if has_prefix(t, "djnz ") {
        try_jump(t, targets)
    } else {
        try_label(t, declared)
    }
}

/// Classifies one source line against the labels declared so far.
pub fn parse(line: &str, labels: &LabelTable) -> (r: Line)
    ensures
        r@ == classify(trimmed(line@), labels@, labels@),
{
    classify_line(line, labels, labels)
}

} // verus!
