//! The instruction set and the accumulator's rotations.

use vstd::prelude::*;
use vstd::string::*;
use crate::text::{decimal_digits, push_decimal};

verus! {

/// One resolved instruction.
#[derive(Clone, Copy, Debug, PartialEq, Eq, Structural)]
pub enum Instruction {
    /// `ld a,<n>`: load a byte into the accumulator.
    LoadA(u8),
    /// `ld b,<n>`: load a byte into the loop counter.
    LoadB(u8),
    /// `out (0),a`: show the accumulator on the LEDs.
    Out,
    /// `rlca`: rotate the accumulator left by one bit.
    Rlca,
    /// `rrca`: rotate the accumulator right by one bit.
    Rrca,
    /// `djnz <label>`: decrement the counter and jump to `index` while it
    /// stays positive.
    Djnz { index: usize },
}

/// The keyword text `ld a,`.
pub open spec fn kw_load_a() -> Seq<char> {
    seq!['l', 'd', ' ', 'a', ',']
}

/// The keyword text `ld b,`.
pub open spec fn kw_load_b() -> Seq<char> {
    seq!['l', 'd', ' ', 'b', ',']
}

/// The keyword text `djnz `.
pub open spec fn kw_djnz() -> Seq<char> {
    seq!['d', 'j', 'n', 'z', ' ']
}

/// The statement `out (0),a`.
pub open spec fn kw_out() -> Seq<char> {
    seq!['o', 'u', 't', ' ', '(', '0', ')', ',', 'a']
}

/// The statement `rlca`.
pub open spec fn kw_rlca() -> Seq<char> {
    seq!['r', 'l', 'c', 'a']
}

/// The statement `rrca`.
pub open spec fn kw_rrca() -> Seq<char> {
    seq!['r', 'r', 'c', 'a']
}

/// The source text of an instruction; a jump shows its resolved index.
pub open spec fn instruction_text(i: Instruction) -> Seq<char> {
    match i {
        Instruction::LoadA(a) => kw_load_a() + decimal_digits(a as nat),
        Instruction::LoadB(b) => kw_load_b() + decimal_digits(b as nat),
        Instruction::Out => kw_out(),
        Instruction::Rlca => kw_rlca(),
        Instruction::Rrca => kw_rrca(),
        Instruction::Djnz { index } => kw_djnz() + decimal_digits(index as nat),
    }
}

impl Instruction {
    /// The instruction written back as source text.
    pub fn to_string(&self) -> (r: String)
        ensures
            r@ == instruction_text(*self),
    {
        proof {
            reveal_strlit("ld a,");
            reveal_strlit("ld b,");
            reveal_strlit("out (0),a");
            reveal_strlit("rlca");
            reveal_strlit("rrca");
            reveal_strlit("djnz ");
        }
        match self {
            Instruction::LoadA(a) => {
                let mut s = String::from_str("ld a,");
                push_decimal(&mut s, *a as usize);
                s
            },
            Instruction::LoadB(b) => {
                let mut s = String::from_str("ld b,");
                push_decimal(&mut s, *b as usize);
                s
            },
            Instruction::Out => String::from_str("out (0),a"),
            Instruction::Rlca => String::from_str("rlca"),
            Instruction::Rrca => String::from_str("rrca"),
            Instruction::Djnz { index } => {
                let mut s = String::from_str("djnz ");
                push_decimal(&mut s, *index);
                s
            },
        }
    }
}

/// `v` rotated left by `n` bits: bits leaving at the top come back at the
/// bottom.
pub open spec fn rotl8(v: u8, n: u32) -> u8 {
    let k = (n % 8) as u8;
    (v << k) | (v >> ((8 - k) % 8) as u8)
}

/// `v` rotated right by `n` bits: bits leaving at the bottom come back at
/// the top.
pub open spec fn rotr8(v: u8, n: u32) -> u8 {
    let k = (n % 8) as u8;
    (v >> k) | (v << ((8 - k) % 8) as u8)
}

/// Rotates a byte left by `amount` bits.
pub fn rotate_left8(value: u8, amount: u32) -> (r: u8)
    ensures
        r == rotl8(value, amount),
{
    let k = (amount % 8) as u8;
    (value << k) | (value >> ((8 - k) % 8))
}

/// Rotates a byte right by `amount` bits.
pub fn rotate_right8(value: u8, amount: u32) -> (r: u8)
    ensures
        r == rotr8(value, amount),
{
    let k = (amount % 8) as u8;
    (value >> k) | (value << ((8 - k) % 8))
}

/// Rotating left and then right by the same amount gives the byte back, and
/// so does rotating right and then left.
pub proof fn lemma_rotate_round_trip(v: u8, n: u32)
    ensures
        rotr8(rotl8(v, n), n) == v,
        rotl8(rotr8(v, n), n) == v,
{
    let k = (n % 8) as u8;
    assert(((((v << k) | (v >> ((8 - k) % 8) as u8)) >> k) | (((v << k) | (v >> ((8 - k)
        % 8) as u8)) << ((8 - k) % 8) as u8)) == v) by (bit_vector)
        requires
            k < 8,
    ;
    assert(((((v >> k) | (v << ((8 - k) % 8) as u8)) << k) | (((v >> k) | (v << ((8 - k)
        % 8) as u8)) >> ((8 - k) % 8) as u8)) == v) by (bit_vector)
        requires
            k < 8,
    ;
}

} // verus!
