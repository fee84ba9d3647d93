//! The LED row: how the accumulator is shown.

use vstd::prelude::*;
use crate::text::push_char;

verus! {

/// Bit `k` (0 is the least significant) of `v`.
pub open spec fn bit_set(v: u8, k: u8) -> bool {
    (v >> k) & 1u8 == 1u8
}

/// The LED row for `v`: eight characters, most significant bit first, `'*'`
/// for a set bit and `'.'` for a clear one.
pub open spec fn leds(v: u8) -> Seq<char> {
    Seq::new(8, |i: int| if bit_set(v, (7 - i) as u8) { '*' } else { '.' })
}

/// Renders the accumulator as its LED row.
pub fn leds_to_string(register_a: u8) -> (r: String)
    ensures
        r@ == leds(register_a),
        r@.len() == 8,
        forall|i: int| 0 <= i < 8 ==> (r@[i] == '*' <==> bit_set(register_a, (7 - i) as u8)),
{
    let mut result = String::new();
    let mut x: u8 = 0;
    while x < 8
        invariant
            x <= 8,
            result@ == leds(register_a).take(x as int),
        decreases 8 - x,
    {
        let mask: u8 = 0x80u8 >> x;
        let lit = mask & register_a != 0;
        assert(lit == bit_set(register_a, (7 - x) as u8)) by (bit_vector)
            requires
                x < 8,
                mask == 0x80u8 >> x,
                lit == (mask & register_a != 0),
        ;
        if lit {
            push_char(&mut result, '*');
        } else {
            push_char(&mut result, '.');
        }
        assert(result@ =~= leds(register_a).take(x + 1));
        x = x + 1;
    }
    assert(result@ =~= leds(register_a));
    result
}

} // verus!
