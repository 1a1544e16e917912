//! The order of single-precision numbers, told by their patterns.

use crate::single::{
    argmax_of, greater, is_nan, lemma_argmax_exists, lemma_size_increases, magnitude, NEG_INFINITY,
};
use vstd::prelude::*;

verus! {

/// Does the pattern stand for a number from zero up, infinity included?
pub open spec fn is_up(bits: u32) -> bool {
    bits <= 0x7f80_0000
}

/// Does the pattern stand for a number from minus zero down, minus infinity
/// included?
pub open spec fn is_down(bits: u32) -> bool {
    0x8000_0000 <= bits <= 0xff80_0000
}

/// Numbers from zero up are ordered as their patterns are, those from minus
/// zero down the other way round, and one of the former is greater than one of
/// the latter unless both are zero. No pattern besides these is greater than
/// any, nor any greater than it.
pub proof fn patterns_are_ordered(a: u32, b: u32)
    ensures
        is_up(a) && is_up(b) ==> (greater(a, b) <==> a > b),
        is_down(a) && is_down(b) ==> (greater(a, b) <==> a < b),
        is_up(a) && is_down(b) ==> (greater(a, b) <==> a != 0 || b != 0x8000_0000),
        is_down(a) && is_up(b) ==> !greater(a, b),
        !is_up(a) && !is_down(a) ==> !greater(a, b) && !greater(b, a) && is_nan(a),
        is_up(a) || is_down(a) ==> !is_nan(a),
{
    let x = magnitude(a);
    let y = magnitude(b);
    if x < y {
        lemma_size_increases(x, y);
    } else if y < x {
        lemma_size_increases(y, x);
    }
    if x > 0 {
        lemma_size_increases(0, x);
    }
    if y > 0 {
        lemma_size_increases(0, y);
    }
}

/// Minus infinity is below every number but itself.
pub proof fn minus_infinity_is_lowest(a: u32)
    ensures
        NEG_INFINITY == 0xff80_0000u32,
        greater(a, NEG_INFINITY) <==> (is_up(a) || is_down(a)) && a != 0xff80_0000u32,
        !greater(NEG_INFINITY, a),
{
    patterns_are_ordered(a, 0xff80_0000);
    patterns_are_ordered(0xff80_0000, a);
}

/// The index that is picked is the first one of the greatest number: no number
/// is greater, and none before it is as great. Where there is no number above
/// minus infinity it is the first index of all.
pub proof fn the_first_of_the_greatest_is_picked(xs: Seq<u32>, i: int)
    ensures
        0 <= i < xs.len() && greater(xs[i], 0xff80_0000u32) ==> {
            let r = argmax_of(xs);
            &&& 0 <= r < xs.len()
            &&& !greater(xs[i], xs[r])
            &&& i < r ==> greater(xs[r], xs[i])
        },
        (forall|k: int| 0 <= k < xs.len() ==> !greater(#[trigger] xs[k], 0xff80_0000u32))
            ==> argmax_of(xs) == 0,
{
    lemma_argmax_exists(xs);
}

} // verus!
