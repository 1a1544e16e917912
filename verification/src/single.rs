//! Single-precision numbers as bit patterns.
//!
//! Merge scores, logits and similarities are IEEE 754 binary32 numbers. The
//! library holds each as its 32-bit pattern and only ever compares two of
//! them, so what it needs is the order of the numbers that the patterns stand
//! for. Arithmetic on them is left to the callers.

use vstd::arithmetic::power2::*;
use vstd::prelude::*;

verus! {

/// The pattern of minus infinity.
pub const NEG_INFINITY: u32 = 0xff80_0000;

/// The pattern without its sign bit.
pub open spec fn magnitude(bits: u32) -> nat {
    (bits % 0x8000_0000) as nat
}

/// Is the pattern one of those that stand for no number?
pub open spec fn is_nan(bits: u32) -> bool {
    magnitude(bits) > 0x7f80_0000
}

/// The size of the number, in units of the smallest one (two to the power of
/// minus 149), for a pattern without its sign bit. The exponent is above the
/// 23 bits of the fraction; exponent zero has no implicit leading bit.
/// Infinity comes out as the next number after the largest finite one.
pub open spec fn size_of(magnitude: nat) -> nat {
    let exponent = magnitude / 0x80_0000;
    let fraction = magnitude % 0x80_0000;
    if exponent == 0 {
        fraction
    } else {
        (0x80_0000 + fraction) * pow2((exponent - 1) as nat)
    }
}

/// The number that the pattern stands for, in units of the smallest one.
pub open spec fn value(bits: u32) -> int {
    if bits < 0x8000_0000 {
        size_of(magnitude(bits)) as int
    } else {
        -(size_of(magnitude(bits)) as int)
    }
}

/// Is the number of `a` greater than that of `b`? Nothing is greater than a
/// pattern that stands for no number, nor is such a pattern greater than
/// anything.
pub open spec fn greater(a: u32, b: u32) -> bool {
    !is_nan(a) && !is_nan(b) && value(a) > value(b)
}

/// A larger magnitude is a larger number.
pub proof fn lemma_size_increases(a: nat, b: nat)
    requires
        a < b,
    ensures
        size_of(a) < size_of(b),
{
    let ea = a / 0x80_0000;
    let eb = b / 0x80_0000;
    let fa = a % 0x80_0000;
    let fb = b % 0x80_0000;
    if eb > 0 {
        let pb = pow2((eb - 1) as nat);
        lemma_pow2_pos((eb - 1) as nat);
        assert((0x80_0000 + fb) * pb >= 0x80_0000 * pb) by (nonlinear_arith)
            requires
                pb > 0,
        ;
        if ea == 0 {
            assert(0x80_0000 * pb >= 0x80_0000) by (nonlinear_arith)
                requires
                    pb > 0,
            ;
        } else {
            let pa = pow2((ea - 1) as nat);
            lemma_pow2_pos((ea - 1) as nat);
            if ea == eb {
                assert((0x80_0000 + fa) * pa < (0x80_0000 + fb) * pa) by (nonlinear_arith)
                    requires
                        pa > 0,
                        fa < fb,
                ;
            } else {
                lemma_pow2_unfold(ea);
                if ea < eb - 1 {
                    lemma_pow2_strictly_increases(ea, (eb - 1) as nat);
                }
                assert((0x80_0000 + fa) * pa < 0x100_0000 * pa) by (nonlinear_arith)
                    requires
                        pa > 0,
                        fa < 0x80_0000,
                ;
            }
        }
    }
}

/// Comparing two patterns as numbers is comparing their magnitudes, signed.
proof fn lemma_value_order(a: u32, b: u32)
    ensures
        value(a) > value(b) <==> signed(a) > signed(b),
{
    let ma = magnitude(a);
    let mb = magnitude(b);
    if ma < mb {
        lemma_size_increases(ma, mb);
    } else if mb < ma {
        lemma_size_increases(mb, ma);
    }
    if ma > 0 {
        lemma_size_increases(0, ma);
    }
    if mb > 0 {
        lemma_size_increases(0, mb);
    }
}

spec fn signed(bits: u32) -> int {
    if bits < 0x8000_0000 {
        magnitude(bits) as int
    } else {
        -(magnitude(bits) as int)
    }
}

fn signed_magnitude(bits: u32) -> (r: i64)
    ensures
        r == signed(bits),
{
    if bits < 0x8000_0000 {
        (bits % 0x8000_0000) as i64
    } else {
        -((bits % 0x8000_0000) as i64)
    }
}

/// Does the pattern stand for no number?
pub fn nan(bits: u32) -> (r: bool)
    ensures
        r == is_nan(bits),
{
    bits % 0x8000_0000 > 0x7f80_0000
}

/// Is the number of `a` greater than that of `b`?
pub fn gt(a: u32, b: u32) -> (r: bool)
    ensures
        r == greater(a, b),
{
    proof {
        lemma_value_order(a, b);
    }
    !nan(a) && !nan(b) && signed_magnitude(a) > signed_magnitude(b)
}

/// The first index of the greatest number, or zero where there is no number
/// above minus infinity.
pub open spec fn is_argmax(xs: Seq<u32>, r: int) -> bool {
    if exists|i: int| 0 <= i < xs.len() && greater(#[trigger] xs[i], NEG_INFINITY) {
        &&& 0 <= r < xs.len()
        &&& greater(xs[r], NEG_INFINITY)
        &&& forall|j: int| 0 <= j < xs.len() ==> !greater(#[trigger] xs[j], xs[r])
        &&& forall|j: int| 0 <= j < r ==> is_nan(xs[j]) || greater(xs[r], #[trigger] xs[j])
    } else {
        r == 0
    }
}

/// The first index of the greatest number, or zero where there is no number
/// above minus infinity.
pub open spec fn argmax_of(xs: Seq<u32>) -> int {
    choose|r: int| is_argmax(xs, r)
}

/// There is such an index.
pub proof fn lemma_argmax_exists(xs: Seq<u32>)
    ensures
        is_argmax(xs, argmax_of(xs)),
    decreases xs.len(),
{
    if exists|i: int| 0 <= i < xs.len() && greater(#[trigger] xs[i], NEG_INFINITY) {
        let head = xs.drop_last();
        let last = xs.len() - 1;
        lemma_argmax_exists(head);
        let r = argmax_of(head);
        if exists|i: int| 0 <= i < head.len() && greater(#[trigger] head[i], NEG_INFINITY) {
            let w = choose|i: int| 0 <= i < head.len() && greater(#[trigger] head[i], NEG_INFINITY);
            let best = if greater(xs[last], xs[r]) {
                last
            } else {
                r
            };
            assert forall|j: int| 0 <= j < xs.len() implies !greater(#[trigger] xs[j], xs[best]) by {
                if j < last {
                    assert(!greater(head[j], head[r]));
                }
            }
            assert forall|j: int| 0 <= j < best implies is_nan(xs[j]) || greater(
                xs[best],
                #[trigger] xs[j],
            ) by {
                assert(!greater(head[j], head[r]));
            }
            assert(is_argmax(xs, best));
        } else {
            assert forall|j: int| 0 <= j < last implies !greater(
                #[trigger] xs[j],
                NEG_INFINITY,
            ) by {
                assert(head[j] == xs[j]);
            }
            assert forall|j: int| 0 <= j < xs.len() implies !greater(#[trigger] xs[j], xs[last]) by {}
            assert forall|j: int| 0 <= j < last implies is_nan(xs[j]) || greater(
                xs[last],
                #[trigger] xs[j],
            ) by {
                assert(!greater(xs[j], NEG_INFINITY));
            }
            assert(is_argmax(xs, last));
        }
    } else {
        assert(is_argmax(xs, 0));
    }
}

/// There is one such index only.
pub proof fn lemma_argmax_unique(xs: Seq<u32>, r: int)
    requires
        is_argmax(xs, r),
    ensures
        argmax_of(xs) == r,
{
    let q = argmax_of(xs);
    assert(is_argmax(xs, q));
    if exists|i: int| 0 <= i < xs.len() && greater(#[trigger] xs[i], NEG_INFINITY) {
        assert(!greater(xs[q], xs[r]));
        assert(!greater(xs[r], xs[q]));
    }
}

/// Finds the greatest number: its first index, or zero where no number is
/// above minus infinity.
pub fn argmax(xs: &Vec<u32>) -> (r: usize)
    ensures
        is_argmax(xs@, r as int),
        r == argmax_of(xs@),
{
    let mut best: usize = 0;
    let mut best_val: u32 = NEG_INFINITY;
    let ghost mut found = false;
    for i in 0..xs.len()
        invariant
            !is_nan(best_val),
            found ==> best < i && best_val == xs@[best as int] && greater(best_val, NEG_INFINITY),
            !found ==> best == 0 && best_val == NEG_INFINITY,
            forall|j: int| 0 <= j < i ==> !greater(#[trigger] xs@[j], best_val),
            found ==> forall|j: int|
                0 <= j < best ==> is_nan(xs@[j]) || greater(best_val, #[trigger] xs@[j]),
    {
        let v = xs[i];
        if gt(v, best_val) {
            best_val = v;
            best = i;
            proof {
                found = true;
            }
        }
    }
    proof {
        assert(is_argmax(xs@, best as int));
        lemma_argmax_unique(xs@, best as int);
    }
    best
}

} // verus!
