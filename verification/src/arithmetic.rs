//! What the operations on doubles compute, by the values of the numbers.
use crate::number::{
    apart, integers_are_exact, lemma_nearest_scaled, nearest, rounding_is_exact_on_doubles,
    rounding_is_nearest, signed, units, Real, INFINITY,
};
use vstd::arithmetic::power2::{lemma_pow2_pos, pow2};
use vstd::prelude::*;

verus! {

/// The distance of two integers.
pub open spec fn far(a: int, b: int) -> int {
    if a < b {
        b - a
    } else {
        a - b
    }
}

proof fn lemma_signed(negative: bool, magnitude: u64)
    requires
        magnitude <= INFINITY,
    ensures
        signed(negative, magnitude).magnitude() == magnitude,
        signed(negative, magnitude).negative() == negative,
{
}

proof fn lemma_nearest_bound(num: nat, den: nat)
    ensures
        nearest(num, den) <= INFINITY,
{
}

/// The sum of two finite numbers is a double that is at least as near to the exact sum
/// as any other, and the sum does not depend on the order.
pub proof fn sums_are_nearest(a: Real, b: Real, other: Real)
    requires
        a.finite(),
        b.finite(),
        other.finite(),
        a.sum(b).finite(),
    ensures
        far(a.sum(b).value(), a.value() + b.value()) <= far(other.value(), a.value() + b.value()),
        a.sum(b) == b.sum(a),
{
    let exact = a.value() + b.value();
    let size = (if exact < 0 {
        -exact
    } else {
        exact
    }) as nat;
    lemma_nearest_bound(size, 1);
    if exact != 0 {
        lemma_signed(exact < 0, nearest(size, 1));
        rounding_is_nearest(size, 1, other.magnitude());
        assert(units(nearest(size, 1)) * 1 == units(nearest(size, 1)));
        assert(units(other.magnitude()) * 1 == units(other.magnitude()));
        if (other.value() < 0) != (exact < 0) {
            rounding_is_nearest(size, 1, 0);
            assert(units(0) == 0) by {
                rounding_is_exact_on_doubles(0);
                assert(crate::number::significand(0) == 0);
                let w = pow2(crate::number::scale(0));
                assert(0nat * w == 0) by (nonlinear_arith);
            }
        }
    } else {
        lemma_signed(a.negative() && b.negative(), 0);
        assert(crate::number::significand(0) == 0);
        let w = pow2(crate::number::scale(0));
        assert(0nat * w == 0) by (nonlinear_arith);
        assert(units(0) == 0);
    }
}

/// A difference is the sum with the negated number.
pub proof fn differences_take_away(a: Real, b: Real)
    requires
        a.finite(),
        b.finite(),
    ensures
        b.negated().value() == -b.value(),
        a.difference(b) == a.sum(b.negated()),
{
    lemma_signed(!b.negative(), b.magnitude());
}

/// The product of two finite numbers is a double whose size is at least as near to the
/// exact one as that of any other, negative exactly if one factor is; it does not
/// depend on the order.
pub proof fn products_are_nearest(a: Real, b: Real, other: u64)
    requires
        a.finite(),
        b.finite(),
        other < INFINITY,
        a.product(b).finite(),
    ensures
        a.product(b).negative() == (a.negative() != b.negative()),
        apart(
            units(a.product(b).magnitude()) * pow2(1074),
            units(a.magnitude()) * units(b.magnitude()),
        ) <= apart(units(other) * pow2(1074), units(a.magnitude()) * units(b.magnitude())),
        a.product(b) == b.product(a),
{
    let x = units(a.magnitude());
    let y = units(b.magnitude());
    lemma_pow2_pos(1074);
    lemma_nearest_bound(x * y, pow2(1074));
    lemma_signed(a.negative() != b.negative(), nearest(x * y, pow2(1074)));
    rounding_is_nearest(x * y, pow2(1074), other);
    assert(x * y == y * x) by (nonlinear_arith);
}

/// The quotient of two finite numbers, the second of which is not zero, is a double
/// whose size is at least as near to the exact one as that of any other, negative
/// exactly if one of the two is.
pub proof fn quotients_are_nearest(a: Real, b: Real, other: u64)
    requires
        a.finite(),
        b.finite(),
        units(b.magnitude()) > 0,
        other < INFINITY,
        a.quotient(b).finite(),
    ensures
        a.quotient(b).negative() == (a.negative() != b.negative()),
        apart(
            units(a.quotient(b).magnitude()) * units(b.magnitude()),
            units(a.magnitude()) * pow2(1074),
        ) <= apart(units(other) * units(b.magnitude()), units(a.magnitude()) * pow2(1074)),
{
    let num = units(a.magnitude()) * pow2(1074);
    let den = units(b.magnitude());
    lemma_nearest_bound(num, den);
    lemma_signed(a.negative() != b.negative(), nearest(num, den));
    rounding_is_nearest(num, den, other);
}

/// A number that is multiplied or divided by one stays as it is.
pub proof fn one_changes_nothing(a: Real)
    requires
        a.finite(),
    ensures
        a.product(Real::of_nat(1)) == a,
        a.quotient(Real::of_nat(1)) == a,
{
    let p = pow2(1074);
    lemma_pow2_pos(1074);
    integers_are_exact(1);
    let x = units(a.magnitude());
    assert(1 * p == p);
    lemma_nearest_scaled(x, 1, p);
    rounding_is_exact_on_doubles(a.magnitude());
    lemma_signed(a.negative(), a.magnitude());
    assert(Real::of_nat(1).magnitude() == Real::of_nat(1).bits);
}

/// The integer to which a number is rounded is at most a half away from it, and the
/// integer part is the greatest that is not above it.
pub proof fn rounded_integers_are_near(x: Real)
    requires
        x.finite(),
    ensures
        2 * apart(x.rounded() * pow2(1074), units(x.magnitude())) <= pow2(1074),
        x.whole() * pow2(1074) <= units(x.magnitude()) < (x.whole() + 1) * pow2(1074),
        x.raised() * pow2(1074) >= units(x.magnitude()),
        x.raised() <= x.whole() + 1,
{
    let p = pow2(1074);
    let u = units(x.magnitude());
    lemma_pow2_pos(1074);
    let w = u / p;
    let r = u % p;
    assert(u == w * p + r && 0 <= r < p) by (nonlinear_arith)
        requires
            p > 0,
            w == u / p,
            r == u % p,
    ;
    assert((w + 1) * p == w * p + p) by (nonlinear_arith);
}

} // verus!
