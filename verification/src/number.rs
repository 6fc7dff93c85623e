//! Double-precision numbers by their IEEE 754 bit patterns.
//!
//! A finite number is an integer multiple of two to the power -1074, the
//! smallest positive double. `units` counts those multiples, so a finite value
//! is an exact integer in contracts, and each operation is the exact result
//! rounded to the nearest double, ties to even.
use vstd::arithmetic::div_mod::{lemma_div_multiples_vanish_quotient, lemma_truncate_middle};
use vstd::arithmetic::power2::{
    lemma2_to64, lemma2_to64_rest, lemma_pow2_adds, lemma_pow2_pos, lemma_pow2_unfold, pow2,
};
use vstd::prelude::*;

verus! {

/// The sign bit.
pub const SIGN: u64 = 0x8000_0000_0000_0000;

/// The pattern of positive infinity. A larger magnitude is not a number.
pub const INFINITY: u64 = 0x7ff0_0000_0000_0000;

/// Two to the power 52: the leading bit that normal numbers leave out.
pub const HIDDEN: u64 = 0x10_0000_0000_0000;

/// A double-precision number, as its bit pattern.
#[derive(Clone, Copy, Debug, PartialEq, Eq, Structural)]
pub struct Real {
    pub bits: u64,
}

/// The significand of a magnitude.
pub open spec fn significand(magnitude: u64) -> nat {
    if magnitude < HIDDEN {
        magnitude as nat
    } else {
        (magnitude % HIDDEN + HIDDEN) as nat
    }
}

/// The power of two by which a magnitude's significand counts.
pub open spec fn scale(magnitude: u64) -> nat {
    if magnitude < HIDDEN {
        0
    } else {
        (magnitude / HIDDEN - 1) as nat
    }
}

/// A finite magnitude as a multiple of the smallest positive double.
pub open spec fn units(magnitude: u64) -> nat {
    significand(magnitude) * pow2(scale(magnitude))
}

/// How many doublings of `den` bring `num / den` below two to the power 53.
pub open spec fn excess(num: nat, den: nat) -> nat
    decreases num - den,
{
    if den == 0 || num < den * 0x20_0000_0000_0000 {
        0
    } else {
        1 + excess(num, den * 2)
    }
}

/// The integer nearest to `num / den`, the even one of two equally near.
pub open spec fn half_even(num: nat, den: nat) -> nat {
    let q = num / den;
    let r = num % den;
    if 2 * r > den || (2 * r == den && q % 2 == 1) {
        q + 1
    } else {
        q
    }
}

/// The magnitude nearest to `num / den` units: 53 significant bits, ties to
/// even, infinity where the range ends.
pub open spec fn nearest(num: nat, den: nat) -> u64 {
    let k = excess(num, den);
    let bits = k * HIDDEN + half_even(num, den * pow2(k));
    if bits >= INFINITY {
        INFINITY
    } else {
        bits as u64
    }
}

/// The number with this sign and magnitude.
pub open spec fn signed(negative: bool, magnitude: u64) -> Real {
    Real {
        bits: if negative {
            (magnitude + SIGN) as u64
        } else {
            magnitude
        },
    }
}

impl Real {
    pub open spec fn negative(self) -> bool {
        self.bits >= SIGN
    }

    pub open spec fn magnitude(self) -> u64 {
        if self.bits >= SIGN {
            (self.bits - SIGN) as u64
        } else {
            self.bits
        }
    }

    pub open spec fn finite(self) -> bool {
        self.magnitude() < INFINITY
    }

    pub open spec fn nan(self) -> bool {
        self.magnitude() > INFINITY
    }

    /// An integer that orders the numbers: both zeros have the key zero.
    pub open spec fn key(self) -> int {
        if self.bits >= SIGN {
            -(self.bits - SIGN)
        } else {
            self.bits as int
        }
    }

    pub open spec fn less(self, other: Real) -> bool {
        !self.nan() && !other.nan() && self.key() < other.key()
    }

    pub open spec fn at_most(self, other: Real) -> bool {
        !self.nan() && !other.nan() && self.key() <= other.key()
    }

    /// The value of a finite number, in units.
    pub open spec fn value(self) -> int {
        if self.negative() {
            -units(self.magnitude())
        } else {
            units(self.magnitude()) as int
        }
    }

    pub open spec fn sum(self, other: Real) -> Real {
        let exact = self.value() + other.value();
        if exact == 0 {
            signed(self.negative() && other.negative(), 0)
        } else if exact < 0 {
            signed(true, nearest((-exact) as nat, 1))
        } else {
            signed(false, nearest(exact as nat, 1))
        }
    }

    pub open spec fn negated(self) -> Real {
        signed(!self.negative(), self.magnitude())
    }

    pub open spec fn difference(self, other: Real) -> Real {
        self.sum(other.negated())
    }

    pub open spec fn product(self, other: Real) -> Real {
        signed(
            self.negative() != other.negative(),
            nearest(units(self.magnitude()) * units(other.magnitude()), pow2(1074)),
        )
    }

    pub open spec fn quotient(self, other: Real) -> Real {
        signed(
            self.negative() != other.negative(),
            nearest(units(self.magnitude()) * pow2(1074), units(other.magnitude())),
        )
    }

    pub open spec fn of_nat(n: nat) -> Real {
        signed(false, nearest(n * pow2(1074), 1))
    }

    pub open spec fn of_int(n: int) -> Real {
        if n < 0 {
            signed(true, nearest((-n) as nat * pow2(1074), 1))
        } else {
            Real::of_nat(n as nat)
        }
    }

    pub fn from_bits(bits: u64) -> (r: Real)
        ensures
            r.bits == bits,
    {
        Real { bits }
    }

    pub fn is_negative(self) -> (r: bool)
        ensures
            r == self.negative(),
    {
        self.bits >= SIGN
    }

    pub fn abs_bits(self) -> (r: u64)
        ensures
            r == self.magnitude(),
    {
        if self.bits >= SIGN {
            self.bits - SIGN
        } else {
            self.bits
        }
    }

    pub fn is_finite(self) -> (r: bool)
        ensures
            r == self.finite(),
    {
        self.abs_bits() < INFINITY
    }

    /// `self < other`, false where either is not a number.
    pub fn lt(self, other: Real) -> (r: bool)
        ensures
            r == self.less(other),
    {
        let a: u64 = self.abs_bits();
        let b: u64 = other.abs_bits();
        if a > INFINITY || b > INFINITY {
            false
        } else if self.bits >= SIGN {
            if other.bits >= SIGN {
                a > b
            } else {
                a > 0 || b > 0
            }
        } else {
            other.bits < SIGN && a < b
        }
    }

    /// `self <= other`, false where either is not a number.
    pub fn le(self, other: Real) -> (r: bool)
        ensures
            r == self.at_most(other),
    {
        let a: u64 = self.abs_bits();
        let b: u64 = other.abs_bits();
        if a > INFINITY || b > INFINITY {
            false
        } else if self.bits >= SIGN {
            if other.bits >= SIGN {
                a >= b
            } else {
                true
            }
        } else if other.bits >= SIGN {
            a == 0 && b == 0
        } else {
            a <= b
        }
    }

    /// Zero of either sign.
    pub fn is_zero(self) -> (r: bool)
        ensures
            r == (self.key() == 0),
    {
        self.abs_bits() == 0
    }
}

/// `excess` is the only count with these bounds.
proof fn lemma_excess(num: nat, den: nat, k: nat)
    requires
        den > 0,
        num < den * pow2(k) * 0x20_0000_0000_0000,
        k > 0 ==> num >= den * pow2((k - 1) as nat) * 0x20_0000_0000_0000,
    ensures
        excess(num, den) == k,
    decreases k,
{
    lemma2_to64();
    if k == 0 {
        assert(den * pow2(0) == den) by (nonlinear_arith)
            requires
                pow2(0) == 1,
        ;
    } else {
        lemma_pow2_unfold(k);
        lemma_pow2_pos((k - 1) as nat);
        let p = pow2((k - 1) as nat);
        assert(den * p * 0x20_0000_0000_0000 >= den * 0x20_0000_0000_0000) by (nonlinear_arith)
            requires
                p >= 1,
                den > 0,
        ;
        assert(den * pow2(k) == (den * 2) * p) by (nonlinear_arith)
            requires
                pow2(k) == 2 * p,
        ;
        if k > 1 {
            lemma_pow2_unfold((k - 1) as nat);
            let p2 = pow2((k - 2) as nat);
            assert(den * p == (den * 2) * p2) by (nonlinear_arith)
                requires
                    p == 2 * p2,
            ;
        }
        lemma_excess(num, den * 2, (k - 1) as nat);
    }
}

/// Scaling both sides leaves the rounded quotient as it is.
proof fn lemma_half_even_scaled(num: nat, den: nat, c: nat)
    requires
        den > 0,
        c > 0,
    ensures
        half_even(num * c, den * c) == half_even(num, den),
{
    lemma_truncate_middle(num as int, c as int, den as int);
    lemma_div_multiples_vanish_quotient(c as int, num as int, den as int);
    let r = num % den;
    assert(num * c == c * num) by (nonlinear_arith);
    assert(den * c == c * den) by (nonlinear_arith);
    assert((2 * (c * r) > c * den) == (2 * r > den)) by (nonlinear_arith)
        requires
            c > 0,
    ;
    assert((2 * (c * r) == c * den) == (2 * r == den)) by (nonlinear_arith)
        requires
            c > 0,
    ;
}

/// The numerator and denominator of `m / d * 2^e`.
pub open spec fn scaled_num(m: nat, e: int) -> nat {
    if e > 0 {
        m * pow2(e as nat)
    } else {
        m
    }
}

pub open spec fn scaled_den(d: nat, e: int) -> nat {
    if e < 0 {
        d * pow2((-e) as nat)
    } else {
        d
    }
}

/// The magnitude nearest to `m / d * 2^e` units.
fn round_ratio(m0: u128, d: u128, e0: i64) -> (r: u64)
    requires
        0 < d < 0x20_0000_0000_0000,
        m0 < 0x40_0000_0000_0000_0000_0000_0000_0000,
        -5000 < e0 < 5000,
    ensures
        r == nearest(scaled_num(m0 as nat, e0 as int), scaled_den(d as nat, e0 as int)),
{
    let mut m: u128 = m0;
    let mut e: i64 = e0;
    proof {
        lemma2_to64();
        lemma2_to64_rest();
    }
    while e > 0 && m < d * 0x10_0000_0000_0000
        invariant
            0 < d < 0x20_0000_0000_0000,
            m < 0x40_0000_0000_0000_0000_0000_0000_0000,
            -5000 < e < 5000,
            e0 <= 0 ==> e == e0 && m == m0,
            e0 > 0 ==> e >= 0,
            scaled_num(m0 as nat, e0 as int) == scaled_num(m as nat, e as int),
            scaled_den(d as nat, e0 as int) == scaled_den(d as nat, e as int),
            pow2(0) == 1,
        decreases e,
    {
        proof {
            lemma_pow2_unfold(e as nat);
            let p = pow2((e - 1) as nat);
            assert(m * pow2(e as nat) == (m * 2) * p) by (nonlinear_arith)
                requires
                    pow2(e as nat) == 2 * p,
            ;
            if e == 1 {
                assert((m * 2) * p == m * 2) by (nonlinear_arith)
                    requires
                        p == 1,
                ;
            }
        }
        m = m * 2;
        e = e - 1;
    }
    let ghost num = scaled_num(m as nat, e as int);
    let ghost den = scaled_den(d as nat, e as int);
    let mut divisor: u128 = d;
    let mut i: i64 = 0;
    assert(d as nat * pow2(0) == d as nat) by (nonlinear_arith)
        requires
            pow2(0) == 1,
    ;
    while i < -e
        invariant
            0 < d < 0x20_0000_0000_0000,
            m < 0x40_0000_0000_0000_0000_0000_0000_0000,
            -5000 < e < 5000,
            0 <= i <= (if e < 0 { -e } else { 0 }),
            divisor == d as nat * pow2(i as nat),
            divisor > 0,
            divisor <= 4 * m || i == 0,
            num == scaled_num(m as nat, e as int),
            den == scaled_den(d as nat, e as int),
            scaled_num(m0 as nat, e0 as int) == num,
            scaled_den(d as nat, e0 as int) == den,
            pow2(0) == 1,
        decreases -e - i,
    {
        if divisor > 2 * m {
            proof {
                lemma_pow2_adds(i as nat, (-e - i) as nat);
                lemma_pow2_pos((-e - i) as nat);
                let p = pow2(i as nat);
                let q = pow2((-e - i) as nat);
                assert(i as nat + (-e - i) as nat == (-e) as nat);
                assert(d as nat * (p * q) >= d as nat * p) by (nonlinear_arith)
                    requires
                        q >= 1,
                ;
                assert(den > 2 * m);
                assert(excess(num, den) == 0);
                assert(den * pow2(0) == den) by (nonlinear_arith)
                    requires
                        pow2(0) == 1,
                ;
                assert(m as nat / den == 0 && m as nat % den == m as nat) by (nonlinear_arith)
                    requires
                        den > 2 * m,
                ;
            }
            return 0;
        }
        proof {
            lemma_pow2_unfold((i + 1) as nat);
            let p = pow2(i as nat);
            assert(d as nat * pow2((i + 1) as nat) == 2 * (d as nat * p)) by (nonlinear_arith)
                requires
                    pow2((i + 1) as nat) == 2 * p,
            ;
        }
        divisor = divisor * 2;
        i = i + 1;
    }
    let ghost base = divisor as nat;
    let ghost e_up = if e > 0 {
        e as nat
    } else {
        0
    };
    let mut k: u64 = if e > 0 {
        e as u64
    } else {
        0
    };
    assert(base * pow2(0) == base) by (nonlinear_arith)
        requires
            pow2(0) == 1,
    ;
    while m / divisor >= 0x20_0000_0000_0000
        invariant
            0 < divisor,
            m < 0x40_0000_0000_0000_0000_0000_0000_0000,
            e_up <= k,
            e_up < 5000,
            base > 0,
            divisor == base * pow2((k - e_up) as nat),
            k - e_up <= 65,
            divisor < 0x100_0000_0000_0000_0000_0000_0000_0000,
            k > e_up ==> m >= base * pow2((k - e_up - 1) as nat) * 0x20_0000_0000_0000,
        decreases m - divisor,
    {
        proof {
            assert(m >= divisor * 0x20_0000_0000_0000) by (nonlinear_arith)
                requires
                    m / divisor >= 0x20_0000_0000_0000,
                    divisor > 0,
            ;
            lemma_pow2_unfold((k - e_up + 1) as nat);
            let p = pow2((k - e_up) as nat);
            if k - e_up >= 65 {
                lemma2_to64();
                lemma_pow2_unfold(65);
                assert(base * p >= p) by (nonlinear_arith)
                    requires
                        base > 0,
                ;
            }
            assert(base * pow2((k - e_up + 1) as nat) == 2 * (base * p)) by (nonlinear_arith)
                requires
                    pow2((k - e_up + 1) as nat) == 2 * p,
            ;
        }
        divisor = divisor * 2;
        k = k + 1;
    }
    let q: u128 = m / divisor;
    let r: u128 = m % divisor;
    proof {
        assert(m < divisor * 0x20_0000_0000_0000) by (nonlinear_arith)
            requires
                m / divisor < 0x20_0000_0000_0000,
                divisor > 0,
        ;
        let c = pow2(e_up);
        lemma_pow2_pos(e_up);
        lemma_pow2_adds(e_up, (k - e_up) as nat);
        let p = pow2((k - e_up) as nat);
        assert(e_up + (k - e_up) as nat == k as nat);
        assert(num == m * c) by {
            if e_up == 0 {
                assert(m * c == m) by (nonlinear_arith)
                    requires
                        c == 1,
                ;
            }
        }
        assert(base == den);
        assert(den * pow2(k as nat) == divisor * c) by (nonlinear_arith)
            requires
                pow2(k as nat) == c * p,
                divisor == den * p,
        ;
        assert(m * c < divisor * c * 0x20_0000_0000_0000) by (nonlinear_arith)
            requires
                m < divisor * 0x20_0000_0000_0000,
                c > 0,
        ;
        if k > e_up {
            let p1 = pow2((k - e_up - 1) as nat);
            lemma_pow2_adds(e_up, (k - e_up - 1) as nat);
            assert(e_up + (k - e_up - 1) as nat == (k - 1) as nat);
            assert(m * c >= den * pow2((k - 1) as nat) * 0x20_0000_0000_0000) by (nonlinear_arith)
                requires
                    pow2((k - 1) as nat) == c * p1,
                    m >= den * p1 * 0x20_0000_0000_0000,
                    c > 0,
            ;
        } else if k > 0 {
            lemma_pow2_unfold(k as nat);
            let p1 = pow2((k - 1) as nat);
            assert(m * c >= den * p1 * 0x20_0000_0000_0000) by (nonlinear_arith)
                requires
                    c == 2 * p1,
                    m >= den * 0x10_0000_0000_0000,
            ;
        }
        lemma_excess(num, den, k as nat);
        lemma_half_even_scaled(m as nat, divisor as nat, c);
    }
    let up: bool = 2 * r > divisor || (2 * r == divisor && q % 2 == 1);
    let rounded: u64 = if up {
        q as u64 + 1
    } else {
        q as u64
    };
    if k >= 0x7ff {
        proof {
            assert(k * HIDDEN >= INFINITY) by (nonlinear_arith)
                requires
                    k >= 0x7ff,
                    HIDDEN == 0x10_0000_0000_0000,
                    INFINITY == 0x7ff0_0000_0000_0000,
            ;
        }
        return INFINITY;
    }
    let bits: u64 = k * HIDDEN + rounded;
    if bits >= INFINITY {
        INFINITY
    } else {
        bits
    }
}


/// A common factor does not change which magnitude is nearest.
proof fn lemma_excess_scaled(num: nat, den: nat, c: nat)
    requires
        den > 0,
        c > 0,
    ensures
        excess(num * c, den * c) == excess(num, den),
    decreases num - den,
{
    assert(den * c > 0) by (nonlinear_arith)
        requires
            den > 0,
            c > 0,
    ;
    assert((num * c < (den * c) * 0x20_0000_0000_0000) == (num < den * 0x20_0000_0000_0000))
        by (nonlinear_arith)
        requires
            c > 0,
    ;
    if num >= den * 0x20_0000_0000_0000 {
        lemma_excess_scaled(num, den * 2, c);
        assert((den * 2) * c == (den * c) * 2) by (nonlinear_arith);
    }
}

pub proof fn lemma_nearest_scaled(num: nat, den: nat, c: nat)
    requires
        den > 0,
        c > 0,
    ensures
        nearest(num * c, den * c) == nearest(num, den),
{
    lemma_excess_scaled(num, den, c);
    let p = pow2(excess(num, den));
    lemma_pow2_pos(excess(num, den));
    assert((den * c) * p == (den * p) * c) by (nonlinear_arith);
    assert(den * p > 0) by (nonlinear_arith)
        requires
            den > 0,
            p > 0,
    ;
    lemma_half_even_scaled(num, den * p, c);
}

/// A term far below the last bit of a normal number leaves it as it is.
proof fn lemma_absorbed(magnitude: u64, exact: nat)
    requires
        HIDDEN <= magnitude < INFINITY,
        scale(magnitude) >= 2,
        units(magnitude) - pow2((scale(magnitude) - 2) as nat) < exact < units(magnitude) + pow2(
            (scale(magnitude) - 2) as nat,
        ),
    ensures
        nearest(exact, 1) == magnitude,
{
    let m = significand(magnitude);
    let e = scale(magnitude);
    let t = exact - units(magnitude);
    lemma_pow2_unfold(e);
    lemma_pow2_unfold((e - 1) as nat);
    lemma_pow2_pos((e - 2) as nat);
    let p = pow2(e);
    let h = pow2((e - 1) as nat);
    let g = pow2((e - 2) as nat);
    assert(p == 4 * g && h == 2 * g);
    assert(0x10_0000_0000_0000 <= m < 0x20_0000_0000_0000);
    assert(magnitude == e * HIDDEN + m) by {
        assert(magnitude == HIDDEN * (magnitude / HIDDEN) + magnitude % HIDDEN);
    }
    assert(1nat * p == p && 1nat * h == h && 1nat * g == g);
    if t >= 0 || m > 0x10_0000_0000_0000 {
        let q = if t >= 0 {
            m
        } else {
            (m - 1) as nat
        };
        let r = if t >= 0 {
            t
        } else {
            p + t
        };
        assert(exact == q * p + r && 0 <= r < p) by (nonlinear_arith)
            requires
                exact == m * p + t,
                -p < t < p,
                q == m && r == t && t >= 0 || q == m - 1 && r == p + t && t < 0,
        ;
        assert(exact / p == q && exact % p == r) by (nonlinear_arith)
            requires
                exact == q * p + r,
                0 <= r < p,
        ;
        assert(exact < p * 0x20_0000_0000_0000) by (nonlinear_arith)
            requires
                exact == q * p + r,
                0 <= r < p,
                q < 0x20_0000_0000_0000,
        ;
        assert(exact >= h * 0x20_0000_0000_0000) by (nonlinear_arith)
            requires
                exact == q * p + r,
                0 <= r,
                p == 2 * h,
                q >= 0x10_0000_0000_0000,
        ;
        lemma_excess(exact, 1, e);
        assert(half_even(exact, p) == m);
    } else {
        let r = h + t;
        assert(exact == 0x1f_ffff_ffff_ffff * h + r) by (nonlinear_arith)
            requires
                exact == m * p + t,
                m == 0x10_0000_0000_0000,
                p == 2 * h,
                r == h + t,
        ;
        assert(exact / h == 0x1f_ffff_ffff_ffff && exact % h == r) by (nonlinear_arith)
            requires
                exact == 0x1f_ffff_ffff_ffff * h + r,
                0 <= r < h,
        ;
        assert(exact < h * 0x20_0000_0000_0000) by (nonlinear_arith)
            requires
                exact == 0x1f_ffff_ffff_ffff * h + r,
                0 <= r < h,
        ;
        assert(exact >= g * 0x20_0000_0000_0000) by (nonlinear_arith)
            requires
                exact == 0x1f_ffff_ffff_ffff * h + r,
                0 <= r,
                h == 2 * g,
        ;
        lemma_excess(exact, 1, (e - 1) as nat);
        assert(half_even(exact, h) == 0x20_0000_0000_0000);
    }
}

/// A significand and the power of two by which it counts.
fn decode(magnitude: u64) -> (r: (u64, i64))
    requires
        magnitude < INFINITY,
    ensures
        r.0 == significand(magnitude),
        r.1 == scale(magnitude),
        r.0 < 0x20_0000_0000_0000,
        0 <= r.1 < 2046,
        r.1 > 0 ==> r.0 >= HIDDEN,
{
    if magnitude < HIDDEN {
        (magnitude, 0)
    } else {
        (magnitude % HIDDEN + HIDDEN, (magnitude / HIDDEN) as i64 - 1)
    }
}

/// `m` doubled `n` times.
fn shift_up(m: u64, n: i64) -> (r: u128)
    requires
        m < 0x20_0000_0000_0000,
        0 <= n <= 64,
    ensures
        r == m as nat * pow2(n as nat),
        r < 0x20_0000_0000_0000_0000_0000_0000_0000,
{
    let mut r: u128 = m as u128;
    let mut i: i64 = 0;
    proof {
        lemma2_to64();
        assert(m as nat * pow2(0) == m) by (nonlinear_arith)
            requires
                pow2(0) == 1,
        ;
    }
    while i < n
        invariant
            m < 0x20_0000_0000_0000,
            0 <= i <= n <= 64,
            r == m as nat * pow2(i as nat),
            r < 0x20_0000_0000_0000_0000_0000_0000_0000,
        decreases n - i,
    {
        proof {
            lemma_pow2_unfold((i + 1) as nat);
            let p = pow2(i as nat);
            assert(m as nat * pow2((i + 1) as nat) == 2 * (m as nat * p)) by (nonlinear_arith)
                requires
                    pow2((i + 1) as nat) == 2 * p,
            ;
            lemma2_to64();
            lemma2_to64_rest();
            if i + 1 < 64 {
                vstd::arithmetic::power2::lemma_pow2_strictly_increases((i + 1) as nat, 64);
            }
            let w = pow2((i + 1) as nat);
            assert(m as nat * w < 0x20_0000_0000_0000_0000_0000_0000_0000) by (nonlinear_arith)
                requires
                    m < 0x20_0000_0000_0000,
                    0 < w <= 0x1_0000_0000_0000_0000,
            ;
        }
        r = r * 2;
        i = i + 1;
    }
    r
}

proof fn lemma_shifted(m: nat, e: nat, low: nat)
    requires
        low <= e,
    ensures
        m * pow2(e) == (m * pow2((e - low) as nat)) * pow2(low),
{
    lemma_pow2_adds((e - low) as nat, low);
    let a = pow2((e - low) as nat);
    let b = pow2(low);
    assert((e - low) as nat + low == e);
    assert(m * (a * b) == (m * a) * b) by (nonlinear_arith);
}

/// A number 65 or more powers of two below another is far below its last bit.
proof fn lemma_far_below(high: u64, low: u64)
    requires
        high < INFINITY,
        low < INFINITY,
        scale(high) > scale(low) + 64,
    ensures
        units(low) < pow2((scale(high) - 2) as nat),
        HIDDEN <= high,
{
    let n = significand(low);
    let e = scale(low);
    lemma2_to64();
    lemma2_to64_rest();
    lemma_pow2_adds(53, e);
    lemma_pow2_pos(e);
    let p = pow2(e);
    assert(n * p < 0x20_0000_0000_0000 * p) by (nonlinear_arith)
        requires
            n < 0x20_0000_0000_0000,
            p > 0,
    ;
    vstd::arithmetic::power2::lemma_pow2_strictly_increases(53 + e, (scale(high) - 2) as nat);
}

impl Real {
    fn of_parts(negative: bool, magnitude: u64) -> (r: Real)
        requires
            magnitude <= INFINITY,
        ensures
            r == signed(negative, magnitude),
    {
        if negative {
            Real { bits: magnitude + SIGN }
        } else {
            Real { bits: magnitude }
        }
    }

    /// `self + other`, rounded to the nearest double.
    pub fn plus(self, other: Real) -> (r: Real)
        requires
            self.finite(),
            other.finite(),
        ensures
            r == self.sum(other),
    {
        let a: u64 = self.abs_bits();
        let b: u64 = other.abs_bits();
        let (ma, ea) = decode(a);
        let (mb, eb) = decode(b);
        proof {
            lemma_pow2_pos(ea as nat);
            lemma_pow2_pos(eb as nat);
        }
        if ea > eb + 64 {
            proof {
                lemma_far_below(a, b);
                lemma_absorbed(a, (units(a) + units(b)) as nat);
                vstd::arithmetic::power2::lemma_pow2_strictly_increases(
                    (ea - 2) as nat,
                    ea as nat,
                );
                let p = pow2(ea as nat);
                assert(ma as nat * p >= p) by (nonlinear_arith)
                    requires
                        ma >= 1,
                        p > 0,
                ;
                lemma_absorbed(a, (units(a) - units(b)) as nat);
            }
            return Real::of_parts(self.is_negative(), a);
        }
        if eb > ea + 64 {
            proof {
                lemma_far_below(b, a);
                lemma_absorbed(b, (units(b) + units(a)) as nat);
                vstd::arithmetic::power2::lemma_pow2_strictly_increases(
                    (eb - 2) as nat,
                    eb as nat,
                );
                let p = pow2(eb as nat);
                assert(mb as nat * p >= p) by (nonlinear_arith)
                    requires
                        mb >= 1,
                        p > 0,
                ;
                lemma_absorbed(b, (units(b) - units(a)) as nat);
            }
            return Real::of_parts(other.is_negative(), b);
        }
        let low: i64 = if ea < eb {
            ea
        } else {
            eb
        };
        let x: u128 = shift_up(ma, ea - low);
        let y: u128 = shift_up(mb, eb - low);
        let ghost p = pow2(low as nat);
        proof {
            lemma_pow2_pos(low as nat);
            lemma_shifted(ma as nat, ea as nat, low as nat);
            lemma_shifted(mb as nat, eb as nat, low as nat);
            assert((x + y) * p == x * p + y * p) by (nonlinear_arith);
            assert((x - y) * p == x * p - y * p) by (nonlinear_arith);
            assert((y - x) * p == y * p - x * p) by (nonlinear_arith);
            assert((x - y) * p > 0 <==> x > y) by (nonlinear_arith)
                requires
                    p > 0,
            ;
            assert((x + y) * p > 0 <==> x + y > 0) by (nonlinear_arith)
                requires
                    p > 0,
            ;
            assert((x - y) * p == 0 <==> x == y) by (nonlinear_arith)
                requires
                    p > 0,
            ;
            lemma2_to64();
        }
        let sa: bool = self.is_negative();
        let sb: bool = other.is_negative();
        let (negative, m): (bool, u128) = if sa == sb {
            (sa, x + y)
        } else if x == y {
            (false, 0)
        } else if x > y {
            (sa, x - y)
        } else {
            (sb, y - x)
        };
        if m == 0 {
            return Real::of_parts(sa && sb, 0);
        }
        proof {
            assert(low == 0 ==> m as nat * p == m) by (nonlinear_arith)
                requires
                    low == 0 ==> p == 1,
            ;
        }
        Real::of_parts(negative, round_ratio(m, 1, low))
    }

    /// `self - other`, rounded to the nearest double.
    pub fn minus(self, other: Real) -> (r: Real)
        requires
            self.finite(),
            other.finite(),
        ensures
            r == self.difference(other),
    {
        let flipped = Real::of_parts(!other.is_negative(), other.abs_bits());
        self.plus(flipped)
    }

    /// `self * other`, rounded to the nearest double.
    pub fn times(self, other: Real) -> (r: Real)
        requires
            self.finite(),
            other.finite(),
        ensures
            r == self.product(other),
    {
        let (ma, ea) = decode(self.abs_bits());
        let (mb, eb) = decode(other.abs_bits());
        proof {
            assert(0 <= ma as u128 * mb as u128 <= 0x1f_ffff_ffff_ffff * 0x1f_ffff_ffff_ffff)
                by (nonlinear_arith)
                requires
                    ma <= 0x1f_ffff_ffff_ffff,
                    mb <= 0x1f_ffff_ffff_ffff,
            ;
        }
        let m: u128 = ma as u128 * mb as u128;
        let e: i64 = ea + eb - 1074;
        proof {
            let pa = pow2(ea as nat);
            let pb = pow2(eb as nat);
            lemma_pow2_adds(ea as nat, eb as nat);
            lemma2_to64();
            let pab = pow2((ea + eb) as nat);
            assert(ea as nat + eb as nat == (ea + eb) as nat);
            assert((ma as nat * pa) * (mb as nat * pb) == m as nat * pab) by (nonlinear_arith)
                requires
                    m == ma as nat * mb as nat,
                    pab == pa * pb,
            ;
            lemma_pow2_pos(1074);
            lemma_pow2_pos((ea + eb) as nat);
            if e >= 0 {
                lemma_pow2_adds(e as nat, 1074);
                assert(e as nat + 1074 == (ea + eb) as nat);
                let pe = pow2(e as nat);
                let c = pow2(1074);
                assert(m as nat * (pe * c) == (m as nat * pe) * c) by (nonlinear_arith);
                assert(1nat * c == c);
                lemma_nearest_scaled(m as nat * pe, 1, c);
                if e == 0 {
                    assert(m as nat * pe == m) by (nonlinear_arith)
                        requires
                            pe == 1,
                    ;
                }
            } else {
                lemma_pow2_adds((-e) as nat, (ea + eb) as nat);
                assert((-e) as nat + (ea + eb) as nat == 1074);
                lemma_pow2_pos((-e) as nat);
                lemma_nearest_scaled(m as nat, pow2((-e) as nat), pab);
                assert(1nat * pow2((-e) as nat) == pow2((-e) as nat));
            }
        }
        Real::of_parts(self.is_negative() != other.is_negative(), round_ratio(m, 1, e))
    }

    /// `self / other`, rounded to the nearest double.
    pub fn over(self, other: Real) -> (r: Real)
        requires
            self.finite(),
            other.finite(),
            other.key() != 0,
        ensures
            r == self.quotient(other),
    {
        let (ma, ea) = decode(self.abs_bits());
        let (mb, eb) = decode(other.abs_bits());
        let e: i64 = ea + 1074 - eb;
        proof {
            lemma2_to64();
            lemma_pow2_adds(ea as nat, 1074);
            let up = pow2(ea as nat + 1074);
            let down = pow2(eb as nat);
            lemma_pow2_pos(eb as nat);
            lemma_pow2_pos(ea as nat + 1074);
            let pa = pow2(ea as nat);
            let c = pow2(1074);
            assert((ma as nat * pa) * c == ma as nat * up) by (nonlinear_arith)
                requires
                    up == pa * c,
            ;
            if e >= 0 {
                lemma_pow2_adds(e as nat, eb as nat);
                assert(e as nat + eb as nat == ea as nat + 1074);
                let pe = pow2(e as nat);
                assert(ma as nat * (pe * down) == (ma as nat * pe) * down) by (nonlinear_arith);
                lemma_nearest_scaled(ma as nat * pe, mb as nat, down);
                if e == 0 {
                    assert(ma as nat * pe == ma) by (nonlinear_arith)
                        requires
                            pe == 1,
                    ;
                }
            } else {
                lemma_pow2_adds((-e) as nat, ea as nat + 1074);
                assert((-e) as nat + (ea as nat + 1074) == eb as nat);
                let pe = pow2((-e) as nat);
                lemma_pow2_pos((-e) as nat);
                assert(mb as nat * (pe * up) == (mb as nat * pe) * up) by (nonlinear_arith);
                assert(mb as nat * pe > 0) by (nonlinear_arith)
                    requires
                        mb > 0,
                        pe > 0,
                ;
                lemma_nearest_scaled(ma as nat, mb as nat * pe, up);
            }
        }
        Real::of_parts(
            self.is_negative() != other.is_negative(),
            round_ratio(ma as u128, mb as u128, e),
        )
    }

    pub fn from_u64(n: u64) -> (r: Real)
        ensures
            r == Real::of_nat(n as nat),
            r.finite(),
            !r.negative(),
    {
        proof {
            lemma_u64_in_range(n as nat);
        }
        Real::of_parts(false, round_ratio(n as u128, 1, 1074))
    }

    pub fn from_i64(n: i64) -> (r: Real)
        ensures
            r == Real::of_int(n as int),
    {
        if n < 0 {
            let m: i128 = -(n as i128);
            Real::of_parts(true, round_ratio(m as u128, 1, 1074))
        } else {
            Real::from_u64(n as u64)
        }
    }
}


/// The largest `u64` where the number is out of range.
pub open spec fn saturated(n: nat) -> u64 {
    if n > u64::MAX {
        u64::MAX
    } else {
        n as u64
    }
}

impl Real {
    /// The integer part of the magnitude.
    pub open spec fn whole(self) -> nat {
        units(self.magnitude()) / pow2(1074)
    }

    /// What the integer part leaves of the magnitude, in units.
    pub open spec fn remainder(self) -> nat {
        units(self.magnitude()) % pow2(1074)
    }

    /// The magnitude rounded to an integer, halves upwards.
    pub open spec fn rounded(self) -> nat {
        if 2 * self.remainder() >= pow2(1074) {
            self.whole() + 1
        } else {
            self.whole()
        }
    }

    /// The least integer that is not below the magnitude.
    pub open spec fn raised(self) -> nat {
        if self.remainder() > 0 {
            self.whole() + 1
        } else {
            self.whole()
        }
    }

    /// The integer part, whether the rest is a half or more, and whether there
    /// is no rest.
    fn split(self) -> (r: (u64, bool, bool))
        requires
            self.finite(),
        ensures
            r.0 == saturated(self.whole()),
            r.1 == (2 * self.remainder() >= pow2(1074)),
            r.2 == (self.remainder() == 0),
            self.whole() >= u64::MAX ==> !r.1 && r.2,
    {
        let (m, e) = decode(self.abs_bits());
        proof {
            lemma2_to64();
            lemma2_to64_rest();
            lemma_pow2_pos(1074);
            lemma_pow2_pos(e as nat);
        }
        if e >= 1074 {
            let n: i64 = e - 1074;
            proof {
                lemma_shifted(m as nat, e as nat, 1074);
                let w = m as nat * pow2(n as nat);
                let p = pow2(1074);
                assert((w * p) / p == w && (w * p) % p == 0) by (nonlinear_arith)
                    requires
                        p > 0,
                ;
            }
            if n > 64 {
                proof {
                    vstd::arithmetic::power2::lemma_pow2_strictly_increases(64, n as nat);
                    let q = pow2(n as nat);
                    assert(m as nat * q > u64::MAX) by (nonlinear_arith)
                        requires
                            m >= 1,
                            q > 0xffff_ffff_ffff_ffff,
                    ;
                }
                return (u64::MAX, false, true);
            }
            let x: u128 = shift_up(m, n);
            if x > 0xffff_ffff_ffff_ffff {
                (u64::MAX, false, true)
            } else {
                (x as u64, false, true)
            }
        } else {
            let n: i64 = 1074 - e;
            let ghost c = pow2(e as nat);
            let ghost d = pow2(n as nat);
            proof {
                lemma_pow2_pos(n as nat);
                lemma_pow2_adds(n as nat, e as nat);
                assert(n as nat + e as nat == 1074);
                lemma_truncate_middle(m as int, c as int, d as int);
                lemma_div_multiples_vanish_quotient(c as int, m as int, d as int);
                assert(m as nat * c == c * m as nat) by (nonlinear_arith);
                assert(d * c == c * d) by (nonlinear_arith);
                let r = m as nat % d;
                assert((2 * (c * r) >= c * d) == (2 * r >= d)) by (nonlinear_arith)
                    requires
                        c > 0,
                ;
                assert((c * r == 0) == (r == 0)) by (nonlinear_arith)
                    requires
                        c > 0,
                ;
                assert(m as nat / d <= m as nat) by (nonlinear_arith)
                    requires
                        d > 0,
                ;
            }
            if n > 53 {
                proof {
                    vstd::arithmetic::power2::lemma_pow2_strictly_increases(53, n as nat);
                    lemma_pow2_unfold(n as nat);
                    if n > 54 {
                        vstd::arithmetic::power2::lemma_pow2_strictly_increases(
                            53,
                            (n - 1) as nat,
                        );
                    }
                    assert(m as nat / d == 0 && m as nat % d == m as nat) by (nonlinear_arith)
                        requires
                            m < d,
                    ;
                }
                return (0, false, m == 0);
            }
            let divisor: u128 = shift_up(1, n);
            assert(1nat * d == d);
            let q: u128 = m as u128 / divisor;
            let r: u128 = m as u128 % divisor;
            (q as u64, 2 * r >= divisor, r == 0)
        }
    }

    /// The integer part of the magnitude, at most `u64::MAX`.
    pub fn to_u64(self) -> (r: u64)
        requires
            self.finite(),
        ensures
            r == saturated(self.whole()),
    {
        self.split().0
    }

    /// The magnitude rounded to an integer, at most `u64::MAX`.
    pub fn round_to_u64(self) -> (r: u64)
        requires
            self.finite(),
        ensures
            r == saturated(self.rounded()),
    {
        let (q, half, exact) = self.split();
        if half {
            q + 1
        } else {
            q
        }
    }

    /// The least integer not below the magnitude, at most `u64::MAX`.
    pub fn ceil_to_u64(self) -> (r: u64)
        requires
            self.finite(),
        ensures
            r == saturated(self.raised()),
    {
        let (q, half, exact) = self.split();
        if exact {
            q
        } else {
            q + 1
        }
    }

    /// Whether the number is an integer.
    pub fn is_whole(self) -> (r: bool)
        requires
            self.finite(),
        ensures
            r == (self.remainder() == 0),
    {
        self.split().2
    }
}


/// Rounding leaves a number that a double can hold as it is.
pub proof fn rounding_is_exact_on_doubles(magnitude: u64)
    requires
        magnitude < INFINITY,
    ensures
        nearest(units(magnitude), 1) == magnitude,
{
    let m = significand(magnitude);
    let e = scale(magnitude);
    let p = pow2(e);
    lemma2_to64();
    lemma_pow2_pos(e);
    assert(1nat * p == p);
    assert((m * p) / p == m && (m * p) % p == 0) by (nonlinear_arith)
        requires
            p > 0,
    ;
    assert(m * p < p * 0x20_0000_0000_0000) by (nonlinear_arith)
        requires
            m < 0x20_0000_0000_0000,
            p > 0,
    ;
    if e > 0 {
        lemma_pow2_unfold(e);
        let h = pow2((e - 1) as nat);
        assert(m * p >= h * 0x20_0000_0000_0000) by (nonlinear_arith)
            requires
                m >= 0x10_0000_0000_0000,
                p == 2 * h,
        ;
        assert(1nat * h == h);
        assert(magnitude == HIDDEN * (magnitude / HIDDEN) + magnitude % HIDDEN);
    }
    lemma_excess(m * p, 1, e);
}

proof fn lemma_excess_bounds(num: nat, den: nat)
    requires
        den > 0,
    ensures
        num < den * pow2(excess(num, den)) * 0x20_0000_0000_0000,
        excess(num, den) > 0 ==> num >= den * pow2((excess(num, den) - 1) as nat)
            * 0x20_0000_0000_0000,
    decreases num - den,
{
    lemma2_to64();
    if num < den * 0x20_0000_0000_0000 {
        assert(den * pow2(0) == den) by (nonlinear_arith)
            requires
                pow2(0) == 1,
        ;
    } else {
        lemma_excess_bounds(num, den * 2);
        let k = excess(num, den * 2);
        lemma_pow2_unfold(k + 1);
        let p = pow2(k);
        assert((den * 2) * p == den * pow2(k + 1)) by (nonlinear_arith)
            requires
                pow2(k + 1) == 2 * p,
        ;
        if k > 0 {
            lemma_pow2_unfold(k);
            let h = pow2((k - 1) as nat);
            assert((den * 2) * h == den * p) by (nonlinear_arith)
                requires
                    p == 2 * h,
            ;
        } else {
            assert(den * pow2(0) == den) by (nonlinear_arith)
                requires
                    pow2(0) == 1,
            ;
        }
    }
}

proof fn lemma_excess_grows(a: nat, b: nat, den: nat)
    requires
        den > 0,
        a <= b,
    ensures
        excess(a, den) <= excess(b, den),
    decreases b - den,
{
    if a >= den * 0x20_0000_0000_0000 {
        lemma_excess_grows(a, b, den * 2);
    }
}

proof fn lemma_half_even_grows(a: nat, b: nat, den: nat)
    requires
        den > 0,
        a <= b,
    ensures
        half_even(a, den) <= half_even(b, den),
{
    let qa = a / den;
    let qb = b / den;
    assert(qa <= qb) by (nonlinear_arith)
        requires
            a <= b,
            den > 0,
            qa == a / den,
            qb == b / den,
    ;
    if qa == qb {
        assert(a % den <= b % den) by (nonlinear_arith)
            requires
                a <= b,
                den > 0,
                a / den == b / den,
        ;
    }
}

/// Rounding keeps the order of numbers.
pub proof fn rounding_keeps_order(a: nat, b: nat, den: nat)
    requires
        a <= b,
        den > 0,
    ensures
        nearest(a, den) <= nearest(b, den),
{
    let ka = excess(a, den);
    let kb = excess(b, den);
    lemma_excess_grows(a, b, den);
    lemma_excess_bounds(a, den);
    lemma_excess_bounds(b, den);
    lemma_pow2_pos(ka);
    lemma_pow2_pos(kb);
    let pa = den * pow2(ka);
    let pb = den * pow2(kb);
    assert(pa > 0) by (nonlinear_arith)
        requires
            den > 0,
            pow2(ka) > 0,
            pa == den * pow2(ka),
    ;
    assert(pb > 0) by (nonlinear_arith)
        requires
            den > 0,
            pow2(kb) > 0,
            pb == den * pow2(kb),
    ;
    if ka == kb {
        lemma_half_even_grows(a, b, pa);
    } else {
        lemma_pow2_unfold(kb);
        let half = pow2((kb - 1) as nat);
        let h = den * half;
        assert(pb == 2 * h) by (nonlinear_arith)
            requires
                pb == den * pow2(kb),
                pow2(kb) == 2 * half,
                h == den * half,
        ;
        assert(a / pa < 0x20_0000_0000_0000) by (nonlinear_arith)
            requires
                a < pa * 0x20_0000_0000_0000,
                pa > 0,
        ;
        assert(b / pb >= 0x10_0000_0000_0000) by (nonlinear_arith)
            requires
                b >= h * 0x20_0000_0000_0000,
                pb == 2 * h,
                pb > 0,
        ;
        assert(half_even(a, pa) <= 0x20_0000_0000_0000);
        assert(half_even(b, pb) >= 0x10_0000_0000_0000);
        assert(kb * HIDDEN >= (ka + 1) * HIDDEN) by (nonlinear_arith)
            requires
                kb >= ka + 1,
        ;
        assert((ka + 1) * HIDDEN == ka * HIDDEN + HIDDEN) by (nonlinear_arith);
    }
}

/// Magnitudes stand in the order of what they count.
pub proof fn units_keep_order(a: u64, b: u64)
    requires
        a <= b < INFINITY,
    ensures
        units(a) <= units(b),
{
    if units(a) > units(b) {
        rounding_is_exact_on_doubles(a);
        rounding_is_exact_on_doubles(b);
        rounding_keeps_order(units(b), units(a), 1);
    }
}


/// The distance of two numbers.
pub open spec fn apart(a: nat, b: nat) -> int {
    if a < b {
        b - a
    } else {
        a - b
    }
}

/// What a pattern counts whose significand may have reached the next power of two.
proof fn lemma_shape(k: nat, m: nat, magnitude: u64)
    requires
        magnitude == k * HIDDEN + m,
        magnitude < INFINITY,
        m <= 2 * HIDDEN,
        k == 0 || m >= HIDDEN,
    ensures
        units(magnitude) == m * pow2(k),
{
    lemma2_to64();
    if m < HIDDEN {
    } else if m < 2 * HIDDEN {
        assert(magnitude / HIDDEN == k + 1 && magnitude % HIDDEN == m - HIDDEN) by (nonlinear_arith)
            requires
                magnitude == k * HIDDEN + m,
                HIDDEN <= m < 2 * HIDDEN,
                HIDDEN == 0x10_0000_0000_0000u64,
        ;
    } else {
        assert(magnitude / HIDDEN == k + 2 && magnitude % HIDDEN == 0) by (nonlinear_arith)
            requires
                magnitude == k * HIDDEN + 2 * HIDDEN,
                HIDDEN == 0x10_0000_0000_0000u64,
        ;
        lemma_pow2_unfold(k + 1);
        let p = pow2(k);
        assert(HIDDEN * (2 * p) == (2 * HIDDEN) * p) by (nonlinear_arith);
    }
}

/// Rounding gives a double that is at least as near as any other, and of two that
/// are equally near the one with an even pattern.
pub proof fn rounding_is_nearest(num: nat, den: nat, other: u64)
    requires
        den > 0,
        other < INFINITY,
        nearest(num, den) < INFINITY,
    ensures
        apart(units(nearest(num, den)) * den, num) <= apart(units(other) * den, num),
        apart(units(nearest(num, den)) * den, num) == apart(units(other) * den, num)
            && other != nearest(num, den) ==> nearest(num, den) % 2 == 0,
{
    let b = nearest(num, den);
    let k = excess(num, den);
    let p = pow2(k);
    let d = den * p;
    lemma_excess_bounds(num, den);
    lemma_pow2_pos(k);
    assert(d > 0) by (nonlinear_arith)
        requires
            den > 0,
            p > 0,
            d == den * p,
    ;
    let q = num / d;
    let r = num % d;
    assert(num == q * d + r && 0 <= r < d && q < 0x20_0000_0000_0000) by (nonlinear_arith)
        requires
            d > 0,
            q == num / d,
            r == num % d,
            num < d * 0x20_0000_0000_0000,
    ;
    if k > 0 {
        lemma_pow2_unfold(k);
        let h = pow2((k - 1) as nat);
        assert(q >= 0x10_0000_0000_0000) by (nonlinear_arith)
            requires
                num >= den * h * 0x20_0000_0000_0000,
                d == den * p,
                p == 2 * h,
                d > 0,
                q == num / d,
        ;
    }
    let low = (k * HIDDEN + q) as u64;
    assert(low == k * HIDDEN + q);
    lemma_shape(k, q, low);
    assert(units(low) * den == q * d) by (nonlinear_arith)
        requires
            units(low) == q * p,
            d == den * p,
    ;
    assert(b % 2 == (if b == low { q % 2 } else { (q + 1) % 2 })) by {
        assert((k * HIDDEN) % 2 == 0) by (nonlinear_arith)
            requires
                HIDDEN == 0x10_0000_0000_0000u64,
        ;
    }
    if low + 1 < INFINITY {
        let high = (low + 1) as u64;
        lemma_shape(k, q + 1, high);
        assert(units(high) * den == q * d + d) by (nonlinear_arith)
            requires
                units(high) == (q + 1) * p,
                d == den * p,
        ;
        if other >= high {
            units_keep_order(high, other);
            assert(units(other) * den >= units(high) * den) by (nonlinear_arith)
                requires
                    units(other) >= units(high),
            ;
            if other != high {
                lemma_units_differ(high, other);
                assert(units(other) * den > units(high) * den) by (nonlinear_arith)
                    requires
                        units(other) > units(high),
                        den > 0,
                ;
            }
        }
    }
    if other <= low {
        units_keep_order(other, low);
        assert(units(other) * den <= units(low) * den) by (nonlinear_arith)
            requires
                units(other) <= units(low),
        ;
        if other != low {
            lemma_units_differ(other, low);
            assert(units(other) * den < units(low) * den) by (nonlinear_arith)
                requires
                    units(other) < units(low),
                    den > 0,
            ;
        }
    }
}

proof fn lemma_units_differ(a: u64, b: u64)
    requires
        a < b < INFINITY,
    ensures
        units(a) < units(b),
{
    rounding_is_exact_on_doubles(a);
    rounding_is_exact_on_doubles(b);
    units_keep_order(a, b);
}

/// The pattern of the double nearest to one part in `den`, for the powers of two
/// between which it lies.
pub proof fn lemma_nearest_part(den: nat, e: nat, t: nat, top: nat)
    requires
        den > 0,
        e + t == 1074,
        e < 2000,
        pow2(t) == top,
        top < den * 0x20_0000_0000_0000,
        e > 0 ==> 2 * top >= den * 0x20_0000_0000_0000,
        e * HIDDEN + half_even(top, den) < INFINITY,
    ensures
        nearest(pow2(1074), den) == e * HIDDEN + half_even(top, den),
{
    lemma_pow2_adds(e, t);
    lemma_pow2_pos(e);
    let p = pow2(e);
    assert(pow2(1074) == top * p);
    assert(top * p < den * p * 0x20_0000_0000_0000) by (nonlinear_arith)
        requires
            top < den * 0x20_0000_0000_0000,
            p > 0,
    ;
    if e > 0 {
        lemma_pow2_unfold(e);
        let h = pow2((e - 1) as nat);
        assert(top * p >= den * h * 0x20_0000_0000_0000) by (nonlinear_arith)
            requires
                2 * top >= den * 0x20_0000_0000_0000,
                p == 2 * h,
        ;
    }
    lemma_excess(top * p, den, e);
    lemma_half_even_scaled(top, den, p);
}

/// An integer of at most 53 binary digits, of which the first is the one of weight
/// two to the power `t`, is itself a double.
pub proof fn whole_doubles_are_exact(n: nat, t: nat)
    requires
        t <= 52,
        pow2((52 - t) as nat) * n < 0x20_0000_0000_0000,
        pow2((52 - t) as nat) * n >= 0x10_0000_0000_0000,
    ensures
        Real::of_nat(n).bits == (1022 + t) * HIDDEN + pow2((52 - t) as nat) * n,
        units(Real::of_nat(n).bits) == n * pow2(1074),
{
    let m = pow2((52 - t) as nat) * n;
    let e = (1022 + t) as nat;
    assert(e * HIDDEN + m < INFINITY) by (nonlinear_arith)
        requires
            e <= 1074,
            m < 0x20_0000_0000_0000,
            HIDDEN == 0x10_0000_0000_0000u64,
            INFINITY == 0x7ff0_0000_0000_0000u64,
    ;
    let bits = (e * HIDDEN + m) as u64;
    lemma_shape(e, m, bits);
    lemma_pow2_adds((52 - t) as nat, e);
    let p = pow2((52 - t) as nat);
    let w = pow2(e);
    assert((p * n) * w == n * (p * w)) by (nonlinear_arith);
    rounding_is_exact_on_doubles(bits);
}


/// Two to the power 64.
pub const TWO_64_BITS: u64 = 0x43f0_0000_0000_0000;

/// Every `u64` is within the range of doubles.
pub proof fn lemma_u64_in_range(n: nat)
    requires
        n <= u64::MAX,
    ensures
        nearest(n * pow2(1074), 1) <= TWO_64_BITS,
        Real::of_nat(n).finite(),
        !Real::of_nat(n).negative(),
{
    let top: nat = 0x1_0000_0000_0000_0000;
    lemma2_to64();
    lemma2_to64_rest();
    assert(TWO_64_BITS / HIDDEN == 0x43f);
    assert(TWO_64_BITS % HIDDEN == 0);
    lemma_pow2_adds(52, 1086);
    lemma_pow2_adds(64, 1074);
    assert(units(TWO_64_BITS) == top * pow2(1074));
    rounding_is_exact_on_doubles(TWO_64_BITS);
    let p = pow2(1074);
    assert(n * p <= top * p) by (nonlinear_arith)
        requires
            n <= top,
    ;
    rounding_keeps_order(n * p, top * p, 1);
}

/// A bit pattern that stands for no number.
pub const NAN_BITS: u64 = 0x7ff8_0000_0000_0000;

impl Real {
    /// The product of any two doubles: no number, where a factor is none or
    /// infinity meets zero.
    pub open spec fn scaled(self, other: Real) -> Real {
        if self.finite() && other.finite() {
            self.product(other)
        } else if self.nan() || other.nan() || self.key() == 0 || other.key() == 0 {
            Real { bits: NAN_BITS }
        } else if self.negative() == other.negative() {
            Real { bits: INFINITY }
        } else {
            Real { bits: 0xfff0_0000_0000_0000 }
        }
    }

    pub fn scale(self, other: Real) -> (r: Real)
        ensures
            r == self.scaled(other),
    {
        if self.is_finite() && other.is_finite() {
            self.times(other)
        } else if self.abs_bits() > INFINITY || other.abs_bits() > INFINITY || self.is_zero()
            || other.is_zero() {
            Real { bits: NAN_BITS }
        } else if self.is_negative() == other.is_negative() {
            Real { bits: INFINITY }
        } else {
            Real { bits: 0xfff0_0000_0000_0000 }
        }
    }

    /// The place of a double in the order of all bit patterns, in which negative
    /// zero is below zero.
    pub open spec fn total_key(self) -> int {
        if self.negative() {
            -1 - self.magnitude()
        } else {
            self.magnitude() as int
        }
    }

    /// Whether a double is before another in the order of all bit patterns.
    pub fn before(self, other: Real) -> (r: bool)
        ensures
            r == (self.total_key() < other.total_key()),
    {
        if self.is_negative() {
            !other.is_negative() || other.abs_bits() < self.abs_bits()
        } else {
            !other.is_negative() && self.abs_bits() < other.abs_bits()
        }
    }
}

/// Different bit patterns have different places.
pub proof fn total_order_separates(a: Real, b: Real)
    requires
        a.total_key() == b.total_key(),
    ensures
        a == b,
{
}

/// How far rounding may move a number.
pub proof fn lemma_rounding_error(num: nat, den: nat)
    requires
        den > 0,
        nearest(num, den) < INFINITY,
    ensures
        2 * apart(units(nearest(num, den)) * den, num) <= den * pow2(excess(num, den)),
        excess(num, den) > 0 ==> den * pow2(excess(num, den)) * 0x10_0000_0000_0000 <= num,
        excess(num, den) == 0 && den == 1 ==> units(nearest(num, den)) == num,
{
    let b = nearest(num, den);
    let k = excess(num, den);
    let p = pow2(k);
    let d = den * p;
    lemma2_to64();
    lemma_excess_bounds(num, den);
    lemma_pow2_pos(k);
    assert(d > 0) by (nonlinear_arith)
        requires
            den > 0,
            p > 0,
            d == den * p,
    ;
    let q = num / d;
    let r = num % d;
    assert(num == q * d + r && 0 <= r < d && q < 0x20_0000_0000_0000) by (nonlinear_arith)
        requires
            d > 0,
            q == num / d,
            r == num % d,
            num < d * 0x20_0000_0000_0000,
    ;
    if k > 0 {
        lemma_pow2_unfold(k);
        let h = pow2((k - 1) as nat);
        assert(q >= 0x10_0000_0000_0000 && d * 0x10_0000_0000_0000 <= num) by (nonlinear_arith)
            requires
                num >= den * h * 0x20_0000_0000_0000,
                d == den * p,
                p == 2 * h,
                d > 0,
                q == num / d,
        ;
    }
    let m = half_even(num, d);
    lemma_shape(k, m, b);
    assert(units(b) * den == m * d) by (nonlinear_arith)
        requires
            units(b) == m * p,
            d == den * p,
    ;
    if m == q + 1 {
        assert(m * d == q * d + d) by (nonlinear_arith)
            requires
                m == q + 1,
        ;
    }
    if k == 0 && den == 1 {
        assert(d == 1);
    }
}

/// Every integer below two to the power 53 is a double.
pub proof fn integers_are_exact(n: nat)
    requires
        n < 0x20_0000_0000_0000,
    ensures
        units(Real::of_nat(n).bits) == n * pow2(1074),
        Real::of_nat(n).finite(),
        !Real::of_nat(n).negative(),
{
    let p = pow2(1074);
    let num = n * p;
    let k = excess(num, 1);
    lemma2_to64();
    lemma_pow2_pos(1074);
    lemma_pow2_pos(k);
    lemma_excess_bounds(num, 1);
    let w = pow2(k);
    assert(1 * w == w);
    if k > 1074 {
        let h = pow2((k - 1) as nat);
        lemma_pow2_unfold(k);
        if k - 1 > 1074 {
            vstd::arithmetic::power2::lemma_pow2_strictly_increases(1074, (k - 1) as nat);
        }
        assert(1 * h == h);
        assert(h >= p);
        assert(n * p < h * 0x20_0000_0000_0000) by (nonlinear_arith)
            requires
                n < 0x20_0000_0000_0000,
                0 < p <= h,
        ;
    }
    let g = pow2((1074 - k) as nat);
    lemma_pow2_adds(k, (1074 - k) as nat);
    let q = n * g;
    assert(num == q * w) by (nonlinear_arith)
        requires
            num == n * p,
            p == w * g,
            q == n * g,
    ;
    assert((q * w) / w == q && (q * w) % w == 0) by (nonlinear_arith)
        requires
            w > 0,
    ;
    assert(q < 0x20_0000_0000_0000) by (nonlinear_arith)
        requires
            q * w < w * 0x20_0000_0000_0000,
            w > 0,
    ;
    if k > 0 {
        lemma_pow2_unfold(k);
        let h = pow2((k - 1) as nat);
        assert(1 * h == h);
        assert(q >= 0x10_0000_0000_0000) by (nonlinear_arith)
            requires
                q * w >= h * 0x20_0000_0000_0000,
                w == 2 * h,
                h > 0,
        ;
    }
    assert(k * HIDDEN + q < INFINITY) by (nonlinear_arith)
        requires
            k <= 1074,
            q < 0x20_0000_0000_0000,
            HIDDEN == 0x10_0000_0000_0000u64,
            INFINITY == 0x7ff0_0000_0000_0000u64,
    ;
    let bits = (k * HIDDEN + q) as u64;
    lemma_shape(k, q, bits);
}

} // verus!
