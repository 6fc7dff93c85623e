//! The doubles behind units of time and other fixed numbers, as roundings of what
//! they stand for, and the times that are read and written with them.
use crate::cosim::TIMEBASE_BITS;
use crate::digital_cosim::HALF_PICOSECOND_BITS;
use crate::fault::Fault;
use crate::ngspice::PICOSECOND_BITS;
use crate::number::{
    apart, integers_are_exact, lemma_nearest_part, lemma_nearest_scaled, lemma_rounding_error, nearest,
    rounding_is_exact_on_doubles, rounding_is_nearest, rounding_keeps_order, units,
    whole_doubles_are_exact, Real, INFINITY,
};
use crate::reading::{HALF_BITS, ONE_BITS};
use crate::truth::mark;
use crate::vcd::{
    clock_at, compact, entry_of, leading_digits, timescale_of, timescale_text, unit_bits, Clock,
    Entry,
};
use crate::xspice::{FEMTOSECOND_BITS, THOUSAND_BITS, XSPICE_MIN_DELAY_BITS};
use vstd::arithmetic::power2::{lemma2_to64, lemma2_to64_rest, lemma_pow2_adds, pow2};
use vstd::prelude::*;

verus! {

/// How many of a unit of time make a second.
pub open spec fn per_second(unit: Seq<char>) -> Option<nat> {
    if unit == "s"@ {
        Some(1)
    } else if unit == "ms"@ {
        Some(1_000)
    } else if unit == "us"@ {
        Some(1_000_000)
    } else if unit == "ns"@ {
        Some(1_000_000_000)
    } else if unit == "ps"@ {
        Some(1_000_000_000_000)
    } else if unit == "fs"@ {
        Some(1_000_000_000_000_000)
    } else {
        None
    }
}

/// The double nearest to one part in `den` of one.
pub open spec fn one_in(den: nat) -> Real {
    Real { bits: nearest(pow2(1074), den) }
}

proof fn lemma_powers()
    ensures
        pow2(52) == 0x10_0000_0000_0000,
        pow2(53) == 0x20_0000_0000_0000,
        pow2(62) == 0x4000_0000_0000_0000,
        pow2(72) == 0x100_0000_0000_0000_0000,
        pow2(82) == 0x4_0000_0000_0000_0000_0000,
        pow2(92) == 0x1000_0000_0000_0000_0000_0000,
        pow2(93) == 0x2000_0000_0000_0000_0000_0000,
        pow2(102) == 0x40_0000_0000_0000_0000_0000_0000,
{
    lemma2_to64();
    lemma2_to64_rest();
    lemma_pow2_adds(64, 8);
    lemma_pow2_adds(64, 18);
    lemma_pow2_adds(64, 28);
    lemma_pow2_adds(64, 29);
    lemma_pow2_adds(64, 38);
}

/// Each unit of time is the double nearest to its part of a second, and no other
/// unit is known.
pub proof fn units_of_time_are_parts_of_a_second(unit: Seq<char>)
    ensures
        match per_second(unit) {
            Some(den) => unit_bits(unit) == Some(one_in(den).bits),
            None => unit_bits(unit) is None,
        },
{
    lemma_powers();
    lemma_nearest_part(1, 1022, 52, 0x10_0000_0000_0000);
    lemma_nearest_part(1_000, 1012, 62, 0x4000_0000_0000_0000);
    lemma_nearest_part(1_000_000, 1002, 72, 0x100_0000_0000_0000_0000);
    lemma_nearest_part(1_000_000_000, 992, 82, 0x4_0000_0000_0000_0000_0000);
    lemma_nearest_part(1_000_000_000_000, 982, 92, 0x1000_0000_0000_0000_0000_0000);
    lemma_nearest_part(
        1_000_000_000_000_000,
        972,
        102,
        0x40_0000_0000_0000_0000_0000_0000,
    );
}

/// No double is nearer to its part of a second than the one for a unit of time.
pub proof fn units_of_time_are_as_near_as_can_be(unit: Seq<char>, other: u64)
    requires
        per_second(unit) is Some,
        other < INFINITY,
    ensures
        unit_bits(unit) matches Some(bits) && bits < INFINITY && crate::number::apart(
            units(bits) * per_second(unit)->0,
            pow2(1074),
        ) <= crate::number::apart(units(other) * per_second(unit)->0, pow2(1074)),
{
    units_of_time_are_parts_of_a_second(unit);
    rounding_is_nearest(pow2(1074), per_second(unit)->0, other);
}

/// A unit of time with more of it in a second is strictly shorter.
pub proof fn finer_units_are_shorter(coarse: Seq<char>, fine: Seq<char>)
    requires
        per_second(coarse) is Some,
        per_second(fine) is Some,
        per_second(coarse)->0 < per_second(fine)->0,
    ensures
        unit_bits(fine)->0 < unit_bits(coarse)->0,
        (Real { bits: unit_bits(fine)->0 }).less(Real { bits: unit_bits(coarse)->0 }),
{
    reveal_strlit("s");
    reveal_strlit("ms");
    reveal_strlit("us");
    reveal_strlit("ns");
    reveal_strlit("ps");
    reveal_strlit("fs");
    assert(mark("s"@) < mark("fs"@) < mark("ms"@) < mark("ns"@) < mark("ps"@) < mark("us"@));
}

/// The fixed numbers that times are compared and converted with: a half, one, a
/// thousand, ten to the power 12, and its inverse and half of that.
pub proof fn fixed_numbers_are_roundings()
    ensures
        ONE_BITS == Real::of_nat(1).bits,
        HALF_BITS == one_in(2).bits,
        THOUSAND_BITS == Real::of_nat(1_000).bits,
        TIMEBASE_BITS == Real::of_nat(1_000_000_000_000).bits,
        PICOSECOND_BITS == one_in(1_000_000_000_000).bits,
        XSPICE_MIN_DELAY_BITS == one_in(1_000_000_000_000).bits,
        HALF_PICOSECOND_BITS == one_in(2_000_000_000_000).bits,
        FEMTOSECOND_BITS == one_in(1_000_000_000_000_000).bits,
{
    lemma_powers();
    lemma2_to64();
    lemma2_to64_rest();
    whole_doubles_are_exact(1, 0);
    whole_doubles_are_exact(1_000, 9);
    whole_doubles_are_exact(1_000_000_000_000, 39);
    lemma_nearest_part(2, 1021, 53, 0x20_0000_0000_0000);
    lemma_nearest_part(1_000_000_000_000, 982, 92, 0x1000_0000_0000_0000_0000_0000);
    lemma_nearest_part(2_000_000_000_000, 981, 93, 0x2000_0000_0000_0000_0000_0000);
    lemma_nearest_part(
        1_000_000_000_000_000,
        972,
        102,
        0x40_0000_0000_0000_0000_0000_0000,
    );
}

/// A tick of a dump lasts the declared number of the declared unit.
pub proof fn ticks_last_what_is_declared(source: Seq<char>, text: Seq<char>, x: Real)
    requires
        timescale_text(source) == Ok::<Seq<char>, Fault>(text),
        leading_digits(compact(text)) > 0,
        per_second(compact(text).skip(leading_digits(compact(text)))) is Some,
    ensures
        timescale_of(source, Some(x)) == Ok::<Real, Fault>(
            x.scaled(one_in(per_second(compact(text).skip(leading_digits(compact(text))))->0)),
        ),
{
    units_of_time_are_parts_of_a_second(compact(text).skip(leading_digits(compact(text))));
}

/// A stamp of `n` ticks in a dump whose ticks last one unit of time is read as the
/// double nearest to `n` times that unit.
pub proof fn stamps_count_in_their_unit(
    source: Seq<char>,
    text: Seq<char>,
    lines: Seq<Seq<char>>,
    times: Seq<Option<Real>>,
    n: int,
    tick: Real,
    before: Clock,
    raw: Seq<char>,
)
    requires
        timescale_text(source) == Ok::<Seq<char>, Fault>(text),
        leading_digits(compact(text)) > 0,
        per_second(compact(text).skip(leading_digits(compact(text)))) is Some,
        0 < n <= lines.len(),
        ({
            let scale = timescale_of(source, Some(Real::of_nat(1)))->Ok_0;
            clock_at(lines, scale, times, n - 1) == Ok::<Clock, Fault>(before)
        }),
        entry_of(lines[n - 1], before.values) == Entry::Stamp(raw),
        before.stamps < times.len(),
        times[before.stamps as int] == Some(tick),
        tick.finite(),
        !tick.negative(),
    ensures
        ({
            let scale = timescale_of(source, Some(Real::of_nat(1)))->Ok_0;
            let unit = one_in(
                per_second(compact(text).skip(leading_digits(compact(text))))->0,
            );
            clock_at(lines, scale, times, n) matches Ok(after) && after.time.bits == nearest(
                units(tick.bits) * units(unit.bits),
                pow2(1074),
            )
        }),
{
    let unit = one_in(per_second(compact(text).skip(leading_digits(compact(text))))->0);
    let name = compact(text).skip(leading_digits(compact(text)));
    ticks_last_what_is_declared(source, text, Real::of_nat(1));
    units_of_time_are_parts_of_a_second(name);
    lemma2_to64();
    lemma2_to64_rest();
    whole_doubles_are_exact(1, 0);
    let p = pow2(1074);
    vstd::arithmetic::power2::lemma_pow2_pos(1074);
    assert((1 * p) * units(unit.bits) == units(unit.bits) * p) by (nonlinear_arith);
    rounding_is_exact_on_doubles(unit.bits);
    crate::number::lemma_nearest_scaled(units(unit.bits), 1, p);
    assert(1nat * p == p);
    assert(Real::of_nat(1).scaled(unit) == unit);
}

/// A number of picoseconds, as seconds and back again, is the same number.
pub proof fn picoseconds_survive_seconds(n: u64)
    requires
        n <= 0x4_0000_0000_0000,
    ensures
        crate::cosim::time_from(crate::cosim::seconds_of(n)) == Ok::<
            crate::cosim::CoSimulationTime,
            Fault,
        >(crate::cosim::CoSimulationTime(n)),
        crate::cosim::seconds_of(n).finite(),
        crate::cosim::ticks_of(crate::cosim::seconds_of(n)).finite(),
        !crate::cosim::ticks_of(crate::cosim::seconds_of(n)).negative(),
        crate::cosim::ticks_of(crate::cosim::seconds_of(n)).rounded() == n,
{
    fixed_numbers_are_roundings();
    let p = pow2(1074);
    let t: nat = 1_000_000_000_000;
    vstd::arithmetic::power2::lemma_pow2_pos(1074);
    integers_are_exact(n as nat);
    integers_are_exact(t);
    integers_are_exact(0x8_0000_0000_0000);
    lemma2_to64();
    lemma2_to64_rest();
    lemma_pow2_adds(64, 28);
    lemma_pow2_adds(92, 982);
    vstd::arithmetic::power2::lemma_pow2_pos(982);
    let big = pow2(982);
    assert(p >= 0x1000_0000_0000_0000_0000_0000) by (nonlinear_arith)
        requires
            p == 0x1000_0000_0000_0000_0000_0000 * big,
            big > 0,
    ;
    let num = n as nat * p;
    // Seconds.
    lemma_nearest_scaled(num, t, p);
    assert(num * p == (n as nat * p) * p);
    let seconds = crate::cosim::seconds_of(n);
    assert(seconds.bits == nearest(num, t));
    assert(num * 1 <= num * t) by (nonlinear_arith)
        requires
            t >= 1,
    ;
    rounding_keeps_order(num, num * t, t);
    lemma_nearest_scaled(num, 1, t);
    assert(1 * t == t);
    assert(seconds.bits <= Real::of_nat(n as nat).bits);
    lemma_rounding_error(num, t);
    let u = units(seconds.bits);
    let first = apart(u * t, num);
    let step = t * pow2(crate::number::excess(num, t));
    if n > 0 {
        if crate::number::excess(num, t) == 0 {
            assert(step == t);
            assert(num >= p) by (nonlinear_arith)
                requires
                    num == n * p,
                    n >= 1,
            ;
        }
        assert(step * 0x10_0000_0000_0000 <= num);
        assert(u == units(nearest(num, t)));
        assert(2 * first <= step);
        assert(0x20_0000_0000_0000 * first <= num) by (nonlinear_arith)
            requires
                2 * first <= step,
                step * 0x10_0000_0000_0000 <= num,
        ;
    } else {
        assert(num == 0);
        assert(nearest(0, t) == 0) by {
            assert(crate::number::excess(0, t) == 0);
        }
        assert(units(0) == 0);
        assert(u * t == 0);
    }
    // Ticks.
    let exact = u * t;
    assert(u * (t * p) == exact * p) by (nonlinear_arith)
        requires
            exact == u * t,
    ;
    lemma_nearest_scaled(exact, 1, p);
    assert(1 * p == p);
    let ticks = crate::cosim::ticks_of(seconds);
    assert(ticks.bits == nearest(exact, 1));
    assert(exact <= 0x8_0000_0000_0000 * p) by {
        assert(num <= 0x4_0000_0000_0000 * p) by (nonlinear_arith)
            requires
                num == n * p,
                n <= 0x4_0000_0000_0000,
        ;
    }
    rounding_keeps_order(exact, 0x8_0000_0000_0000 * p, 1);
    lemma_rounding_error(exact, 1);
    let v = units(ticks.bits);
    let second = apart(v, exact);
    assert(v * 1 == v);
    let k = crate::number::excess(exact, 1);
    if k > 0 {
        let width = pow2(k);
        assert(1 * width == width);
        assert(0x20_0000_0000_0000 * second <= exact) by (nonlinear_arith)
            requires
                2 * second <= width,
                width * 0x10_0000_0000_0000 <= exact,
        ;
    } else {
        assert(second == 0);
    }
    assert(2 * apart(v, num) < p) by {
        assert(8 * num <= 8 * (0x4_0000_0000_0000 * p)) by (nonlinear_arith)
            requires
                num == n * p,
                n <= 0x4_0000_0000_0000,
        ;
    }
    if v >= num {
        let rest = (v - num) as nat;
        assert(v / p == n && v % p == rest) by (nonlinear_arith)
            requires
                v == n * p + rest,
                rest < p,
        ;
    } else {
        let rest = (p - (num - v)) as nat;
        assert(n > 0);
        assert(v == (n - 1) * p + rest) by (nonlinear_arith)
            requires
                v + p == n * p + rest,
        ;
        assert(v / p == n - 1 && v % p == rest) by (nonlinear_arith)
            requires
                v == (n - 1) * p + rest,
                rest < p,
                n >= 1,
        ;
    }
    if (Real { bits: crate::number::TWO_64_BITS }).less(ticks) {
        assert(ticks.bits <= Real::of_nat(0x8_0000_0000_0000).bits);
        whole_doubles_are_exact(0x8_0000_0000_0000, 51);
    }
}

} // verus!
