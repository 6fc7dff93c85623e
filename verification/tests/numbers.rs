use ontologyx_sim_core::cosim::CoSimulationTime;
use ontologyx_sim_core::Real;

fn bits(value: f64) -> Real {
    Real::from_bits(value.to_bits())
}

fn double(value: Real) -> f64 {
    f64::from_bits(value.bits)
}

/// A fixed row of doubles of all sizes.
fn operands() -> Vec<f64> {
    let mut out = vec![
        0.0,
        -0.0,
        1.0,
        -1.0,
        0.1,
        0.2,
        0.3,
        1e-12,
        5e-13,
        1e12,
        1e308,
        -1e308,
        f64::MAX,
        f64::MIN,
        f64::MIN_POSITIVE,
        f64::from_bits(1),
        f64::from_bits(0x000f_ffff_ffff_ffff),
        f64::EPSILON,
        9007199254740993.0,
    ];
    let mut state: u64 = 0x9e37_79b9_7f4a_7c15;
    for _ in 0..160 {
        state = state
            .wrapping_mul(6364136223846793005)
            .wrapping_add(1442695040888963407);
        let value = f64::from_bits(state);
        if value.is_finite() {
            out.push(value);
        }
        let near = (state >> 40) as f64 / 1024.0 - 4000.0;
        out.push(near);
    }
    out
}

#[test]
fn sums_and_products_are_those_of_the_machine() {
    let all = operands();
    for (i, a) in all.iter().enumerate() {
        for b in all.iter().skip(i % 7).step_by(7) {
            assert_eq!(bits(*a).plus(bits(*b)).bits, (a + b).to_bits(), "{a:e} + {b:e}");
            assert_eq!(bits(*a).minus(bits(*b)).bits, (a - b).to_bits(), "{a:e} - {b:e}");
            assert_eq!(bits(*a).times(bits(*b)).bits, (a * b).to_bits(), "{a:e} * {b:e}");
            if *b != 0.0 {
                assert_eq!(bits(*a).over(bits(*b)).bits, (a / b).to_bits(), "{a:e} / {b:e}");
            }
            assert_eq!(bits(*a).lt(bits(*b)), a < b);
            assert_eq!(bits(*a).le(bits(*b)), a <= b);
        }
    }
}

#[test]
fn comparisons_with_what_is_no_number_fail() {
    let nan = bits(f64::NAN);
    assert!(!nan.lt(bits(1.0)) && !bits(1.0).lt(nan) && !nan.le(nan));
    assert!(!nan.is_finite() && !bits(f64::INFINITY).is_finite() && bits(1.0).is_finite());
    assert!(bits(-0.0).le(bits(0.0)) && bits(0.0).le(bits(-0.0)));
}

#[test]
fn integers_become_the_nearest_doubles() {
    for n in [
        0u64,
        1,
        (1 << 53) - 1,
        1 << 53,
        (1 << 53) + 1,
        (1 << 53) + 3,
        u64::MAX,
        u64::MAX - 1023,
        u64::MAX - 1024,
    ] {
        assert_eq!(Real::from_u64(n).bits, (n as f64).to_bits(), "{n}");
        assert_eq!(
            Real::from_i64(n as i64).bits,
            (n as i64 as f64).to_bits(),
            "{n}"
        );
    }
}

#[test]
fn doubles_round_as_those_of_the_machine() {
    for x in [
        0.0,
        0.4,
        0.5,
        0.6,
        1.5,
        2.5,
        1e15,
        4503599627370495.5,
        1.8446744073709550e19,
        1e300,
    ] {
        assert_eq!(bits(x).round_to_u64(), x.round() as u64, "{x:e}");
        assert_eq!(bits(x).ceil_to_u64(), x.ceil() as u64, "{x:e}");
        assert_eq!(bits(x).to_u64(), x as u64, "{x:e}");
        assert_eq!(bits(x).is_whole(), x.fract() == 0.0, "{x:e}");
    }
}

#[test]
fn scaling_goes_beyond_the_finite() {
    for (a, b) in [
        (f64::INFINITY, 2.0),
        (f64::INFINITY, -2.0),
        (-3.0, f64::INFINITY),
        (3.0, 4.0),
        (-3.0, 0.5),
    ] {
        assert_eq!(bits(a).scale(bits(b)).bits, (a * b).to_bits());
    }
    assert!(double(bits(f64::INFINITY).scale(bits(0.0))).is_nan());
}

#[test]
fn the_total_order_is_that_of_the_machine() {
    let all = [
        f64::NEG_INFINITY,
        -1.0,
        -1e-300,
        -0.0,
        0.0,
        1e-300,
        1.0,
        f64::INFINITY,
    ];
    for a in all {
        for b in all {
            assert_eq!(bits(a).before(bits(b)), a.total_cmp(&b).is_lt(), "{a} {b}");
        }
    }
}

#[test]
fn picoseconds_and_seconds_convert() {
    assert_eq!(
        CoSimulationTime::from_seconds(bits(1e-9)).unwrap().as_picoseconds(),
        1000
    );
    assert_eq!(
        double(CoSimulationTime::from_picoseconds(2_500).as_seconds()),
        2.5e-9
    );
    assert_eq!(
        CoSimulationTime::from_seconds(bits(-1.0)).unwrap_err().code(),
        "cosim_time_invalid"
    );
    assert_eq!(
        CoSimulationTime::from_seconds(bits(f64::NAN)).unwrap_err().code(),
        "cosim_time_invalid"
    );
    assert_eq!(
        CoSimulationTime::from_seconds(bits(1e9)).unwrap_err().code(),
        "cosim_time_invalid"
    );
    let late = CoSimulationTime::from_picoseconds(u64::MAX);
    assert_eq!(
        late.saturating_add(CoSimulationTime::from_picoseconds(1)).as_picoseconds(),
        u64::MAX
    );
}
