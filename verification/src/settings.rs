//! What the parameters of logic elements set: delays, first levels, widths, clocks.
use crate::circuit::{Component, Net, ParameterValue};
use crate::digital::{clock_of, code, part_of, DigitalPrimitive, Part};
use crate::fault::Fault;
use crate::kernel::{enqueued, fresh, part_started, Kern, ScheduledEvent};
use crate::logic::{lemma_bits_of_len, number_survives_bus, numeric};
use crate::lookup::{
    amounts, gives, level_parameters_mean_what_they_say, lists, omits, parameters_are_found,
    times_are_listed,
};
use crate::number::Real;
use crate::scales::{fixed_numbers_are_roundings, one_in};
use crate::truth::{edge_triggered, one_level, truth};
use crate::units::Unit;
use crate::waveform::LogicValue;
use vstd::arithmetic::power2::pow2;
use vstd::prelude::*;

verus! {

/// A component lists a time, as a number or in seconds.
pub open spec fn lists_time(component: Component, key: Seq<char>, x: Real) -> bool {
    amounts(component, key, Unit::Second, x) || exists|n: i64| #[trigger]
        lists(component, key, ParameterValue::Integer(n)) && x == Real::of_int(n as int)
}

/// A compiled element waits for as long as its component lists, or not at all, and
/// never for a negative time.
pub proof fn elements_wait_as_asked(component: Component, wiring: Seq<Net>, part: Part)
    requires
        part_of(component, wiring) == Ok::<Part, Fault>(part),
        truth(component.kind@, 0, 0) is Some || one_level(component.kind@) || edge_triggered(
            component.kind@,
        ),
    ensures
        lists_time(component, "delay"@, part.delay) || (omits(component, "delay"@) && part.delay
            == (Real { bits: 0 })),
        0 <= part.delay.key(),
        part.delay.finite(),
{
    crate::truth::lemma_words();
    times_are_listed(code(), component, "delay"@, part.delay);
}

/// An element that holds one level starts with the one that its component gives, and
/// with an unknown one where it gives none.
pub proof fn elements_start_as_asked(component: Component, wiring: Seq<Net>, part: Part)
    requires
        part_of(component, wiring) == Ok::<Part, Fault>(part),
        one_level(component.kind@),
    ensures
        omits(component, "initial"@) ==> part.initial_scalar == LogicValue::X,
        gives(component, "initial"@, ParameterValue::Boolean(true)) || gives(
            component,
            "initial"@,
            ParameterValue::Integer(1),
        ) ==> part.initial_scalar == LogicValue::One,
        gives(component, "initial"@, ParameterValue::Boolean(false)) || gives(
            component,
            "initial"@,
            ParameterValue::Integer(0),
        ) ==> part.initial_scalar == LogicValue::Zero,
{
    crate::truth::lemma_words();
    let text = arbitrary();
    level_parameters_mean_what_they_say(code(), component, "initial"@, text);
}

/// A register or a counter starts with the number that its component gives, as far as
/// its width reaches, and with zero where it gives none.
pub proof fn buses_start_with_their_number(
    component: Component,
    wiring: Seq<Net>,
    part: Part,
    n: i64,
)
    requires
        part_of(component, wiring) == Ok::<Part, Fault>(part),
        component.kind@ == "register"@ || component.kind@ == "counter"@,
    ensures
        part.initial_vector.len() == part.outputs.len(),
        omits(component, "initial"@) ==> forall|i: int|
            0 <= i < part.initial_vector.len() ==> #[trigger] part.initial_vector[i]
                == LogicValue::Zero,
        gives(component, "initial"@, ParameterValue::Integer(n)) && n >= 0 ==> numeric(
            part.initial_vector,
        ) == n as nat % pow2(part.outputs.len()),
{
    crate::truth::lemma_words();
    crate::truth::lemma_sequential(component, wiring, part);
    crate::truth::lemma_part(component, wiring, part);
    parameters_are_found(component, "initial"@, ParameterValue::Integer(n));
    let width = part.outputs.len();
    number_survives_bus(width, n as nat);
    lemma_bits_of_len(width, n as nat);
    match crate::circuit::parameter_of(component.parameters@, "initial"@) {
        Some(ParameterValue::Integer(m)) => {
            if m >= 0 {
                lemma_bits_of_len(width, m as nat);
            }
        },
        Some(ParameterValue::Number(x)) => {
            lemma_bits_of_len(width, crate::number::saturated(x.whole()) as nat);
        },
        _ => {},
    }
}

/// A register or a counter has as many bits as its component gives, and four where it
/// gives none.
pub proof fn buses_have_their_width(component: Component, wiring: Seq<Net>, part: Part, n: i64)
    requires
        part_of(component, wiring) == Ok::<Part, Fault>(part),
        component.kind@ == "register"@ || component.kind@ == "counter"@,
    ensures
        omits(component, "width"@) ==> part.outputs.len() == 4,
        gives(component, "width"@, ParameterValue::Integer(n)) && n <= usize::MAX
            ==> part.outputs.len() == n,
{
    crate::truth::lemma_words();
    crate::truth::lemma_sequential(component, wiring, part);
    crate::truth::lemma_part(component, wiring, part);
    parameters_are_found(component, "width"@, ParameterValue::Integer(n));
}

/// A clock has the period that its component lists, which is positive, is high for the
/// listed share of it, or half of it, and starts low unless it is asked to start high.
pub proof fn clocks_run_as_asked(
    component: Component,
    period: Real,
    duty_cycle: Real,
    initial: LogicValue,
)
    requires
        clock_of(component) == Ok::<DigitalPrimitive, Fault>(
            DigitalPrimitive::Clock { period, duty_cycle, initial },
        ),
    ensures
        lists_time(component, "period"@, period),
        period.finite(),
        0 < period.key(),
        omits(component, "duty_cycle"@) ==> duty_cycle == one_in(2),
        !omits(component, "duty_cycle"@) ==> amounts(
            component,
            "duty_cycle"@,
            Unit::Dimensionless,
            duty_cycle,
        ) || exists|n: i64| #[trigger]
            lists(component, "duty_cycle"@, ParameterValue::Integer(n)) && duty_cycle
                == Real::of_int(n as int),
        duty_cycle.finite(),
        0 < duty_cycle.key() < Real::of_nat(1).key(),
        omits(component, "initial"@) ==> initial == LogicValue::Zero,
        gives(component, "initial"@, ParameterValue::Boolean(true)) ==> initial == LogicValue::One,
{
    fixed_numbers_are_roundings();
    times_are_listed(code(), component, "period"@, period);
    let text = arbitrary();
    level_parameters_mean_what_they_say(code(), component, "initial"@, text);
    match crate::circuit::parameter_of(component.parameters@, "duty_cycle"@) {
        Some(value) => {
            parameters_are_found(component, "duty_cycle"@, value);
        },
        None => {
            parameters_are_found(component, "duty_cycle"@, ParameterValue::Integer(0));
        },
    }
}

/// Before anything has happened every net is unknown, every output lets go, and every
/// element holds what it starts with.
pub proof fn programs_start_unknown(program: crate::digital::Program, i: int, o: int)
    ensures
        0 <= i < program.nets.len() ==> fresh(program).nets[i] == LogicValue::X,
        0 <= i < program.parts.len() && 0 <= o < program.parts[i].outputs.len() ==> fresh(
            program,
        ).drivers[i][o] == LogicValue::Z,
        0 <= i < program.parts.len() ==> fresh(program).held[i].q
            == program.parts[i].initial_scalar && fresh(program).held[i].bits
            == program.parts[i].initial_vector && fresh(program).held[i].clock == LogicValue::X,
        fresh(program).queue.len() == 0,
{
}

/// A constant input drives its level from time zero on.
pub proof fn constants_drive_from_the_start(
    k: Kern,
    part: Part,
    component: usize,
    stop: Real,
    after: Kern,
    level: LogicValue,
)
    requires
        part.primitive == DigitalPrimitive::Constant(level),
        part_started(k, part, component, stop) == Ok::<Kern, Fault>(after),
    ensures
        after.queue == enqueued(
            k.queue,
            ScheduledEvent { time: Real { bits: 0 }, component, output: 0, value: level },
        ),
        after.nets == k.nets,
        after.drivers == k.drivers,
{
}

} // verus!
