//! Explicit scheduler-native mixed-domain co-simulation bridges.
//!
//! Domain conversion stays out of the master scheduler. These small
//! participants make digital-to-analog and analog-to-digital boundaries
//! visible in the co-simulation graph while preserving deterministic same-time
//! delta-cycle settlement.
use crate::circuit::{PinDirection, SignalDomain};
use crate::control::{check_signal, ExecutionControl};
use crate::cosim::{
    CoSimulationParticipant, CoSimulationPort, CoSimulationTime, CoSimulationValue,
};
use crate::fault::{fail, fault, passes, EngineError, Fault};
use crate::number::Real;
use crate::text::{blank, cat2, cat5, is_blank, text_eq};
use crate::units::Unit;
use crate::waveform::LogicValue;
use vstd::prelude::*;

verus! {

pub const DAC_COSIM_DIGITAL_IN: &'static str = "digital_in";

pub const DAC_COSIM_ANALOG_OUT: &'static str = "analog_out";

pub const ADC_COSIM_ANALOG_IN: &'static str = "analog_in";

pub const ADC_COSIM_DIGITAL_OUT: &'static str = "digital_out";

/// What is wrong with a participant's name, if anything.
pub open spec fn id_failure(id: Seq<char>, code: Seq<char>, kind: Seq<char>) -> Option<Fault> {
    if is_blank(id) {
        Some(fault(code, kind + " co-simulation participant id must not be empty"@))
    } else {
        None
    }
}

pub fn validate_id(id: &str, code: &str, kind: &str) -> (r: Result<(), EngineError>)
    ensures
        passes(r, id_failure(id@, code@, kind@)),
{
    if blank(id) {
        return Err(fail(code, cat2(kind, " co-simulation participant id must not be empty")));
    }
    Ok(())
}

/// Nothing may be written for another time than the present.
pub open spec fn time_failure(
    current: CoSimulationTime,
    requested: CoSimulationTime,
    code: Seq<char>,
    kind: Seq<char>,
) -> Option<Fault> {
    if requested == current {
        None
    } else {
        Some(
            fault(
                code,
                kind
                    + " co-simulation input writes must occur at the participant current time"@,
            ),
        )
    }
}

pub fn require_current_time(
    current: CoSimulationTime,
    requested: CoSimulationTime,
    code: &str,
    kind: &str,
) -> (r: Result<(), EngineError>)
    ensures
        passes(r, time_failure(current, requested, code@, kind@)),
{
    if requested.0 != current.0 {
        return Err(
            fail(
                code,
                cat2(
                    kind,
                    " co-simulation input writes must occur at the participant current time",
                ),
            ),
        );
    }
    Ok(())
}

pub open spec fn bridge_cancelled() -> Fault {
    fault("execution_cancelled"@, "co-simulation bridge execution was cancelled"@)
}

/// The control lets a call go on, or the call fails for that reason alone.
pub open spec fn held_up(control: ExecutionControl, f: Fault) -> bool {
    match control.policy.failure() {
        Some(g) => f == g,
        None => f == bridge_cancelled(),
    }
}

fn check_control(control: &ExecutionControl) -> (r: Result<(), EngineError>)
    ensures
        match r {
            Ok(_) => control.policy.failure() is None,
            Err(e) => held_up(*control, e@),
        },
{
    check_signal(
        &control.policy,
        control.cancellation.is_cancelled(),
        "co-simulation bridge execution was cancelled",
    )
}

/// The level of a voltage: low at or below the low threshold, high at or above
/// the high one, and what it was in between.
pub open spec fn classified(
    value: Real,
    previous: LogicValue,
    low_threshold: Real,
    high_threshold: Real,
) -> LogicValue {
    if value.at_most(low_threshold) {
        LogicValue::Zero
    } else if high_threshold.at_most(value) {
        LogicValue::One
    } else {
        previous
    }
}

pub fn classify_adc(
    value: Real,
    previous: LogicValue,
    low_threshold: Real,
    high_threshold: Real,
) -> (r: LogicValue)
    ensures
        r == classified(value, previous, low_threshold, high_threshold),
{
    if value.le(low_threshold) {
        LogicValue::Zero
    } else if high_threshold.le(value) {
        LogicValue::One
    } else {
        previous
    }
}

/// Between the thresholds a level stays what it was, and a level that is known
/// stays known.
pub proof fn hysteresis_keeps_the_level(value: Real, previous: LogicValue, low: Real, high: Real)
    requires
        value.finite(),
        low.finite(),
        high.finite(),
        low.less(high),
    ensures
        low.less(value) && value.less(high) ==> classified(value, previous, low, high) == previous,
        previous.known() ==> classified(value, previous, low, high).known(),
        classified(value, classified(value, previous, low, high), low, high) == classified(
            value,
            previous,
            low,
            high,
        ),
{
}

/// What a level becomes as a voltage, and that voltage as a level again.
pub proof fn level_survives_conversion(level: LogicValue, previous: LogicValue, low: Real, high: Real)
    requires
        level.known(),
        low.finite(),
        high.finite(),
        low.less(high),
    ensures
        classified(voltage_of(level, low, high), previous, low, high) == level,
{
}

pub open spec fn voltage_of(level: LogicValue, low_voltage: Real, high_voltage: Real) -> Real {
    if level == LogicValue::One {
        high_voltage
    } else {
        low_voltage
    }
}

/// Deterministic scalar digital-to-voltage bridge for the co-simulation graph.
///
/// Unknown/high-impedance digital values are rejected rather than silently
/// inventing an analog voltage.
#[derive(Debug, PartialEq, Eq)]
pub struct DacCoSimulationParticipant {
    pub id: String,
    pub ports: Vec<CoSimulationPort>,
    pub current_time: CoSimulationTime,
    pub low_voltage: Real,
    pub high_voltage: Real,
    pub input: LogicValue,
    pub output: Real,
}

impl DacCoSimulationParticipant {
    /// What is wrong with the arguments of a new bridge, if anything.
    pub open spec fn new_failure(id: Seq<char>, low: Real, high: Real) -> Option<Fault> {
        match id_failure(id, "dac_cosim_participant_invalid"@, "DAC"@) {
            Some(f) => Some(f),
            None => if !low.finite() || !high.finite() || !low.less(high) {
                Some(
                    fault(
                        "dac_cosim_voltage_invalid"@,
                        "DAC co-simulation voltages must be finite with low_voltage < high_voltage"@,
                    ),
                )
            } else {
                None
            },
        }
    }

    /// The state at time zero.
    pub open spec fn at_start(&self) -> bool {
        &&& self.current_time.0 == 0
        &&& self.input == LogicValue::Zero
        &&& self.output == self.low_voltage
    }

    /// The bridge, taken back to time zero.
    pub open spec fn restarted(&self) -> Self {
        Self {
            current_time: CoSimulationTime(0),
            input: LogicValue::Zero,
            output: self.low_voltage,
            ..*self
        }
    }

    /// The output is the voltage of the input.
    pub open spec fn consistent(&self) -> bool {
        self.output == voltage_of(self.input, self.low_voltage, self.high_voltage)
    }

    pub fn new(id: &str, low_voltage: Real, high_voltage: Real) -> (r: Result<Self, EngineError>)
        ensures
            match r {
                Ok(bridge) => {
                    &&& Self::new_failure(id@, low_voltage, high_voltage) is None
                    &&& bridge.id@ == id@
                    &&& bridge.low_voltage == low_voltage
                    &&& bridge.high_voltage == high_voltage
                    &&& bridge.at_start()
                    &&& bridge.consistent()
                    &&& bridge.ports@.len() == 2
                    &&& bridge.ports@[0].name@ == DAC_COSIM_DIGITAL_IN@
                    &&& bridge.ports@[0].domain == SignalDomain::Digital
                    &&& bridge.ports@[0].direction == PinDirection::Input
                    &&& bridge.ports@[0].unit is None
                    &&& bridge.ports@[1].name@ == DAC_COSIM_ANALOG_OUT@
                    &&& bridge.ports@[1].domain == SignalDomain::Analog
                    &&& bridge.ports@[1].direction == PinDirection::Output
                    &&& bridge.ports@[1].unit == Some(Unit::Volt)
                },
                Err(e) => Self::new_failure(id@, low_voltage, high_voltage) == Some(e@),
            },
    {
        match validate_id(id, "dac_cosim_participant_invalid", "DAC") {
            Err(e) => {
                return Err(e);
            },
            Ok(_) => {},
        }
        if !low_voltage.is_finite() || !high_voltage.is_finite() || high_voltage.le(low_voltage) {
            return Err(
                EngineError::new(
                    "dac_cosim_voltage_invalid",
                    "DAC co-simulation voltages must be finite with low_voltage < high_voltage",
                ),
            );
        }
        let mut ports: Vec<CoSimulationPort> = Vec::new();
        ports.push(CoSimulationPort::digital(DAC_COSIM_DIGITAL_IN, PinDirection::Input));
        ports.push(
            CoSimulationPort::analog(DAC_COSIM_ANALOG_OUT, PinDirection::Output, Unit::Volt),
        );
        Ok(
            DacCoSimulationParticipant {
                id: id.to_owned(),
                ports,
                current_time: CoSimulationTime(0),
                low_voltage,
                high_voltage,
                input: LogicValue::Zero,
                output: low_voltage,
            },
        )
    }

    pub fn low_voltage(&self) -> (r: Real)
        ensures
            r == self.low_voltage,
    {
        self.low_voltage
    }

    pub fn high_voltage(&self) -> (r: Real)
        ensures
            r == self.high_voltage,
    {
        self.high_voltage
    }

    /// What writing a value to a port does: whether the input changed, and the
    /// bridge then.
    pub open spec fn written(
        &self,
        port: Seq<char>,
        time: CoSimulationTime,
        value: CoSimulationValue,
    ) -> Result<(bool, Self), Fault> {
        if port != DAC_COSIM_DIGITAL_IN@ {
            Err(
                fault(
                    "dac_cosim_port_missing"@,
                    "DAC co-simulation participant `"@ + self.id@ + "` has no writable port `"@
                        + port + "`"@,
                ),
            )
        } else if time_failure(self.current_time, time, "dac_cosim_time_invalid"@, "DAC"@) is Some {
            Err(time_failure(self.current_time, time, "dac_cosim_time_invalid"@, "DAC"@)->0)
        } else {
            match value {
                CoSimulationValue::Analog(_) => Err(
                    fault(
                        "dac_cosim_domain_mismatch"@,
                        "DAC co-simulation input requires a digital value"@,
                    ),
                ),
                CoSimulationValue::Digital(level) => if !level.known() {
                    Err(
                        fault(
                            "dac_cosim_two_state_input"@,
                            "DAC co-simulation input requires deterministic zero/one; resolve X/Z before the bridge"@,
                        ),
                    )
                } else if level == self.input {
                    Ok((false, *self))
                } else {
                    Ok(
                        (
                            true,
                            Self {
                                input: level,
                                output: voltage_of(level, self.low_voltage, self.high_voltage),
                                ..*self
                            },
                        ),
                    )
                },
            }
        }
    }

    /// Goes on to a later time.
    pub fn move_to(&mut self, target: CoSimulationTime) -> (r: Result<(), EngineError>)
        ensures
            if target.0 < old(self).current_time.0 {
                &&& *final(self) == *old(self)
                &&& r matches Err(e) && e@ == fault(
                    "dac_cosim_time_invalid"@,
                    "DAC co-simulation participant cannot move backwards in time"@,
                )
            } else {
                &&& *final(self) == (Self { current_time: target, ..*old(self) })
                &&& r is Ok
            },
            old(self).consistent() ==> final(self).consistent(),
    {
        if target.0 < self.current_time.0 {
            return Err(
                EngineError::new(
                    "dac_cosim_time_invalid",
                    "DAC co-simulation participant cannot move backwards in time",
                ),
            );
        }
        self.current_time = target;
        Ok(())
    }

    /// Takes a value at an input: whether that changed the input.
    pub fn take_input(&mut self, port: &str, time: CoSimulationTime, value: &CoSimulationValue) -> (r:
        Result<bool, EngineError>)
        ensures
            match (r, old(self).written(port@, time, *value)) {
                (Ok(changed), Ok((c, after))) => changed == c && *final(self) == after,
                (Err(e), Err(f)) => e@ == f && *final(self) == *old(self),
                _ => false,
            },
            old(self).consistent() ==> final(self).consistent(),
    {
        if !text_eq(port, DAC_COSIM_DIGITAL_IN) {
            return Err(
                fail(
                    "dac_cosim_port_missing",
                    cat5(
                        "DAC co-simulation participant `",
                        self.id.as_str(),
                        "` has no writable port `",
                        port,
                        "`",
                    ),
                ),
            );
        }
        match require_current_time(self.current_time, time, "dac_cosim_time_invalid", "DAC") {
            Err(e) => {
                return Err(e);
            },
            Ok(_) => {},
        }
        match value {
            CoSimulationValue::Analog(_) => Err(
                EngineError::new(
                    "dac_cosim_domain_mismatch",
                    "DAC co-simulation input requires a digital value",
                ),
            ),
            CoSimulationValue::Digital(level) => {
                if !level.is_known() {
                    return Err(
                        EngineError::new(
                            "dac_cosim_two_state_input",
                            "DAC co-simulation input requires deterministic zero/one; resolve X/Z before the bridge",
                        ),
                    );
                }
                if *level == self.input {
                    return Ok(false);
                }
                self.input = *level;
                self.output = if *level == LogicValue::One {
                    self.high_voltage
                } else {
                    self.low_voltage
                };
                Ok(true)
            },
        }
    }
}

impl CoSimulationParticipant for DacCoSimulationParticipant {
    open spec fn name(&self) -> Seq<char> {
        self.id@
    }

    open spec fn port_list(&self) -> Seq<CoSimulationPort> {
        self.ports@
    }

    open spec fn reached(&self) -> CoSimulationTime {
        self.current_time
    }

    open spec fn upcoming(&self) -> Option<CoSimulationTime> {
        None
    }

    open spec fn output(&self, port: Seq<char>) -> Result<CoSimulationValue, Fault> {
        if port == DAC_COSIM_ANALOG_OUT@ {
            Ok(CoSimulationValue::Analog(self.output))
        } else {
            Err(
                fault(
                    "dac_cosim_port_missing"@,
                    "DAC co-simulation participant `"@ + self.id@ + "` has no readable port `"@
                        + port + "`"@,
                ),
            )
        }
    }

    open spec fn may_start(
        &self,
        control: ExecutionControl,
        after: Self,
        outcome: Result<(), Fault>,
    ) -> bool {
        match outcome {
            Ok(_) => control.policy.failure() is None && after == self.restarted(),
            Err(f) => after == *self && held_up(control, f),
        }
    }

    open spec fn may_advance(
        &self,
        target: CoSimulationTime,
        control: ExecutionControl,
        after: Self,
        outcome: Result<(), Fault>,
    ) -> bool {
        match outcome {
            Ok(_) => {
                &&& control.policy.failure() is None
                &&& self.current_time.0 <= target.0
                &&& after == (Self { current_time: target, ..*self })
            },
            Err(f) => {
                &&& after == *self
                &&& held_up(control, f) || target.0 < self.current_time.0 && f == fault(
                    "dac_cosim_time_invalid"@,
                    "DAC co-simulation participant cannot move backwards in time"@,
                )
            },
        }
    }

    open spec fn may_take(
        &self,
        port: Seq<char>,
        time: CoSimulationTime,
        value: CoSimulationValue,
        control: ExecutionControl,
        after: Self,
        outcome: Result<bool, Fault>,
    ) -> bool {
        match outcome {
            Ok(changed) => control.policy.failure() is None && self.written(port, time, value)
                == Ok::<(bool, Self), Fault>((changed, after)),
            Err(f) => after == *self && (held_up(control, f) || self.written(port, time, value)
                == Err::<(bool, Self), Fault>(f)),
        }
    }

    fn id(&self) -> &str {
        self.id.as_str()
    }

    fn ports(&self) -> &Vec<CoSimulationPort> {
        &self.ports
    }

    fn current_time(&self) -> CoSimulationTime {
        self.current_time
    }

    fn initialize(&mut self, control: &ExecutionControl) -> Result<(), EngineError> {
        match check_control(control) {
            Err(e) => {
                return Err(e);
            },
            Ok(_) => {},
        }
        self.current_time = CoSimulationTime(0);
        self.input = LogicValue::Zero;
        self.output = self.low_voltage;
        Ok(())
    }

    fn next_event_time(&self) -> Option<CoSimulationTime> {
        None
    }

    fn advance_to(&mut self, target: CoSimulationTime, control: &ExecutionControl) -> Result<
        (),
        EngineError,
    > {
        match check_control(control) {
            Err(e) => {
                return Err(e);
            },
            Ok(_) => {},
        }
        self.move_to(target)
    }

    fn read_output(&self, port: &str) -> Result<CoSimulationValue, EngineError> {
        if !text_eq(port, DAC_COSIM_ANALOG_OUT) {
            return Err(
                fail(
                    "dac_cosim_port_missing",
                    cat5(
                        "DAC co-simulation participant `",
                        self.id.as_str(),
                        "` has no readable port `",
                        port,
                        "`",
                    ),
                ),
            );
        }
        Ok(CoSimulationValue::Analog(self.output))
    }

    fn write_input(
        &mut self,
        port: &str,
        time: CoSimulationTime,
        value: &CoSimulationValue,
        control: &ExecutionControl,
    ) -> Result<bool, EngineError> {
        match check_control(control) {
            Err(e) => {
                return Err(e);
            },
            Ok(_) => {},
        }
        self.take_input(port, time, value)
    }
}

/// Deterministic voltage-to-digital Schmitt bridge for the co-simulation graph.
///
/// Values at/below `low_threshold` produce zero; values at/above
/// `high_threshold` produce one; values between thresholds retain the previous
/// known output. The initial output is low, making the hysteresis region fully
/// deterministic at time zero.
///
/// A first input of zero volts counts as a change where it raises the output,
/// so that the new level is carried on at the same time.
#[derive(Debug, PartialEq, Eq)]
pub struct AdcCoSimulationParticipant {
    pub id: String,
    pub ports: Vec<CoSimulationPort>,
    pub current_time: CoSimulationTime,
    pub low_threshold: Real,
    pub high_threshold: Real,
    pub input: Real,
    pub output: LogicValue,
}

impl AdcCoSimulationParticipant {
    /// What is wrong with the arguments of a new bridge, if anything.
    pub open spec fn new_failure(id: Seq<char>, low: Real, high: Real) -> Option<Fault> {
        match id_failure(id, "adc_cosim_participant_invalid"@, "ADC"@) {
            Some(f) => Some(f),
            None => if !low.finite() || !high.finite() || !low.less(high) {
                Some(
                    fault(
                        "adc_cosim_threshold_invalid"@,
                        "ADC co-simulation thresholds must be finite with low_threshold < high_threshold"@,
                    ),
                )
            } else {
                None
            },
        }
    }

    /// The state at time zero: nothing has been taken yet, and the output is low.
    pub open spec fn at_start(&self) -> bool {
        &&& self.current_time.0 == 0
        &&& self.input == Real { bits: 0 }
        &&& self.output == LogicValue::Zero
    }

    /// The bridge, taken back to time zero.
    pub open spec fn restarted(&self) -> Self {
        Self {
            current_time: CoSimulationTime(0),
            input: Real { bits: 0 },
            output: LogicValue::Zero,
            ..*self
        }
    }

    /// The output is the level of the input: it stays what it is when the same
    /// voltage is classified again.
    pub open spec fn follows(&self) -> bool {
        self.output == classified(
            self.input,
            self.output,
            self.low_threshold,
            self.high_threshold,
        )
    }

    /// The output is known, and it follows the input or is still low as at the
    /// start.
    pub open spec fn consistent(&self) -> bool {
        &&& self.output.known()
        &&& self.follows() || self.input == Real { bits: 0 } && self.output == LogicValue::Zero
    }

    pub fn new(id: &str, low_threshold: Real, high_threshold: Real) -> (r: Result<Self, EngineError>)
        ensures
            match r {
                Ok(bridge) => {
                    &&& Self::new_failure(id@, low_threshold, high_threshold) is None
                    &&& bridge.id@ == id@
                    &&& bridge.low_threshold == low_threshold
                    &&& bridge.high_threshold == high_threshold
                    &&& bridge.at_start()
                    &&& bridge.consistent()
                    &&& bridge.ports@.len() == 2
                    &&& bridge.ports@[0].name@ == ADC_COSIM_ANALOG_IN@
                    &&& bridge.ports@[0].domain == SignalDomain::Analog
                    &&& bridge.ports@[0].direction == PinDirection::Input
                    &&& bridge.ports@[0].unit == Some(Unit::Volt)
                    &&& bridge.ports@[1].name@ == ADC_COSIM_DIGITAL_OUT@
                    &&& bridge.ports@[1].domain == SignalDomain::Digital
                    &&& bridge.ports@[1].direction == PinDirection::Output
                    &&& bridge.ports@[1].unit is None
                },
                Err(e) => Self::new_failure(id@, low_threshold, high_threshold) == Some(e@),
            },
    {
        match validate_id(id, "adc_cosim_participant_invalid", "ADC") {
            Err(e) => {
                return Err(e);
            },
            Ok(_) => {},
        }
        if !low_threshold.is_finite() || !high_threshold.is_finite() || high_threshold.le(low_threshold) {
            return Err(
                EngineError::new(
                    "adc_cosim_threshold_invalid",
                    "ADC co-simulation thresholds must be finite with low_threshold < high_threshold",
                ),
            );
        }
        let mut ports: Vec<CoSimulationPort> = Vec::new();
        ports.push(
            CoSimulationPort::analog(ADC_COSIM_ANALOG_IN, PinDirection::Input, Unit::Volt),
        );
        ports.push(CoSimulationPort::digital(ADC_COSIM_DIGITAL_OUT, PinDirection::Output));
        Ok(
            AdcCoSimulationParticipant {
                id: id.to_owned(),
                ports,
                current_time: CoSimulationTime(0),
                low_threshold,
                high_threshold,
                input: Real { bits: 0 },
                output: LogicValue::Zero,
            },
        )
    }

    pub fn low_threshold(&self) -> (r: Real)
        ensures
            r == self.low_threshold,
    {
        self.low_threshold
    }

    pub fn high_threshold(&self) -> (r: Real)
        ensures
            r == self.high_threshold,
    {
        self.high_threshold
    }

    /// What writing a value to a port does: whether the input changed, and the
    /// bridge then.
    pub open spec fn written(
        &self,
        port: Seq<char>,
        time: CoSimulationTime,
        value: CoSimulationValue,
    ) -> Result<(bool, Self), Fault> {
        if port != ADC_COSIM_ANALOG_IN@ {
            Err(
                fault(
                    "adc_cosim_port_missing"@,
                    "ADC co-simulation participant `"@ + self.id@ + "` has no writable port `"@
                        + port + "`"@,
                ),
            )
        } else if time_failure(self.current_time, time, "adc_cosim_time_invalid"@, "ADC"@) is Some {
            Err(time_failure(self.current_time, time, "adc_cosim_time_invalid"@, "ADC"@)->0)
        } else {
            match value {
                CoSimulationValue::Digital(_) => Err(
                    fault(
                        "adc_cosim_domain_mismatch"@,
                        "ADC co-simulation input requires an analog value"@,
                    ),
                ),
                CoSimulationValue::Analog(number) => if !number.finite() {
                    Err(
                        fault("adc_cosim_value_invalid"@, "ADC co-simulation input must be finite"@),
                    )
                } else {
                    let output = classified(
                        number,
                        self.output,
                        self.low_threshold,
                        self.high_threshold,
                    );
                    Ok(
                        (
                            number.bits != self.input.bits || output != self.output,
                            Self { input: number, output, ..*self },
                        ),
                    )
                },
            }
        }
    }

    /// Goes on to a later time.
    pub fn move_to(&mut self, target: CoSimulationTime) -> (r: Result<(), EngineError>)
        ensures
            if target.0 < old(self).current_time.0 {
                &&& *final(self) == *old(self)
                &&& r matches Err(e) && e@ == fault(
                    "adc_cosim_time_invalid"@,
                    "ADC co-simulation participant cannot move backwards in time"@,
                )
            } else {
                &&& *final(self) == (Self { current_time: target, ..*old(self) })
                &&& r is Ok
            },
            old(self).consistent() ==> final(self).consistent(),
    {
        if target.0 < self.current_time.0 {
            return Err(
                EngineError::new(
                    "adc_cosim_time_invalid",
                    "ADC co-simulation participant cannot move backwards in time",
                ),
            );
        }
        self.current_time = target;
        Ok(())
    }

    /// Takes a value at an input: whether that changed the input.
    pub fn take_input(&mut self, port: &str, time: CoSimulationTime, value: &CoSimulationValue) -> (r:
        Result<bool, EngineError>)
        ensures
            match (r, old(self).written(port@, time, *value)) {
                (Ok(changed), Ok((c, after))) => changed == c && *final(self) == after,
                (Err(e), Err(f)) => e@ == f && *final(self) == *old(self),
                _ => false,
            },
            old(self).consistent() ==> final(self).consistent(),
            r is Ok && old(self).consistent() ==> final(self).follows(),
    {
        if !text_eq(port, ADC_COSIM_ANALOG_IN) {
            return Err(
                fail(
                    "adc_cosim_port_missing",
                    cat5(
                        "ADC co-simulation participant `",
                        self.id.as_str(),
                        "` has no writable port `",
                        port,
                        "`",
                    ),
                ),
            );
        }
        match require_current_time(self.current_time, time, "adc_cosim_time_invalid", "ADC") {
            Err(e) => {
                return Err(e);
            },
            Ok(_) => {},
        }
        match value {
            CoSimulationValue::Digital(_) => Err(
                EngineError::new(
                    "adc_cosim_domain_mismatch",
                    "ADC co-simulation input requires an analog value",
                ),
            ),
            CoSimulationValue::Analog(number) => {
                if !number.is_finite() {
                    return Err(
                        EngineError::new(
                            "adc_cosim_value_invalid",
                            "ADC co-simulation input must be finite",
                        ),
                    );
                }
                let output = classify_adc(
                    *number,
                    self.output,
                    self.low_threshold,
                    self.high_threshold,
                );
                let changed: bool = number.bits != self.input.bits || output != self.output;
                self.input = *number;
                self.output = output;
                Ok(changed)
            },
        }
    }
}

impl CoSimulationParticipant for AdcCoSimulationParticipant {
    open spec fn name(&self) -> Seq<char> {
        self.id@
    }

    open spec fn port_list(&self) -> Seq<CoSimulationPort> {
        self.ports@
    }

    open spec fn reached(&self) -> CoSimulationTime {
        self.current_time
    }

    open spec fn upcoming(&self) -> Option<CoSimulationTime> {
        None
    }

    open spec fn output(&self, port: Seq<char>) -> Result<CoSimulationValue, Fault> {
        if port == ADC_COSIM_DIGITAL_OUT@ {
            Ok(CoSimulationValue::Digital(self.output))
        } else {
            Err(
                fault(
                    "adc_cosim_port_missing"@,
                    "ADC co-simulation participant `"@ + self.id@ + "` has no readable port `"@
                        + port + "`"@,
                ),
            )
        }
    }

    open spec fn may_start(
        &self,
        control: ExecutionControl,
        after: Self,
        outcome: Result<(), Fault>,
    ) -> bool {
        match outcome {
            Ok(_) => control.policy.failure() is None && after == self.restarted(),
            Err(f) => after == *self && held_up(control, f),
        }
    }

    open spec fn may_advance(
        &self,
        target: CoSimulationTime,
        control: ExecutionControl,
        after: Self,
        outcome: Result<(), Fault>,
    ) -> bool {
        match outcome {
            Ok(_) => {
                &&& control.policy.failure() is None
                &&& self.current_time.0 <= target.0
                &&& after == (Self { current_time: target, ..*self })
            },
            Err(f) => {
                &&& after == *self
                &&& held_up(control, f) || target.0 < self.current_time.0 && f == fault(
                    "adc_cosim_time_invalid"@,
                    "ADC co-simulation participant cannot move backwards in time"@,
                )
            },
        }
    }

    open spec fn may_take(
        &self,
        port: Seq<char>,
        time: CoSimulationTime,
        value: CoSimulationValue,
        control: ExecutionControl,
        after: Self,
        outcome: Result<bool, Fault>,
    ) -> bool {
        match outcome {
            Ok(changed) => control.policy.failure() is None && self.written(port, time, value)
                == Ok::<(bool, Self), Fault>((changed, after)),
            Err(f) => after == *self && (held_up(control, f) || self.written(port, time, value)
                == Err::<(bool, Self), Fault>(f)),
        }
    }

    fn id(&self) -> &str {
        self.id.as_str()
    }

    fn ports(&self) -> &Vec<CoSimulationPort> {
        &self.ports
    }

    fn current_time(&self) -> CoSimulationTime {
        self.current_time
    }

    fn initialize(&mut self, control: &ExecutionControl) -> Result<(), EngineError> {
        match check_control(control) {
            Err(e) => {
                return Err(e);
            },
            Ok(_) => {},
        }
        self.current_time = CoSimulationTime(0);
        self.input = Real { bits: 0 };
        self.output = LogicValue::Zero;
        Ok(())
    }

    fn next_event_time(&self) -> Option<CoSimulationTime> {
        None
    }

    fn advance_to(&mut self, target: CoSimulationTime, control: &ExecutionControl) -> Result<
        (),
        EngineError,
    > {
        match check_control(control) {
            Err(e) => {
                return Err(e);
            },
            Ok(_) => {},
        }
        self.move_to(target)
    }

    fn read_output(&self, port: &str) -> Result<CoSimulationValue, EngineError> {
        if !text_eq(port, ADC_COSIM_DIGITAL_OUT) {
            return Err(
                fail(
                    "adc_cosim_port_missing",
                    cat5(
                        "ADC co-simulation participant `",
                        self.id.as_str(),
                        "` has no readable port `",
                        port,
                        "`",
                    ),
                ),
            );
        }
        Ok(CoSimulationValue::Digital(self.output))
    }

    fn write_input(
        &mut self,
        port: &str,
        time: CoSimulationTime,
        value: &CoSimulationValue,
        control: &ExecutionControl,
    ) -> Result<bool, EngineError> {
        match check_control(control) {
            Err(e) => {
                return Err(e);
            },
            Ok(_) => {},
        }
        self.take_input(port, time, value)
    }
}

/// Whatever is asked of a bridge, its voltage stays that of its input.
pub proof fn voltages_follow_the_input(
    before: DacCoSimulationParticipant,
    after: DacCoSimulationParticipant,
    target: CoSimulationTime,
    port: Seq<char>,
    value: CoSimulationValue,
    control: ExecutionControl,
    moved: Result<(), Fault>,
    taken: Result<bool, Fault>,
)
    ensures
        before.may_start(control, after, Ok(())) ==> after.consistent(),
        before.consistent() && before.may_start(control, after, moved) ==> after.consistent(),
        before.consistent() && before.may_advance(target, control, after, moved)
            ==> after.consistent(),
        before.consistent() && before.may_take(port, target, value, control, after, taken)
            ==> after.consistent(),
{
}

/// Whatever is asked of a bridge, its level stays one for its input, and a voltage that
/// was taken decides it.
pub proof fn levels_follow_the_input(
    before: AdcCoSimulationParticipant,
    after: AdcCoSimulationParticipant,
    target: CoSimulationTime,
    port: Seq<char>,
    value: CoSimulationValue,
    control: ExecutionControl,
    moved: Result<(), Fault>,
    taken: Result<bool, Fault>,
)
    ensures
        before.may_start(control, after, Ok(())) ==> after.consistent(),
        before.consistent() && before.may_start(control, after, moved) ==> after.consistent(),
        before.consistent() && before.may_advance(target, control, after, moved)
            ==> after.consistent(),
        before.consistent() && before.may_take(port, target, value, control, after, taken)
            ==> after.consistent(),
        before.consistent() && before.may_take(port, target, value, control, after, taken)
            && taken is Ok ==> after.follows(),
{
}

/// A bridge that reports no change gives what it gave before, so that settling
/// loses no level.
pub proof fn unchanged_bridges_give_the_same(
    dac: DacCoSimulationParticipant,
    adc: AdcCoSimulationParticipant,
    port: Seq<char>,
    time: CoSimulationTime,
    value: CoSimulationValue,
)
    ensures
        dac.written(port, time, value) matches Ok((changed, after)) ==> !changed ==> after == dac,
        adc.written(port, time, value) matches Ok((changed, after)) ==> !changed ==> after == adc,
{
}

/// Bridges do the same whenever they are asked the same.
pub proof fn bridges_are_repeatable(control: ExecutionControl)
    ensures
        crate::timeline::repeatable::<DacCoSimulationParticipant>(control),
        crate::timeline::repeatable::<AdcCoSimulationParticipant>(control),
{
}

/// A bridge that took a high level gives its high voltage, and one that took a low
/// level its low voltage, which is the lower of the two.
pub proof fn high_levels_give_the_high_voltage(
    before: DacCoSimulationParticipant,
    after: DacCoSimulationParticipant,
    time: CoSimulationTime,
    port: Seq<char>,
    level: LogicValue,
    control: ExecutionControl,
    changed: bool,
)
    requires
        before.consistent(),
        before.input.known(),
        before.may_take(port, time, CoSimulationValue::Digital(level), control, after, Ok(changed)),
    ensures
        level == LogicValue::One || level == LogicValue::Zero,
        level == LogicValue::One ==> after.output(DAC_COSIM_ANALOG_OUT@) == Ok::<
            CoSimulationValue,
            Fault,
        >(CoSimulationValue::Analog(before.high_voltage)),
        level == LogicValue::Zero ==> after.output(DAC_COSIM_ANALOG_OUT@) == Ok::<
            CoSimulationValue,
            Fault,
        >(CoSimulationValue::Analog(before.low_voltage)),
        changed <==> level != before.input,
{
}

/// A bridge that took a voltage at or above its high threshold gives a high level, one
/// that took a voltage at or below its low threshold a low one, and in between the
/// level stays as it was.
pub proof fn high_voltages_give_the_high_level(
    before: AdcCoSimulationParticipant,
    after: AdcCoSimulationParticipant,
    time: CoSimulationTime,
    port: Seq<char>,
    value: Real,
    control: ExecutionControl,
    changed: bool,
)
    requires
        before.low_threshold.less(before.high_threshold),
        before.may_take(port, time, CoSimulationValue::Analog(value), control, after, Ok(changed)),
    ensures
        before.high_threshold.at_most(value) ==> after.output(ADC_COSIM_DIGITAL_OUT@) == Ok::<
            CoSimulationValue,
            Fault,
        >(CoSimulationValue::Digital(LogicValue::One)),
        value.at_most(before.low_threshold) ==> after.output(ADC_COSIM_DIGITAL_OUT@) == Ok::<
            CoSimulationValue,
            Fault,
        >(CoSimulationValue::Digital(LogicValue::Zero)),
        before.low_threshold.less(value) && value.less(before.high_threshold)
            ==> after.output(ADC_COSIM_DIGITAL_OUT@) == before.output(ADC_COSIM_DIGITAL_OUT@),
{
}

} // verus!
