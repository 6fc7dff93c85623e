//! Deterministic co-simulation scheduler substrate.
//!
//! The scheduler owns only the master-algorithm contract: an integer
//! picosecond timebase, participant/port/link validation, bounded macro steps,
//! same-time delta-cycle settling, cancellation/timeout checks, and normalized
//! output waveforms. Incremental sessions of the engines plug into the
//! `CoSimulationParticipant` trait.
use crate::circuit::{PinDirection, SignalDomain};
use crate::control::{elapsed_millis, ExecutionControl, ExecutionPolicy};
use crate::fault::{agrees, fail, fault, passes, told, EngineError, Fault};
use crate::number::{saturated, Real, TWO_64_BITS};
use crate::text::{blank, cat3, cat5, cat6, decimal, decimal_text, is_blank, text_eq};
use crate::units::Unit;
use crate::waveform::LogicValue;
use std::time::Instant;
use vstd::prelude::*;

verus! {

pub const COSIM_SCHEDULER_ID: &'static str = "co-simulation";

pub const COSIM_TIMEBASE_HZ: u64 = 1_000_000_000_000;

pub const DEFAULT_MAX_DELTA_CYCLES: usize = 64;

pub const DEFAULT_MAX_COSIM_STEPS: usize = 1_000_000;

/// The timebase as a double: ten to the power twelve.
pub const TIMEBASE_BITS: u64 = 0x426d_1a94_a200_0000;

/// A time in picoseconds.
#[derive(Clone, Copy, Debug, PartialEq, Eq, PartialOrd, Ord, Hash, Structural)]
pub struct CoSimulationTime(pub u64);

/// A number of picoseconds in seconds.
pub open spec fn seconds_of(picoseconds: u64) -> Real {
    Real::of_nat(picoseconds as nat).quotient(Real { bits: TIMEBASE_BITS })
}

/// A time in seconds as a number of picoseconds.
pub open spec fn ticks_of(seconds: Real) -> Real {
    seconds.product(Real { bits: TIMEBASE_BITS })
}

/// A time in seconds, rounded to the picosecond.
pub open spec fn time_from(seconds: Real) -> Result<CoSimulationTime, Fault> {
    if !seconds.finite() || seconds.key() < 0 {
        Err(
            fault(
                "cosim_time_invalid"@,
                "co-simulation time must be finite and non-negative"@,
            ),
        )
    } else if (Real { bits: TWO_64_BITS }).less(ticks_of(seconds)) {
        Err(
            fault(
                "cosim_time_invalid"@,
                "co-simulation time exceeds the picosecond timebase range"@,
            ),
        )
    } else {
        Ok(CoSimulationTime(saturated(ticks_of(seconds).rounded())))
    }
}

impl View for CoSimulationTime {
    type V = CoSimulationTime;

    open spec fn view(&self) -> CoSimulationTime {
        *self
    }
}

impl CoSimulationTime {
    pub fn zero() -> (r: Self)
        ensures
            r.0 == 0,
    {
        CoSimulationTime(0)
    }

    pub fn from_picoseconds(picoseconds: u64) -> (r: Self)
        ensures
            r.0 == picoseconds,
    {
        CoSimulationTime(picoseconds)
    }

    pub fn as_picoseconds(self) -> (r: u64)
        ensures
            r == self.0,
    {
        self.0
    }

    pub fn from_seconds(seconds: Real) -> (r: Result<Self, EngineError>)
        ensures
            agrees(r, time_from(seconds)),
    {
        if !seconds.is_finite() || seconds.lt(Real { bits: 0 }) {
            return Err(
                EngineError::new(
                    "cosim_time_invalid",
                    "co-simulation time must be finite and non-negative",
                ),
            );
        }
        let ticks = seconds.times(Real { bits: TIMEBASE_BITS });
        if (Real { bits: TWO_64_BITS }).lt(ticks) {
            return Err(
                EngineError::new(
                    "cosim_time_invalid",
                    "co-simulation time exceeds the picosecond timebase range",
                ),
            );
        }
        proof {
            lemma_ticks_sign(seconds);
        }
        Ok(CoSimulationTime(ticks.round_to_u64()))
    }

    pub fn as_seconds(self) -> (r: Real)
        ensures
            r == seconds_of(self.0),
    {
        Real::from_u64(self.0).over(Real { bits: TIMEBASE_BITS })
    }

    /// The later time, or the end of time.
    pub fn saturating_add(self, other: Self) -> (r: Self)
        ensures
            r.0 == if self.0 + other.0 > u64::MAX {
                u64::MAX
            } else {
                (self.0 + other.0) as u64
            },
    {
        CoSimulationTime(self.0.saturating_add(other.0))
    }
}

/// Times in seconds stand in the order of their picoseconds.
pub proof fn seconds_keep_order(a: u64, b: u64)
    requires
        a <= b,
    ensures
        seconds_of(a).key() <= seconds_of(b).key(),
        seconds_of(a).at_most(seconds_of(b)),
{
    let p = vstd::arithmetic::power2::pow2(1074);
    vstd::arithmetic::power2::lemma_pow2_pos(1074);
    assert(a * p <= b * p) by (nonlinear_arith)
        requires
            a <= b,
            p > 0,
    ;
    crate::number::rounding_keeps_order((a * p) as nat, (b * p) as nat, 1);
    crate::number::lemma_u64_in_range(a as nat);
    crate::number::lemma_u64_in_range(b as nat);
    let ma = Real::of_nat(a as nat).magnitude();
    let mb = Real::of_nat(b as nat).magnitude();
    crate::number::units_keep_order(ma, mb);
    let ua = crate::number::units(ma);
    let ub = crate::number::units(mb);
    assert(ua * p <= ub * p) by (nonlinear_arith)
        requires
            ua <= ub,
            p > 0,
    ;
    let base = crate::number::units(TIMEBASE_BITS);
    vstd::arithmetic::power2::lemma_pow2_pos(crate::number::scale(TIMEBASE_BITS));
    assert(base > 0) by (nonlinear_arith)
        requires
            base == crate::number::significand(TIMEBASE_BITS) * vstd::arithmetic::power2::pow2(
                crate::number::scale(TIMEBASE_BITS),
            ),
            crate::number::significand(TIMEBASE_BITS) > 0,
            vstd::arithmetic::power2::pow2(crate::number::scale(TIMEBASE_BITS)) > 0,
    ;
    crate::number::rounding_keeps_order(ua * p, ub * p, base);
}

/// The ticks of a time that is not negative are not beyond the range unless
/// they are too many.
pub proof fn lemma_ticks_sign(seconds: Real)
    requires
        seconds.finite(),
        seconds.key() >= 0,
        !(Real { bits: TWO_64_BITS }).less(ticks_of(seconds)),
    ensures
        ticks_of(seconds).finite(),
{
    let ticks = ticks_of(seconds);
    assert(ticks.magnitude() <= crate::number::INFINITY);
    if seconds.negative() {
        assert(seconds.magnitude() == 0);
        let p = vstd::arithmetic::power2::pow2(crate::number::scale(0));
        let q = crate::number::units(TIMEBASE_BITS);
        assert(0 * p == 0 && 0 * q == 0) by (nonlinear_arith);
        vstd::arithmetic::power2::lemma_pow2_pos(1074);
        let d = vstd::arithmetic::power2::pow2(1074);
        assert(0 < d * 0x20_0000_0000_0000) by (nonlinear_arith)
            requires
                d > 0,
        ;
        assert(crate::number::excess(0, d) == 0);
        vstd::arithmetic::power2::lemma2_to64();
        assert(d * vstd::arithmetic::power2::pow2(0) == d) by (nonlinear_arith)
            requires
                vstd::arithmetic::power2::pow2(0) == 1,
        ;
        assert(0nat / d == 0 && 0nat % d == 0) by (nonlinear_arith)
            requires
                d > 0,
        ;
        assert(ticks.magnitude() == 0);
    }
}

#[derive(Debug, PartialEq, Eq)]
pub struct CoSimulationPort {
    pub name: String,
    pub domain: SignalDomain,
    pub direction: PinDirection,
    pub unit: Option<Unit>,
}

impl Clone for CoSimulationPort {
    fn clone(&self) -> (r: Self)
        ensures
            r == *self,
    {
        CoSimulationPort {
            name: self.name.clone(),
            domain: self.domain,
            direction: self.direction,
            unit: self.unit,
        }
    }
}

impl CoSimulationPort {
    pub fn digital(name: &str, direction: PinDirection) -> (r: Self)
        ensures
            r.name@ == name@,
            r.domain == SignalDomain::Digital,
            r.direction == direction,
            r.unit is None,
    {
        CoSimulationPort {
            name: name.to_owned(),
            domain: SignalDomain::Digital,
            direction,
            unit: None,
        }
    }

    pub fn analog(name: &str, direction: PinDirection, unit: Unit) -> (r: Self)
        ensures
            r.name@ == name@,
            r.domain == SignalDomain::Analog,
            r.direction == direction,
            r.unit == Some(unit),
    {
        CoSimulationPort {
            name: name.to_owned(),
            domain: SignalDomain::Analog,
            direction,
            unit: Some(unit),
        }
    }

    /// Whether a value can be read from the port.
    pub open spec fn gives(self) -> bool {
        self.direction == PinDirection::Output || self.direction == PinDirection::Bidirectional
    }

    /// Whether a value can be written to the port.
    pub open spec fn takes(self) -> bool {
        self.direction == PinDirection::Input || self.direction == PinDirection::Bidirectional
    }
}

#[derive(Clone, Copy, Debug, PartialEq, Eq, Structural)]
pub enum CoSimulationValue {
    Digital(LogicValue),
    Analog(Real),
}

impl CoSimulationValue {
    pub open spec fn spec_domain(self) -> SignalDomain {
        match self {
            CoSimulationValue::Digital(_) => SignalDomain::Digital,
            CoSimulationValue::Analog(_) => SignalDomain::Analog,
        }
    }

    pub fn domain(&self) -> (r: SignalDomain)
        ensures
            r == self.spec_domain(),
    {
        match self {
            CoSimulationValue::Digital(_) => SignalDomain::Digital,
            CoSimulationValue::Analog(_) => SignalDomain::Analog,
        }
    }

    /// What is wrong with the value, if anything.
    pub open spec fn failure(self) -> Option<Fault> {
        match self {
            CoSimulationValue::Analog(value) => if value.finite() {
                None
            } else {
                Some(
                    fault(
                        "cosim_value_invalid"@,
                        "analog co-simulation values must be finite"@,
                    ),
                )
            },
            CoSimulationValue::Digital(_) => None,
        }
    }

    pub fn validate(&self) -> (r: Result<(), EngineError>)
        ensures
            passes(r, self.failure()),
    {
        match self {
            CoSimulationValue::Analog(value) => {
                if value.is_finite() {
                    Ok(())
                } else {
                    Err(
                        EngineError::new(
                            "cosim_value_invalid",
                            "analog co-simulation values must be finite",
                        ),
                    )
                }
            },
            CoSimulationValue::Digital(_) => Ok(()),
        }
    }
}

#[derive(Debug, PartialEq, Eq, PartialOrd, Ord, Hash)]
pub struct CoSimulationEndpoint {
    pub participant: String,
    pub port: String,
}

impl View for CoSimulationEndpoint {
    type V = (Seq<char>, Seq<char>);

    open spec fn view(&self) -> (Seq<char>, Seq<char>) {
        (self.participant@, self.port@)
    }
}

impl Clone for CoSimulationEndpoint {
    fn clone(&self) -> (r: Self)
        ensures
            r == *self,
    {
        CoSimulationEndpoint { participant: self.participant.clone(), port: self.port.clone() }
    }
}

impl CoSimulationEndpoint {
    pub fn new(participant: &str, port: &str) -> (r: Self)
        ensures
            r@ == (participant@, port@),
    {
        CoSimulationEndpoint { participant: participant.to_owned(), port: port.to_owned() }
    }
}

#[derive(Debug, PartialEq, Eq, PartialOrd, Ord, Hash)]
pub struct CoSimulationLink {
    pub source: CoSimulationEndpoint,
    pub target: CoSimulationEndpoint,
}

/// What a link joins.
pub struct Join {
    pub source: (Seq<char>, Seq<char>),
    pub target: (Seq<char>, Seq<char>),
}

impl View for CoSimulationLink {
    type V = Join;

    open spec fn view(&self) -> Join {
        Join { source: self.source@, target: self.target@ }
    }
}

impl Clone for CoSimulationLink {
    fn clone(&self) -> (r: Self)
        ensures
            r == *self,
    {
        CoSimulationLink { source: self.source.clone(), target: self.target.clone() }
    }
}

impl CoSimulationLink {
    pub fn new(source: CoSimulationEndpoint, target: CoSimulationEndpoint) -> (r: Self)
        ensures
            r.source == source,
            r.target == target,
    {
        CoSimulationLink { source, target }
    }
}

#[derive(Clone, Copy, Debug, PartialEq, Eq, Structural)]
pub struct CoSimulationConfig {
    pub stop: CoSimulationTime,
    pub max_step: CoSimulationTime,
    pub max_delta_cycles: usize,
    pub max_steps: usize,
}

impl CoSimulationConfig {
    pub fn new(stop: CoSimulationTime, max_step: CoSimulationTime) -> (r: Self)
        ensures
            r == (CoSimulationConfig {
                stop,
                max_step,
                max_delta_cycles: DEFAULT_MAX_DELTA_CYCLES,
                max_steps: DEFAULT_MAX_COSIM_STEPS,
            }),
    {
        CoSimulationConfig {
            stop,
            max_step,
            max_delta_cycles: DEFAULT_MAX_DELTA_CYCLES,
            max_steps: DEFAULT_MAX_COSIM_STEPS,
        }
    }

    /// What is wrong with the configuration, if anything.
    pub open spec fn failure(self) -> Option<Fault> {
        if self.stop.0 == 0 {
            Some(
                fault(
                    "cosim_config_invalid"@,
                    "co-simulation stop time must be greater than zero"@,
                ),
            )
        } else if self.max_step.0 == 0 {
            Some(
                fault(
                    "cosim_config_invalid"@,
                    "co-simulation max_step must be greater than zero"@,
                ),
            )
        } else if self.max_delta_cycles == 0 {
            Some(
                fault(
                    "cosim_config_invalid"@,
                    "co-simulation max_delta_cycles must be greater than zero"@,
                ),
            )
        } else if self.max_steps == 0 {
            Some(
                fault(
                    "cosim_config_invalid"@,
                    "co-simulation max_steps must be greater than zero"@,
                ),
            )
        } else {
            None
        }
    }

    pub fn validate(self) -> (r: Result<(), EngineError>)
        ensures
            passes(r, self.failure()),
    {
        if self.stop.0 == 0 {
            return Err(
                EngineError::new(
                    "cosim_config_invalid",
                    "co-simulation stop time must be greater than zero",
                ),
            );
        }
        if self.max_step.0 == 0 {
            return Err(
                EngineError::new(
                    "cosim_config_invalid",
                    "co-simulation max_step must be greater than zero",
                ),
            );
        }
        if self.max_delta_cycles == 0 {
            return Err(
                EngineError::new(
                    "cosim_config_invalid",
                    "co-simulation max_delta_cycles must be greater than zero",
                ),
            );
        }
        if self.max_steps == 0 {
            return Err(
                EngineError::new(
                    "cosim_config_invalid",
                    "co-simulation max_steps must be greater than zero",
                ),
            );
        }
        Ok(())
    }
}

#[derive(Clone, Copy, Debug, PartialEq, Eq, Structural)]
pub struct CoSimulationStats {
    pub macro_steps: usize,
    pub delta_cycles: usize,
    pub participant_advances: usize,
}

impl Default for CoSimulationStats {
    fn default() -> (r: Self)
        ensures
            r.macro_steps == 0,
            r.delta_cycles == 0,
            r.participant_advances == 0,
    {
        CoSimulationStats { macro_steps: 0, delta_cycles: 0, participant_advances: 0 }
    }
}

/// Incremental backend session used by the deterministic co-simulation master.
///
/// Participants must use `CoSimulationTime` as their externally visible clock.
/// `next_event_time`, when present, must be strictly greater than `current_time`.
/// `write_input` is a same-time operation: implementations must settle any
/// immediately-causal output changes before returning and report whether the
/// effective input changed. This lets the scheduler iterate deterministic
/// delta cycles without embedding solver-specific semantics.
///
/// A participant keeps its name and its ports, and what it tells of itself
/// depends on its state alone. How a call may change a participant that does not
/// say so is left open.
pub trait CoSimulationParticipant: Sized {
    /// The name of the participant.
    open spec fn name(&self) -> Seq<char> {
        arbitrary()
    }

    /// The ports of the participant.
    open spec fn port_list(&self) -> Seq<CoSimulationPort> {
        arbitrary()
    }

    /// The time that the participant has reached.
    open spec fn reached(&self) -> CoSimulationTime {
        arbitrary()
    }

    /// The time of the next event of the participant, if it knows one.
    open spec fn upcoming(&self) -> Option<CoSimulationTime> {
        arbitrary()
    }

    /// What reading a port gives.
    open spec fn output(&self, port: Seq<char>) -> Result<CoSimulationValue, Fault> {
        arbitrary()
    }

    /// Whether starting the participant may end like this, and leave it like this.
    open spec fn may_start(
        &self,
        control: ExecutionControl,
        after: Self,
        outcome: Result<(), Fault>,
    ) -> bool {
        true
    }

    /// Whether going on to a time may end like this, and leave the participant
    /// like this.
    open spec fn may_advance(
        &self,
        target: CoSimulationTime,
        control: ExecutionControl,
        after: Self,
        outcome: Result<(), Fault>,
    ) -> bool {
        true
    }

    /// Whether taking a value at a port may end like this, and leave the
    /// participant like this.
    open spec fn may_take(
        &self,
        port: Seq<char>,
        time: CoSimulationTime,
        value: CoSimulationValue,
        control: ExecutionControl,
        after: Self,
        outcome: Result<bool, Fault>,
    ) -> bool {
        true
    }

    fn id(&self) -> (r: &str)
        ensures
            r@ == self.name(),
    ;

    fn ports(&self) -> (r: &Vec<CoSimulationPort>)
        ensures
            r@ == self.port_list(),
    ;

    fn current_time(&self) -> (r: CoSimulationTime)
        ensures
            r == self.reached(),
    ;

    fn initialize(&mut self, control: &ExecutionControl) -> (r: Result<(), EngineError>)
        ensures
            final(self).name() == old(self).name(),
            final(self).port_list() == old(self).port_list(),
            old(self).may_start(*control, *final(self), told(r)),
    ;

    fn next_event_time(&self) -> (r: Option<CoSimulationTime>)
        ensures
            r == self.upcoming(),
    ;

    fn advance_to(&mut self, target: CoSimulationTime, control: &ExecutionControl) -> (r: Result<
        (),
        EngineError,
    >)
        ensures
            final(self).name() == old(self).name(),
            final(self).port_list() == old(self).port_list(),
            old(self).may_advance(target, *control, *final(self), told(r)),
    ;

    fn read_output(&self, port: &str) -> (r: Result<CoSimulationValue, EngineError>)
        ensures
            crate::reading::same(r, self.output(port@)),
    ;

    fn write_input(
        &mut self,
        port: &str,
        time: CoSimulationTime,
        value: &CoSimulationValue,
        control: &ExecutionControl,
    ) -> (r: Result<bool, EngineError>)
        ensures
            final(self).name() == old(self).name(),
            final(self).port_list() == old(self).port_list(),
            old(self).may_take(port@, time, *value, *control, *final(self), told(r)),
    ;
}

/// Whether an earlier port has the same name.
pub open spec fn port_repeated(ports: Seq<CoSimulationPort>, i: int) -> bool {
    exists|j: int| 0 <= j < i && (#[trigger] ports[j]).name@ == ports[i].name@
}

/// What is wrong with one port of a participant.
pub open spec fn port_failure(id: Seq<char>, ports: Seq<CoSimulationPort>, i: int) -> Option<Fault> {
    let port = ports[i];
    let name = port.name@;
    if is_blank(name) {
        Some(
            fault("cosim_port_invalid"@, "participant `"@ + id + "` contains an empty port name"@),
        )
    } else if port_repeated(ports, i) {
        Some(
            fault(
                "cosim_port_duplicate"@,
                "participant `"@ + id + "` contains duplicate port `"@ + name + "`"@,
            ),
        )
    } else {
        match port.domain {
            SignalDomain::Digital => if port.unit is Some {
                Some(
                    fault(
                        "cosim_port_invalid"@,
                        "digital port `"@ + id + "."@ + name
                            + "` must not declare an analog unit"@,
                    ),
                )
            } else {
                None
            },
            SignalDomain::Analog => if port.unit is None {
                Some(
                    fault(
                        "cosim_port_invalid"@,
                        "analog port `"@ + id + "."@ + name + "` must declare a unit"@,
                    ),
                )
            } else {
                None
            },
            _ => Some(
                fault(
                    "cosim_port_invalid"@,
                    "scheduler port `"@ + id + "."@ + name
                        + "` must be explicitly analog or digital; mixed/reference boundaries belong inside participants"@,
                ),
            ),
        }
    }
}

/// What is wrong with the first `n` ports of a participant: the first failure.
pub open spec fn ports_failure(id: Seq<char>, ports: Seq<CoSimulationPort>, n: int) -> Option<Fault>
    decreases n,
{
    if n <= 0 {
        None
    } else {
        match ports_failure(id, ports, n - 1) {
            Some(f) => Some(f),
            None => port_failure(id, ports, n - 1),
        }
    }
}

/// What is wrong with the ports of a participant.
pub open spec fn all_ports_failure(id: Seq<char>, ports: Seq<CoSimulationPort>) -> Option<Fault> {
    if ports.len() == 0 {
        Some(
            fault(
                "cosim_participant_invalid"@,
                "participant `"@ + id + "` must expose at least one port"@,
            ),
        )
    } else {
        ports_failure(id, ports, ports.len() as int)
    }
}

proof fn lemma_ports_failure_stops(id: Seq<char>, ports: Seq<CoSimulationPort>, n: int, m: int)
    requires
        0 <= m <= n,
        ports_failure(id, ports, m) is Some,
    ensures
        ports_failure(id, ports, n) == ports_failure(id, ports, m),
    decreases n - m,
{
    if m < n {
        lemma_ports_failure_stops(id, ports, n, m + 1);
    }
}

/// Ports that are in order have names of their own, none of them blank, and a
/// unit exactly if they are analog.
pub proof fn accepted_ports_are_distinct(
    id: Seq<char>,
    ports: Seq<CoSimulationPort>,
    n: int,
    i: int,
    j: int,
)
    requires
        0 <= i < j < n <= ports.len(),
        ports_failure(id, ports, n) is None,
    ensures
        ports[i].name@ != ports[j].name@,
        !is_blank(ports[j].name@),
        ports[j].domain == SignalDomain::Digital || ports[j].domain == SignalDomain::Analog,
        ports[j].unit is Some <==> ports[j].domain == SignalDomain::Analog,
    decreases n,
{
    if j == n - 1 {
        assert(port_failure(id, ports, j) is None);
        if ports[i].name@ == ports[j].name@ {
            assert(port_repeated(ports, j));
        }
    } else {
        accepted_ports_are_distinct(id, ports, n - 1, i, j);
    }
}

fn check_port(id: &str, ports: &Vec<CoSimulationPort>, i: usize) -> (r: Result<(), EngineError>)
    requires
        i < ports@.len(),
    ensures
        passes(r, port_failure(id@, ports@, i as int)),
{
    let port = &ports[i];
    let name = port.name.as_str();
    if blank(name) {
        return Err(
            fail("cosim_port_invalid", cat3("participant `", id, "` contains an empty port name")),
        );
    }
    let mut j: usize = 0;
    while j < i && !text_eq(ports[j].name.as_str(), name)
        invariant
            j <= i < ports@.len(),
            name@ == ports@[i as int].name@,
            forall|k: int| 0 <= k < j ==> (#[trigger] ports@[k]).name@ != name@,
        decreases i - j,
    {
        j = j + 1;
    }
    if j < i {
        assert(ports@[j as int].name@ == ports@[i as int].name@);
        return Err(
            fail(
                "cosim_port_duplicate",
                cat5("participant `", id, "` contains duplicate port `", name, "`"),
            ),
        );
    }
    match port.domain {
        SignalDomain::Digital => {
            if port.unit.is_some() {
                return Err(
                    fail(
                        "cosim_port_invalid",
                        cat5(
                            "digital port `",
                            id,
                            ".",
                            name,
                            "` must not declare an analog unit",
                        ),
                    ),
                );
            }
        },
        SignalDomain::Analog => {
            if port.unit.is_none() {
                return Err(
                    fail(
                        "cosim_port_invalid",
                        cat5("analog port `", id, ".", name, "` must declare a unit"),
                    ),
                );
            }
        },
        SignalDomain::Mixed | SignalDomain::Reference => {
            return Err(
                fail(
                    "cosim_port_invalid",
                    cat5(
                        "scheduler port `",
                        id,
                        ".",
                        name,
                        "` must be explicitly analog or digital; mixed/reference boundaries belong inside participants",
                    ),
                ),
            );
        },
    }
    Ok(())
}

pub fn validate_ports(id: &str, ports: &Vec<CoSimulationPort>) -> (r: Result<(), EngineError>)
    ensures
        passes(r, all_ports_failure(id@, ports@)),
{
    if ports.len() == 0 {
        return Err(
            fail(
                "cosim_participant_invalid",
                cat3("participant `", id, "` must expose at least one port"),
            ),
        );
    }
    let mut i: usize = 0;
    while i < ports.len()
        invariant
            i <= ports@.len(),
            ports@.len() > 0,
            ports_failure(id@, ports@, i as int) is None,
        decreases ports@.len() - i,
    {
        match check_port(id, ports, i) {
            Err(e) => {
                proof {
                    lemma_ports_failure_stops(id@, ports@, ports@.len() as int, i + 1);
                }
                return Err(e);
            },
            Ok(_) => {},
        }
        i = i + 1;
    }
    Ok(())
}

/// A run of the scheduler ended early, by a signal or for want of time.
pub open spec fn cosim_interrupted(policy: ExecutionPolicy, f: Fault) -> bool {
    ||| f == fault("execution_cancelled"@, "co-simulation execution was cancelled"@)
    ||| policy.timeout_ms > 0 && f == cosim_timeout(policy)
}

pub open spec fn cosim_timeout(policy: ExecutionPolicy) -> Fault {
    fault(
        "execution_timeout"@,
        "co-simulation exceeded "@ + decimal(policy.timeout_ms as nat) + " ms execution timeout"@,
    )
}

/// Whether the scheduler must end, by the signal and the time that has passed.
pub open spec fn cosim_stop_reason(
    policy: ExecutionPolicy,
    cancelled: bool,
    elapsed_ms: u128,
) -> Option<Fault> {
    if cancelled {
        Some(fault("execution_cancelled"@, "co-simulation execution was cancelled"@))
    } else if policy.timeout_ms > 0 && elapsed_ms >= policy.timeout_ms {
        Some(cosim_timeout(policy))
    } else {
        None
    }
}

pub fn cosim_must_stop(policy: &ExecutionPolicy, cancelled: bool, elapsed_ms: u128) -> (r: Result<
    (),
    EngineError,
>)
    ensures
        passes(r, cosim_stop_reason(*policy, cancelled, elapsed_ms)),
{
    if cancelled {
        return Err(
            EngineError::new("execution_cancelled", "co-simulation execution was cancelled"),
        );
    }
    if policy.timeout_ms > 0 && elapsed_ms >= policy.timeout_ms as u128 {
        return Err(
            fail(
                "execution_timeout",
                cat3(
                    "co-simulation exceeded ",
                    decimal_text(policy.timeout_ms).as_str(),
                    " ms execution timeout",
                ),
            ),
        );
    }
    Ok(())
}

pub fn check_control(control: &ExecutionControl, started: &Instant) -> (r: Result<(), EngineError>)
    ensures
        r matches Err(e) ==> cosim_interrupted(control.policy, e@),
{
    cosim_must_stop(&control.policy, control.cancellation.is_cancelled(), elapsed_millis(started))
}

/// A participant's failure, with the participant and what it was doing.
pub open spec fn participant_fault(id: Seq<char>, operation: Seq<char>, f: Fault) -> Fault {
    Fault {
        code: f.code,
        message: "participant `"@ + id + "` failed to "@ + operation + ": "@ + f.message,
        retryable: f.retryable,
    }
}

pub fn participant_error(id: &str, operation: &str, error: EngineError) -> (r: EngineError)
    ensures
        r@ == participant_fault(id@, operation@, error@),
{
    EngineError {
        code: error.code,
        message: cat6(
            "participant `",
            id,
            "` failed to ",
            operation,
            ": ",
            error.message.as_str(),
        ),
        retryable: error.retryable,
    }
}

} // verus!
