use ontologyx_sim_core::circuit::{
    Circuit, Component, ComponentKind, Net, NetEndpoint, ParameterValue, Pin, PinDirection,
    SignalDomain,
};
use ontologyx_sim_core::cosim::{
    CoSimulationConfig, CoSimulationEndpoint, CoSimulationLink, CoSimulationParticipant,
    CoSimulationPort, CoSimulationTime, CoSimulationValue,
};
use ontologyx_sim_core::logic::{increment_bits, number_bits, resolve_net};
use ontologyx_sim_core::units::{Quantity, Unit};
use ontologyx_sim_core::{
    validate_circuit, AdcCoSimulationParticipant, Analysis, CancellationToken,
    CoSimulationScheduler, DacCoSimulationParticipant, DigitalCoSimulationBinding,
    DigitalCoSimulationParticipant, DigitalEngine, EngineError, EngineRegistry, ExecutionControl,
    ExecutionPolicy, LogicValue, LogicVector, Probe, Real, SimulationEngine, SimulationError,
    SimulationRequest, SimulationResult, Simulator, Waveform,
};

fn bits(value: f64) -> Real {
    Real::from_bits(value.to_bits())
}

fn double(value: Real) -> f64 {
    f64::from_bits(value.bits)
}

fn pin(id: &str, direction: PinDirection) -> Pin {
    Pin::new(id, id, SignalDomain::Digital, direction)
}

fn analog_pin(id: &str) -> Pin {
    Pin::new(id, id, SignalDomain::Analog, PinDirection::Passive)
}

fn input(id: &str, value: ParameterValue) -> Component {
    Component::new(id, ComponentKind::logic_input())
        .with_pin(pin("out", PinDirection::Output))
        .with_parameter("value", value)
}

fn sink() -> Component {
    Component::new("out", ComponentKind::logic_output()).with_pin(pin("in", PinDirection::Input))
}

fn seconds(value: f64) -> ParameterValue {
    ParameterValue::Quantity(Quantity::new(bits(value), Unit::Second))
}

fn wire(id: &str, ends: &[(&str, &str)]) -> Net {
    let mut net = Net::new(id);
    for (component, pin) in ends {
        net = net.connect(NetEndpoint::new(component, pin));
    }
    net
}

fn request(circuit: Circuit, stop: f64) -> SimulationRequest {
    SimulationRequest {
        circuit,
        analysis: Analysis::DigitalTransient { stop: bits(stop) },
        probes: vec![Probe {
            endpoint: NetEndpoint::new("out", "in"),
            alias: Some("out".to_owned()),
        }],
    }
}

fn history(result: &SimulationResult) -> Vec<(f64, LogicValue)> {
    let Waveform::Digital(waveform) = &result.waveforms[0] else {
        panic!("expected a digital waveform");
    };
    waveform
        .transitions
        .iter()
        .map(|transition| (double(transition.time), transition.value))
        .collect()
}

fn run(circuit: Circuit, stop: f64) -> Vec<(f64, LogicValue)> {
    let result = DigitalEngine::new().simulate(&request(circuit, stop)).unwrap();
    history(&result)
}

fn two_input(kind: ComponentKind, a: bool, b: bool) -> LogicValue {
    let part = Component::new("g", kind)
        .with_pin(pin("a", PinDirection::Input))
        .with_pin(pin("b", PinDirection::Input))
        .with_pin(pin("out", PinDirection::Output));
    let circuit = Circuit::new()
        .with_component(input("a", ParameterValue::Boolean(a)))
        .with_component(input("b", ParameterValue::Boolean(b)))
        .with_component(part)
        .with_component(sink())
        .with_net(wire("a", &[("a", "out"), ("g", "a")]))
        .with_net(wire("b", &[("b", "out"), ("g", "b")]))
        .with_net(wire("out", &[("g", "out"), ("out", "in")]));
    run(circuit, 1e-6).last().unwrap().1
}

#[test]
fn combinational_parts_compute_their_functions() {
    for a in [false, true] {
        for b in [false, true] {
            let level = |x: bool| if x { LogicValue::One } else { LogicValue::Zero };
            assert_eq!(two_input(ComponentKind::and_gate(), a, b), level(a && b));
            assert_eq!(two_input(ComponentKind::or_gate(), a, b), level(a || b));
            assert_eq!(two_input(ComponentKind::xor_gate(), a, b), level(a != b));
            assert_eq!(two_input(ComponentKind::nand_gate(), a, b), level(!(a && b)));
            assert_eq!(two_input(ComponentKind::nor_gate(), a, b), level(!(a || b)));
            assert_eq!(two_input(ComponentKind::xnor_gate(), a, b), level(a == b));
        }
    }
}

#[test]
fn delays_shift_a_clock() {
    let clock = Component::new("clk", ComponentKind::digital_clock())
        .with_pin(pin("out", PinDirection::Output))
        .with_parameter("period", seconds(10e-9))
        .with_parameter("duty_cycle", ParameterValue::Number(bits(0.5)))
        .with_parameter("initial", ParameterValue::Integer(0));
    let inverter = Component::new("inv", ComponentKind::not_gate())
        .with_pin(pin("in", PinDirection::Input))
        .with_pin(pin("out", PinDirection::Output))
        .with_parameter("delay", seconds(1e-9));
    let circuit = Circuit::new()
        .with_component(clock)
        .with_component(inverter)
        .with_component(sink())
        .with_net(wire("clk", &[("clk", "out"), ("inv", "in")]))
        .with_net(wire("out", &[("inv", "out"), ("out", "in")]));
    let seen = run(circuit, 12e-9);
    let values: Vec<LogicValue> = seen.iter().map(|(_, value)| *value).collect();
    assert_eq!(
        values,
        [
            LogicValue::X,
            LogicValue::One,
            LogicValue::Zero,
            LogicValue::One
        ]
    );
    assert_eq!(seen[0].0, 0.0);
    assert_eq!(seen[1].0, 1e-9);
    assert_eq!(seen[2].0, 5e-9 + 1e-9);
    assert_eq!(seen[3].0, 10e-9 + 1e-9);
}

#[test]
fn a_counter_counts_clock_edges() {
    let clock = Component::new("clk", ComponentKind::digital_clock())
        .with_pin(pin("out", PinDirection::Output))
        .with_parameter("period", seconds(10e-9))
        .with_parameter("duty_cycle", ParameterValue::Number(bits(0.5)))
        .with_parameter("initial", ParameterValue::Integer(0));
    let counter = Component::new("counter", ComponentKind::counter())
        .with_pin(pin("clk", PinDirection::Input))
        .with_pin(pin("enable", PinDirection::Input))
        .with_pin(pin("q0", PinDirection::Output))
        .with_pin(pin("q1", PinDirection::Output))
        .with_pin(pin("q2", PinDirection::Output))
        .with_parameter("width", ParameterValue::Integer(3))
        .with_parameter("initial", ParameterValue::Integer(0));
    let circuit = Circuit::new()
        .with_component(clock)
        .with_component(input("enable", ParameterValue::Integer(1)))
        .with_component(counter)
        .with_component(sink())
        .with_net(wire("clk", &[("clk", "out"), ("counter", "clk")]))
        .with_net(wire("enable", &[("enable", "out"), ("counter", "enable")]))
        .with_net(wire("q0", &[("counter", "q0"), ("out", "in")]))
        .with_net(wire("q1", &[("counter", "q1")]))
        .with_net(wire("q2", &[("counter", "q2")]));
    let seen = run(circuit, 26e-9);
    assert_eq!(seen.last().unwrap().1, LogicValue::One);
    let flips = seen.windows(2).filter(|pair| pair[0].1 != pair[1].1).count();
    assert_eq!(flips, seen.len() - 1);
}

fn buffers(enable_a: i64, enable_b: i64) -> LogicValue {
    let tri = |id: &str| {
        Component::new(id, ComponentKind::tri_state_buffer())
            .with_pin(pin("in", PinDirection::Input))
            .with_pin(pin("enable", PinDirection::Input))
            .with_pin(pin("out", PinDirection::Output))
    };
    let circuit = Circuit::new()
        .with_component(input("one", ParameterValue::Integer(1)))
        .with_component(input("zero", ParameterValue::Integer(0)))
        .with_component(input("ea", ParameterValue::Integer(enable_a)))
        .with_component(input("eb", ParameterValue::Integer(enable_b)))
        .with_component(tri("ta"))
        .with_component(tri("tb"))
        .with_component(sink())
        .with_net(wire("one", &[("one", "out"), ("ta", "in")]))
        .with_net(wire("zero", &[("zero", "out"), ("tb", "in")]))
        .with_net(wire("ea", &[("ea", "out"), ("ta", "enable")]))
        .with_net(wire("eb", &[("eb", "out"), ("tb", "enable")]))
        .with_net(wire("bus", &[("ta", "out"), ("tb", "out"), ("out", "in")]));
    run(circuit, 1e-9).last().unwrap().1
}

#[test]
fn shared_nets_are_resolved() {
    assert_eq!(buffers(1, 0), LogicValue::One);
    assert_eq!(buffers(0, 1), LogicValue::Zero);
    // A net that nobody has driven yet stays unknown.
    assert_eq!(buffers(0, 0), LogicValue::X);
    assert_eq!(buffers(1, 1), LogicValue::X);
    let many = vec![LogicValue::Z, LogicValue::One, LogicValue::One];
    assert_eq!(resolve_net(&many), LogicValue::One);
}

#[test]
fn levels_combine_with_four_states() {
    let (zero, one, x, z) = (
        LogicValue::Zero,
        LogicValue::One,
        LogicValue::X,
        LogicValue::Z,
    );
    assert_eq!(zero.logic_and(x), zero);
    assert_eq!(one.logic_and(z), x);
    assert_eq!(one.logic_or(x), one);
    assert_eq!(zero.logic_or(z), x);
    assert_eq!(one.logic_xor(one), zero);
    assert_eq!(one.logic_xor(x), x);
    assert_eq!(z.logic_buffer(), x);
    assert_eq!(x.logic_not(), x);
    assert!(one.is_known() && !z.is_known());
}

#[test]
fn vectors_hold_numbers() {
    let vector = LogicVector::from_u64(4, 0b1010).unwrap();
    assert_eq!(vector.width(), 4);
    assert_eq!(vector.to_u64(), Some(10));
    assert_eq!(vector.values()[1], LogicValue::One);
    assert_eq!(LogicVector::new(vec![LogicValue::X]).to_u64(), None);
    assert!(LogicVector::from_u64(0, 1).is_err());
    assert!(LogicVector::from_u64(65, 1).is_err());
    let last = number_bits(3, 7);
    assert_eq!(increment_bits(&last), number_bits(3, 0));
}

#[test]
fn the_small_circuit_of_the_introduction_is_valid() {
    let circuit = Circuit::new()
        .with_component(
            Component::new("r1", ComponentKind::resistor())
                .with_pin(analog_pin("a"))
                .with_pin(analog_pin("b")),
        )
        .with_component(
            Component::new("c1", ComponentKind::capacitor())
                .with_pin(analog_pin("a"))
                .with_pin(analog_pin("b")),
        )
        .with_net(
            Net::new("n1")
                .connect(NetEndpoint::new("r1", "b"))
                .connect(NetEndpoint::new("c1", "a")),
        );
    assert!(validate_circuit(&circuit).is_valid());
    let broken = circuit.with_net(Net::new("n2").connect(NetEndpoint::new("r9", "a")));
    let report = validate_circuit(&broken);
    assert!(!report.is_valid() && report.error_count() > 0);
}

#[test]
fn simulators_choose_an_engine_and_check_first() {
    let circuit = Circuit::new()
        .with_component(input("a", ParameterValue::Boolean(true)))
        .with_component(sink())
        .with_net(wire("n", &[("a", "out"), ("out", "in")]));
    let mut simulator = Simulator::new();
    let asked = request(circuit, 1e-9);
    assert!(matches!(
        simulator.simulate(&asked),
        Err(SimulationError::NoCompatibleEngine { .. })
    ));
    simulator.register_engine(DigitalEngine::new());
    let result = simulator.simulate(&asked).unwrap();
    assert_eq!(result.engine.as_str(), "digital");
    assert_eq!(result.stats.waveform_count, 1);
    assert_eq!(simulator.engine_ids()[0].as_str(), "digital");

    let broken = SimulationRequest {
        circuit: asked
            .circuit
            .clone()
            .with_net(wire("m", &[("nobody", "out")])),
        ..asked.clone()
    };
    let error = simulator.simulate(&broken).unwrap_err();
    assert_eq!(error.code(), "invalid_circuit");

    let cancellation = CancellationToken::new();
    cancellation.cancel();
    let control =
        ExecutionControl::new(ExecutionPolicy::default()).with_cancellation(cancellation);
    let SimulationError::Engine { error, .. } =
        simulator.simulate_with_control(&asked, &control).unwrap_err()
    else {
        panic!("expected an engine failure");
    };
    assert!(error.is_cancelled());
}

#[test]
fn registries_pick_the_first_engine_that_fits() {
    let mut registry = EngineRegistry::new();
    assert!(registry.select(&Analysis::DigitalTransient { stop: bits(1.0) }).is_none());
    registry.register(DigitalEngine::new());
    assert!(registry.select(&Analysis::DigitalTransient { stop: bits(1.0) }).is_some());
    assert!(registry.select(&Analysis::OperatingPoint).is_none());
    assert_eq!(registry.descriptors()[0].id.as_str(), "digital");
}

#[test]
fn policies_are_bounded_unless_asked_otherwise() {
    let policy = ExecutionPolicy::default();
    assert!(policy.timeout_ms > 0 && policy.max_input_bytes > 0 && policy.max_output_bytes > 0);
    assert!(policy.validate().is_ok());
    let open = ExecutionPolicy::unbounded();
    assert_eq!((open.timeout_ms, open.max_output_bytes), (0, 0));
    let idle = ExecutionPolicy {
        poll_interval_ms: 0,
        ..policy
    };
    assert_eq!(idle.validate().unwrap_err().code(), "execution_policy_invalid");
}

#[test]
fn refused_digital_requests_say_why() {
    let circuit = Circuit::new()
        .with_component(sink())
        .with_net(wire("n", &[("out", "in")]));
    let engine = DigitalEngine::new();
    let stop = engine.simulate(&request(circuit.clone(), -1.0)).unwrap_err();
    assert_eq!(stop.code(), "digital_invalid_analysis");
    let other = SimulationRequest {
        analysis: Analysis::OperatingPoint,
        ..request(circuit, 1e-9)
    };
    assert_eq!(
        engine.simulate(&other).unwrap_err().code(),
        "digital_unsupported_analysis"
    );
}

enum Party {
    Source(CoSimulationTime, Vec<CoSimulationPort>),
    Inverter(CoSimulationTime, LogicValue, Vec<CoSimulationPort>),
    Adc(AdcCoSimulationParticipant),
    Dac(DacCoSimulationParticipant),
    Digital(DigitalCoSimulationParticipant),
}

const EDGE: u64 = 5_000;

impl CoSimulationParticipant for Party {
    fn id(&self) -> &str {
        match self {
            Party::Source(..) => "source",
            Party::Inverter(..) => "inverter",
            Party::Adc(inner) => inner.id(),
            Party::Dac(inner) => inner.id(),
            Party::Digital(inner) => inner.id(),
        }
    }

    fn ports(&self) -> &Vec<CoSimulationPort> {
        match self {
            Party::Source(_, ports) | Party::Inverter(_, _, ports) => ports,
            Party::Adc(inner) => inner.ports(),
            Party::Dac(inner) => inner.ports(),
            Party::Digital(inner) => inner.ports(),
        }
    }

    fn current_time(&self) -> CoSimulationTime {
        match self {
            Party::Source(time, _) | Party::Inverter(time, _, _) => *time,
            Party::Adc(inner) => inner.current_time(),
            Party::Dac(inner) => inner.current_time(),
            Party::Digital(inner) => inner.current_time(),
        }
    }

    fn initialize(&mut self, control: &ExecutionControl) -> Result<(), EngineError> {
        match self {
            Party::Source(..) | Party::Inverter(..) => Ok(()),
            Party::Adc(inner) => inner.initialize(control),
            Party::Dac(inner) => inner.initialize(control),
            Party::Digital(inner) => inner.initialize(control),
        }
    }

    fn next_event_time(&self) -> Option<CoSimulationTime> {
        match self {
            Party::Source(time, _) => {
                (time.as_picoseconds() < EDGE).then_some(CoSimulationTime::from_picoseconds(EDGE))
            }
            Party::Inverter(..) => None,
            Party::Adc(inner) => inner.next_event_time(),
            Party::Dac(inner) => inner.next_event_time(),
            Party::Digital(inner) => inner.next_event_time(),
        }
    }

    fn advance_to(
        &mut self,
        target: CoSimulationTime,
        control: &ExecutionControl,
    ) -> Result<(), EngineError> {
        match self {
            Party::Source(time, _) | Party::Inverter(time, _, _) => {
                *time = target;
                Ok(())
            }
            Party::Adc(inner) => inner.advance_to(target, control),
            Party::Dac(inner) => inner.advance_to(target, control),
            Party::Digital(inner) => inner.advance_to(target, control),
        }
    }

    fn read_output(&self, port: &str) -> Result<CoSimulationValue, EngineError> {
        match self {
            Party::Source(time, _) => Ok(CoSimulationValue::Digital(
                if time.as_picoseconds() >= EDGE {
                    LogicValue::One
                } else {
                    LogicValue::Zero
                },
            )),
            Party::Inverter(_, level, _) => Ok(CoSimulationValue::Digital(level.logic_not())),
            Party::Adc(inner) => inner.read_output(port),
            Party::Dac(inner) => inner.read_output(port),
            Party::Digital(inner) => inner.read_output(port),
        }
    }

    fn write_input(
        &mut self,
        port: &str,
        time: CoSimulationTime,
        value: &CoSimulationValue,
        control: &ExecutionControl,
    ) -> Result<bool, EngineError> {
        match self {
            Party::Source(..) => Err(EngineError::new("source_input", "source has no input")),
            Party::Inverter(_, level, _) => {
                let CoSimulationValue::Digital(new) = value else {
                    return Err(EngineError::new("inverter_domain", "expects a level"));
                };
                let changed = level != new;
                *level = *new;
                Ok(changed)
            }
            Party::Adc(inner) => inner.write_input(port, time, value, control),
            Party::Dac(inner) => inner.write_input(port, time, value, control),
            Party::Digital(inner) => inner.write_input(port, time, value, control),
        }
    }
}

fn source() -> Party {
    Party::Source(
        CoSimulationTime::zero(),
        vec![CoSimulationPort::digital("out", PinDirection::Output)],
    )
}

fn inverter() -> Party {
    Party::Inverter(
        CoSimulationTime::zero(),
        LogicValue::X,
        vec![
            CoSimulationPort::digital("in", PinDirection::Input),
            CoSimulationPort::digital("out", PinDirection::Output),
        ],
    )
}

fn link(from: (&str, &str), to: (&str, &str)) -> CoSimulationLink {
    CoSimulationLink::new(
        CoSimulationEndpoint::new(from.0, from.1),
        CoSimulationEndpoint::new(to.0, to.1),
    )
}

fn scheduler(stop: u64) -> CoSimulationScheduler<Party> {
    CoSimulationScheduler::new(CoSimulationConfig::new(
        CoSimulationTime::from_picoseconds(stop),
        CoSimulationTime::from_picoseconds(stop),
    ))
}

fn signal<'a>(result: &'a SimulationResult, name: &str) -> &'a Waveform {
    result
        .waveforms
        .iter()
        .find(|waveform| match waveform {
            Waveform::Digital(found) => found.signal.as_str().contains(name),
            Waveform::Analog(found) => found.signal.as_str().contains(name),
        })
        .unwrap()
}

#[test]
fn a_chain_of_participants_settles_at_each_event() {
    let mut run = scheduler(10_000);
    run.add_participant(source()).unwrap();
    run.add_participant(inverter()).unwrap();
    run.connect(link(("source", "out"), ("inverter", "in")));
    let report = run.run(&ExecutionControl::default()).unwrap();
    let Waveform::Digital(seen) = signal(&report.result, "inverter") else {
        panic!("expected a digital waveform");
    };
    let last = seen.transitions.last().unwrap();
    assert_eq!(last.value, LogicValue::Zero);
    assert_eq!(double(last.time), 5e-9);
    assert_eq!(report.result.engine.as_str(), "co-simulation");
}

#[test]
fn bridges_carry_levels_there_and_back() {
    let mut run = scheduler(10_000);
    run.add_participant(source()).unwrap();
    run.add_participant(Party::Dac(
        DacCoSimulationParticipant::new("dac", bits(0.0), bits(3.3)).unwrap(),
    ))
    .unwrap();
    run.add_participant(Party::Adc(
        AdcCoSimulationParticipant::new("adc", bits(0.8), bits(2.0)).unwrap(),
    ))
    .unwrap();
    run.connect(link(("source", "out"), ("dac", "digital_in")));
    run.connect(link(("dac", "analog_out"), ("adc", "analog_in")));
    let report = run.run(&ExecutionControl::default()).unwrap();
    let Waveform::Digital(seen) = signal(&report.result, "adc") else {
        panic!("expected a digital waveform");
    };
    assert_eq!(seen.transitions.last().unwrap().value, LogicValue::One);
    let Waveform::Analog(volts) = signal(&report.result, "dac") else {
        panic!("expected an analog waveform");
    };
    assert_eq!(double(*volts.values.last().unwrap()), 3.3);
}

#[test]
fn bridges_refuse_what_makes_no_sense() {
    assert!(AdcCoSimulationParticipant::new("", bits(0.8), bits(2.0)).is_err());
    assert!(AdcCoSimulationParticipant::new("adc", bits(2.0), bits(0.8)).is_err());
    assert!(DacCoSimulationParticipant::new("dac", bits(f64::NAN), bits(1.0)).is_err());
}

#[test]
fn a_circuit_takes_part_in_a_chain() {
    let inside = Component::new("inv", ComponentKind::not_gate())
        .with_pin(pin("in", PinDirection::Input))
        .with_pin(pin("out", PinDirection::Output))
        .with_parameter("delay", seconds(1e-9));
    let circuit = Circuit::new()
        .with_component(inside)
        .with_component(sink())
        .with_net(wire("a", &[("inv", "in")]))
        .with_net(wire("y", &[("inv", "out"), ("out", "in")]));
    let participant = DigitalCoSimulationParticipant::new(
        "logic",
        request(circuit, 20e-9),
        vec![
            DigitalCoSimulationBinding::input("a", "a"),
            DigitalCoSimulationBinding::output("y", "y"),
        ],
    )
    .unwrap();
    let mut run = scheduler(10_000);
    run.add_participant(source()).unwrap();
    run.add_participant(Party::Digital(participant)).unwrap();
    run.connect(link(("source", "out"), ("logic", "a")));
    let report = run.run(&ExecutionControl::default()).unwrap();
    let Waveform::Digital(seen) = signal(&report.result, "logic") else {
        panic!("expected a digital waveform");
    };
    let last = seen.transitions.last().unwrap();
    assert_eq!(last.value, LogicValue::Zero);
    assert_eq!(double(last.time), 6e-9);
}

#[test]
fn faulty_graphs_are_refused() {
    let mut run = scheduler(10_000);
    run.add_participant(source()).unwrap();
    let twice = run.add_participant(source()).unwrap_err();
    assert_eq!(twice.code(), "cosim_participant_duplicate");
    run.connect(link(("source", "out"), ("nobody", "in")));
    assert!(run.run(&ExecutionControl::default()).is_err());
    let mut still = scheduler(0);
    still.add_participant(source()).unwrap();
    assert_eq!(
        still.run(&ExecutionControl::default()).unwrap_err().code(),
        "cosim_config_invalid"
    );
}
