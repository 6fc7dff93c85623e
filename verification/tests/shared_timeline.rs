use ontologyx_sim_core::circuit::{
    Circuit, Component, ComponentKind, Net, NetEndpoint, ParameterValue, Pin, PinDirection,
    SignalDomain,
};
use ontologyx_sim_core::cosim::{
    validate_ports, CoSimulationConfig, CoSimulationEndpoint, CoSimulationLink,
    CoSimulationParticipant, CoSimulationPort, CoSimulationTime, CoSimulationValue,
};
use ontologyx_sim_core::{
    AdcCoSimulationParticipant, Analysis, CoSimulationScheduler, DacCoSimulationParticipant,
    DigitalCoSimulationBinding, DigitalCoSimulationParticipant, DigitalEngine, EngineError,
    ExecutionControl, LogicValue, LogicVector, Probe, Real, SimulationEngine, SimulationRequest,
    Unit, Waveform,
};

fn bits(value: f64) -> Real {
    Real::from_bits(value.to_bits())
}

fn at(picoseconds: u64) -> CoSimulationTime {
    CoSimulationTime::from_picoseconds(picoseconds)
}

/// A participant that does as it is told.
struct Puppet {
    id: String,
    ports: Vec<CoSimulationPort>,
    now: CoSimulationTime,
    start: CoSimulationTime,
    lag: u64,
    event: Option<u64>,
    shown: CoSimulationValue,
    restless: bool,
    written: Vec<CoSimulationValue>,
    went: Vec<u64>,
}

impl Puppet {
    fn new(id: &str, ports: Vec<CoSimulationPort>) -> Self {
        Self {
            id: id.to_owned(),
            ports,
            now: at(0),
            start: at(0),
            lag: 0,
            event: None,
            shown: CoSimulationValue::Digital(LogicValue::One),
            restless: false,
            written: Vec::new(),
            went: Vec::new(),
        }
    }
}

impl CoSimulationParticipant for Puppet {
    fn id(&self) -> &str {
        &self.id
    }

    fn ports(&self) -> &Vec<CoSimulationPort> {
        &self.ports
    }

    fn current_time(&self) -> CoSimulationTime {
        self.now
    }

    fn initialize(&mut self, _control: &ExecutionControl) -> Result<(), EngineError> {
        self.now = self.start;
        Ok(())
    }

    fn next_event_time(&self) -> Option<CoSimulationTime> {
        self.event.map(at)
    }

    fn advance_to(
        &mut self,
        target: CoSimulationTime,
        _control: &ExecutionControl,
    ) -> Result<(), EngineError> {
        self.now = at(target.as_picoseconds() - self.lag);
        self.went.push(target.as_picoseconds());
        if self.event == Some(target.as_picoseconds()) {
            self.event = None;
        }
        Ok(())
    }

    fn read_output(&self, _port: &str) -> Result<CoSimulationValue, EngineError> {
        Ok(self.shown)
    }

    fn write_input(
        &mut self,
        _port: &str,
        _time: CoSimulationTime,
        value: &CoSimulationValue,
        _control: &ExecutionControl,
    ) -> Result<bool, EngineError> {
        let fresh = self.written.last() != Some(value);
        self.written.push(*value);
        Ok(fresh || self.restless)
    }
}

fn output(name: &str) -> CoSimulationPort {
    CoSimulationPort::digital(name, PinDirection::Output)
}

fn input(name: &str) -> CoSimulationPort {
    CoSimulationPort::digital(name, PinDirection::Input)
}

fn link(from: (&str, &str), to: (&str, &str)) -> CoSimulationLink {
    CoSimulationLink::new(
        CoSimulationEndpoint::new(from.0, from.1),
        CoSimulationEndpoint::new(to.0, to.1),
    )
}

fn timeline(stop: u64, step: u64) -> CoSimulationScheduler<Puppet> {
    CoSimulationScheduler::new(CoSimulationConfig::new(at(stop), at(step)))
}

fn code_of(mut run: CoSimulationScheduler<Puppet>) -> String {
    run.run(&ExecutionControl::default())
        .unwrap_err()
        .code()
        .to_owned()
}

#[test]
fn ports_are_checked() {
    let code = |ports: Vec<CoSimulationPort>| {
        validate_ports("p", &ports).unwrap_err().code().to_owned()
    };
    assert_eq!(code(Vec::new()), "cosim_participant_invalid");
    assert_eq!(code(vec![output(" ")]), "cosim_port_invalid");
    assert_eq!(code(vec![output("a"), input("a")]), "cosim_port_duplicate");
    let mut odd = output("a");
    odd.unit = Some(Unit::Volt);
    assert_eq!(code(vec![odd]), "cosim_port_invalid");
    let mut bare = CoSimulationPort::analog("a", PinDirection::Output, Unit::Volt);
    bare.unit = None;
    assert_eq!(code(vec![bare]), "cosim_port_invalid");
    let mut mixed = output("a");
    mixed.domain = SignalDomain::Mixed;
    assert_eq!(code(vec![mixed]), "cosim_port_invalid");
    assert!(validate_ports("p", &vec![output("a"), input("b")]).is_ok());

    let mut run = timeline(10, 10);
    assert_eq!(
        run.add_participant(Puppet::new(" ", vec![output("a")]))
            .unwrap_err()
            .code(),
        "cosim_participant_invalid"
    );
}

#[test]
fn links_are_checked() {
    let wired = |links: Vec<CoSimulationLink>| {
        let mut run = timeline(10, 10);
        run.add_participant(Puppet::new("a", vec![output("out"), input("in")]))
            .unwrap();
        run.add_participant(Puppet::new(
            "b",
            vec![
                input("in"),
                CoSimulationPort::analog("volts", PinDirection::Input, Unit::Volt),
            ],
        ))
        .unwrap();
        let mut meter = Puppet::new(
            "c",
            vec![CoSimulationPort::analog(
                "amps",
                PinDirection::Output,
                Unit::Ampere,
            )],
        );
        meter.shown = CoSimulationValue::Analog(bits(1.0));
        run.add_participant(meter).unwrap();
        for link in links {
            run.connect(link);
        }
        run
    };
    assert_eq!(code_of(timeline(10, 10)), "cosim_participant_missing");
    assert!(wired(vec![link(("a", "out"), ("b", "in"))])
        .run(&ExecutionControl::default())
        .is_ok());
    assert_eq!(
        code_of(wired(vec![link(("x", "out"), ("b", "in"))])),
        "cosim_link_invalid"
    );
    assert_eq!(
        code_of(wired(vec![link(("a", "x"), ("b", "in"))])),
        "cosim_link_invalid"
    );
    assert_eq!(
        code_of(wired(vec![link(("a", "in"), ("b", "in"))])),
        "cosim_link_invalid"
    );
    assert_eq!(
        code_of(wired(vec![link(("a", "out"), ("c", "amps"))])),
        "cosim_link_invalid"
    );
    assert_eq!(
        code_of(wired(vec![link(("a", "out"), ("b", "volts"))])),
        "cosim_domain_mismatch"
    );
    assert_eq!(
        code_of(wired(vec![link(("c", "amps"), ("b", "volts"))])),
        "cosim_unit_mismatch"
    );
    assert_eq!(
        code_of(wired(vec![
            link(("a", "out"), ("b", "in")),
            link(("a", "out"), ("b", "in"))
        ])),
        "cosim_multiple_drivers"
    );
}

#[test]
fn times_of_participants_are_checked() {
    let alone = |change: fn(&mut Puppet)| {
        let mut run = timeline(10, 4);
        let mut puppet = Puppet::new("a", vec![output("out")]);
        change(&mut puppet);
        run.add_participant(puppet).unwrap();
        run
    };
    let report = alone(|_| ()).run(&ExecutionControl::default()).unwrap();
    assert_eq!(report.scheduler.macro_steps, 3);
    assert_eq!(report.scheduler.participant_advances, 3);
    assert_eq!(report.scheduler.delta_cycles, 0);
    assert_eq!(
        report.result.diagnostics[0].code,
        "cosim_deterministic_scheduler"
    );
    assert_eq!(
        report.result.diagnostics[0].message,
        "co-simulation completed 3 macro step(s), 0 delta cycle(s), and 3 participant \
         advance(s) across 1 participant(s)"
    );
    let Waveform::Digital(seen) = &report.result.waveforms[0] else {
        panic!("expected a digital waveform");
    };
    assert_eq!(seen.signal.as_str(), "a.out");
    assert_eq!(seen.transitions.len(), 1);

    assert_eq!(
        code_of(alone(|puppet| puppet.start = at(1))),
        "cosim_participant_time_invalid"
    );
    assert_eq!(
        code_of(alone(|puppet| puppet.lag = 1)),
        "cosim_participant_time_invalid"
    );
    assert_eq!(
        code_of(alone(|puppet| puppet.event = Some(0))),
        "cosim_event_time_invalid"
    );
    assert_eq!(
        code_of(alone(|puppet| {
            puppet.shown = CoSimulationValue::Analog(bits(1.0));
        })),
        "cosim_value_domain_mismatch"
    );
    assert_eq!(
        code_of(alone(|puppet| {
            puppet.shown = CoSimulationValue::Analog(bits(f64::NAN));
        })),
        "cosim_value_invalid"
    );
}

#[test]
fn runs_are_bounded() {
    let mut config = CoSimulationConfig::new(at(10), at(1));
    config.max_steps = 3;
    let mut run = CoSimulationScheduler::new(config);
    run.add_participant(Puppet::new("a", vec![output("out")]))
        .unwrap();
    assert_eq!(code_of(run), "cosim_step_limit");

    let mut run = timeline(10, 10);
    let mut restless = Puppet::new("a", vec![input("in")]);
    restless.restless = true;
    run.add_participant(restless).unwrap();
    run.add_participant(Puppet::new("b", vec![output("out")]))
        .unwrap();
    run.connect(link(("b", "out"), ("a", "in")));
    assert_eq!(code_of(run), "cosim_delta_cycle_limit");

    for config in [
        CoSimulationConfig::new(at(0), at(1)),
        CoSimulationConfig::new(at(1), at(0)),
    ] {
        assert_eq!(
            config.validate().unwrap_err().code(),
            "cosim_config_invalid"
        );
    }
}

#[test]
fn participants_go_through_the_same_times() {
    let mut run = timeline(10, 4);
    let mut early = Puppet::new("a", vec![output("out")]);
    early.event = Some(6);
    run.add_participant(early).unwrap();
    let mut meter = Puppet::new(
        "b",
        vec![CoSimulationPort::analog(
            "volts",
            PinDirection::Output,
            Unit::Volt,
        )],
    );
    meter.shown = CoSimulationValue::Analog(bits(2.5));
    run.add_participant(meter).unwrap();
    let report = run.run(&ExecutionControl::default()).unwrap();
    assert_eq!(report.scheduler.macro_steps, 3);
    assert_eq!(report.scheduler.participant_advances, 6);
    for participant in &run.participants {
        assert_eq!(participant.went, vec![4, 6, 10]);
        assert_eq!(participant.now, at(10));
    }
    let Waveform::Analog(seen) = &report.result.waveforms[1] else {
        panic!("expected an analog waveform");
    };
    assert_eq!(seen.signal.as_str(), "b.volts");
    assert_eq!(
        seen.axis.values,
        vec![bits(0.0), bits(4e-12), bits(6e-12), bits(1e-11)]
    );
    assert_eq!(seen.values, vec![bits(2.5); 4]);
    assert_eq!(report.result.stats.waveform_count, 2);
    assert_eq!(report.result.stats.point_count, 5);
}

#[test]
fn links_carry_the_value_of_their_source() {
    let one = CoSimulationValue::Digital(LogicValue::One);
    let zero = CoSimulationValue::Digital(LogicValue::Zero);
    let mut run = timeline(10, 10);
    run.add_participant(Puppet::new("a", vec![output("out")]))
        .unwrap();
    let mut low = Puppet::new("b", vec![output("out")]);
    low.shown = zero;
    run.add_participant(low).unwrap();
    run.add_participant(Puppet::new("x", vec![input("in")])).unwrap();
    run.add_participant(Puppet::new("y", vec![input("in")])).unwrap();
    run.connect(link(("b", "out"), ("x", "in")));
    run.connect(link(("a", "out"), ("y", "in")));
    let report = run.run(&ExecutionControl::default()).unwrap();
    assert_eq!(report.scheduler.delta_cycles, 1);
    assert_eq!(run.participants[2].written, vec![zero; 3]);
    assert_eq!(run.participants[3].written, vec![one; 3]);
}

#[test]
fn links_are_ordered_whatever_came_first() {
    let links = || {
        vec![
            link(("b", "out"), ("x", "in")),
            link(("a", "out"), ("z", "in")),
            link(("a", "out"), ("y", "in")),
        ]
    };
    let ordered = |links: Vec<CoSimulationLink>| {
        let mut run = timeline(10, 10);
        for id in ["a", "b"] {
            run.add_participant(Puppet::new(id, vec![output("out")]))
                .unwrap();
        }
        for id in ["x", "y", "z"] {
            run.add_participant(Puppet::new(id, vec![input("in")]))
                .unwrap();
        }
        for link in links {
            run.connect(link);
        }
        run.validated_links().unwrap()
    };
    let mut reversed = links();
    reversed.reverse();
    let wanted = vec![
        link(("a", "out"), ("y", "in")),
        link(("a", "out"), ("z", "in")),
        link(("b", "out"), ("x", "in")),
    ];
    assert_eq!(ordered(links()), wanted);
    assert_eq!(ordered(reversed), wanted);
}

fn written<P: CoSimulationParticipant>(
    participant: &mut P,
    port: &str,
    time: CoSimulationTime,
    value: CoSimulationValue,
) -> Result<bool, String> {
    participant
        .write_input(port, time, &value, &ExecutionControl::default())
        .map_err(|error| error.code().to_owned())
}

#[test]
fn converters_hold_their_level_between_the_thresholds() {
    let low = CoSimulationValue::Digital(LogicValue::Zero);
    let high = CoSimulationValue::Digital(LogicValue::One);
    let volts = |value: f64| CoSimulationValue::Analog(bits(value));
    let mut adc = AdcCoSimulationParticipant::new("adc", bits(1.0), bits(2.0)).unwrap();
    for (value, wanted) in [
        (1.5, low),
        (2.0, high),
        (1.5, high),
        (1.0, low),
        (1.5, low),
        (3.0, high),
    ] {
        assert_eq!(written(&mut adc, "analog_in", at(0), volts(value)), Ok(true));
        assert_eq!(adc.read_output("digital_out").unwrap(), wanted);
    }
    assert_eq!(
        written(&mut adc, "analog_in", at(0), volts(3.0)),
        Ok(false)
    );
    let mut dac = DacCoSimulationParticipant::new("dac", bits(0.5), bits(3.3)).unwrap();
    assert_eq!(dac.read_output("analog_out").unwrap(), volts(0.5));
    assert_eq!(written(&mut dac, "digital_in", at(0), high), Ok(true));
    assert_eq!(written(&mut dac, "digital_in", at(0), high), Ok(false));
    assert_eq!(dac.read_output("analog_out").unwrap(), volts(3.3));
}

#[test]
fn voltage_converters_start_low() {
    let low = CoSimulationValue::Digital(LogicValue::Zero);
    let high = CoSimulationValue::Digital(LogicValue::One);
    let volts = |value: f64| CoSimulationValue::Analog(bits(value));
    let mut adc = AdcCoSimulationParticipant::new("a", bits(-2.0), bits(-1.0)).unwrap();
    assert_eq!(adc.read_output("digital_out").unwrap(), low);
    assert_eq!(written(&mut adc, "analog_in", at(0), volts(0.0)), Ok(true));
    assert_eq!(adc.read_output("digital_out").unwrap(), high);
    assert_eq!(written(&mut adc, "analog_in", at(0), volts(0.0)), Ok(false));
    assert_eq!(written(&mut adc, "analog_in", at(0), volts(-1.5)), Ok(true));
    assert_eq!(adc.read_output("digital_out").unwrap(), high);
    assert_eq!(written(&mut adc, "analog_in", at(0), volts(-3.0)), Ok(true));
    assert_eq!(adc.read_output("digital_out").unwrap(), low);
    assert_eq!(written(&mut adc, "analog_in", at(0), volts(-1.0)), Ok(true));
    assert_eq!(adc.read_output("digital_out").unwrap(), high);
    adc.initialize(&ExecutionControl::default()).unwrap();
    assert_eq!(adc.read_output("digital_out").unwrap(), low);
}

#[test]
fn converters_join_two_domains() {
    let adc = AdcCoSimulationParticipant::new("adc", bits(1.0), bits(2.0)).unwrap();
    assert_eq!(
        adc.ports(),
        &vec![
            CoSimulationPort::analog("analog_in", PinDirection::Input, Unit::Volt),
            CoSimulationPort::digital("digital_out", PinDirection::Output),
        ]
    );
    let dac = DacCoSimulationParticipant::new("dac", bits(0.0), bits(3.3)).unwrap();
    assert_eq!(
        dac.ports(),
        &vec![
            CoSimulationPort::digital("digital_in", PinDirection::Input),
            CoSimulationPort::analog("analog_out", PinDirection::Output, Unit::Volt),
        ]
    );
}

#[test]
fn converters_refuse_what_does_not_fit() {
    let control = ExecutionControl::default();
    let high = CoSimulationValue::Digital(LogicValue::One);
    let volts = |value: f64| CoSimulationValue::Analog(bits(value));
    let refused = |code: &str| Err(code.to_owned());

    assert_eq!(
        AdcCoSimulationParticipant::new(" ", bits(1.0), bits(2.0))
            .err()
            .map(|error| error.code().to_owned()),
        Some("adc_cosim_participant_invalid".to_owned())
    );
    assert_eq!(
        AdcCoSimulationParticipant::new("adc", bits(2.0), bits(2.0))
            .err()
            .map(|error| error.code().to_owned()),
        Some("adc_cosim_threshold_invalid".to_owned())
    );
    let mut adc = AdcCoSimulationParticipant::new("adc", bits(1.0), bits(2.0)).unwrap();
    adc.advance_to(at(5), &control).unwrap();
    assert_eq!(
        written(&mut adc, "out", at(5), volts(1.0)),
        refused("adc_cosim_port_missing")
    );
    assert_eq!(
        written(&mut adc, "analog_in", at(4), volts(1.0)),
        refused("adc_cosim_time_invalid")
    );
    assert_eq!(
        written(&mut adc, "analog_in", at(5), high),
        refused("adc_cosim_domain_mismatch")
    );
    assert_eq!(
        written(&mut adc, "analog_in", at(5), volts(f64::INFINITY)),
        refused("adc_cosim_value_invalid")
    );
    assert_eq!(
        adc.advance_to(at(4), &control).unwrap_err().code(),
        "adc_cosim_time_invalid"
    );
    assert_eq!(
        adc.read_output("analog_in").unwrap_err().code(),
        "adc_cosim_port_missing"
    );

    assert_eq!(
        DacCoSimulationParticipant::new("", bits(0.0), bits(1.0))
            .err()
            .map(|error| error.code().to_owned()),
        Some("dac_cosim_participant_invalid".to_owned())
    );
    assert_eq!(
        DacCoSimulationParticipant::new("dac", bits(0.0), bits(f64::NAN))
            .err()
            .map(|error| error.code().to_owned()),
        Some("dac_cosim_voltage_invalid".to_owned())
    );
    let mut dac = DacCoSimulationParticipant::new("dac", bits(0.0), bits(1.0)).unwrap();
    assert_eq!(
        written(&mut dac, "x", at(0), high),
        refused("dac_cosim_port_missing")
    );
    assert_eq!(
        written(&mut dac, "digital_in", at(1), high),
        refused("dac_cosim_time_invalid")
    );
    assert_eq!(
        written(&mut dac, "digital_in", at(0), volts(1.0)),
        refused("dac_cosim_domain_mismatch")
    );
    assert_eq!(
        written(
            &mut dac,
            "digital_in",
            at(0),
            CoSimulationValue::Digital(LogicValue::Z)
        ),
        refused("dac_cosim_two_state_input")
    );
}

fn pin(id: &str, direction: PinDirection) -> Pin {
    Pin::new(id, id, SignalDomain::Digital, direction)
}

fn inverter() -> SimulationRequest {
    SimulationRequest {
        circuit: Circuit::new()
            .with_component(
                Component::new("inv", ComponentKind::not_gate())
                    .with_pin(pin("in", PinDirection::Input))
                    .with_pin(pin("out", PinDirection::Output)),
            )
            .with_net(Net::new("a").connect(NetEndpoint::new("inv", "in")))
            .with_net(Net::new("q").connect(NetEndpoint::new("inv", "out"))),
        analysis: Analysis::DigitalTransient { stop: bits(1e-9) },
        probes: Vec::new(),
    }
}

fn bound(port: &str, net: &str, direction: PinDirection) -> DigitalCoSimulationBinding {
    DigitalCoSimulationBinding {
        port: port.to_owned(),
        net: net.to_owned(),
        direction,
    }
}

#[test]
fn circuits_take_part_by_their_bindings() {
    let made = |bindings: Vec<DigitalCoSimulationBinding>| {
        DigitalCoSimulationParticipant::new("d", inverter(), bindings)
    };
    let code = |bindings: Vec<DigitalCoSimulationBinding>| {
        made(bindings)
            .err()
            .map_or(String::new(), |error| error.code().to_owned())
    };
    assert_eq!(code(Vec::new()), "digital_cosim_binding_missing");
    assert_eq!(
        code(vec![bound(" ", "a", PinDirection::Input)]),
        "digital_cosim_binding_invalid"
    );
    assert_eq!(
        code(vec![bound("in", "z", PinDirection::Input)]),
        "digital_cosim_binding_invalid"
    );
    assert_eq!(
        code(vec![bound("in", "a", PinDirection::Passive)]),
        "digital_cosim_binding_invalid"
    );
    assert_eq!(
        code(vec![bound("in", "q", PinDirection::Input)]),
        "digital_cosim_input_driven"
    );
    assert_eq!(
        code(vec![
            bound("x", "a", PinDirection::Input),
            bound("x", "q", PinDirection::Output)
        ]),
        "digital_cosim_binding_duplicate"
    );
    assert_eq!(
        DigitalCoSimulationParticipant::new(
            " ",
            inverter(),
            vec![bound("in", "a", PinDirection::Input)]
        )
        .err()
        .map(|error| error.code().to_owned()),
        Some("digital_cosim_participant_invalid".to_owned())
    );

    let control = ExecutionControl::default();
    let high = CoSimulationValue::Digital(LogicValue::One);
    let mut part = made(vec![
        bound("in", "a", PinDirection::Input),
        bound("out", "q", PinDirection::Output),
    ])
    .unwrap();
    assert_eq!(
        part.read_output("out").unwrap_err().code(),
        "digital_cosim_not_initialized"
    );
    part.initialize(&control).unwrap();
    assert_eq!(
        part.read_output("z").unwrap_err().code(),
        "digital_cosim_port_missing"
    );
    assert_eq!(
        part.read_output("in").unwrap_err().code(),
        "digital_cosim_port_direction"
    );
    assert_eq!(
        written(&mut part, "out", at(0), high),
        Err("digital_cosim_port_direction".to_owned())
    );
    assert_eq!(
        written(&mut part, "in", at(0), CoSimulationValue::Analog(bits(1.0))),
        Err("digital_cosim_domain_mismatch".to_owned())
    );
    assert_eq!(
        written(&mut part, "in", at(1), high),
        Err("digital_cosim_time_invalid".to_owned())
    );
    assert_eq!(written(&mut part, "in", at(0), high), Ok(true));
    assert_eq!(
        part.read_output("out").unwrap(),
        CoSimulationValue::Digital(LogicValue::Zero)
    );
    assert_eq!(written(&mut part, "in", at(0), high), Ok(false));
    part.advance_to(at(500), &control).unwrap();
    assert_eq!(part.current_time(), at(500));
    assert_eq!(
        part.advance_to(at(400), &control).unwrap_err().code(),
        "digital_cosim_time_invalid"
    );
    assert_eq!(
        part.advance_to(at(2_000), &control).unwrap_err().code(),
        "digital_cosim_time_invalid"
    );
}

fn code_of_run(request: &SimulationRequest) -> String {
    DigitalEngine::new()
        .simulate(request)
        .unwrap_err()
        .code()
        .to_owned()
}

#[test]
fn digital_requests_need_a_sound_circuit() {
    let mut bare = inverter();
    bare.circuit.nets.clear();
    bare.circuit.components.clear();
    assert_eq!(code_of_run(&bare), "digital_no_nets");
    let mut twice = inverter();
    twice
        .circuit
        .nets
        .push(Net::new("b").connect(NetEndpoint::new("inv", "in")));
    assert_eq!(code_of_run(&twice), "digital_endpoint_on_multiple_nets");
    let mut odd = inverter();
    odd.circuit
        .components
        .push(Component::new("r", ComponentKind::resistor()));
    assert_eq!(code_of_run(&odd), "digital_unsupported_component");
    let mut lost = inverter();
    lost.probes.push(Probe {
        endpoint: NetEndpoint::new("inv", "z"),
        alias: None,
    });
    assert_eq!(code_of_run(&lost), "digital_unknown_probe");
    let mut short = inverter();
    short.circuit.components[0].pins.pop();
    assert_eq!(code_of_run(&short), "digital_invalid_component");
    assert_eq!(
        LogicVector::from_u64(0, 1).unwrap_err().code(),
        "digital_invalid_bus_width"
    );
}

/// A circuit with a part and a source of a constant level at each of its inputs.
fn driven(part: Component, levels: &[(&str, i64)], seen: &str) -> LogicValue {
    let id = part.id.as_str().to_owned();
    let outputs: Vec<String> = part
        .pins
        .iter()
        .filter(|pin| pin.direction == PinDirection::Output)
        .map(|pin| pin.id.as_str().to_owned())
        .collect();
    let mut circuit = Circuit::new().with_component(part);
    for (name, level) in levels {
        circuit = circuit
            .with_component(
                Component::new(&format!("s_{name}"), ComponentKind::logic_input())
                    .with_pin(pin("out", PinDirection::Output))
                    .with_parameter("value", ParameterValue::Integer(*level)),
            )
            .with_net(
                Net::new(&format!("n_{name}"))
                    .connect(NetEndpoint::new(&format!("s_{name}"), "out"))
                    .connect(NetEndpoint::new(&id, name)),
            );
    }
    for name in &outputs {
        circuit = circuit.with_net(Net::new(&format!("o_{name}")).connect(NetEndpoint::new(&id, name)));
    }
    let request = SimulationRequest {
        circuit,
        analysis: Analysis::DigitalTransient { stop: bits(1e-9) },
        probes: vec![Probe {
            endpoint: NetEndpoint::new(&id, seen),
            alias: None,
        }],
    };
    let result = DigitalEngine::new().simulate(&request).unwrap();
    let Waveform::Digital(waveform) = &result.waveforms[0] else {
        panic!("expected a digital waveform");
    };
    waveform.transitions.last().unwrap().value
}

#[test]
fn latches_and_decoders_follow_their_inputs() {
    let latch = || {
        Component::new("l", ComponentKind::d_latch())
            .with_pin(pin("d", PinDirection::Input))
            .with_pin(pin("enable", PinDirection::Input))
            .with_pin(pin("q", PinDirection::Output))
    };
    assert_eq!(
        driven(latch(), &[("d", 1), ("enable", 1)], "q"),
        LogicValue::One
    );
    assert_eq!(
        driven(latch(), &[("d", 1), ("enable", 0)], "q"),
        LogicValue::X
    );
    let sr = || {
        Component::new("l", ComponentKind::sr_latch())
            .with_pin(pin("s", PinDirection::Input))
            .with_pin(pin("r", PinDirection::Input))
            .with_pin(pin("q", PinDirection::Output))
    };
    assert_eq!(driven(sr(), &[("s", 1), ("r", 0)], "q"), LogicValue::One);
    assert_eq!(driven(sr(), &[("s", 0), ("r", 1)], "q"), LogicValue::Zero);
    assert_eq!(driven(sr(), &[("s", 1), ("r", 1)], "q"), LogicValue::X);
    let flip = || {
        Component::new("f", ComponentKind::d_flip_flop())
            .with_pin(pin("d", PinDirection::Input))
            .with_pin(pin("clk", PinDirection::Input))
            .with_pin(pin("set", PinDirection::Input))
            .with_pin(pin("reset", PinDirection::Input))
            .with_pin(pin("q", PinDirection::Output))
    };
    let forced = |set: i64, reset: i64| {
        driven(
            flip(),
            &[("d", 0), ("clk", 0), ("set", set), ("reset", reset)],
            "q",
        )
    };
    assert_eq!(forced(1, 0), LogicValue::One);
    assert_eq!(forced(0, 1), LogicValue::Zero);
    assert_eq!(forced(1, 1), LogicValue::X);
    assert_eq!(forced(0, 0), LogicValue::X);
}

#[test]
fn histories_grow_in_time() {
    let clocked = SimulationRequest {
        circuit: Circuit::new()
            .with_component(
                Component::new("c", ComponentKind::digital_clock())
                    .with_pin(pin("out", PinDirection::Output))
                    .with_parameter("period", ParameterValue::Number(bits(2e-9))),
            )
            .with_net(Net::new("n").connect(NetEndpoint::new("c", "out"))),
        analysis: Analysis::DigitalTransient { stop: bits(5e-9) },
        probes: vec![Probe {
            endpoint: NetEndpoint::new("c", "out"),
            alias: None,
        }],
    };
    let result = DigitalEngine::new().simulate(&clocked).unwrap();
    let Waveform::Digital(waveform) = &result.waveforms[0] else {
        panic!("expected a digital waveform");
    };
    let times: Vec<f64> = waveform
        .transitions
        .iter()
        .map(|transition| f64::from_bits(transition.time.bits))
        .collect();
    assert_eq!(times[0], 0.0);
    assert!(times.len() > 2);
    assert!(times.windows(2).all(|pair| pair[0] < pair[1]));
    assert!(times.iter().all(|time| *time <= 5e-9));
}
