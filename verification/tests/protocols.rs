use ontologyx_sim_core::circuit::{Circuit, NetEndpoint, PinDirection};
use ontologyx_sim_core::control::ExecutionPolicy;
use ontologyx_sim_core::cosim::{CoSimulationPort, CoSimulationTime, CoSimulationValue};
use ontologyx_sim_core::draft::{Draft, Piece};
use ontologyx_sim_core::firmware::FirmwareArtifact;
use ontologyx_sim_core::hdl::{escape_sv_string, seconds_to_picoseconds};
use ontologyx_sim_core::lines::{split_pieces, split_words, unify_line_ends};
use ontologyx_sim_core::mixed::CompiledMixedRequest;
use ontologyx_sim_core::ngspice::{AnalogProbe, CompiledRequest};
use ontologyx_sim_core::renode::{check_board_wait, parse_gpio_mapping, RenodeProbe};
use ontologyx_sim_core::renode_cosim::{
    check_answer_wait, check_start_wait, helper_arguments, parse_board_state, plan_pause,
    BoardSession,
};
use ontologyx_sim_core::runs::{
    check_exit, check_start, conclude_mixed, conclude_ngspice, conclude_renode,
    conclude_verilator, conclude_xspice, ngspice_info, renode_info, settle_log, spawn_error,
    verilator_info, Dump, MixedDump, MixedTable, Printed, RunEnd,
};
use ontologyx_sim_core::spice_results::{
    bounded_log, check_wait, enforce_buffer_limit, extract_warnings, Cell, TableRow,
};
use ontologyx_sim_core::stimulus::clock_events;
use ontologyx_sim_core::text::{hex_text, lowercase_text, padded_hex_text, to_chars, trim_text};
use ontologyx_sim_core::vcd::VcdNumbers;
use ontologyx_sim_core::verilator::{
    check_hdl_wait, extract_verilator_warnings, CompiledVerilatorRequest,
};
use ontologyx_sim_core::verilator_cosim::{
    check_cosim_control, check_hdl_start, cosim_source_file, generate_cosim_harness, HdlSession,
    PortLevels,
};
use ontologyx_sim_core::xspice::{floor_delay, CompiledXSpiceRequest, EventProbe};
use ontologyx_sim_core::{
    Analysis, AxisKind, EngineError, LogicValue, ModelDefinition, Probe, Real,
    RenodeCoSimulationBinding, RenodeCoSimulationConfig, RenodeCoSimulationParticipant,
    RenodeTarget, SimulationRequest, Unit, VerilatorCoSimulationParticipant, Waveform,
};

fn bits(value: f64) -> Real {
    Real::from_bits(value.to_bits())
}

fn at(picoseconds: u64) -> CoSimulationTime {
    CoSimulationTime::from_picoseconds(picoseconds)
}

fn high() -> CoSimulationValue {
    CoSimulationValue::Digital(LogicValue::One)
}

fn rtl() -> ModelDefinition {
    ModelDefinition::system_verilog_module(
        "counter",
        "counter",
        "module counter(input logic clk, output logic q); always_ff @(posedge clk) q <= ~q; endmodule",
    )
}

fn ports() -> Vec<CoSimulationPort> {
    vec![
        CoSimulationPort::digital("clk", PinDirection::Input),
        CoSimulationPort::digital("q", PinDirection::Output),
    ]
}

fn hdl_participant() -> VerilatorCoSimulationParticipant {
    VerilatorCoSimulationParticipant::new("rtl", rtl(), ports()).unwrap()
}

#[test]
fn hdl_participants_speak_the_protocol() {
    let mut participant = hdl_participant();
    assert_eq!(participant.executable, "verilator");
    assert_eq!(participant.current_time(), at(0));
    assert_eq!(
        participant.read_output("q").unwrap_err().code(),
        "verilator_cosim_not_initialized"
    );
    let mut session = HdlSession::open(&participant.ports);
    session.take_state("STATE 0 q=0 NEXT=500\n").unwrap();
    participant.session = Some(session);
    assert_eq!(participant.next_event_time(), Some(at(500)));
    assert_eq!(
        participant.read_output("q").unwrap(),
        CoSimulationValue::Digital(LogicValue::Zero)
    );
    assert_eq!(
        participant.plan_write("clk", at(0), &high()).unwrap(),
        Some("SET 0 1".to_owned())
    );
    let session = participant.session.as_mut().unwrap();
    session.note_input("clk", LogicValue::One);
    assert_eq!(participant.plan_write("clk", at(0), &high()).unwrap(), None);
    assert_eq!(
        participant.plan_advance(at(700)).unwrap(),
        Some("ADV 700".to_owned())
    );
    let session = participant.session.as_mut().unwrap();
    session.take_state("STATE 600 q=1 NEXT=-").unwrap();
    assert_eq!(
        session.check_arrival(at(700)).unwrap_err().message(),
        "Verilator co-simulation session advanced to 600 ps instead of 700 ps"
    );
    session.take_state("STATE 700 q=1 NEXT=-").unwrap();
    assert!(session.check_arrival(at(700)).is_ok());
    assert_eq!(participant.plan_advance(at(700)).unwrap(), None);
    assert_eq!(
        participant.plan_advance(at(699)).unwrap_err().code(),
        "verilator_cosim_time_invalid"
    );
    assert_eq!(participant.next_event_time(), None);
}

#[test]
fn hdl_participants_refuse_what_does_not_fit() {
    let participant = hdl_participant();
    assert_eq!(
        participant.plan_write("q", at(0), &high()).unwrap_err().code(),
        "verilator_cosim_port_direction"
    );
    assert_eq!(
        participant.plan_write("nope", at(0), &high()).unwrap_err().code(),
        "verilator_cosim_port_missing"
    );
    assert_eq!(
        participant
            .plan_write("clk", at(0), &CoSimulationValue::Analog(bits(1.0)))
            .unwrap_err()
            .code(),
        "verilator_cosim_domain_mismatch"
    );
    assert_eq!(
        participant
            .plan_write("clk", at(0), &CoSimulationValue::Digital(LogicValue::X))
            .unwrap_err()
            .code(),
        "verilator_cosim_two_state_input"
    );
    assert_eq!(
        VerilatorCoSimulationParticipant::new(" ", rtl(), ports()).unwrap_err().code(),
        "verilator_cosim_participant_invalid"
    );
    let spice = ModelDefinition::spice_device("d", "D1", ".model D1 D");
    assert_eq!(
        VerilatorCoSimulationParticipant::new("rtl", spice, ports()).unwrap_err().code(),
        "verilator_cosim_model_invalid"
    );
    assert_eq!(cosim_source_file(&rtl()), "oxsim_cosim_model.sv");
}

#[test]
fn harness_ports_are_checked() {
    let code = |ports: Vec<CoSimulationPort>| {
        generate_cosim_harness(&ports).unwrap_err().code().to_owned()
    };
    assert_eq!(code(Vec::new()), "verilator_cosim_port_missing");
    assert_eq!(
        code(vec![CoSimulationPort::analog(
            "v",
            PinDirection::Input,
            Unit::Volt
        )]),
        "verilator_cosim_port_invalid"
    );
    assert_eq!(
        code(vec![CoSimulationPort::digital(
            "io",
            PinDirection::Bidirectional
        )]),
        "verilator_cosim_port_invalid"
    );
    assert_eq!(
        code(vec![CoSimulationPort::digital("a[0]", PinDirection::Input)]),
        "verilator_cosim_port_invalid"
    );
    assert_eq!(
        code(vec![
            CoSimulationPort::digital("a", PinDirection::Input),
            CoSimulationPort::digital("a", PinDirection::Output),
        ]),
        "verilator_cosim_port_duplicate"
    );
    let harness = generate_cosim_harness(&ports()).unwrap();
    assert!(harness.starts_with("#include \"OxCosimModel.h\"\n#include \"verilated.h\"\n"));
    assert!(harness.contains("\n  std::cout << \" q=\" << static_cast<unsigned>(top->q & 1U);\n"));
    assert!(harness.contains("\n  top->clk = 0;\n  top->eval();\n"));
    assert!(harness.ends_with("  top->final();\n  return 0;\n}"));
}

#[test]
fn faulty_state_lines_are_refused() {
    let code_of = |line: &str| {
        let mut session = HdlSession::open(&ports());
        session.take_state(line).unwrap_err().message().to_owned()
    };
    assert!(code_of("HELLO").starts_with("expected Verilator STATE response"));
    assert_eq!(code_of("STATE"), "Verilator STATE response is missing time");
    assert!(code_of("STATE x q=0").starts_with("invalid Verilator STATE time"));
    assert!(code_of("STATE 5 q=2").starts_with("invalid two-state Verilator output `q=2`"));
    assert!(code_of("STATE 5 q=0 NEXT=z").starts_with("invalid Verilator NEXT time"));
    assert!(code_of("STATE 5 NEXT=-").starts_with("Verilator STATE response omitted"));
    assert_eq!(
        code_of("STATE 5 q=0 NEXT=5"),
        "Verilator reported a non-future next event"
    );
}

#[test]
fn port_levels_are_read_back() {
    let mut levels = PortLevels::new();
    levels.insert("a", LogicValue::One);
    levels.insert("b", LogicValue::Z);
    levels.insert("a", LogicValue::Zero);
    assert_eq!(levels.get("a"), Some(LogicValue::Zero));
    assert_eq!(levels.get("b"), Some(LogicValue::Z));
    assert_eq!(levels.get("c"), None);
}

fn config() -> RenodeCoSimulationConfig {
    RenodeCoSimulationConfig::new("1234", "board")
}

fn bindings() -> Vec<RenodeCoSimulationBinding> {
    vec![
        RenodeCoSimulationBinding::input("button", "sysbus.gpioA", 0),
        RenodeCoSimulationBinding::output("led", "sysbus.gpioD", 12),
        RenodeCoSimulationBinding::bidirectional("bus", "sysbus.gpioB", 3),
    ]
}

#[test]
fn board_participants_speak_the_protocol() {
    let mut participant =
        RenodeCoSimulationParticipant::new("mcu", config(), bindings()).unwrap();
    assert_eq!(
        helper_arguments(&participant.config, &participant.bindings).join(" "),
        "--server-port 1234 --machine board --binding sysbus.gpioA,0,in --binding sysbus.gpioD,12,out --binding sysbus.gpioB,3,io"
    );
    let mut session = BoardSession::open(3);
    session.take_state("STATE 0 0 0 1\n").unwrap();
    participant.begin(session).unwrap();
    assert_eq!(participant.next_event_time(), Some(at(1_000)));
    assert_eq!(
        participant.read_output("bus").unwrap(),
        CoSimulationValue::Digital(LogicValue::One)
    );
    assert_eq!(
        participant.plan_write("button", at(0), &high()).unwrap(),
        Some("SET 0 1".to_owned())
    );
    assert_eq!(participant.plan_write("bus", at(0), &high()).unwrap(), None);
    assert_eq!(
        participant.plan_advance(at(1_500)).unwrap_err().code(),
        "renode_cosim_time_resolution"
    );
    assert_eq!(
        participant.plan_advance(at(2_000)).unwrap(),
        Some("ADV 2000".to_owned())
    );
    let session = participant.session.as_mut().unwrap();
    session.take_state("STATE 2000 1 1 1").unwrap();
    assert!(session.check_arrival(at(2_000)).is_ok());
    assert_eq!(
        session.check_arrival(at(3_000)).unwrap_err().code(),
        "renode_cosim_protocol_error"
    );
    assert_eq!(
        participant.plan_write("button", at(0), &high()).unwrap_err().code(),
        "renode_cosim_time_invalid"
    );
}

#[test]
fn board_participants_refuse_what_does_not_fit() {
    let mut participant =
        RenodeCoSimulationParticipant::new("mcu", config(), bindings()).unwrap();
    assert_eq!(
        participant.read_output("button").unwrap_err().code(),
        "renode_cosim_port_direction"
    );
    assert_eq!(
        participant.read_output("led").unwrap_err().code(),
        "renode_cosim_not_initialized"
    );
    assert_eq!(
        participant.plan_write("led", at(0), &high()).unwrap_err().code(),
        "renode_cosim_port_direction"
    );
    assert_eq!(
        participant
            .plan_write("button", at(0), &CoSimulationValue::Digital(LogicValue::Z))
            .unwrap_err()
            .code(),
        "renode_cosim_two_state_input"
    );
    let mut late = BoardSession::open(3);
    late.take_state("STATE 7 0 0 0").unwrap();
    assert_eq!(
        participant.begin(late).unwrap_err().code(),
        "renode_cosim_time_origin"
    );
    assert!(participant.session.is_none());
    for (line, start) in [
        ("BUSY", "expected `STATE` from Renode helper"),
        ("STATE x", "invalid Renode helper time"),
        ("STATE 1 0 0", "invalid Renode helper GPIO state"),
        ("STATE 1 0 0 2", "invalid Renode helper GPIO state"),
        ("STATE 1 0 0 0 0", "Renode helper returned extra state fields"),
    ] {
        let error = parse_board_state(line, 3).unwrap_err();
        assert!(error.message().starts_with(start), "{line}");
    }
}

#[test]
fn board_configurations_are_checked() {
    assert!(config().validate().is_ok());
    for port in ["", "12a", "0", "65536"] {
        let bad = RenodeCoSimulationConfig::new(port, "board");
        assert_eq!(
            bad.validate().unwrap_err().code(),
            "renode_cosim_config_invalid"
        );
    }
    assert!(config().with_helper("").validate().is_err());
    assert!(RenodeCoSimulationConfig::new("1", "1x").validate().is_err());
    assert_eq!(
        config().with_quantum(at(1_500)).validate().unwrap_err().code(),
        "renode_cosim_time_resolution"
    );
    let refused = |binding: RenodeCoSimulationBinding| {
        RenodeCoSimulationParticipant::new("mcu", config(), vec![binding])
            .unwrap_err()
            .code()
            .to_owned()
    };
    let code = "renode_cosim_binding_invalid";
    assert_eq!(refused(RenodeCoSimulationBinding::input("1", "a", 0)), code);
    assert_eq!(refused(RenodeCoSimulationBinding::input("p", "a..b", 0)), code);
    assert_eq!(refused(RenodeCoSimulationBinding::input("p", "a", -1)), code);
    let twice = vec![
        RenodeCoSimulationBinding::input("p", "a", 0),
        RenodeCoSimulationBinding::output("p", "b", 0),
    ];
    assert_eq!(
        RenodeCoSimulationParticipant::new("mcu", config(), twice).unwrap_err().code(),
        code
    );
}

#[test]
fn waits_end_in_time() {
    let policy = ExecutionPolicy {
        timeout_ms: 100,
        poll_interval_ms: 30,
        max_log_bytes: 10,
        max_output_bytes: 20,
        ..ExecutionPolicy::default()
    };
    assert_eq!(plan_pause(&policy, 0), 30);
    assert_eq!(plan_pause(&policy, 90), 10);
    assert_eq!(check_answer_wait(&policy, false, 99).unwrap(), 1);
    assert!(check_answer_wait(&policy, false, 100).unwrap_err().is_timeout());
    assert!(check_answer_wait(&policy, true, 0).unwrap_err().is_cancelled());
    assert_eq!(
        check_start_wait(&policy, 100, "busy").unwrap_err().message(),
        "Renode co-simulation helper could not start within 100 ms: busy"
    );
    assert!(check_board_wait(&policy, false, 99, 10).is_ok());
    assert!(check_board_wait(&policy, false, 0, 11).unwrap_err().is_resource_limit());
    assert!(check_hdl_wait(&policy, "build", true, 0, 0, 0).unwrap_err().is_cancelled());
    let late = check_hdl_wait(&policy, "build", false, 100, 0, 0).unwrap_err();
    assert!(late.is_timeout() && late.is_retryable());
    assert!(check_hdl_wait(&policy, "build", false, 0, 0, 21).is_err());
    assert!(check_wait(&policy, false, 1, 10, 20).is_ok());
    assert!(check_wait(&policy, false, 1, 11, 0).is_err());
    assert!(check_cosim_control(&policy, false).is_ok());
    assert_eq!(
        check_hdl_start(&policy, true).unwrap_err().code(),
        "execution_cancelled"
    );
    assert!(enforce_buffer_limit("log", 5, 0).is_ok());
}

fn empty_request(analysis: Analysis) -> SimulationRequest {
    SimulationRequest {
        circuit: Circuit::new(),
        analysis,
        probes: vec![Probe {
            endpoint: NetEndpoint::new("a", "b"),
            alias: None,
        }],
    }
}

fn ended(success: bool, log: &str) -> RunEnd {
    RunEnd {
        success,
        status: "exit status: 1".to_owned(),
        log: log.to_owned(),
    }
}

fn row(values: &[f64]) -> TableRow {
    TableRow {
        text: "row".to_owned(),
        cells: values
            .iter()
            .map(|value| Cell {
                text: format!("{value}"),
                value: Some(bits(*value)),
            })
            .collect(),
    }
}

fn divider() -> CompiledRequest {
    CompiledRequest {
        netlist: Draft::new(),
        probes: vec![AnalogProbe {
            signal: "vout".to_owned(),
            expression: "v(n2)".to_owned(),
        }],
        axis_kind: AxisKind::Time,
        axis_unit: Unit::Second,
        complex: false,
    }
}

#[test]
fn analog_runs_are_concluded() {
    let request = empty_request(Analysis::Transient {
        step: bits(1.0),
        stop: bits(2.0),
    });
    let result = conclude_ngspice(
        &request,
        &divider(),
        &ended(true, "Warning: odd\nfine\n"),
        Ok(vec![row(&[0.0, 1.0]), row(&[1.0, 2.5])]),
        Some("ngspice-42".to_owned()),
    )
    .unwrap();
    let Waveform::Analog(waveform) = &result.waveforms[0] else {
        panic!("expected an analog waveform");
    };
    assert_eq!(waveform.values, vec![bits(1.0), bits(2.5)]);
    assert_eq!(waveform.axis.values, vec![bits(0.0), bits(1.0)]);
    assert_eq!(result.diagnostics.len(), 2);
    assert_eq!(result.diagnostics[0].message, "ngspice-42");
    assert_eq!(result.diagnostics[1].message, "Warning: odd");
    assert_eq!(result.stats.point_count, 2);

    let failed = conclude_ngspice(&request, &divider(), &ended(false, "boom"), Ok(Vec::new()), None);
    assert_eq!(
        failed.unwrap_err().message(),
        "ngspice exited with exit status: 1: boom"
    );
    let none = conclude_ngspice(&request, &divider(), &ended(true, ""), Ok(Vec::new()), None);
    assert_eq!(none.unwrap_err().code(), "ngspice_empty_result");
    let unread = conclude_ngspice(
        &request,
        &divider(),
        &ended(true, "log"),
        Err(EngineError::new("ngspice_result_read_failed", "gone")),
        None,
    )
    .unwrap_err();
    assert_eq!(unread.code(), "ngspice_result_missing");
    assert!(unread.message().ends_with("gone; log: log"));
    let large = conclude_ngspice(
        &request,
        &divider(),
        &ended(true, ""),
        Err(EngineError::new("execution_resource_limit", "large")),
        None,
    );
    assert!(large.unwrap_err().is_resource_limit());
}

fn dump() -> Dump {
    Dump {
        source: "$timescale 1 ns $end\n$var wire 1 ! d0 $end\n$enddefinitions $end\n#0\n0!\n#5\n1!\n"
            .to_owned(),
        numbers: VcdNumbers {
            magnitude: Some(bits(1.0)),
            times: vec![Some(bits(0.0)), Some(bits(5.0))],
        },
    }
}

fn event_probe() -> EventProbe {
    EventProbe {
        signal: "out".to_owned(),
        node: "d0".to_owned(),
    }
}

#[test]
fn event_runs_are_concluded() {
    let request = empty_request(Analysis::DigitalTransient { stop: bits(1.0) });
    let compiled = CompiledXSpiceRequest {
        netlist: Draft::new(),
        stimulus: Draft::new(),
        probes: vec![event_probe()],
        delay_floor_applied: true,
    };
    let result =
        conclude_xspice(&request, &compiled, &ended(true, ""), Ok(dump()), None).unwrap();
    let Waveform::Digital(waveform) = &result.waveforms[0] else {
        panic!("expected a digital waveform");
    };
    assert_eq!(waveform.transitions.len(), 2);
    assert_eq!(
        result.diagnostics[2].message,
        "XSPICE gate delay values below 1.000e-12 s were clamped to the solver minimum"
    );
    let missing = conclude_xspice(
        &request,
        &compiled,
        &ended(true, "Unknown model type d_source"),
        Ok(dump()),
        None,
    );
    assert_eq!(missing.unwrap_err().code(), "xspice_unavailable");
    let bench = CompiledVerilatorRequest {
        sources: Vec::new(),
        wrapper: Draft::new(),
        probes: vec![event_probe()],
    };
    let warnings: Vec<String> = (0..20).map(|i| format!("%Warning-{i}")).collect();
    let result = conclude_verilator(
        &request,
        &bench,
        &warnings.join("\n"),
        "%Warning-run",
        &dump(),
        None,
    )
    .unwrap();
    assert_eq!(result.diagnostics.len(), 17);
    assert_eq!(result.engine.as_str(), "verilator");
}

#[test]
fn mixed_runs_are_concluded() {
    let request = empty_request(Analysis::MixedSignalTransient {
        step: bits(1.0),
        stop: bits(2.0),
    });
    let compiled = CompiledMixedRequest {
        netlist: Draft::new(),
        stimulus: Draft::new(),
        analog_probes: divider().probes,
        digital_probes: vec![event_probe()],
        delay_floor_applied: false,
    };
    let policy = ExecutionPolicy {
        max_output_bytes: 100,
        ..ExecutionPolicy::default()
    };
    let table = |bytes: u64| {
        Some(Ok(MixedTable {
            lines: vec![row(&[0.0, 1.0])],
            bytes,
        }))
    };
    let events = |bytes: u64| {
        Some(Ok(MixedDump {
            dump: dump(),
            bytes,
        }))
    };
    let result = conclude_mixed(
        &request,
        &compiled,
        &policy,
        &ended(true, ""),
        table(50),
        events(50),
        None,
    )
    .unwrap();
    assert!(matches!(result.waveforms[0], Waveform::Analog(_)));
    assert!(matches!(result.waveforms[1], Waveform::Digital(_)));
    let large = conclude_mixed(
        &request,
        &compiled,
        &policy,
        &ended(true, ""),
        table(50),
        events(51),
        None,
    );
    assert!(large.unwrap_err().is_resource_limit());
    let unread = conclude_mixed(
        &request,
        &compiled,
        &policy,
        &ended(true, ""),
        table(1),
        Some(Err(EngineError::new("mixed_signal_digital_result_read_failed", "x"))),
        None,
    );
    assert_eq!(
        unread.unwrap_err().code(),
        "mixed_signal_digital_result_read_failed"
    );
}

#[test]
fn firmware_runs_are_concluded() {
    let request = empty_request(Analysis::FirmwareTransient {
        step: bits(1e-3),
        stop: bits(1e-3),
    });
    let probes = vec![RenodeProbe {
        signal: "led".to_owned(),
        source_index: 0,
    }];
    let log = "OXSIM_GPIO|0|0.0\nTrue\n\"OXSIM_GPIO|0|0.001\"\n(False)\n";
    let times = vec![Some(bits(0.0)), Some(bits(0.001))];
    let result = conclude_renode(
        &request,
        &probes,
        1,
        &ended(true, log),
        &times,
        "0.00100000000000000",
        None,
    )
    .unwrap();
    let Waveform::Digital(waveform) = &result.waveforms[0] else {
        panic!("expected a digital waveform");
    };
    assert_eq!(waveform.transitions.len(), 2);
    assert!(result.diagnostics[0].message.contains("with 0.00100000000000000s GPIO sampling"));
    let unfinished = conclude_renode(
        &request,
        &probes,
        1,
        &ended(true, "OXSIM_GPIO|0|0.0\n"),
        &times,
        "0.001",
        None,
    );
    assert_eq!(unfinished.unwrap_err().code(), "renode_output_invalid");
}

#[test]
fn tools_say_which_they_are() {
    let printed = |stdout: &str, stderr: &str| {
        Some(Printed {
            success: true,
            stdout: stdout.to_owned(),
            stderr: stderr.to_owned(),
        })
    };
    let spice = ngspice_info("ngspice", printed("******\n** ngspice-42 : circuit\n", ""));
    assert!(spice.available);
    assert_eq!(spice.version.unwrap(), "** ngspice-42 : circuit");
    assert!(!ngspice_info("ngspice", None).available);
    assert_eq!(
        verilator_info("verilator", printed("  \n", "Verilator 5\n")).version.unwrap(),
        "Verilator 5"
    );
    assert_eq!(renode_info("renode", printed("", "")).version, None);
    assert_eq!(
        spawn_error("spawn", "missing", true, "ngspice", "no such file").code(),
        "missing"
    );
    assert!(check_exit("code", "tool", &ended(true, "")).is_ok());
    assert_eq!(
        settle_log(Err(EngineError::new("unread", "x")), "unread").unwrap(),
        ""
    );
    assert!(settle_log(Err(EngineError::new("other", "x")), "unread").is_err());
    assert_eq!(
        check_start(&ExecutionPolicy::default(), true, "XSPICE").unwrap_err().message(),
        "simulation was cancelled before XSPICE execution"
    );
}

#[test]
fn logs_are_shown_in_part() {
    assert_eq!(bounded_log("  short \n"), "short");
    let long = "x".repeat(5000);
    let shown = bounded_log(&long);
    assert_eq!(shown.chars().count(), 4001);
    assert!(shown.starts_with('…'));
    let many = "warning: one\n".repeat(30);
    assert_eq!(extract_warnings(&many).len(), 16);
    assert_eq!(
        extract_verilator_warnings("%Warning-A\n%Warning-A\nnote\n Warning b\n"),
        vec!["%Warning-A".to_owned(), "Warning b".to_owned()]
    );
}

#[test]
fn targets_are_checked() {
    let target = |platform: &str| {
        RenodeTarget::new("mcu", platform, FirmwareArtifact::elf(vec![1]))
    };
    assert!(target("boards/a-b_c.repl").validate().is_ok());
    for bad in ["", "/a.repl", "a.txt", "a//b.repl", "./a.repl", "../a.repl", "a b.repl"] {
        assert_eq!(
            target(bad).validate().unwrap_err().code(),
            "renode_target_invalid",
            "{bad}"
        );
    }
    assert!(target("a.repl").with_cpu("cpu..x").validate().is_err());
    let observed = target("a.repl")
        .with_gpio_observer("gpioB@1", "sysbus.b")
        .with_gpio_observer("gpioA@1", "sysbus.a")
        .with_gpio_observer("gpioB@1", "sysbus.c");
    let objects: Vec<&str> = observed.gpio_observers.iter().map(|o| o.object.as_str()).collect();
    assert_eq!(objects, ["sysbus.a", "sysbus.c"]);
    assert!(observed.validate().is_ok());
    assert!(observed.with_gpio_observer("gpioB", "x").validate().is_err());
    let raw = RenodeTarget::new("mcu", "a.repl", FirmwareArtifact::binary(vec![1], 0x8000));
    assert!(raw.validate().is_ok());
    assert_eq!(
        parse_gpio_mapping(" gpioPortD@12 ").unwrap(),
        ("gpioPortD".to_owned(), 12)
    );
    assert_eq!(
        parse_gpio_mapping("gpio@x").unwrap_err(),
        "GPIO pin must be an unsigned integer"
    );
}

#[test]
fn small_texts() {
    assert_eq!(hex_text(0), "0");
    assert_eq!(hex_text(0x8000_00ff), "800000ff");
    assert_eq!(padded_hex_text(0xabc, 6), "000abc");
    assert_eq!(padded_hex_text(0xabcdef, 2), "abcdef");
    assert_eq!(lowercase_text("AbÇ1"), "abÇ1");
    assert_eq!(trim_text("\t a b \n"), "a b");
    assert_eq!(split_words(&to_chars(" a  b ")).len(), 2);
    assert_eq!(split_pieces(&to_chars("a//b"), '/').len(), 3);
    assert_eq!(unify_line_ends(&to_chars("a\r\nb\rc")), to_chars("a\nb\nc"));
    assert_eq!(escape_sv_string("a\"b\\"), "a\\\"b\\\\");
    assert_eq!(seconds_to_picoseconds(bits(1.5e-9), "delay").unwrap(), 1500);
    assert_eq!(
        seconds_to_picoseconds(bits(0.0), "delay").unwrap_err().code(),
        "verilator_time_invalid"
    );
    assert_eq!(floor_delay(bits(1e-15)), (bits(1e-12), true));
    assert_eq!(floor_delay(bits(1e-9)), (bits(1e-9), false));
}

#[test]
fn clocks_flip_at_their_times() {
    let events = clock_events(bits(12e-9), bits(10e-9), bits(0.25), LogicValue::Zero).unwrap();
    let times: Vec<f64> = events.iter().map(|event| f64::from_bits(event.0.bits)).collect();
    assert_eq!(times[0], 0.0);
    assert!((times[1] - 7.5e-9).abs() < 1e-20);
    assert!((times[2] - 10e-9).abs() < 1e-20);
    let mut draft = Draft::of("x ");
    draft.number(bits(1.0));
    assert!(matches!(draft.pieces[1], Piece::Number(_)));
}
