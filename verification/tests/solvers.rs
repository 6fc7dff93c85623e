use ontologyx_sim_core::circuit::{
    Circuit, Component, ComponentKind, Net, NetEndpoint, ParameterValue, Pin, PinDirection,
    SignalDomain,
};
use ontologyx_sim_core::cosim::{CoSimulationPort, CoSimulationTime};
use ontologyx_sim_core::draft::{Draft, Piece};
use ontologyx_sim_core::firmware::FirmwareArtifact;
use ontologyx_sim_core::hdl::{parse_port_reference, validate_hdl_source};
use ontologyx_sim_core::spice_models::compile_models;
use ontologyx_sim_core::spice_results::{parse_wrdata, split_table, Cell, TableRow};
use ontologyx_sim_core::units::{Quantity, Unit};
use ontologyx_sim_core::vcd::{parse_vcd, vcd_number_texts, VcdNumbers};
use ontologyx_sim_core::verilator_cosim::{
    generate_cosim_harness, parse_cosim_state_line, PortLevels,
};
use ontologyx_sim_core::xspice::EventProbe;
use ontologyx_sim_core::{
    mixed, ngspice, renode, verilator, xspice, Analysis, LogicValue, ModelDefinition, Probe, Real,
    RenodeTarget, SimulationRequest, Waveform,
};

fn bits(value: f64) -> Real {
    Real::from_bits(value.to_bits())
}

fn double(value: Real) -> f64 {
    f64::from_bits(value.bits)
}

fn render(draft: &Draft) -> String {
    let mut out = String::new();
    for piece in &draft.pieces {
        match piece {
            Piece::Text(text) => out.push_str(text),
            Piece::Number(value) => out.push_str(&format!("{:.17e}", double(*value))),
            Piece::Fixed(value) => out.push_str(&format!("{:.17}", double(*value))),
        }
    }
    out
}

fn read_number(text: &str) -> Option<Real> {
    text.parse::<f64>().ok().map(bits)
}

fn read_table(source: &str) -> Vec<TableRow> {
    split_table(source)
        .into_iter()
        .map(|line| TableRow {
            text: line.text,
            cells: line
                .words
                .into_iter()
                .map(|word| Cell {
                    value: read_number(&word),
                    text: word,
                })
                .collect(),
        })
        .collect()
}

fn read_dump(source: &str) -> VcdNumbers {
    let texts = vcd_number_texts(source);
    VcdNumbers {
        magnitude: texts.magnitude.and_then(|text| read_number(&text)),
        times: texts.times.iter().map(|text| read_number(text)).collect(),
    }
}

fn quantity(value: f64, unit: Unit) -> ParameterValue {
    ParameterValue::Quantity(Quantity::new(bits(value), unit))
}

fn analog_pin(id: &str, direction: PinDirection) -> Pin {
    Pin::new(id, id, SignalDomain::Analog, direction)
}

fn digital_pin(id: &str, direction: PinDirection) -> Pin {
    Pin::new(id, id, SignalDomain::Digital, direction)
}

fn named_pin(id: &str, name: &str, direction: PinDirection) -> Pin {
    Pin::new(id, name, SignalDomain::Digital, direction)
}

fn probe(component: &str, pin: &str, alias: &str) -> Probe {
    Probe {
        endpoint: NetEndpoint::new(component, pin),
        alias: Some(alias.to_owned()),
    }
}

fn mixed_request() -> SimulationRequest {
    let source = Component::new("vin", ComponentKind::voltage_source())
        .with_pin(analog_pin("pos", PinDirection::Passive))
        .with_pin(analog_pin("neg", PinDirection::Passive))
        .with_parameter("pulse_high", quantity(3.3, Unit::Volt))
        .with_parameter("pulse_width", quantity(5e-6, Unit::Second))
        .with_parameter("pulse_period", quantity(10e-6, Unit::Second));
    let ground = Component::new("gnd", ComponentKind::ground())
        .with_pin(analog_pin("gnd", PinDirection::Passive));
    let adc = Component::new("adc", ComponentKind::adc_bridge())
        .with_pin(analog_pin("analog_in", PinDirection::Input))
        .with_pin(digital_pin("digital_out", PinDirection::Output))
        .with_parameter("low_threshold", quantity(0.8, Unit::Volt))
        .with_parameter("high_threshold", quantity(2.0, Unit::Volt));
    let inverter = Component::new("inv", ComponentKind::not_gate())
        .with_pin(digital_pin("in", PinDirection::Input))
        .with_pin(digital_pin("out", PinDirection::Output));
    let dac = Component::new("dac", ComponentKind::dac_bridge())
        .with_pin(digital_pin("digital_in", PinDirection::Input))
        .with_pin(analog_pin("analog_out", PinDirection::Output))
        .with_parameter("low_voltage", quantity(0.0, Unit::Volt))
        .with_parameter("high_voltage", quantity(3.3, Unit::Volt));
    let load = Component::new("load", ComponentKind::resistor())
        .with_pin(analog_pin("a", PinDirection::Passive))
        .with_pin(analog_pin("b", PinDirection::Passive))
        .with_parameter("resistance", quantity(10_000.0, Unit::Ohm));
    let circuit = Circuit::new()
        .with_component(source)
        .with_component(ground)
        .with_component(adc)
        .with_component(inverter)
        .with_component(dac)
        .with_component(load)
        .with_net(
            Net::new("vin")
                .connect(NetEndpoint::new("vin", "pos"))
                .connect(NetEndpoint::new("adc", "analog_in")),
        )
        .with_net(
            Net::new("gnd")
                .connect(NetEndpoint::new("vin", "neg"))
                .connect(NetEndpoint::new("gnd", "gnd"))
                .connect(NetEndpoint::new("load", "b")),
        )
        .with_net(
            Net::new("d_adc")
                .connect(NetEndpoint::new("adc", "digital_out"))
                .connect(NetEndpoint::new("inv", "in")),
        )
        .with_net(
            Net::new("d_inv")
                .connect(NetEndpoint::new("inv", "out"))
                .connect(NetEndpoint::new("dac", "digital_in")),
        )
        .with_net(
            Net::new("vout")
                .connect(NetEndpoint::new("dac", "analog_out"))
                .connect(NetEndpoint::new("load", "a")),
        );
    SimulationRequest {
        circuit,
        analysis: Analysis::MixedSignalTransient {
            step: bits(10e-9),
            stop: bits(20e-6),
        },
        probes: vec![
            probe("adc", "digital_out", "logic"),
            probe("dac", "analog_out", "vout"),
        ],
    }
}

#[test]
fn compiler_emits_explicit_adc_dac_and_hybrid_outputs() {
    let compiled = mixed::compile_request(&mixed_request()).unwrap();
    let netlist = render(&compiled.netlist);
    assert!(netlist.contains("adc_bridge("));
    assert!(netlist.contains("dac_bridge("));
    assert!(netlist.contains("wrdata analog.txt"));
    assert!(netlist.contains("eprvcd -t 1e-15"));
    assert_eq!(compiled.analog_probes.len(), 1);
    assert_eq!(compiled.digital_probes.len(), 1);
}

#[test]
fn bridge_pin_validation_is_owned_by_mixed_engine() {
    let adc = Component::new("adc", ComponentKind::adc_bridge())
        .with_pin(analog_pin("analog_in", PinDirection::Input));
    let error = mixed::require_bridge_pin(
        &adc,
        "analog_in",
        SignalDomain::Digital,
        PinDirection::Input,
    )
    .unwrap_err();
    assert_eq!(error.code(), "mixed_signal_component_invalid");
}

#[test]
fn bridge_thresholds_fail_closed() {
    let mut request = mixed_request();
    let adc = request
        .circuit
        .components
        .iter_mut()
        .find(|component| component.id.as_str() == "adc")
        .unwrap();
    adc.parameters
        .insert("low_threshold", quantity(2.5, Unit::Volt));
    let error = mixed::compile_request(&request).unwrap_err();
    assert_eq!(error.code(), "mixed_signal_component_invalid");
}

fn divider_request(analysis: Analysis) -> SimulationRequest {
    let passive = |id: &str| analog_pin(id, PinDirection::Passive);
    let source = Component::new("v1", ComponentKind::voltage_source())
        .with_pin(passive("pos"))
        .with_pin(passive("neg"))
        .with_parameter("dc", quantity(5.0, Unit::Volt));
    let r1 = Component::new("r1", ComponentKind::resistor())
        .with_pin(passive("a"))
        .with_pin(passive("b"))
        .with_parameter("resistance", quantity(1000.0, Unit::Ohm));
    let r2 = Component::new("r2", ComponentKind::resistor())
        .with_pin(passive("a"))
        .with_pin(passive("b"))
        .with_parameter("resistance", quantity(1000.0, Unit::Ohm));
    let ground = Component::new("gnd", ComponentKind::ground()).with_pin(Pin::new(
        "gnd",
        "gnd",
        SignalDomain::Reference,
        PinDirection::Passive,
    ));
    let circuit = Circuit::new()
        .with_component(source)
        .with_component(r1)
        .with_component(r2)
        .with_component(ground)
        .with_net(
            Net::new("vin")
                .connect(NetEndpoint::new("v1", "pos"))
                .connect(NetEndpoint::new("r1", "a")),
        )
        .with_net(
            Net::new("out")
                .connect(NetEndpoint::new("r1", "b"))
                .connect(NetEndpoint::new("r2", "a")),
        )
        .with_net(
            Net::new("gnd")
                .connect(NetEndpoint::new("v1", "neg"))
                .connect(NetEndpoint::new("r2", "b"))
                .connect(NetEndpoint::new("gnd", "gnd")),
        );
    SimulationRequest {
        circuit,
        analysis,
        probes: vec![probe("r1", "b", "vout")],
    }
}

#[test]
fn compiler_emits_deterministic_voltage_divider_netlist() {
    let compiled = ngspice::compile_request(&divider_request(Analysis::OperatingPoint)).unwrap();
    let netlist = render(&compiled.netlist);
    assert!(
        netlist.contains("V1 n1 0 DC 5.00000000000000000e0")
            || netlist.contains("V1 n1 0 DC 5.00000000000000000e+00")
    );
    assert!(netlist.contains("R2 n1 n2"));
    assert!(netlist.contains("R3 n2 0"));
    assert!(netlist.contains("wrdata result.txt v(n2)"));
    assert!(netlist.contains("\nop\n"));
}

#[test]
fn wrdata_real_table_parses_single_scale() {
    let source = "time v(n1) v(n2)\n0.0 1.0 2.0\n1e-3 1.5 2.5\n";
    let rows = parse_wrdata(&read_table(source), 2, false, false).unwrap();
    assert_eq!(rows.len(), 2);
    assert_eq!(double(rows[1].axis), 1e-3);
    assert_eq!(rows[1].values[0], (bits(1.5), bits(0.0)));
    assert_eq!(rows[1].values[1], (bits(2.5), bits(0.0)));
}

#[test]
fn wrdata_complex_table_preserves_real_and_imaginary_parts() {
    let source = "frequency v(n1) v(n1)\n1.0 0.8 -0.2\n10.0 0.1 -0.3\n";
    let rows = parse_wrdata(&read_table(source), 1, true, false).unwrap();
    assert_eq!(rows[0].values[0], (bits(0.8), bits(-0.2)));
    assert_eq!(rows[1].values[0], (bits(0.1), bits(-0.3)));
}

#[test]
fn model_registry_emits_declared_device_model() {
    let models = compile_models(&vec![ModelDefinition::spice_device(
        "diode-model",
        "DTEST",
        ".model DTEST D (IS=1e-14 N=1)",
    )])
    .unwrap();
    let entry = models
        .entries
        .iter()
        .find(|entry| entry.id == "diode-model")
        .unwrap();
    assert_eq!(entry.entry, "DTEST");
    assert!(models
        .netlist
        .iter()
        .any(|line| line.contains(".model DTEST D")));
}

#[test]
fn inline_model_cannot_include_external_files_or_control_flow() {
    for source in [
        ".include /tmp/untrusted-model.lib",
        ".control\nshell touch /tmp/nope\n.endc",
        ".end",
    ] {
        let error = compile_models(&vec![ModelDefinition::spice_device("bad", "DTEST", source)])
            .expect_err("unsafe inline model must fail closed");
        assert_eq!(error.code, "ngspice_model_directive_forbidden");
    }
}

#[test]
fn carriage_returns_end_the_lines_of_a_model() {
    let error = compile_models(&vec![ModelDefinition::spice_device(
        "bad",
        "X",
        ".model X D\r.include f",
    )])
    .expect_err("a directive behind a carriage return must be refused");
    assert_eq!(error.code, "ngspice_model_directive_forbidden");
    assert_eq!(
        error.message,
        "model `bad` line 2 contains forbidden directive `.include`; inline models cannot \
         control the simulator or read external files"
    );
    let registry = compile_models(&vec![ModelDefinition::spice_device(
        "good",
        "X",
        "* diode\r.model X D\r\n+ (IS=1e-14)",
    )])
    .unwrap();
    assert_eq!(
        registry.netlist,
        vec!["* diode", ".model X D", "+ (IS=1e-14)"]
    );
}

#[test]
fn subcircuit_model_requires_declared_entry_and_ends() {
    let missing_entry = compile_models(&vec![ModelDefinition::spice_subcircuit(
        "opamp",
        "OX_OPAMP",
        ".subckt OTHER INP INN OUT\nE1 OUT 0 INP INN 1e5\n.ends OTHER",
    )])
    .expect_err("entry mismatch must fail");
    assert_eq!(missing_entry.code, "ngspice_model_entry_missing");

    let missing_ends = compile_models(&vec![ModelDefinition::spice_subcircuit(
        "opamp",
        "OX_OPAMP",
        ".subckt OX_OPAMP INP INN OUT\nE1 OUT 0 INP INN 1e5",
    )])
    .expect_err("unterminated subcircuit must fail");
    assert_eq!(missing_ends.code, "ngspice_model_subcircuit_unterminated");
}

fn firmware_request() -> SimulationRequest {
    SimulationRequest {
        circuit: Circuit::new()
            .with_component(
                Component::new("mcu", ComponentKind::mcu()).with_pin(named_pin(
                    "pd13",
                    "gpioPortD@13",
                    PinDirection::Output,
                )),
            )
            .with_component(
                Component::new("led", ComponentKind::logic_output())
                    .with_pin(digital_pin("in", PinDirection::Input)),
            )
            .with_net(
                Net::new("gpio")
                    .connect(NetEndpoint::new("mcu", "pd13"))
                    .connect(NetEndpoint::new("led", "in")),
            ),
        analysis: Analysis::FirmwareTransient {
            step: bits(1e-3),
            stop: bits(3e-3),
        },
        probes: vec![probe("led", "in", "gpio")],
    }
}

fn firmware_target() -> RenodeTarget {
    RenodeTarget::new(
        "mcu",
        "platforms/boards/stm32f4_discovery-kit.repl",
        FirmwareArtifact::elf(vec![0x7f, b'E', b'L', b'F']),
    )
}

#[test]
fn compiler_uses_renode_platform_loader_and_gpio_bridge() {
    let compiled = renode::compile_request(&firmware_request(), &firmware_target()).unwrap();
    let script = render(&compiled.script);
    assert!(script.contains(
        "machine LoadPlatformDescription @platforms/boards/stm32f4_discovery-kit.repl"
    ));
    assert!(script.contains(
        "gpioPortD: { 13 -> oxsim_gpio_0@0 }; oxsim_gpio_0: Miscellaneous.LED @ gpioPortD 13"
    ));
    assert!(script.contains("sysbus LoadELF @firmware.elf"));
    assert!(script.contains("emulation RunFor \"0.00100000000000000\""));
    assert!(script.contains("gpioPortD.oxsim_gpio_0 State"));
}

#[test]
fn compiler_reuses_platform_gpio_observer_when_configured() {
    let target = firmware_target().with_gpio_observer("gpioPortD@13", "sysbus.gpioPortD.Observer");
    let compiled = renode::compile_request(&firmware_request(), &target).unwrap();
    let script = render(&compiled.script);
    assert!(!script.contains("oxsim_gpio_0: Miscellaneous.LED"));
    assert!(script.contains("sysbus.gpioPortD.Observer State"));
}

#[test]
fn renode_sample_parser_normalizes_gpio_transitions() {
    let log = r#"
12:00 [INFO] Script: OXSIM_GPIO|0|0.00000000000000000
False
12:00 [INFO] Script: OXSIM_GPIO|0|0.00100000000000000
True
12:00 [INFO] Script: OXSIM_GPIO|0|0.00200000000000000
True
12:00 [INFO] Script: OXSIM_GPIO|0|0.00300000000000000
False
"#;
    let times = renode::sample_time_texts(log)
        .iter()
        .map(|text| read_number(text))
        .collect();
    let samples = renode::parse_samples(log, &times, 1).unwrap();
    let transitions = renode::transitions_from_samples(&samples[0]);
    assert_eq!(transitions.len(), 3);
    assert_eq!(transitions[0].value, LogicValue::Zero);
    assert_eq!(transitions[1].value, LogicValue::One);
    assert_eq!(transitions[2].value, LogicValue::Zero);
    assert_eq!(double(transitions[2].time), 3e-3);
}

#[test]
fn target_rejects_script_injection_paths() {
    let bad = RenodeTarget::new(
        "mcu",
        "../escape.repl\nquit",
        FirmwareArtifact::elf(vec![1]),
    );
    assert_eq!(bad.validate().unwrap_err().code(), "renode_target_invalid");
}

#[test]
fn port_reference_supports_scalar_and_vector_bits() {
    assert_eq!(
        parse_port_reference("data").unwrap(),
        ("data".to_owned(), None)
    );
    assert_eq!(
        parse_port_reference("data[7]").unwrap(),
        ("data".to_owned(), Some(7))
    );
    assert!(parse_port_reference("data[-1]").is_err());
    assert!(parse_port_reference("7data").is_err());
}

#[test]
fn compiler_generates_vector_binding_and_deterministic_testbench() {
    let module = ModelDefinition::system_verilog_module(
        "invert2",
        "invert2",
        "module invert2(input logic [1:0] a, output logic [1:0] y); assign y = ~a; endmodule",
    );
    let zero = Component::new("zero", ComponentKind::logic_input())
        .with_pin(digital_pin("out", PinDirection::Output))
        .with_parameter("value", ParameterValue::Integer(0));
    let one = Component::new("one", ComponentKind::logic_input())
        .with_pin(digital_pin("out", PinDirection::Output))
        .with_parameter("value", ParameterValue::Integer(1));
    let dut = Component::new("dut", ComponentKind::hdl_module())
        .with_pin(named_pin("a0", "a[0]", PinDirection::Input))
        .with_pin(named_pin("a1", "a[1]", PinDirection::Input))
        .with_pin(named_pin("y0", "y[0]", PinDirection::Output))
        .with_pin(named_pin("y1", "y[1]", PinDirection::Output))
        .with_parameter("model", ParameterValue::Text("invert2".into()));
    let circuit = Circuit::new()
        .with_model(module)
        .with_component(zero)
        .with_component(one)
        .with_component(dut)
        .with_net(
            Net::new("a0")
                .connect(NetEndpoint::new("zero", "out"))
                .connect(NetEndpoint::new("dut", "a0")),
        )
        .with_net(
            Net::new("a1")
                .connect(NetEndpoint::new("one", "out"))
                .connect(NetEndpoint::new("dut", "a1")),
        )
        .with_net(Net::new("y0").connect(NetEndpoint::new("dut", "y0")))
        .with_net(Net::new("y1").connect(NetEndpoint::new("dut", "y1")));
    let request = SimulationRequest {
        circuit,
        analysis: Analysis::DigitalTransient { stop: bits(10e-9) },
        probes: vec![probe("dut", "y0", "y0")],
    };
    let compiled = verilator::compile_request(&request).unwrap();
    let wrapper = render(&compiled.wrapper);
    assert!(wrapper.contains("invert2 ox_u2"));
    assert!(wrapper.contains(".a({ox_n1, ox_n0})"));
    assert!(wrapper.contains(".y({ox_n3, ox_n2})"));
    assert!(wrapper.contains("#10000;"));
    assert_eq!(compiled.probes[0].signal, "y0");
    assert_eq!(compiled.probes[0].node, "ox_n2");
}

#[test]
fn cosim_harness_uses_incremental_verilator_time_api_and_bounded_events() {
    let ports = vec![
        CoSimulationPort::digital("clk", PinDirection::Input),
        CoSimulationPort::digital("q", PinDirection::Output),
    ];
    let harness = generate_cosim_harness(&ports).unwrap();
    assert!(harness.contains("top->eval();"));
    assert!(harness.contains("top->eventsPending()"));
    assert!(harness.contains("top->nextTimeSlot()"));
    assert!(harness.contains("internal_steps > 1000000ULL"));
    assert!(harness.contains("case 0: top->clk = value & 1U; break;"));
}

#[test]
fn cosim_state_protocol_rejects_non_future_events_and_parses_outputs() {
    let outputs = vec!["q".to_owned()];
    let mut current = CoSimulationTime::zero();
    let mut next = None;
    let mut values = PortLevels::new();
    parse_cosim_state_line(
        "STATE 100 q=1 NEXT=125",
        &outputs,
        &mut current,
        &mut next,
        &mut values,
    )
    .unwrap();
    assert_eq!(current.as_picoseconds(), 100);
    assert_eq!(next.unwrap().as_picoseconds(), 125);
    assert_eq!(values.get("q"), Some(LogicValue::One));

    let error = parse_cosim_state_line(
        "STATE 100 q=0 NEXT=100",
        &outputs,
        &mut current,
        &mut next,
        &mut values,
    )
    .unwrap_err();
    assert_eq!(error.code(), "verilator_cosim_protocol_error");
}

#[test]
fn unsafe_inline_host_io_is_rejected() {
    let model = ModelDefinition::system_verilog_module(
        "unsafe",
        "unsafe",
        "module unsafe; initial $system(\"touch /tmp/nope\"); endmodule",
    );
    let error = validate_hdl_source(&model).unwrap_err();
    assert_eq!(error.code(), "verilator_unsafe_source");
}

#[test]
fn compiler_emits_d_source_and_xspice_gate_models() {
    let circuit = Circuit::new()
        .with_component(
            Component::new("a", ComponentKind::logic_input())
                .with_pin(digital_pin("out", PinDirection::Output))
                .with_parameter("value", ParameterValue::Integer(1)),
        )
        .with_component(
            Component::new("inv", ComponentKind::not_gate())
                .with_pin(digital_pin("in", PinDirection::Input))
                .with_pin(digital_pin("out", PinDirection::Output))
                .with_parameter("delay", quantity(5e-9, Unit::Second)),
        )
        .with_component(
            Component::new("out", ComponentKind::logic_output())
                .with_pin(digital_pin("in", PinDirection::Input)),
        )
        .with_net(
            Net::new("in")
                .connect(NetEndpoint::new("a", "out"))
                .connect(NetEndpoint::new("inv", "in")),
        )
        .with_net(
            Net::new("out")
                .connect(NetEndpoint::new("inv", "out"))
                .connect(NetEndpoint::new("out", "in")),
        );
    let request = SimulationRequest {
        circuit,
        analysis: Analysis::DigitalTransient { stop: bits(20e-9) },
        probes: vec![probe("out", "in", "out")],
    };
    let compiled = xspice::compile_request(&request).unwrap();
    let netlist = render(&compiled.netlist);
    assert!(netlist.contains("d_source"));
    assert!(netlist.contains("d_inverter"));
    assert!(netlist.contains("set digital_delay_type=2"));
    assert!(netlist.contains("rise_delay=5."));
    assert!(netlist.contains("eprvcd -t 1e-15"));
    assert!(render(&compiled.stimulus).contains("1s"));
}

#[test]
fn vcd_parser_normalizes_event_transitions() {
    let vcd = "$timescale 1 ns $end\n$scope module logic $end\n$var wire 1 ! d0 $end\n$upscope $end\n$enddefinitions $end\n#0\nx!\n#5\n1!\n#10\n0!\n";
    let waveforms = parse_vcd(
        vcd,
        &read_dump(vcd),
        &vec![EventProbe {
            signal: "out".to_owned(),
            node: "d0".to_owned(),
        }],
    )
    .unwrap();
    let Waveform::Digital(waveform) = &waveforms[0] else {
        panic!("expected digital waveform");
    };
    assert_eq!(waveform.transitions.len(), 3);
    assert_eq!(waveform.transitions[0].value, LogicValue::X);
    assert!((double(waveform.transitions[1].time) - 5e-9).abs() < 1e-18);
    assert_eq!(waveform.transitions[1].value, LogicValue::One);
    assert_eq!(waveform.transitions[2].value, LogicValue::Zero);
}
