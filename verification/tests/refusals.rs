use ontologyx_sim_core::circuit::{
    Circuit, Component, ComponentKind, Net, NetEndpoint, ParameterValue, Pin, PinDirection,
    SignalDomain,
};
use ontologyx_sim_core::draft::{Draft, Piece};
use ontologyx_sim_core::firmware::FirmwareArtifact;
use ontologyx_sim_core::runs::Printed;
use ontologyx_sim_core::solvers::{
    hdl_build_arguments, hdl_cosim_build_arguments, mixed_capabilities, mixed_info,
    mixed_supports_request, ngspice_capabilities, renode_arguments, renode_capabilities,
    spice_arguments, trial_passes, verilator_capabilities, xspice_capabilities, xspice_info,
};
use ontologyx_sim_core::spice_models::compile_models;
use ontologyx_sim_core::spice_results::{parse_wrdata, split_table, Cell, TableRow};
use ontologyx_sim_core::stimulus::clock_events;
use ontologyx_sim_core::units::{Quantity, Unit};
use ontologyx_sim_core::vcd::{parse_vcd, vcd_number_texts, VcdNumbers};
use ontologyx_sim_core::xspice::EventProbe;
use ontologyx_sim_core::{
    mixed, ngspice, renode, verilator, xspice, AcScale, Analysis, DigitalEngine, ExecutionPolicy,
    LogicValue, MixedSignalEngine, ModelDefinition, ModelKind, NgSpiceEngine, NgSpiceInfo, Probe,
    Real, RenodeEngine, RenodeTarget, SimulationEngine, SimulationRequest, VerilatorEngine,
    Waveform, XSpiceEngine,
};

fn bits(value: f64) -> Real {
    Real::from_bits(value.to_bits())
}

fn double(value: Real) -> f64 {
    f64::from_bits(value.bits)
}

fn render(draft: &Draft) -> String {
    let mut out = String::new();
    for piece in &draft.pieces {
        match piece {
            Piece::Text(text) => out.push_str(text),
            Piece::Number(value) => out.push_str(&format!("{:.17e}", double(*value))),
            Piece::Fixed(value) => out.push_str(&format!("{:.17}", double(*value))),
        }
    }
    out
}

fn quantity(value: f64, unit: Unit) -> ParameterValue {
    ParameterValue::Quantity(Quantity::new(bits(value), unit))
}

fn text(value: &str) -> ParameterValue {
    ParameterValue::Text(value.to_owned())
}

fn passive(id: &str) -> Pin {
    Pin::new(id, id, SignalDomain::Analog, PinDirection::Passive)
}

fn digital(id: &str, direction: PinDirection) -> Pin {
    Pin::new(id, id, SignalDomain::Digital, direction)
}

fn net(id: &str, ends: &[(&str, &str)]) -> Net {
    let mut net = Net::new(id);
    for (component, pin) in ends {
        net = net.connect(NetEndpoint::new(component, pin));
    }
    net
}

fn probe(component: &str, pin: &str) -> Probe {
    Probe {
        endpoint: NetEndpoint::new(component, pin),
        alias: None,
    }
}

fn request(circuit: Circuit, analysis: Analysis) -> SimulationRequest {
    SimulationRequest {
        circuit,
        analysis,
        probes: Vec::new(),
    }
}

fn ground() -> Component {
    Component::new("gnd", ComponentKind::ground()).with_pin(passive("g"))
}

fn source() -> Component {
    Component::new("v", ComponentKind::voltage_source())
        .with_pin(passive("p"))
        .with_pin(passive("n"))
        .with_parameter("dc", quantity(5.0, Unit::Volt))
}

fn resistor() -> Component {
    Component::new("r", ComponentKind::resistor())
        .with_pin(passive("a"))
        .with_pin(passive("b"))
        .with_parameter("resistance", quantity(1000.0, Unit::Ohm))
}

/// A source and one more part between it and the ground.
fn loaded(load: Component) -> Circuit {
    let id = load.id.as_str().to_owned();
    let first = load.pins[0].id.as_str().to_owned();
    let rest: Vec<String> = load.pins[1..]
        .iter()
        .map(|pin| pin.id.as_str().to_owned())
        .collect();
    let mut low = net("low", &[("v", "n"), ("gnd", "g")]);
    for pin in &rest {
        low = low.connect(NetEndpoint::new(&id, pin));
    }
    Circuit::new()
        .with_component(source())
        .with_component(ground())
        .with_component(load)
        .with_net(net("top", &[("v", "p"), (&id, &first)]))
        .with_net(low)
}

fn analog_code(request: &SimulationRequest) -> String {
    ngspice::compile_request(request)
        .unwrap_err()
        .code()
        .to_owned()
}

#[test]
fn analog_requests_are_refused_with_a_reason() {
    let good = request(loaded(resistor()), Analysis::OperatingPoint);
    assert!(ngspice::compile_request(&good).is_ok());

    let mut floating = good.clone();
    floating.circuit.components.remove(1);
    assert_eq!(analog_code(&floating), "ngspice_ground_required");

    let mut twice = good.clone();
    twice.circuit.nets.push(net("again", &[("r", "a")]));
    assert_eq!(analog_code(&twice), "ngspice_endpoint_multiple_nets");

    let mut odd = good.clone();
    odd.circuit
        .components
        .push(Component::new("u", ComponentKind::buffer()));
    let error = ngspice::compile_request(&odd).unwrap_err();
    assert_eq!(error.code(), "ngspice_component_invalid");
    assert_eq!(
        error.message(),
        "component `u`: component kind `buffer` is not supported by the R2 ngspice engine"
    );

    let mut lost = good.clone();
    lost.probes.push(probe("r", "c"));
    assert_eq!(analog_code(&lost), "ngspice_unknown_probe");

    let short = Circuit::new()
        .with_component(ground())
        .with_net(net("low", &[("gnd", "g")]));
    assert_eq!(
        analog_code(&request(short, Analysis::OperatingPoint)),
        "ngspice_no_probes"
    );

    let mut parameter = good.clone();
    parameter.circuit.components[2]
        .parameters
        .insert("resistance", quantity(0.0, Unit::Ohm));
    assert_eq!(
        ngspice::compile_request(&parameter).unwrap_err().message(),
        "component `r`: parameter `resistance` must be greater than zero"
    );
    parameter.circuit.components[2]
        .parameters
        .insert("resistance", quantity(1.0, Unit::Farad));
    assert_eq!(
        ngspice::compile_request(&parameter).unwrap_err().message(),
        "component `r`: parameter `resistance` expects Ohm, got Farad"
    );
}

#[test]
fn analyses_are_checked_and_written() {
    let line = |analysis: Analysis| -> Result<String, String> {
        match ngspice::compile_request(&request(loaded(resistor()), analysis)) {
            Ok(compiled) => Ok(render(&compiled.netlist)),
            Err(error) => Err(error.code().to_owned()),
        }
    };
    let invalid = Err("ngspice_invalid_analysis".to_owned());
    let tran = line(Analysis::Transient {
        step: bits(0.5),
        stop: bits(2.0),
    });
    assert!(tran.is_ok_and(|text| text
        .contains("\ntran 5.00000000000000000e-1 2.00000000000000000e0\n")));
    assert_eq!(
        line(Analysis::Transient {
            step: bits(2.0),
            stop: bits(0.5),
        }),
        invalid
    );
    let sweep = |start: f64, stop: f64, step: f64, source: &str| {
        line(Analysis::DcSweep {
            source: source.to_owned(),
            start: bits(start),
            stop: bits(stop),
            step: bits(step),
        })
    };
    assert!(sweep(0.0, 1.0, 0.25, "v").is_ok_and(|text| text.contains(
        "\ndc V1 0.00000000000000000e0 1.00000000000000000e0 2.50000000000000000e-1\n"
    )));
    assert_eq!(sweep(0.0, 1.0, -0.25, "v"), invalid);
    assert_eq!(sweep(0.0, 1.0, 0.0, "v"), invalid);
    assert_eq!(
        sweep(0.0, 1.0, 0.25, "r"),
        Err("ngspice_unknown_sweep_source".to_owned())
    );
    let small = |points: u32, start: f64, stop: f64| {
        line(Analysis::AcSweep {
            scale: AcScale::Decade,
            points,
            start_hz: bits(start),
            stop_hz: bits(stop),
        })
    };
    assert!(small(10, 1.0, 10.0).is_ok_and(|text| text
        .contains("\nac dec 10 1.00000000000000000e0 1.00000000000000000e1\n")));
    assert_eq!(small(0, 1.0, 10.0), invalid);
    assert_eq!(small(10, 10.0, 10.0), invalid);
    assert_eq!(small(10, f64::NAN, 10.0), invalid);
    assert_eq!(
        line(Analysis::DigitalTransient { stop: bits(1.0) }),
        Err("ngspice_analysis_unsupported".to_owned())
    );
}

#[test]
fn sources_and_devices_are_written() {
    let pulse = source()
        .with_parameter("pulse_high", quantity(3.0, Unit::Volt))
        .with_parameter("pulse_low", quantity(1.0, Unit::Volt))
        .with_parameter("pulse_delay", quantity(0.5, Unit::Second))
        .with_parameter("pulse_rise", quantity(0.25, Unit::Second))
        .with_parameter("pulse_fall", quantity(0.125, Unit::Second))
        .with_parameter("pulse_width", quantity(2.0, Unit::Second))
        .with_parameter("pulse_period", quantity(4.0, Unit::Second))
        .with_parameter("ac_magnitude", quantity(1.0, Unit::Volt))
        .with_parameter("ac_phase_degrees", quantity(90.0, Unit::Dimensionless));
    let mut circuit = loaded(resistor());
    circuit.components[0] = pulse.clone();
    let compiled =
        ngspice::compile_request(&request(circuit.clone(), Analysis::OperatingPoint)).unwrap();
    assert!(render(&compiled.netlist).contains(
        "V1 n1 0 DC 5.00000000000000000e0 PULSE(1.00000000000000000e0 3.00000000000000000e0 \
         5.00000000000000000e-1 2.50000000000000000e-1 1.25000000000000000e-1 \
         2.00000000000000000e0 4.00000000000000000e0) AC 1.00000000000000000e0 \
         9.00000000000000000e1\n"
    ));
    circuit.components[0] = pulse.with_parameter("ac_magnitude", quantity(-1.0, Unit::Volt));
    assert_eq!(
        analog_code(&request(circuit, Analysis::OperatingPoint)),
        "ngspice_component_invalid"
    );

    let amplifier = Component::new("u", ComponentKind::op_amp())
        .with_pin(passive("non_inverting"))
        .with_pin(passive("inverting"))
        .with_pin(passive("positive_supply"))
        .with_pin(passive("negative_supply"))
        .with_pin(passive("output"))
        .with_parameter("model", text("amp"));
    let mut circuit = loaded(amplifier);
    circuit.models.push(ModelDefinition::spice_subcircuit(
        "amp",
        "AMP",
        ".subckt AMP p n vp vn o\n.ends AMP",
    ));
    let good = request(circuit, Analysis::OperatingPoint);
    let compiled = ngspice::compile_request(&good).unwrap();
    assert!(render(&compiled.netlist).contains("X3 n1 0 0 0 0 AMP\n"));
    let mut narrow = good;
    narrow.circuit.models[0].source = ".subckt AMP p n\n.ends AMP".to_owned();
    assert_eq!(
        ngspice::compile_request(&narrow).unwrap_err().message(),
        "component `u`: subcircuit model `amp` exposes 2 port(s); component requires 5"
    );

    let diode = Component::new("d", ComponentKind::diode())
        .with_pin(passive("anode"))
        .with_pin(passive("cathode"))
        .with_parameter("model", text("q"));
    let mut circuit = loaded(diode);
    circuit.models.push(ModelDefinition::spice_device(
        "q",
        "QX",
        ".model QX NPN (BF=100)",
    ));
    assert_eq!(
        ngspice::compile_request(&request(circuit, Analysis::OperatingPoint))
            .unwrap_err()
            .message(),
        "component `d`: model `q` declares SPICE type `npn`, expected one of d"
    );
}

fn model_code(models: Vec<ModelDefinition>) -> String {
    compile_models(&models).unwrap_err().code().to_owned()
}

#[test]
fn faulty_models_are_refused() {
    let good = || ModelDefinition::spice_device("d", "DX", ".model DX D");
    assert!(compile_models(&vec![good()]).is_ok());
    assert_eq!(model_code(vec![good(), good()]), "ngspice_duplicate_model");
    assert_eq!(
        model_code(vec![ModelDefinition::verilog_module("m", "top", "module")]),
        "ngspice_model_language_unsupported"
    );
    assert_eq!(
        model_code(vec![ModelDefinition::spice_device("d", "D X", ".model DX D")]),
        "ngspice_model_entry_invalid"
    );
    assert_eq!(
        model_code(vec![ModelDefinition::spice_device("d", "DX", ".model DX")]),
        "ngspice_model_device_type_missing"
    );
    let long = "*".repeat(1024 * 1024 + 1);
    assert_eq!(
        model_code(vec![ModelDefinition::spice_device("d", "DX", &long)]),
        "ngspice_model_too_large"
    );
    let many = (0..5)
        .map(|_| ModelDefinition::spice_device("d", "DX", &long))
        .collect();
    assert_eq!(model_code(many), "ngspice_model_registry_too_large");
    let mut module = good();
    module.kind = ModelKind::Module;
    assert_eq!(model_code(vec![module]), "ngspice_model_kind_unsupported");
}

fn read_table(source: &str) -> Vec<TableRow> {
    split_table(source)
        .into_iter()
        .map(|line| TableRow {
            text: line.text,
            cells: line
                .words
                .into_iter()
                .map(|word| Cell {
                    value: word.parse::<f64>().ok().map(bits),
                    text: word,
                })
                .collect(),
        })
        .collect()
}

#[test]
fn faulty_tables_are_refused() {
    let read = |source: &str| parse_wrdata(&read_table(source), 1, false, false);
    let shape = read("0 1 2\n").unwrap_err();
    assert_eq!(shape.code(), "ngspice_result_shape");
    assert_eq!(
        shape.message(),
        "expected 2 numeric columns, got 3 in `0 1 2`"
    );
    let word = read("0 one\n").unwrap_err();
    assert_eq!(word.code(), "ngspice_result_parse");
    assert_eq!(
        word.message(),
        "could not parse `one`: invalid float literal"
    );
    assert_eq!(
        read("0 inf\n").unwrap_err().code(),
        "ngspice_non_finite_result"
    );
    let scalar = parse_wrdata(&read_table("4.5\n"), 1, false, true).unwrap();
    assert_eq!(double(scalar[0].axis), 0.0);
    assert_eq!(double(scalar[0].values[0].0), 4.5);
}

fn dump_code(source: &str) -> String {
    let texts = vcd_number_texts(source);
    let read = |text: &String| text.parse::<f64>().ok().map(bits);
    let numbers = VcdNumbers {
        magnitude: texts.magnitude.as_ref().and_then(read),
        times: texts.times.iter().map(read).collect(),
    };
    let probes = vec![EventProbe {
        signal: "s".to_owned(),
        node: "n".to_owned(),
    }];
    match parse_vcd(source, &numbers, &probes) {
        Ok(_) => "read".to_owned(),
        Err(error) => error.code().to_owned(),
    }
}

#[test]
fn faulty_dumps_are_refused() {
    let scale = "$timescale 1 ns $end\n";
    let var = "$var wire 1 ! n $end\n$enddefinitions $end\n";
    assert_eq!(dump_code(&format!("{scale}{var}#0\n1!\n")), "read");
    assert_eq!(dump_code(var), "xspice_vcd_timescale");
    assert_eq!(dump_code("$timescale 1 ns"), "xspice_vcd_timescale");
    assert_eq!(
        dump_code(&format!("$timescale ns $end\n{var}")),
        "xspice_vcd_timescale"
    );
    assert_eq!(
        dump_code(&format!("$timescale 1 h $end\n{var}")),
        "xspice_vcd_timescale"
    );
    assert_eq!(
        dump_code(&format!("{scale}$var wire 1 !\n")),
        "xspice_vcd_declaration"
    );
    assert_eq!(
        dump_code(&format!("{scale}{var}#later\n")),
        "xspice_vcd_time"
    );
    assert_eq!(
        dump_code(&format!("{scale}$enddefinitions $end\n")),
        "xspice_vcd_missing_signal"
    );
}

fn driver() -> Component {
    Component::new("in", ComponentKind::logic_input())
        .with_pin(digital("out", PinDirection::Output))
        .with_parameter("value", text("1"))
}

fn buffer() -> Component {
    Component::new("buf", ComponentKind::buffer())
        .with_pin(digital("in", PinDirection::Input))
        .with_pin(digital("out", PinDirection::Output))
}

fn events() -> SimulationRequest {
    request(
        Circuit::new()
            .with_component(driver())
            .with_component(buffer())
            .with_net(net("a", &[("in", "out"), ("buf", "in")]))
            .with_net(net("b", &[("buf", "out")])),
        Analysis::DigitalTransient { stop: bits(1.0) },
    )
}

fn event_code(request: &SimulationRequest) -> String {
    xspice::compile_request(request)
        .unwrap_err()
        .code()
        .to_owned()
}

#[test]
fn event_requests_are_refused_with_a_reason() {
    assert!(xspice::compile_request(&events()).is_ok());
    let mut other = events();
    other.analysis = Analysis::OperatingPoint;
    assert_eq!(event_code(&other), "xspice_unsupported_analysis");
    let mut never = events();
    never.analysis = Analysis::DigitalTransient { stop: bits(0.0) };
    assert_eq!(event_code(&never), "xspice_invalid_analysis");
    let mut bare = events();
    bare.circuit.nets.clear();
    assert_eq!(event_code(&bare), "xspice_no_nets");
    let mut twice = events();
    twice.circuit.nets.push(net("c", &[("buf", "in")]));
    assert_eq!(event_code(&twice), "xspice_endpoint_on_multiple_nets");
    let mut odd = events();
    odd.circuit.components.push(resistor());
    assert_eq!(event_code(&odd), "xspice_unsupported_component");
    let mut lost = events();
    lost.probes.push(probe("buf", "clk"));
    assert_eq!(event_code(&lost), "xspice_unknown_probe");
    let mut loose = events();
    loose.circuit.nets.pop();
    let error = xspice::compile_request(&loose).unwrap_err();
    assert_eq!(error.code(), "xspice_component_invalid");
    assert_eq!(
        error.message(),
        "component `buf`: required digital pin `out` is not connected to a net"
    );
    let mut value = events();
    value.circuit.components[0]
        .parameters
        .insert("value", ParameterValue::Integer(2));
    assert_eq!(event_code(&value), "xspice_component_invalid");
    assert_eq!(
        clock_events(bits(1.0), bits(0.5), bits(0.5), LogicValue::X)
            .unwrap_err()
            .code(),
        "xspice_invalid_clock"
    );
    assert_eq!(
        xspice::gate_contract("resistor").unwrap_err().code(),
        "xspice_unsupported_gate"
    );
}

fn flip_flop() -> SimulationRequest {
    let flip = Component::new("ff", ComponentKind::d_flip_flop())
        .with_pin(digital("d", PinDirection::Input))
        .with_pin(digital("clk", PinDirection::Input))
        .with_pin(digital("set", PinDirection::Input))
        .with_pin(digital("reset", PinDirection::Input))
        .with_pin(digital("q", PinDirection::Output))
        .with_pin(digital("nq", PinDirection::Output))
        .with_parameter("initial", text("low"))
        .with_parameter("delay", quantity(2.0, Unit::Second));
    request(
        Circuit::new()
            .with_component(driver())
            .with_component(flip)
            .with_net(net(
                "a",
                &[
                    ("in", "out"),
                    ("ff", "d"),
                    ("ff", "clk"),
                    ("ff", "set"),
                    ("ff", "reset"),
                ],
            ))
            .with_net(net("q", &[("ff", "q")]))
            .with_net(net("nq", &[("ff", "nq")])),
        Analysis::DigitalTransient { stop: bits(1.0) },
    )
}

#[test]
fn event_netlists_are_written() {
    let compiled = xspice::compile_request(&events()).unwrap();
    assert_eq!(
        render(&compiled.netlist),
        "* OntologyX Sim Core generated XSPICE digital netlist\n\
         Vdummy dummy 0 DC=0\n\
         a_source [d0] xsource\n\
         .model xsource d_source(input_file=\"source.txt\")\n\
         ag1 d0 d1 xg1\n\
         .model xg1 d_buffer(rise_delay=9.99999999999999980e-13 fall_delay=9.99999999999999980e-13)\n\
         .control\n\
         set noaskquit\n\
         set noacct\n\
         set digital_delay_type=2\n\
         esave all\n\
         tran 1.00000000000000002e-3 1.00000000000000000e0\n\
         eprvcd -t 1e-15 d0 d1 > result.vcd\n\
         quit\n\
         .endc\n\
         .end\n"
    );
    assert_eq!(
        render(&compiled.stimulus),
        "* time and XSPICE digital source states\n0.00000000000000000e0 1s\n"
    );
    assert!(compiled.delay_floor_applied);

    let compiled = xspice::compile_request(&flip_flop()).unwrap();
    let netlist = render(&compiled.netlist);
    assert!(netlist.contains("as1 d0 d0 d0 d0 d1 d2 xs1\n"));
    assert!(netlist.contains(
        ".model xs1 d_dff(clk_delay=2.00000000000000000e0 set_delay=2.00000000000000000e0 \
         reset_delay=2.00000000000000000e0 ic=0 rise_delay=9.99999999999999980e-13 \
         fall_delay=9.99999999999999980e-13)\n"
    ));
    assert!(!compiled.delay_floor_applied);
    let mut falling = flip_flop();
    falling.circuit.components[1]
        .parameters
        .insert("edge", text("falling"));
    assert_eq!(event_code(&falling), "xspice_unsupported_clock_edge");
}

fn bridged() -> SimulationRequest {
    let adc = Component::new("adc", ComponentKind::adc_bridge())
        .with_pin(Pin::new(
            "analog_in",
            "analog_in",
            SignalDomain::Analog,
            PinDirection::Input,
        ))
        .with_pin(digital("digital_out", PinDirection::Output))
        .with_parameter("low_threshold", quantity(1.0, Unit::Volt))
        .with_parameter("high_threshold", quantity(2.0, Unit::Volt));
    request(
        Circuit::new()
            .with_component(source())
            .with_component(ground())
            .with_component(adc)
            .with_net(net("top", &[("v", "p"), ("adc", "analog_in")]))
            .with_net(net("low", &[("v", "n"), ("gnd", "g")]))
            .with_net(net("out", &[("adc", "digital_out")])),
        Analysis::MixedSignalTransient {
            step: bits(0.5),
            stop: bits(2.0),
        },
    )
}

fn mixed_code(request: &SimulationRequest) -> String {
    mixed::compile_request(request)
        .unwrap_err()
        .code()
        .to_owned()
}

#[test]
fn mixed_requests_are_refused_with_a_reason() {
    let compiled = mixed::compile_request(&bridged()).unwrap();
    let netlist = render(&compiled.netlist);
    assert!(netlist.contains("aadc2 [n1] [d3] madc2\n"));
    assert!(netlist.contains("wrdata analog.txt v(n1)\neprvcd -t 1e-15 d3 > digital.vcd\n"));

    let mut other = bridged();
    other.analysis = Analysis::OperatingPoint;
    assert_eq!(mixed_code(&other), "mixed_signal_unsupported_analysis");
    let mut late = bridged();
    late.analysis = Analysis::MixedSignalTransient {
        step: bits(3.0),
        stop: bits(2.0),
    };
    assert_eq!(mixed_code(&late), "mixed_signal_invalid_analysis");
    let mut unknown = bridged();
    unknown.circuit.nets.push(net("x", &[("nobody", "p")]));
    assert_eq!(mixed_code(&unknown), "mixed_signal_unknown_endpoint");
    let mut joined = bridged();
    joined.circuit.nets[2] = net("out", &[("adc", "digital_out"), ("v", "p")]);
    assert_eq!(mixed_code(&joined), "mixed_signal_direct_domain_join");
    let mut legacy = bridged();
    legacy.circuit.components[0].pins[0].domain = SignalDomain::Mixed;
    assert_eq!(
        mixed_code(&legacy),
        "mixed_signal_legacy_mixed_pin_unsupported"
    );
    let mut floating = bridged();
    floating.circuit.components.remove(1);
    floating.circuit.nets[1] = net("low", &[("v", "n")]);
    assert_eq!(mixed_code(&floating), "mixed_signal_ground_required");
    let mut sunk = bridged();
    sunk.circuit.components[1].pins[0].domain = SignalDomain::Digital;
    sunk.circuit.nets[1] = net("low", &[("gnd", "g")]);
    assert_eq!(mixed_code(&sunk), "mixed_signal_digital_ground_invalid");
    let mut twice = bridged();
    twice.circuit.nets.push(net("x", &[("v", "p")]));
    assert_eq!(mixed_code(&twice), "mixed_signal_endpoint_multiple_nets");
    let mut odd = bridged();
    odd.circuit
        .components
        .push(Component::new("m", ComponentKind::mcu()));
    assert_eq!(mixed_code(&odd), "mixed_signal_unsupported_component");
    let mut plain = bridged();
    plain.circuit.components.pop();
    plain.circuit.nets.pop();
    plain.circuit.nets[0] = net("top", &[("v", "p")]);
    assert_eq!(mixed_code(&plain), "mixed_signal_bridge_required");
    let mut lost = bridged();
    lost.probes.push(probe("adc", "clk"));
    assert_eq!(mixed_code(&lost), "mixed_signal_unknown_probe");
    let mut window = bridged();
    window.circuit.components[2]
        .parameters
        .insert("low_threshold", ParameterValue::Integer(1));
    let error = mixed::compile_request(&window).unwrap_err();
    assert_eq!(
        error.message(),
        "component `adc`: parameter `low_threshold` must be a number or Volt quantity"
    );
}

fn module() -> SimulationRequest {
    let unit = Component::new("u", ComponentKind::hdl_module())
        .with_pin(Pin::new(
            "a",
            "a",
            SignalDomain::Digital,
            PinDirection::Input,
        ))
        .with_pin(Pin::new(
            "q",
            "q",
            SignalDomain::Digital,
            PinDirection::Output,
        ))
        .with_parameter("model", text("m"));
    let clock = Component::new("clk", ComponentKind::digital_clock())
        .with_pin(digital("out", PinDirection::Output))
        .with_parameter("period", quantity(4e-12, Unit::Second))
        .with_parameter("duty_cycle", ParameterValue::Number(bits(0.25)));
    request(
        Circuit::new()
            .with_model(ModelDefinition::verilog_module(
                "m",
                "top",
                "module top(input a, output q); endmodule",
            ))
            .with_component(clock)
            .with_component(unit)
            .with_net(net("a", &[("clk", "out"), ("u", "a")]))
            .with_net(net("q", &[("u", "q")])),
        Analysis::DigitalTransient { stop: bits(8e-12) },
    )
}

fn hdl_code(request: &SimulationRequest) -> String {
    verilator::compile_request(request)
        .unwrap_err()
        .code()
        .to_owned()
}

#[test]
fn test_benches_are_written() {
    let mut wanted = module();
    wanted.circuit.components[1]
        .parameters
        .insert("param.NAME", text("a\"b"));
    wanted.circuit.components[1]
        .parameters
        .insert("param.N", ParameterValue::Integer(-3));
    wanted.circuit.components[1]
        .parameters
        .insert("param.F", ParameterValue::Number(bits(0.5)));
    let compiled = verilator::compile_request(&wanted).unwrap();
    assert_eq!(
        render(&compiled.wrapper),
        "module oxsim_tb;\n  wire ox_n0;\n  wire ox_n1;\n  logic ox_clk_0 = 1'b0;\n  \
         assign ox_n0 = ox_clk_0;\n  initial begin\n    forever begin\n      #3 ox_clk_0 = \
         1'b1;\n      #1 ox_clk_0 = 1'b0;\n    end\n  end\n  top #(.F(0.50000000000000000), \
         .N(-3), .NAME(\"a\\\"b\")) ox_u1 (.a(ox_n0), .q(ox_n1));\n  initial begin\n    \
         $dumpfile(\"result.vcd\");\n    $dumpvars(0, oxsim_tb);\n    #8;\n    $finish;\n  \
         end\nendmodule\n"
    );
    assert_eq!(compiled.sources.len(), 1);
    assert_eq!(compiled.sources[0].filename, "hdl_0.v");
    assert_eq!(compiled.probes.len(), 2);
    assert_eq!(compiled.probes[1].signal, "net:q");
    assert_eq!(compiled.probes[1].node, "ox_n1");
}

#[test]
fn hdl_requests_are_refused_with_a_reason() {
    let mut other = module();
    other.analysis = Analysis::OperatingPoint;
    assert_eq!(hdl_code(&other), "verilator_unsupported_analysis");
    let mut never = module();
    never.analysis = Analysis::DigitalTransient {
        stop: bits(f64::INFINITY),
    };
    assert_eq!(hdl_code(&never), "verilator_invalid_analysis");
    let mut empty = module();
    empty.circuit.components.pop();
    assert_eq!(hdl_code(&empty), "verilator_hdl_module_missing");
    let mut odd = module();
    odd.circuit.components.push(buffer());
    assert_eq!(hdl_code(&odd), "verilator_unsupported_component");
    let mut bare = module();
    bare.circuit.models.clear();
    assert_eq!(hdl_code(&bare), "verilator_model_missing");
    let mut twice = module();
    twice.circuit.nets.push(net("x", &[("u", "q")]));
    assert_eq!(hdl_code(&twice), "verilator_endpoint_multiple_nets");
    let mut lost = module();
    lost.probes.push(probe("u", "z"));
    assert_eq!(hdl_code(&lost), "verilator_unknown_probe");
    let mut loose = module();
    loose.circuit.nets.pop();
    let error = verilator::compile_request(&loose).unwrap_err();
    assert_eq!(error.code(), "verilator_component_invalid");
    assert_eq!(error.message(), "component `u`: pin `q` must be connected");
    let mut amount = module();
    amount.circuit.components[1]
        .parameters
        .insert("param.N", quantity(1.0, Unit::Volt));
    assert_eq!(hdl_code(&amount), "verilator_parameter_invalid");
    let mut gap = module();
    gap.circuit.components[1].pins[1].name = "q[1]".to_owned();
    assert_eq!(
        verilator::compile_request(&gap).unwrap_err().message(),
        "component `u`: HDL vector port `q` must map every bit from 0 through 1"
    );
}

fn firmware() -> (SimulationRequest, RenodeTarget) {
    let board = Component::new("mcu", ComponentKind::mcu()).with_pin(Pin::new(
        "led",
        "gpioPortD@12",
        SignalDomain::Digital,
        PinDirection::Output,
    ));
    let lamp = Component::new("lamp", ComponentKind::logic_output())
        .with_pin(digital("in", PinDirection::Input));
    let request = request(
        Circuit::new()
            .with_component(board)
            .with_component(lamp)
            .with_net(net("led", &[("mcu", "led"), ("lamp", "in")])),
        Analysis::FirmwareTransient {
            step: bits(0.5),
            stop: bits(0.75),
        },
    );
    let target = RenodeTarget::new(
        "mcu",
        "platforms/boards/board.repl",
        FirmwareArtifact::binary(vec![1, 2, 3], 0x800),
    );
    (request, target)
}

fn board_code(request: &SimulationRequest, target: &RenodeTarget) -> String {
    renode::compile_request(request, target)
        .unwrap_err()
        .code()
        .to_owned()
}

#[test]
fn board_scripts_are_written() {
    let (mut request, target) = firmware();
    request.probes.push(probe("lamp", "in"));
    let compiled = renode::compile_request(&request, &target).unwrap();
    assert_eq!(
        render(&compiled.script),
        "using sysbus\nmach create \"oxsim\"\n\
         machine LoadPlatformDescription @platforms/boards/board.repl\n\
         machine LoadPlatformDescriptionFromString \"gpioPortD: { 12 -> oxsim_gpio_0@0 }; \
         oxsim_gpio_0: Miscellaneous.LED @ gpioPortD 12\"\n\
         sysbus LoadBinary @firmware.bin 0x800\n\
         log \"OXSIM_GPIO|0|0.00000000000000000\"\n\
         sysbus.gpioPortD.oxsim_gpio_0 State\n\
         emulation RunFor \"0.50000000000000000\"\n\
         log \"OXSIM_GPIO|0|0.50000000000000000\"\n\
         sysbus.gpioPortD.oxsim_gpio_0 State\n\
         emulation RunFor \"0.25000000000000000\"\n\
         log \"OXSIM_GPIO|0|0.75000000000000000\"\n\
         sysbus.gpioPortD.oxsim_gpio_0 State\n\
         quit\n"
    );
    assert_eq!(compiled.probes.len(), 1);
    assert_eq!(compiled.probes[0].source_index, 0);
    assert_eq!(compiled.probes[0].signal, "lamp.in");
}

#[test]
fn firmware_requests_are_refused_with_a_reason() {
    let (good, target) = firmware();
    let mut other = good.clone();
    other.analysis = Analysis::OperatingPoint;
    assert_eq!(board_code(&other, &target), "renode_analysis_unsupported");
    let mut still = good.clone();
    still.analysis = Analysis::FirmwareTransient {
        step: bits(0.0),
        stop: bits(1.0),
    };
    assert_eq!(board_code(&still, &target), "renode_time_invalid");
    let mut elsewhere = target.clone();
    elsewhere.component = ontologyx_sim_core::ComponentId::new("other");
    assert_eq!(board_code(&good, &elsewhere), "renode_target_missing");
    let mut crowded = good.clone();
    crowded.circuit.components.push(buffer());
    assert_eq!(board_code(&crowded, &target), "renode_component_invalid");
    let mut lost = good.clone();
    lost.probes.push(probe("lamp", "out"));
    assert_eq!(board_code(&lost, &target), "renode_probe_invalid");
    let mut joined = good.clone();
    joined.circuit.components[0].pins.push(Pin::new(
        "second",
        "gpioPortD@13",
        SignalDomain::Digital,
        PinDirection::Output,
    ));
    joined.circuit.nets[0] = net("led", &[("mcu", "led"), ("mcu", "second")]);
    assert_eq!(board_code(&joined, &target), "renode_net_invalid");
    let mut raw = target.clone();
    raw.firmware.load_address = None;
    assert_eq!(board_code(&good, &raw), "firmware_artifact_invalid");
    let mut fine = good;
    fine.analysis = Analysis::FirmwareTransient {
        step: bits(1e-6),
        stop: bits(1.0),
    };
    assert_eq!(board_code(&fine, &target), "execution_resource_limit");
}

#[test]
fn solvers_say_what_they_take() {
    let analog = Analysis::OperatingPoint;
    let event = Analysis::DigitalTransient { stop: bits(1.0) };
    let both = bridged().analysis;
    let board = firmware().0.analysis;
    let table = [
        (ngspice_capabilities(), [true, false, false, false]),
        (xspice_capabilities(), [false, true, false, false]),
        (verilator_capabilities(), [false, true, false, false]),
        (mixed_capabilities(), [false, false, true, false]),
        (renode_capabilities(), [false, false, false, true]),
    ];
    for (abilities, wanted) in table {
        let got = [
            abilities.supports(&analog),
            abilities.supports(&event),
            abilities.supports(&both),
            abilities.supports(&board),
        ];
        assert_eq!(got, wanted);
    }
    assert!(mixed_supports_request(&bridged()));
    assert!(!mixed_supports_request(&events()));
    let mut with_module = bridged();
    with_module
        .circuit
        .components
        .push(Component::new("u", ComponentKind::hdl_module()));
    assert!(!mixed_supports_request(&with_module));
    assert!(!DigitalEngine::new().supports_request(&module()));
    assert!(DigitalEngine::new().supports_request(&events()));
    assert!(verilator::supports_request(&module()));
    assert!(!verilator::supports_request(&events()));
    let (request, target) = firmware();
    assert!(renode::supports_request(&target, &request));
    assert!(!renode::supports_request(&target, &events()));
}

#[test]
fn solvers_are_started_with_their_arguments() {
    assert_eq!(
        spice_arguments("run.log", "run.cir"),
        ["-n", "-b", "-o", "run.log", "run.cir"]
    );
    assert_eq!(
        renode_arguments("run.resc"),
        ["--disable-gui", "--console", "-p", "run.resc"]
    );
    let compiled = verilator::compile_request(&module()).unwrap();
    assert_eq!(
        hdl_build_arguments(&compiled.sources).join(" "),
        "--binary --timing --trace-vcd --timescale 1ps/1ps --x-assign 0 --x-initial 0 \
         --top-module oxsim_tb --Mdir obj_dir -o oxsim_verilated -j 1 hdl_0.v oxsim_tb.sv"
    );
    assert_eq!(
        hdl_cosim_build_arguments(&module().circuit.models[0]).join(" "),
        "--cc --exe --build --timing --timescale 1ps/1ps --x-assign 0 --x-initial 0 \
         --top-module top --prefix OxCosimModel --Mdir obj_dir_cosim -o oxsim_verilator_cosim \
         -j 1 oxsim_cosim_model.v oxsim_cosim_main.cpp"
    );
}

#[test]
fn event_models_are_tried() {
    assert!(trial_passes(true, "done", 10));
    assert!(!trial_passes(false, "done", 10));
    assert!(!trial_passes(true, "Unknown model type D_SOURCE", 10));
    assert!(!trial_passes(true, "done", 0));
    let there = |available: bool| NgSpiceInfo {
        available,
        executable: "ngspice".to_owned(),
        version: None,
    };
    assert!(xspice_info(there(true), true).xspice_available);
    assert!(!xspice_info(there(true), false).xspice_available);
    let gone = mixed_info(xspice_info(there(false), true));
    assert!(!gone.available);
    assert!(!gone.xspice_available);
    assert_eq!(gone.executable, "ngspice");
}

#[test]
fn sampled_pins_are_shown_as_transitions() {
    let samples = vec![
        (bits(0.0), false),
        (bits(0.5), false),
        (bits(0.75), true),
        (bits(1.0), true),
        (bits(1.25), false),
    ];
    let transitions = renode::transitions_from_samples(&samples);
    let shown: Vec<(f64, LogicValue)> = transitions
        .iter()
        .map(|transition| (double(transition.time), transition.value))
        .collect();
    assert_eq!(
        shown,
        [
            (0.0, LogicValue::Zero),
            (0.75, LogicValue::One),
            (1.25, LogicValue::Zero)
        ]
    );
    let waveform = Waveform::Digital(ontologyx_sim_core::DigitalWaveform {
        signal: ontologyx_sim_core::SignalId::new("led"),
        transitions,
    });
    assert_eq!(waveform.point_count(), 3);
}

#[test]
fn runs_are_prepared_unless_they_are_not_started() {
    let policy = ExecutionPolicy::default();
    let engine = NgSpiceEngine::default();
    assert_eq!(engine.executable(), "ngspice");
    assert!(engine.supports_request(&request(loaded(resistor()), Analysis::OperatingPoint)));
    let good = request(loaded(resistor()), Analysis::OperatingPoint);
    assert_eq!(
        engine.prepare(&good, &policy, false).unwrap(),
        ngspice::compile_request(&good).unwrap()
    );
    let stopped = engine.prepare(&good, &policy, true).unwrap_err();
    assert_eq!(stopped.code(), "execution_cancelled");
    assert_eq!(
        stopped.message(),
        "simulation was cancelled before ngspice execution"
    );
    assert_eq!(
        XSpiceEngine::new("spice")
            .prepare(&events(), &policy, true)
            .unwrap_err()
            .message(),
        "simulation was cancelled before XSPICE execution"
    );
    assert!(MixedSignalEngine::default()
        .prepare(&bridged(), &policy, false)
        .is_ok());
    assert!(VerilatorEngine::default()
        .prepare(&module(), &policy, false)
        .is_ok());
    let (wanted, mut target) = firmware();
    assert!(RenodeEngine::new(target.clone())
        .prepare(&wanted, &policy, false)
        .is_ok());
    target.platform = "/etc/board.repl".to_owned();
    assert_eq!(
        RenodeEngine::with_executable("renode", target)
            .prepare(&wanted, &policy, false)
            .unwrap_err()
            .code(),
        "renode_target_invalid"
    );
    let hurried = ExecutionPolicy {
        poll_interval_ms: 0,
        ..ExecutionPolicy::default()
    };
    assert!(engine.prepare(&good, &hurried, false).is_err());
}

#[test]
fn engines_tell_what_was_printed() {
    let printed = Some(Printed {
        success: false,
        stdout: "** ngspice-42 : Circuit level simulation program\n".to_owned(),
        stderr: String::new(),
    });
    let info = NgSpiceEngine::new("spice").info(printed.clone());
    assert!(info.available);
    assert_eq!(info.executable, "spice");
    assert_eq!(
        info.version.as_deref(),
        Some("** ngspice-42 : Circuit level simulation program")
    );
    let events = XSpiceEngine::default().info(printed.clone(), false);
    assert!(events.available);
    assert!(!events.xspice_available);
    let both = MixedSignalEngine::default().info(printed.clone(), true);
    assert!(both.xspice_available);
    assert!(!VerilatorEngine::default().info(printed).available);
    assert!(!NgSpiceEngine::default().info(None).available);
}

#[test]
fn unwatched_runs_end_like_watched_ones() {
    let wanted = events();
    let engine = DigitalEngine::new();
    assert_eq!(
        engine.run_to_end(&wanted, 0).unwrap(),
        engine.simulate(&wanted).unwrap()
    );
    let mut odd = events();
    odd.circuit.components.push(resistor());
    assert_eq!(
        engine.run_to_end(&odd, 0).unwrap_err().code(),
        engine.simulate(&odd).unwrap_err().code()
    );
}
