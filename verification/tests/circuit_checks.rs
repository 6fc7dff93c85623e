use ontologyx_sim_core::circuit::{
    Circuit, Component, ComponentKind, Net, NetEndpoint, ParameterValue, Pin, PinDirection,
    SignalDomain,
};
use ontologyx_sim_core::firmware::{FirmwareArtifact, FirmwareFormat};
use ontologyx_sim_core::units::{Quantity, Unit};
use ontologyx_sim_core::validation::{
    is_hdl_identifier, is_hdl_port_reference, is_mcu_gpio_mapping, is_renode_identifier,
};
use ontologyx_sim_core::{
    validate_circuit, IssueSeverity, ModelDefinition, ModelKind, ModelLanguage, Real,
    ValidationReport,
};

fn bits(value: f64) -> Real {
    Real::from_bits(value.to_bits())
}

fn volts(value: f64) -> ParameterValue {
    ParameterValue::Quantity(Quantity::new(bits(value), Unit::Volt))
}

fn text(value: &str) -> ParameterValue {
    ParameterValue::Text(value.to_owned())
}

fn part(id: &str, kind: &str) -> Component {
    Component::new(id, ComponentKind::new(kind)).with_pin(analog("a"))
}

fn analog(id: &str) -> Pin {
    Pin::new(id, id, SignalDomain::Analog, PinDirection::Passive)
}

fn output(id: &str, name: &str) -> Pin {
    Pin::new(id, name, SignalDomain::Digital, PinDirection::Output)
}

fn found(report: &ValidationReport) -> Vec<(String, String)> {
    report
        .issues
        .iter()
        .map(|issue| (issue.code.clone(), issue.path.clone()))
        .collect()
}

fn issues(circuit: &Circuit) -> Vec<(String, String)> {
    found(&validate_circuit(circuit))
}

fn said(code: &str, path: &str) -> (String, String) {
    (code.to_owned(), path.to_owned())
}

fn of_one(component: Component) -> Vec<(String, String)> {
    issues(&Circuit::new().with_component(component))
}

#[test]
fn other_schema_versions_are_refused() {
    let mut circuit = Circuit::new();
    circuit.schema_version = 7;
    let report = validate_circuit(&circuit);
    assert_eq!(
        found(&report),
        vec![said("unsupported_schema_version", "schema_version")]
    );
    assert_eq!(report.issues[0].message, "expected schema version 1, got 7");
    assert_eq!(report.issues[0].severity, IssueSeverity::Error);
    assert!(!report.is_valid());
    assert_eq!(report.error_count(), 1);
    assert_eq!(report.warning_count(), 0);
}

#[test]
fn models_are_checked() {
    let circuit = Circuit::new()
        .with_model(ModelDefinition::spice_device(" ", "", " "))
        .with_model(ModelDefinition::spice_device("d", "D1", ".model D1 D"))
        .with_model(ModelDefinition::verilog_module(" d ", "top", "module top; endmodule"));
    assert_eq!(
        issues(&circuit),
        vec![
            said("empty_model_id", "models[0].id"),
            said("empty_model_entry", "models[0].entry"),
            said("empty_model_source", "models[0].source"),
            said("duplicate_model_id", "models[2].id"),
        ]
    );
    let mut odd = ModelDefinition::spice_device("d", "D1", ".model D1 D");
    odd.language = ModelLanguage::Verilog;
    let mut strange = ModelDefinition::verilog_module("m", "top", "module top; endmodule");
    assert_eq!(strange.kind, ModelKind::Module);
    strange.language = ModelLanguage::Spice;
    let report = validate_circuit(&Circuit::new().with_model(odd).with_model(strange));
    assert_eq!(
        found(&report),
        vec![
            said("incompatible_model_language", "models[0].language"),
            said("incompatible_model_language", "models[1].language"),
        ]
    );
    assert_eq!(
        report.issues[0].message,
        "model kind Device is incompatible with language Verilog"
    );
}

#[test]
fn components_and_pins_are_checked() {
    let circuit = Circuit::new()
        .with_component(part(" ", "resistor"))
        .with_component(Component::new("x", ComponentKind::new(" ")))
        .with_component(part("x", "resistor"))
        .with_component(
            part("y", "resistor")
                .with_pin(analog(" "))
                .with_pin(analog(" a ")),
        );
    assert_eq!(
        issues(&circuit),
        vec![
            said("empty_component_id", "components[0].id"),
            said("empty_component_kind", "components[1].kind"),
            said("component_has_no_pins", "components[1].pins"),
            said("duplicate_component_id", "components[2].id"),
            said("empty_pin_id", "components[3].pins[1].id"),
            said("duplicate_pin_id", "components[3].pins[2].id"),
        ]
    );
}

#[test]
fn parameters_are_checked() {
    let component = part("r", "resistor")
        .with_parameter("", ParameterValue::Boolean(true))
        .with_parameter("q", volts(f64::INFINITY))
        .with_parameter("n", ParameterValue::Number(bits(f64::NAN)))
        .with_parameter("ok", ParameterValue::Integer(3));
    assert_eq!(
        of_one(component),
        vec![
            said("empty_parameter_name", "components[0].parameters"),
            said("non_finite_parameter", "components[0].parameters.n"),
            said("non_finite_parameter", "components[0].parameters.q"),
        ]
    );
}

#[test]
fn model_references_are_checked() {
    let device = ModelDefinition::spice_device("d", "D1", ".model D1 D");
    let block = ModelDefinition::spice_subcircuit("s", "S1", ".subckt S1 a\n.ends S1");
    let circuit = Circuit::new()
        .with_model(device)
        .with_model(block)
        .with_component(part("d0", "diode"))
        .with_component(part("d1", "diode").with_parameter("model", text(" ")))
        .with_component(part("d2", "bjt").with_parameter("model", text("nope")))
        .with_component(part("d3", "mosfet").with_parameter("model", text("s")))
        .with_component(part("d4", "op_amp").with_parameter("model", text("d")))
        .with_component(part("d5", "subcircuit").with_parameter("model", text("s")))
        .with_component(part("d6", "diode").with_parameter("model", text("d")));
    let report = validate_circuit(&circuit);
    assert_eq!(
        found(&report),
        vec![
            said("missing_model_reference", "components[0].parameters.model"),
            said("invalid_model_reference", "components[1].parameters.model"),
            said("unknown_model", "components[2].parameters.model"),
            said("incompatible_model_kind", "components[3].parameters.model"),
            said("incompatible_model_kind", "components[4].parameters.model"),
        ]
    );
    assert_eq!(
        report.issues[3].message,
        "model `s` has kind Subcircuit, expected Device"
    );
}

#[test]
fn nets_are_checked() {
    let sink = Pin::new("in", "in", SignalDomain::Digital, PinDirection::Input);
    let circuit = Circuit::new()
        .with_component(part("r", "resistor").with_pin(analog("b")))
        .with_component(Component::new("g1", ComponentKind::buffer()).with_pin(output("out", "out")))
        .with_component(Component::new("g2", ComponentKind::buffer()).with_pin(output("out", "out")))
        .with_component(Component::new("s", ComponentKind::logic_output()).with_pin(sink))
        .with_net(Net::new(" ").connect(NetEndpoint::new("r", "a")))
        .with_net(
            Net::new("n")
                .connect(NetEndpoint::new("g1", "out"))
                .connect(NetEndpoint::new("g2", "out"))
                .connect(NetEndpoint::new("s", "in")),
        )
        .with_net(
            Net::new("n")
                .connect(NetEndpoint::new("nobody", "a"))
                .connect(NetEndpoint::new("r", "nothing"))
                .connect(NetEndpoint::new("r", "nothing")),
        )
        .with_net(
            Net::new("m")
                .connect(NetEndpoint::new("r", "b"))
                .connect(NetEndpoint::new("s", "in")),
        );
    let report = validate_circuit(&circuit);
    assert_eq!(
        found(&report),
        vec![
            said("empty_net_id", "nets[0].id"),
            said("dangling_net", "nets[0].endpoints"),
            said("multiple_digital_drivers_resolved", "nets[1].endpoints"),
            said("duplicate_net_id", "nets[2].id"),
            said("unknown_component", "nets[2].endpoints[0].component"),
            said("unknown_pin", "nets[2].endpoints[1].pin"),
            said("duplicate_net_endpoint", "nets[2].endpoints[2]"),
            said("unknown_pin", "nets[2].endpoints[2].pin"),
            said("mixed_signal_bridge_required", "nets[3].endpoints"),
        ]
    );
    assert_eq!(report.warning_count(), 2);
    assert_eq!(report.error_count(), 7);
    assert_eq!(
        report.issues[5].message,
        "unknown pin `nothing` on component `r`"
    );
}

fn adc() -> Component {
    Component::new("adc", ComponentKind::adc_bridge())
        .with_pin(Pin::new(
            "analog_in",
            "analog_in",
            SignalDomain::Analog,
            PinDirection::Input,
        ))
        .with_pin(output("digital_out", "digital_out"))
        .with_parameter("low_threshold", volts(0.8))
        .with_parameter("high_threshold", volts(2.0))
}

fn dac() -> Component {
    Component::new("dac", ComponentKind::dac_bridge())
        .with_pin(Pin::new(
            "digital_in",
            "digital_in",
            SignalDomain::Digital,
            PinDirection::Input,
        ))
        .with_pin(Pin::new(
            "analog_out",
            "analog_out",
            SignalDomain::Analog,
            PinDirection::Output,
        ))
        .with_parameter("low_voltage", volts(0.0))
        .with_parameter("high_voltage", volts(3.3))
}

#[test]
fn bridges_are_checked() {
    assert!(of_one(adc()).is_empty());
    assert!(of_one(dac()).is_empty());

    let bare = Component::new("adc", ComponentKind::adc_bridge())
        .with_pin(output("analog_in", "analog_in"));
    assert_eq!(
        of_one(bare),
        vec![
            said("mixed_signal_bridge_pin_domain", "components[0].pins[0].domain"),
            said("mixed_signal_bridge_pin_direction", "components[0].pins[0].direction"),
            said("mixed_signal_bridge_pin_missing", "components[0].pins"),
            said(
                "mixed_signal_bridge_parameter_missing",
                "components[0].parameters.low_threshold"
            ),
            said(
                "mixed_signal_bridge_parameter_missing",
                "components[0].parameters.high_threshold"
            ),
        ]
    );
    assert_eq!(
        of_one(adc().with_parameter("low_threshold", volts(2.0))),
        vec![said("invalid_adc_threshold_window", "components[0].parameters")]
    );
    assert_eq!(
        of_one(dac().with_parameter("high_voltage", ParameterValue::Number(bits(-1.0)))),
        vec![said("invalid_dac_voltage_window", "components[0].parameters")]
    );
    let delay = |value: ParameterValue| of_one(adc().with_parameter("rise_delay", value));
    let path = "components[0].parameters.rise_delay";
    assert_eq!(
        delay(volts(1.0)),
        vec![said("mixed_signal_bridge_parameter_unit", path)]
    );
    assert_eq!(
        delay(text("soon")),
        vec![said("mixed_signal_bridge_parameter_type", path)]
    );
    assert_eq!(
        delay(ParameterValue::Number(bits(-1e-9))),
        vec![said("mixed_signal_bridge_parameter_negative", path)]
    );
    assert_eq!(
        delay(ParameterValue::Number(bits(f64::INFINITY))),
        vec![
            said("non_finite_parameter", path),
            said("mixed_signal_bridge_parameter_non_finite", path),
        ]
    );
    let load = dac().with_parameter("input_load", volts(1.0));
    let report = validate_circuit(&Circuit::new().with_component(load));
    assert_eq!(
        report.issues[0].message,
        "parameter `input_load` has unit Volt, expected Farad"
    );
}

#[test]
fn hdl_modules_are_checked() {
    let module = ModelDefinition::system_verilog_module("m", "top", "module top; endmodule");
    let device = ModelDefinition::spice_device("d", "D1", ".model D1 D");
    let base = Circuit::new().with_model(module).with_model(device);
    let check = |component: Component| issues(&base.clone().with_component(component));
    let hdl = || Component::new("u", ComponentKind::hdl_module());

    assert!(check(hdl().with_pin(output("q", "q[3]")).with_parameter("model", text("m"))).is_empty());
    assert_eq!(
        check(hdl()),
        vec![
            said("component_has_no_pins", "components[0].pins"),
            said("missing_model_reference", "components[0].parameters.model"),
            said("hdl_module_has_no_pins", "components[0].pins"),
        ]
    );
    let path = "components[0].parameters.model";
    let refer = |value: ParameterValue| {
        check(hdl().with_pin(output("q", "q")).with_parameter("model", value))
    };
    assert_eq!(
        refer(ParameterValue::Boolean(true)),
        vec![said("invalid_model_reference", path)]
    );
    assert_eq!(refer(text("other")), vec![said("unknown_model", path)]);
    assert_eq!(refer(text("d")), vec![said("incompatible_hdl_model", path)]);

    let pins = hdl()
        .with_parameter("model", text("m"))
        .with_parameter("param.WIDTH", ParameterValue::Integer(4))
        .with_parameter("param.9", ParameterValue::Integer(4))
        .with_pin(analog("a"))
        .with_pin(output("b", "a b"))
        .with_pin(output("c", "a"));
    assert_eq!(
        check(pins),
        vec![
            said("hdl_pin_domain", "components[0].pins[0].domain"),
            said("hdl_pin_direction", "components[0].pins[0].direction"),
            said("hdl_pin_mapping_invalid", "components[0].pins[1].name"),
            said("hdl_pin_mapping_duplicate", "components[0].pins[2].name"),
            said("hdl_parameter_name_invalid", "components[0].parameters.param.9"),
        ]
    );
}

#[test]
fn boards_are_checked() {
    let board = || Component::new("mcu", ComponentKind::mcu());
    assert!(of_one(board().with_pin(output("led", "gpioPortD@12"))).is_empty());
    assert_eq!(
        of_one(board()),
        vec![
            said("component_has_no_pins", "components[0].pins"),
            said("mcu_has_no_pins", "components[0].pins"),
        ]
    );
    let pins = board()
        .with_pin(analog("a"))
        .with_pin(output("b", "gpio@1"))
        .with_pin(output("c", " gpio@1 "));
    assert_eq!(
        of_one(pins),
        vec![
            said("mcu_pin_domain", "components[0].pins[0].domain"),
            said("mcu_pin_direction", "components[0].pins[0].direction"),
            said("mcu_pin_mapping_invalid", "components[0].pins[0].name"),
            said("mcu_pin_mapping_duplicate", "components[0].pins[2].name"),
        ]
    );
}

#[test]
fn names_are_plain() {
    assert!(is_hdl_identifier("_a$1"));
    assert!(!is_renode_identifier("_a$1"));
    assert!(is_renode_identifier("_a1"));
    assert!(!is_hdl_identifier(""));
    assert!(!is_hdl_identifier("1a"));
    assert!(is_hdl_port_reference("bus[0]"));
    assert!(!is_hdl_port_reference("bus[-1]"));
    assert!(!is_hdl_port_reference("bus[1"));
    assert!(is_mcu_gpio_mapping("gpio@4294967295"));
    assert!(!is_mcu_gpio_mapping("gpio@4294967296"));
    assert!(!is_mcu_gpio_mapping("gpio"));
}

#[test]
fn firmware_says_how_it_is_loaded() {
    let hex = FirmwareArtifact::intel_hex(vec![1, 2]).with_entry_point(64);
    assert_eq!(hex.format, FirmwareFormat::IntelHex);
    assert_eq!(hex.extension(), "hex");
    assert_eq!(hex.entry_point, Some(64));
    assert_eq!(hex.load_address, None);
    assert!(hex.validate().is_ok());
    assert_eq!(FirmwareArtifact::elf(vec![1]).extension(), "elf");
    assert_eq!(
        FirmwareArtifact::elf(Vec::new()).validate().unwrap_err().code(),
        "firmware_artifact_invalid"
    );
    let mut raw = FirmwareArtifact::binary(vec![1], 4096);
    assert_eq!(raw.extension(), "bin");
    assert!(raw.validate().is_ok());
    raw.load_address = None;
    assert_eq!(
        raw.validate().unwrap_err().code(),
        "firmware_artifact_invalid"
    );
}
