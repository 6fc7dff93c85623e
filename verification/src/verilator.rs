//! Test benches that run inline HDL modules under Verilator.
use crate::analysis::{Analysis, AnalysisKind};
use crate::circuit::{parameter_of, Component, Net, ParameterValue, PinDirection, SignalDomain};
use crate::control::ExecutionPolicy;
use crate::digital::{sort_names, sorted_names};
use crate::draft::{
    drafts, letters, link, link_of, push_drafts, push_text, stack, stack_of, Draft, Sign,
};
use crate::engine::SimulationRequest;
use crate::fault::{
    agrees, collected, fail, fault, lemma_collected_stops, passes, EngineError, Fault,
};
use crate::hdl::{
    bit_of, is_safe_identifier, level_literal, literal_of, logic_literal, parameter_literal,
    parse_port_reference, picoseconds_of, port_named, seconds_to_picoseconds, source_failure,
    validate_hdl_source,
};
use crate::kernel::{share_of, take_share};
use crate::lines::{
    begins_with, chars_begin_with, join_of, join_texts, lines_of, rows, split_lines,
};
use crate::model::{ModelDefinition, ModelKind, ModelLanguage};
use crate::ngspice::{loose_probe, loose_probe_error, signal_name, signal_text};
use crate::nodes::{holds_text, node_at, same_text, NodeMap, NodeName};
use crate::number::Real;
use crate::reading::{
    about, component_error, component_fault, delay_seconds, duty_cycle, duty_of, error_about,
    has_pin, logic_of, needed_logic, optional_logic_value, optional_non_negative_seconds,
    pin_present, required_logic_value, same, ONE_BITS,
};
use crate::spice_results::{enforce_buffer_limit, size_failure};
use crate::text::{
    cat2, cat3, cat4, cat5, decimal, decimal_text, from_chars, is_blank, lowercase, lowercase_chars,
    slice_chars, text_eq, texts, to_chars, trim, trim_bounds,
};
use crate::validation::{find_override, identifier, override_name};
use crate::waveform::LogicValue;
use crate::wiring::{net_at, Connection, Wire, Wiring};
use crate::xspice::{event_probes, xspice_code, EventProbe};
use vstd::prelude::*;

verus! {

pub const VERILATOR_ENGINE_ID: &'static str = "verilator";

pub open spec fn hdl_code() -> Seq<char> {
    "verilator_component_invalid"@
}

/// A kind of component that a test bench can hold.
pub open spec fn supported(kind: Seq<char>) -> bool {
    kind == "hdl_module"@ || kind == "logic_input"@ || kind == "digital_clock"@ || kind
        == "logic_output"@
}

pub fn is_supported_component(kind: &str) -> (r: bool)
    ensures
        r == supported(kind@),
{
    text_eq(kind, "hdl_module") || text_eq(kind, "logic_input") || text_eq(kind, "digital_clock")
        || text_eq(kind, "logic_output")
}

/// The first of the first `n` components that a test bench cannot hold.
pub open spec fn unsupported_at(components: Seq<Component>, n: int) -> Option<int>
    decreases n,
{
    if n <= 0 {
        None
    } else {
        match unsupported_at(components, n - 1) {
            Some(i) => Some(i),
            None => if supported(components[n - 1].kind@) {
                None
            } else {
                Some(n - 1)
            },
        }
    }
}

proof fn lemma_unsupported_stays(components: Seq<Component>, n: int, m: int)
    requires
        0 <= m <= n,
        unsupported_at(components, m) is Some,
    ensures
        unsupported_at(components, n) == unsupported_at(components, m),
    decreases n - m,
{
    if m < n {
        lemma_unsupported_stays(components, n, m + 1);
    }
}

fn find_unsupported(components: &Vec<Component>) -> (r: Option<usize>)
    ensures
        match (r, unsupported_at(components@, components@.len() as int)) {
            (Some(i), Some(j)) => i == j && i < components@.len(),
            (None, None) => true,
            _ => false,
        },
{
    let mut i: usize = 0;
    while i < components.len()
        invariant
            i <= components@.len(),
            unsupported_at(components@, i as int) is None,
        decreases components@.len() - i,
    {
        if !is_supported_component(components[i].kind.as_str()) {
            proof {
                lemma_unsupported_stays(components@, components@.len() as int, i + 1);
            }
            return Some(i);
        }
        i = i + 1;
    }
    None
}

/// Whether a request is for Verilator: a digital transient with an HDL module and
/// nothing that a test bench cannot hold.
pub open spec fn takes_hdl(request: SimulationRequest) -> bool {
    &&& request.analysis.spec_kind() == AnalysisKind::DigitalTransient
    &&& crate::circuit::has_kind(request.circuit.components@, "hdl_module"@)
    &&& unsupported_at(
        request.circuit.components@,
        request.circuit.components@.len() as int,
    ) is None
}

pub fn supports_request(request: &SimulationRequest) -> (r: bool)
    ensures
        r == takes_hdl(*request),
{
    request.analysis.kind() == AnalysisKind::DigitalTransient && crate::circuit::contains_kind(
        &request.circuit.components,
        "hdl_module",
    ) && find_unsupported(&request.circuit.components).is_none()
}

/// A module in Verilog or SystemVerilog.
pub open spec fn is_hdl(model: ModelDefinition) -> bool {
    model.kind == ModelKind::Module && model.language != ModelLanguage::Spice
}

pub fn is_hdl_model(model: &ModelDefinition) -> (r: bool)
    ensures
        r == is_hdl(*model),
{
    let module: bool = match model.kind {
        ModelKind::Module => true,
        _ => false,
    };
    let source: bool = match model.language {
        ModelLanguage::Spice => false,
        _ => true,
    };
    module && source
}

/// The places of the HDL modules among the first `n` models.
pub open spec fn hdl_places(models: Seq<ModelDefinition>, n: int) -> Seq<int>
    decreases n,
{
    if n <= 0 {
        Seq::empty()
    } else if is_hdl(models[n - 1]) {
        hdl_places(models, n - 1).push(n - 1)
    } else {
        hdl_places(models, n - 1)
    }
}

/// Why the first `n` of the modules are refused: the first refusal.
pub open spec fn sources_failure(models: Seq<ModelDefinition>, places: Seq<int>, n: int) -> Option<
    Fault,
>
    decreases n,
{
    if n <= 0 {
        None
    } else {
        match sources_failure(models, places, n - 1) {
            Some(f) => Some(f),
            None => source_failure(models[places[n - 1]]),
        }
    }
}

proof fn lemma_sources_failure_stops(
    models: Seq<ModelDefinition>,
    places: Seq<int>,
    n: int,
    m: int,
)
    requires
        0 <= m <= n,
        sources_failure(models, places, m) is Some,
    ensures
        sources_failure(models, places, n) == sources_failure(models, places, m),
    decreases n - m,
{
    if m < n {
        lemma_sources_failure_stops(models, places, n, m + 1);
    }
}

/// The module of this name, as the last of them has it.
pub open spec fn module_at(models: Seq<ModelDefinition>, id: Seq<char>, n: int) -> Option<
    ModelDefinition,
>
    decreases n,
{
    if n <= 0 {
        None
    } else if is_hdl(models[n - 1]) && models[n - 1].id@ == id {
        Some(models[n - 1])
    } else {
        module_at(models, id, n - 1)
    }
}

fn find_module<'a>(models: &'a Vec<ModelDefinition>, id: &str) -> (r: Option<&'a ModelDefinition>)
    ensures
        match (r, module_at(models@, id@, models@.len() as int)) {
            (Some(m), Some(n)) => *m == n,
            (None, None) => true,
            _ => false,
        },
{
    let mut i: usize = models.len();
    while i > 0
        invariant
            i <= models@.len(),
            module_at(models@, id@, models@.len() as int) == module_at(models@, id@, i as int),
        decreases i,
    {
        i = i - 1;
        if is_hdl_model(&models[i]) && text_eq(models[i].id.as_str(), id) {
            return Some(&models[i]);
        }
    }
    None
}

/// The node of the `i`th net.
pub open spec fn hdl_node(i: int) -> Seq<char> {
    "ox_n"@ + decimal(i as nat)
}

/// The connections of one net to its node.
pub open spec fn node_wires(nets: Seq<Net>, i: int) -> Seq<Wire> {
    Seq::new(
        nets[i].endpoints@.len(),
        |j: int|
            Wire {
                component: nets[i].endpoints@[j].component@,
                pin: nets[i].endpoints@[j].pin@,
                net: hdl_node(i),
            },
    )
}

/// The connections of the first `n` nets to their nodes; a pin that is connected
/// twice is refused.
pub open spec fn hdl_wires(nets: Seq<Net>, n: int) -> Result<Seq<Wire>, Fault>
    decreases n,
{
    if n <= 0 {
        Ok(Seq::empty())
    } else {
        match hdl_wires(nets, n - 1) {
            Err(f) => Err(f),
            Ok(before) => net_joined(before, node_wires(nets, n - 1), nets[n - 1].endpoints@.len() as int),
        }
    }
}

/// Connections with the first `n` of others behind them.
pub open spec fn net_joined(before: Seq<Wire>, more: Seq<Wire>, n: int) -> Result<Seq<Wire>, Fault>
    decreases n,
{
    if n <= 0 {
        Ok(before)
    } else {
        match net_joined(before, more, n - 1) {
            Err(f) => Err(f),
            Ok(wires) => {
                let wire = more[n - 1];
                if net_at(wires, wire.component, wire.pin) is Some {
                    Err(
                        fault(
                            "verilator_endpoint_multiple_nets"@,
                            "endpoint `"@ + wire.component + "."@ + wire.pin
                                + "` is connected to multiple nets"@,
                        ),
                    )
                } else {
                    Ok(wires.push(wire))
                }
            },
        }
    }
}

proof fn lemma_hdl_wires_stop(nets: Seq<Net>, n: int, m: int)
    requires
        0 <= m <= n,
        hdl_wires(nets, m) is Err,
    ensures
        hdl_wires(nets, n) == hdl_wires(nets, m),
    decreases n - m,
{
    if m < n {
        lemma_hdl_wires_stop(nets, n, m + 1);
    }
}

proof fn lemma_net_joined_stops(before: Seq<Wire>, more: Seq<Wire>, n: int, m: int)
    requires
        0 <= m <= n,
        net_joined(before, more, m) is Err,
    ensures
        net_joined(before, more, n) == net_joined(before, more, m),
    decreases n - m,
{
    if m < n {
        lemma_net_joined_stops(before, more, n, m + 1);
    }
}

fn connect_nodes(nets: &Vec<Net>) -> (r: Result<Wiring, EngineError>)
    ensures
        agrees(r, hdl_wires(nets@, nets@.len() as int)),
{
    let mut wiring = Wiring { connections: Vec::new() };
    let mut i: usize = 0;
    assert(wiring@ =~= Seq::<Wire>::empty());
    while i < nets.len()
        invariant
            i <= nets@.len(),
            hdl_wires(nets@, i as int) == Ok::<Seq<Wire>, Fault>(wiring@),
        decreases nets@.len() - i,
    {
        let endpoints = &nets[i].endpoints;
        let node = cat2("ox_n", decimal_text(i as u64).as_str());
        let ghost start = wiring@;
        let ghost more = node_wires(nets@, i as int);
        let mut j: usize = 0;
        while j < endpoints.len()
            invariant
                i < nets@.len(),
                j <= endpoints@.len(),
                endpoints == &nets@[i as int].endpoints,
                node@ == hdl_node(i as int),
                more == node_wires(nets@, i as int),
                hdl_wires(nets@, i as int) == Ok::<Seq<Wire>, Fault>(start),
                net_joined(start, more, j as int) == Ok::<Seq<Wire>, Fault>(wiring@),
            decreases endpoints@.len() - j,
        {
            let endpoint = &endpoints[j];
            if wiring.find(endpoint.component.as_str(), endpoint.pin.as_str()).is_some() {
                proof {
                    lemma_net_joined_stops(start, more, endpoints@.len() as int, j + 1);
                    lemma_hdl_wires_stop(nets@, nets@.len() as int, i + 1);
                }
                return Err(
                    fail(
                        "verilator_endpoint_multiple_nets",
                        cat5(
                            "endpoint `",
                            endpoint.component.as_str(),
                            ".",
                            endpoint.pin.as_str(),
                            "` is connected to multiple nets",
                        ),
                    ),
                );
            }
            let ghost before = wiring@;
            wiring.connections.push(
                Connection {
                    component: endpoint.component.0.clone(),
                    pin: endpoint.pin.0.clone(),
                    net: node.clone(),
                },
            );
            assert(wiring@ =~= before.push(more[j as int]));
            j = j + 1;
        }
        i = i + 1;
    }
    Ok(wiring)
}

/// The nodes of the nets.
pub open spec fn hdl_nodes(nets: Seq<Net>) -> Seq<(Seq<char>, Seq<char>)> {
    Seq::new(nets.len(), |i: int| (nets[i].id@, hdl_node(i)))
}

fn name_hdl_nodes(nets: &Vec<Net>) -> (r: NodeMap)
    ensures
        r@ == hdl_nodes(nets@),
{
    let ghost all = hdl_nodes(nets@);
    let mut nodes = NodeMap { names: Vec::new() };
    let mut i: usize = 0;
    while i < nets.len()
        invariant
            i <= nets@.len(),
            all == hdl_nodes(nets@),
            nodes@ =~= all.take(i as int),
        decreases nets@.len() - i,
    {
        let ghost before = nodes@;
        nodes.names.push(
            NodeName {
                net: nets[i].id.0.clone(),
                node: cat2("ox_n", decimal_text(i as u64).as_str()),
            },
        );
        assert(nodes@ =~= before.push(all[i as int]));
        assert(all.take(i + 1) =~= all.take(i as int).push(all[i as int]));
        i = i + 1;
    }
    assert(nodes@ =~= all);
    nodes
}

/// The node of a pin that the component must have and that must be connected.
pub open spec fn needed_node(wires: Seq<Wire>, component: Component, pin: Seq<char>) -> Result<
    Seq<char>,
    Fault,
> {
    if !has_pin(component, pin) {
        Err(about(hdl_code(), component, "required pin `"@, pin, "` is missing"@))
    } else {
        match net_at(wires, component.id@, pin) {
            Some(node) => Ok(node),
            None => Err(about(hdl_code(), component, "pin `"@, pin, "` must be connected"@)),
        }
    }
}

pub fn require_connected_pin(component: &Component, pin: &str, wiring: &Wiring) -> (r: Result<
    String,
    EngineError,
>)
    ensures
        same_text(r, needed_node(wiring@, *component, pin@)),
{
    let code = "verilator_component_invalid";
    if !pin_present(component, pin) {
        return Err(error_about(code, component, "required pin `", pin, "` is missing"));
    }
    match wiring.find(component.id.as_str(), pin) {
        Some(node) => Ok(node.clone()),
        None => Err(error_about(code, component, "pin `", pin, "` must be connected")),
    }
}

/// The lines of a constant input.
pub open spec fn input_lines(component: Component, index: int, wires: Seq<Wire>) -> Result<
    Seq<Seq<Sign>>,
    Fault,
> {
    match needed_node(wires, component, "out"@) {
        Err(f) => Err(f),
        Ok(node) => match needed_logic(xspice_code(), component, "value"@) {
            Err(f) => Err(f),
            Ok(value) => if !value.known() {
                Err(
                    component_fault(
                        hdl_code(),
                        component,
                        "Verilator R5 boundary inputs must be known zero/one values; use the R3 reference engine when X/Z propagation is required"@,
                    ),
                )
            } else {
                let driver = "ox_drv_"@ + decimal(index as nat);
                Ok(
                    seq![
                        letters("  logic "@ + driver + " = "@ + level_literal(value) + ";"@),
                        letters("  assign "@ + node + " = "@ + driver + ";"@),
                    ],
                )
            },
        },
    }
}

/// Lines as a result of the model.
pub open spec fn same_lines(
    r: Result<Vec<Draft>, EngineError>,
    model: Result<Seq<Seq<Sign>>, Fault>,
) -> bool {
    match (r, model) {
        (Ok(v), Ok(s)) => drafts(v@) == s,
        (Err(e), Err(f)) => e@ == f,
        _ => false,
    }
}

fn compile_logic_input(component: &Component, index: usize, wiring: &Wiring) -> (r: Result<
    Vec<Draft>,
    EngineError,
>)
    ensures
        same_lines(r, input_lines(*component, index as int, wiring@)),
{
    let node = match require_connected_pin(component, "out", wiring) {
        Err(e) => {
            return Err(e);
        },
        Ok(node) => node,
    };
    let value = match required_logic_value("xspice_component_invalid", component, "value") {
        Err(e) => {
            return Err(e);
        },
        Ok(value) => value,
    };
    if !value.is_known() {
        return Err(
            component_error(
                "verilator_component_invalid",
                component,
                "Verilator R5 boundary inputs must be known zero/one values; use the R3 reference engine when X/Z propagation is required",
            ),
        );
    }
    let driver = cat2("ox_drv_", decimal_text(index as u64).as_str());
    let mut lines: Vec<Draft> = Vec::new();
    assert(drafts(lines@) =~= Seq::<Seq<Sign>>::empty());
    push_text(
        &mut lines,
        cat5("  logic ", driver.as_str(), " = ", logic_literal(value), ";").as_str(),
    );
    push_text(
        &mut lines,
        cat5("  assign ", node.as_str(), " = ", driver.as_str(), ";").as_str(),
    );
    assert(drafts(lines@) =~= seq![
        letters("  logic "@ + driver@ + " = "@ + level_literal(value) + ";"@),
        letters("  assign "@ + node@ + " = "@ + driver@ + ";"@),
    ]);
    Ok(lines)
}

/// The period of a clock.
pub open spec fn hdl_period(component: Component) -> Result<Real, Fault> {
    match delay_seconds(xspice_code(), component, "period"@) {
        Err(f) => Err(f),
        Ok(None) => Err(
            component_fault(hdl_code(), component, "required parameter `period` is missing"@),
        ),
        Ok(Some(x)) => if x.at_most(Real { bits: 0 }) {
            Err(
                component_fault(
                    hdl_code(),
                    component,
                    "parameter `period` must be greater than zero"@,
                ),
            )
        } else {
            Ok(x)
        },
    }
}

fn required_period(component: &Component) -> (r: Result<Real, EngineError>)
    ensures
        same(r, hdl_period(*component)),
{
    match optional_non_negative_seconds("xspice_component_invalid", component, "period") {
        Err(e) => Err(e),
        Ok(None) => Err(
            component_error(
                "verilator_component_invalid",
                component,
                "required parameter `period` is missing",
            ),
        ),
        Ok(Some(x)) => {
            if x.le(Real { bits: 0 }) {
                Err(
                    component_error(
                        "verilator_component_invalid",
                        component,
                        "parameter `period` must be greater than zero",
                    ),
                )
            } else {
                Ok(x)
            }
        },
    }
}

/// The lines of a clock that is known in full.
pub open spec fn clock_text(
    node: Seq<char>,
    driver: Seq<char>,
    initial: LogicValue,
    high: u64,
    low: u64,
) -> Seq<Seq<Sign>> {
    let falls = "      #"@ + decimal(high as nat) + " "@ + driver + " = 1'b0;"@;
    let rises = "      #"@ + decimal(low as nat) + " "@ + driver + " = 1'b1;"@;
    seq![
        letters("  logic "@ + driver + " = "@ + level_literal(initial) + ";"@),
        letters("  assign "@ + node + " = "@ + driver + ";"@),
        letters("  initial begin"@),
        letters("    forever begin"@),
        letters(
            if initial == LogicValue::One {
                falls
            } else {
                rises
            },
        ),
        letters(
            if initial == LogicValue::One {
                rises
            } else {
                falls
            },
        ),
        letters("    end"@),
        letters("  end"@),
    ]
}

fn write_clock(node: &str, driver: &str, initial: LogicValue, high: u64, low: u64) -> (r: Vec<Draft>)
    ensures
        drafts(r@) == clock_text(node@, driver@, initial, high, low),
{
    let falls = cat5("      #", decimal_text(high).as_str(), " ", driver, " = 1'b0;");
    let rises = cat5("      #", decimal_text(low).as_str(), " ", driver, " = 1'b1;");
    let mut lines: Vec<Draft> = Vec::new();
    assert(drafts(lines@) =~= Seq::<Seq<Sign>>::empty());
    push_text(&mut lines, cat5("  logic ", driver, " = ", logic_literal(initial), ";").as_str());
    push_text(&mut lines, cat5("  assign ", node, " = ", driver, ";").as_str());
    push_text(&mut lines, "  initial begin");
    push_text(&mut lines, "    forever begin");
    if initial == LogicValue::One {
        push_text(&mut lines, falls.as_str());
        push_text(&mut lines, rises.as_str());
    } else {
        push_text(&mut lines, rises.as_str());
        push_text(&mut lines, falls.as_str());
    }
    push_text(&mut lines, "    end");
    push_text(&mut lines, "  end");
    assert(drafts(lines@) =~= clock_text(node@, driver@, initial, high, low));
    lines
}

/// The lines of a clock.
pub open spec fn clock_lines(component: Component, index: int, wires: Seq<Wire>) -> Result<
    Seq<Seq<Sign>>,
    Fault,
> {
    match needed_node(wires, component, "out"@) {
        Err(f) => Err(f),
        Ok(node) => match hdl_period(component) {
            Err(f) => Err(f),
            Ok(period) => match duty_of(
                xspice_code(),
                component,
                "parameter `duty_cycle` must be dimensionless"@,
                "parameter `duty_cycle` must be finite and strictly between zero and one"@,
            ) {
                Err(f) => Err(f),
                Ok(duty) => match logic_of(xspice_code(), component, "initial"@) {
                    Err(f) => Err(f),
                    Ok(given) => {
                        let initial = match given {
                            Some(level) => level,
                            None => LogicValue::Zero,
                        };
                        if !initial.known() {
                            Err(
                                component_fault(
                                    hdl_code(),
                                    component,
                                    "Verilator clock initial value must be zero or one"@,
                                ),
                            )
                        } else {
                            match picoseconds_of(
                                share_of(period, duty),
                                "clock high duration"@,
                            ) {
                                Err(f) => Err(f),
                                Ok(high) => match picoseconds_of(
                                    share_of(
                                        period,
                                        (Real { bits: ONE_BITS }).difference(duty),
                                    ),
                                    "clock low duration"@,
                                ) {
                                    Err(f) => Err(f),
                                    Ok(low) => Ok(
                                        clock_text(
                                            node,
                                            "ox_clk_"@ + decimal(index as nat),
                                            initial,
                                            high,
                                            low,
                                        ),
                                    ),
                                },
                            }
                        }
                    },
                },
            },
        },
    }
}

fn compile_clock(component: &Component, index: usize, wiring: &Wiring) -> (r: Result<
    Vec<Draft>,
    EngineError,
>)
    ensures
        same_lines(r, clock_lines(*component, index as int, wiring@)),
{
    let node = match require_connected_pin(component, "out", wiring) {
        Err(e) => {
            return Err(e);
        },
        Ok(node) => node,
    };
    let period = match required_period(component) {
        Err(e) => {
            return Err(e);
        },
        Ok(period) => period,
    };
    let duty = match duty_cycle(
        "xspice_component_invalid",
        component,
        "parameter `duty_cycle` must be dimensionless",
        "parameter `duty_cycle` must be finite and strictly between zero and one",
    ) {
        Err(e) => {
            return Err(e);
        },
        Ok(duty) => duty,
    };
    let initial = match optional_logic_value("xspice_component_invalid", component, "initial") {
        Err(e) => {
            return Err(e);
        },
        Ok(Some(level)) => level,
        Ok(None) => LogicValue::Zero,
    };
    if !initial.is_known() {
        return Err(
            component_error(
                "verilator_component_invalid",
                component,
                "Verilator clock initial value must be zero or one",
            ),
        );
    }
    let high: u64 = match seconds_to_picoseconds(
        take_share(period, duty),
        "clock high duration",
    ) {
        Err(e) => {
            return Err(e);
        },
        Ok(high) => high,
    };
    let low: u64 = match seconds_to_picoseconds(
        take_share(period, Real { bits: ONE_BITS }.minus(duty)),
        "clock low duration",
    ) {
        Err(e) => {
            return Err(e);
        },
        Ok(low) => low,
    };
    let driver = cat2("ox_clk_", decimal_text(index as u64).as_str());
    Ok(write_clock(node.as_str(), driver.as_str(), initial, high, low))
}

/// A pin of an instance: the port, the bit of it, and the node.
#[derive(Clone, Debug, PartialEq, Eq)]
pub struct PortBinding {
    pub port: String,
    pub bit: Option<usize>,
    pub node: String,
}

/// What a `PortBinding` says.
pub struct Binding {
    pub port: Seq<char>,
    pub bit: Option<nat>,
    pub node: Seq<char>,
}

impl View for PortBinding {
    type V = Binding;

    open spec fn view(&self) -> Binding {
        Binding { port: self.port@, bit: bit_of(self.bit), node: self.node@ }
    }
}

pub open spec fn bindings(v: Seq<PortBinding>) -> Seq<Binding> {
    v.map_values(|b: PortBinding| b@)
}

/// The binding of one pin.
pub open spec fn pin_binding(component: Component, wires: Seq<Wire>, i: int) -> Result<
    Binding,
    Fault,
> {
    let pin = component.pins@[i];
    if pin.domain != SignalDomain::Digital || (pin.direction != PinDirection::Input
        && pin.direction != PinDirection::Output) {
        Err(
            about(
                hdl_code(),
                component,
                "HDL pin `"@,
                pin.id@,
                "` must be a digital input or output in R5"@,
            ),
        )
    } else {
        match needed_node(wires, component, pin.id@) {
            Err(f) => Err(f),
            Ok(node) => match port_named(pin.name@) {
                Err(message) => Err(
                    component_fault(
                        hdl_code(),
                        component,
                        "pin `"@ + pin.id@ + "` has invalid HDL port mapping: "@ + message,
                    ),
                ),
                Ok((port, bit)) => Ok(Binding { port, bit, node }),
            },
        }
    }
}

fn bind_pin(component: &Component, wiring: &Wiring, i: usize) -> (r: Result<
    PortBinding,
    EngineError,
>)
    requires
        i < component.pins@.len(),
    ensures
        agrees(r, pin_binding(*component, wiring@, i as int)),
{
    let pin = &component.pins[i];
    if pin.domain != SignalDomain::Digital || (pin.direction != PinDirection::Input
        && pin.direction != PinDirection::Output) {
        return Err(
            error_about(
                "verilator_component_invalid",
                component,
                "HDL pin `",
                pin.id.as_str(),
                "` must be a digital input or output in R5",
            ),
        );
    }
    let node = match require_connected_pin(component, pin.id.as_str(), wiring) {
        Err(e) => {
            return Err(e);
        },
        Ok(node) => node,
    };
    match parse_port_reference(pin.name.as_str()) {
        Err(message) => Err(
            component_error(
                "verilator_component_invalid",
                component,
                cat4(
                    "pin `",
                    pin.id.as_str(),
                    "` has invalid HDL port mapping: ",
                    message.as_str(),
                ).as_str(),
            ),
        ),
        Ok((port, bit)) => Ok(PortBinding { port, bit, node }),
    }
}

/// The bindings of all pins.
pub open spec fn pin_bindings(component: Component, wires: Seq<Wire>) -> Result<
    Seq<Binding>,
    Fault,
> {
    collected(component.pins@.len() as int, |i: int| pin_binding(component, wires, i))
}

fn bind_pins(component: &Component, wiring: &Wiring) -> (r: Result<Vec<PortBinding>, EngineError>)
    ensures
        match (r, pin_bindings(*component, wiring@)) {
            (Ok(v), Ok(s)) => bindings(v@) == s,
            (Err(e), Err(f)) => e@ == f,
            _ => false,
        },
{
    let ghost f = |i: int| pin_binding(*component, wiring@, i);
    let mut out: Vec<PortBinding> = Vec::new();
    let mut i: usize = 0;
    assert(bindings(out@) =~= Seq::<Binding>::empty());
    while i < component.pins.len()
        invariant
            i <= component.pins@.len(),
            f == (|i: int| pin_binding(*component, wiring@, i)),
            collected(i as int, f) == Ok::<Seq<Binding>, Fault>(bindings(out@)),
        decreases component.pins@.len() - i,
    {
        match bind_pin(component, wiring, i) {
            Err(e) => {
                assert(f(i as int) == Err::<Binding, Fault>(e@));
                assert(collected(i + 1, f) == Err::<Seq<Binding>, Fault>(e@));
                proof {
                    lemma_collected_stops(component.pins@.len() as int, f, i + 1);
                }
                return Err(e);
            },
            Ok(binding) => {
                let ghost before = bindings(out@);
                assert(f(i as int) == Ok::<Binding, Fault>(binding@));
                out.push(binding);
                assert(bindings(out@) =~= before.push(binding@));
            },
        }
        i = i + 1;
    }
    Ok(out)
}

/// The bindings of one port among the first `n`.
pub open spec fn port_bits(all: Seq<Binding>, port: Seq<char>, n: int) -> Seq<Binding>
    decreases n,
{
    if n <= 0 {
        Seq::empty()
    } else if all[n - 1].port == port {
        port_bits(all, port, n - 1).push(all[n - 1])
    } else {
        port_bits(all, port, n - 1)
    }
}

fn bits_of_port(all: &Vec<PortBinding>, port: &str) -> (r: Vec<PortBinding>)
    ensures
        bindings(r@) == port_bits(bindings(all@), port@, all@.len() as int),
{
    let ghost listed = bindings(all@);
    let mut out: Vec<PortBinding> = Vec::new();
    let mut i: usize = 0;
    assert(bindings(out@) =~= Seq::<Binding>::empty());
    while i < all.len()
        invariant
            i <= all@.len(),
            listed == bindings(all@),
            bindings(out@) == port_bits(listed, port@, i as int),
        decreases all@.len() - i,
    {
        assert(listed[i as int] == all@[i as int]@);
        if text_eq(all[i].port.as_str(), port) {
            let ghost before = bindings(out@);
            out.push(
                PortBinding {
                    port: all[i].port.clone(),
                    bit: all[i].bit,
                    node: all[i].node.clone(),
                },
            );
            assert(bindings(out@) =~= before.push(listed[i as int]));
        }
        i = i + 1;
    }
    out
}

/// Whether another binding has the bit of this one.
pub open spec fn bit_repeated(bits: Seq<Binding>, i: int) -> bool {
    exists|j: int| 0 <= j < bits.len() && j != i && (#[trigger] bits[j]).bit == bits[i].bit
}

/// The least bit among the first `n` that is mapped more than once.
pub open spec fn least_repeat(bits: Seq<Binding>, n: int) -> Option<nat>
    decreases n,
{
    if n <= 0 {
        None
    } else {
        let before = least_repeat(bits, n - 1);
        if bit_repeated(bits, n - 1) && (before is None || bits[n - 1].bit->0 < before->0) {
            bits[n - 1].bit
        } else {
            before
        }
    }
}

/// The greatest of the first `n` bits.
pub open spec fn greatest_bit(bits: Seq<Binding>, n: int) -> nat
    decreases n,
{
    if n <= 1 {
        bits[0].bit->0
    } else {
        let before = greatest_bit(bits, n - 1);
        if before < bits[n - 1].bit->0 {
            bits[n - 1].bit->0
        } else {
            before
        }
    }
}

/// The node of a bit.
pub open spec fn node_of_bit(bits: Seq<Binding>, bit: nat, n: int) -> Seq<char>
    decreases n,
{
    if n <= 0 {
        Seq::empty()
    } else if bits[n - 1].bit == Some(bit) {
        bits[n - 1].node
    } else {
        node_of_bit(bits, bit, n - 1)
    }
}

/// Whether all of the bindings name a bit.
pub open spec fn all_bits(bits: Seq<Binding>) -> bool {
    forall|i: int| 0 <= i < bits.len() ==> (#[trigger] bits[i]).bit is Some
}

/// The nodes of a vector, the highest bit first.
pub open spec fn vector_nodes(bits: Seq<Binding>) -> Seq<Seq<char>> {
    Seq::new(
        bits.len(),
        |k: int| node_of_bit(bits, (bits.len() - 1 - k) as nat, bits.len() as int),
    )
}

/// What a port of an instance is bound to.
pub open spec fn port_expression(component: Component, port: Seq<char>, bits: Seq<Binding>) -> Result<
    Seq<char>,
    Fault,
> {
    if bits.len() == 1 && bits[0].bit is None {
        Ok(bits[0].node)
    } else if !all_bits(bits) {
        Err(
            about(
                hdl_code(),
                component,
                "HDL port `"@,
                port,
                "` mixes scalar and vector pin mappings"@,
            ),
        )
    } else {
        match least_repeat(bits, bits.len() as int) {
            Some(bit) => Err(
                about(
                    hdl_code(),
                    component,
                    "HDL port `"@,
                    port,
                    "` maps bit "@ + decimal(bit) + " more than once"@,
                ),
            ),
            None => {
                let top = greatest_bit(bits, bits.len() as int);
                if top != bits.len() - 1 {
                    Err(
                        about(
                            hdl_code(),
                            component,
                            "HDL vector port `"@,
                            port,
                            "` must map every bit from 0 through "@ + decimal(top),
                        ),
                    )
                } else {
                    Ok("{"@ + join_of(vector_nodes(bits), ", "@) + "}"@)
                }
            },
        }
    }
}

fn is_repeated(bits: &Vec<PortBinding>, i: usize) -> (r: bool)
    requires
        i < bits@.len(),
    ensures
        r == bit_repeated(bindings(bits@), i as int),
{
    let ghost all = bindings(bits@);
    let mut j: usize = 0;
    while j < bits.len()
        invariant
            j <= bits@.len(),
            i < bits@.len(),
            all == bindings(bits@),
            forall|k: int| 0 <= k < j && k != i ==> (#[trigger] all[k]).bit != all[i as int].bit,
        decreases bits@.len() - j,
    {
        assert(all[j as int] == bits@[j as int]@ && all[i as int] == bits@[i as int]@);
        let alike: bool = match (bits[j].bit, bits[i].bit) {
            (Some(a), Some(b)) => a == b,
            (None, None) => true,
            _ => false,
        };
        if j != i && alike {
            assert(all[j as int].bit == all[i as int].bit);
            return true;
        }
        j = j + 1;
    }
    false
}

fn find_least_repeat(bits: &Vec<PortBinding>) -> (r: Option<usize>)
    requires
        all_bits(bindings(bits@)),
    ensures
        bit_of(r) == least_repeat(bindings(bits@), bits@.len() as int),
{
    let ghost all = bindings(bits@);
    let mut least: Option<usize> = None;
    let mut i: usize = 0;
    while i < bits.len()
        invariant
            i <= bits@.len(),
            all == bindings(bits@),
            all_bits(all),
            bit_of(least) == least_repeat(all, i as int),
        decreases bits@.len() - i,
    {
        assert(all[i as int] == bits@[i as int]@);
        assert(all[i as int].bit is Some);
        if is_repeated(bits, i) {
            match (least, bits[i].bit) {
                (None, found) => {
                    least = found;
                },
                (Some(before), Some(bit)) => {
                    if bit < before {
                        least = Some(bit);
                    }
                },
                _ => {},
            }
        }
        i = i + 1;
    }
    least
}

fn find_greatest_bit(bits: &Vec<PortBinding>) -> (r: usize)
    requires
        all_bits(bindings(bits@)),
        bits@.len() > 0,
    ensures
        r == greatest_bit(bindings(bits@), bits@.len() as int),
{
    let ghost all = bindings(bits@);
    assert(all[0] == bits@[0]@);
    assert(all[0].bit is Some);
    let mut top: usize = match bits[0].bit {
        Some(bit) => bit,
        None => 0,
    };
    let mut i: usize = 1;
    while i < bits.len()
        invariant
            1 <= i <= bits@.len(),
            all == bindings(bits@),
            all_bits(all),
            top == greatest_bit(all, i as int),
        decreases bits@.len() - i,
    {
        assert(all[i as int] == bits@[i as int]@);
        assert(all[i as int].bit is Some);
        match bits[i].bit {
            Some(bit) => {
                if top < bit {
                    top = bit;
                }
            },
            None => {},
        }
        i = i + 1;
    }
    top
}

fn find_node_of_bit(bits: &Vec<PortBinding>, bit: usize) -> (r: String)
    ensures
        r@ == node_of_bit(bindings(bits@), bit as nat, bits@.len() as int),
{
    let ghost all = bindings(bits@);
    let mut i: usize = bits.len();
    while i > 0
        invariant
            i <= bits@.len(),
            all == bindings(bits@),
            node_of_bit(all, bit as nat, bits@.len() as int) == node_of_bit(
                all,
                bit as nat,
                i as int,
            ),
        decreases i,
    {
        assert(all[i - 1] == bits@[i - 1]@);
        i = i - 1;
        let here: bool = match bits[i].bit {
            Some(b) => b == bit,
            None => false,
        };
        if here {
            return bits[i].node.clone();
        }
    }
    String::new()
}

fn list_vector_nodes(bits: &Vec<PortBinding>) -> (r: Vec<String>)
    ensures
        texts(r@) == vector_nodes(bindings(bits@)),
{
    let ghost all = vector_nodes(bindings(bits@));
    let mut out: Vec<String> = Vec::new();
    let mut k: usize = 0;
    while k < bits.len()
        invariant
            k <= bits@.len(),
            all == vector_nodes(bindings(bits@)),
            texts(out@) =~= all.take(k as int),
        decreases bits@.len() - k,
    {
        let ghost before = texts(out@);
        let bit: usize = bits.len() - 1 - k;
        out.push(find_node_of_bit(bits, bit));
        assert(texts(out@) =~= before.push(all[k as int]));
        assert(all.take(k + 1) =~= all.take(k as int).push(all[k as int]));
        k = k + 1;
    }
    assert(texts(out@) =~= all);
    out
}

fn names_all_bits(bits: &Vec<PortBinding>) -> (r: bool)
    ensures
        r == all_bits(bindings(bits@)),
{
    let ghost all = bindings(bits@);
    let mut i: usize = 0;
    while i < bits.len()
        invariant
            i <= bits@.len(),
            all == bindings(bits@),
            forall|k: int| 0 <= k < i ==> (#[trigger] all[k]).bit is Some,
        decreases bits@.len() - i,
    {
        assert(all[i as int] == bits@[i as int]@);
        if bits[i].bit.is_none() {
            assert(all[i as int].bit is None);
            return false;
        }
        i = i + 1;
    }
    true
}

fn bind_port(component: &Component, port: &str, bits: &Vec<PortBinding>) -> (r: Result<
    String,
    EngineError,
>)
    requires
        bits@.len() > 0,
    ensures
        same_text(r, port_expression(*component, port@, bindings(bits@))),
{
    let code = "verilator_component_invalid";
    let ghost all = bindings(bits@);
    assert(all[0] == bits@[0]@);
    if bits.len() == 1 && bits[0].bit.is_none() {
        return Ok(bits[0].node.clone());
    }
    if !names_all_bits(bits) {
        return Err(
            error_about(
                code,
                component,
                "HDL port `",
                port,
                "` mixes scalar and vector pin mappings",
            ),
        );
    }
    match find_least_repeat(bits) {
        Some(bit) => {
            return Err(
                error_about(
                    code,
                    component,
                    "HDL port `",
                    port,
                    cat3(
                        "` maps bit ",
                        decimal_text(bit as u64).as_str(),
                        " more than once",
                    ).as_str(),
                ),
            );
        },
        None => {},
    }
    let top: usize = find_greatest_bit(bits);
    if top != bits.len() - 1 {
        return Err(
            error_about(
                code,
                component,
                "HDL vector port `",
                port,
                cat2(
                    "` must map every bit from 0 through ",
                    decimal_text(top as u64).as_str(),
                ).as_str(),
            ),
        );
    }
    Ok(cat3("{", join_texts(&list_vector_nodes(bits), ", ").as_str(), "}"))
}

/// The parameter overrides of the first `n` parameters.
pub open spec fn overrides_of(component: Component, n: int) -> Result<Seq<Seq<Sign>>, Fault>
    decreases n,
{
    if n <= 0 {
        Ok(Seq::empty())
    } else {
        match overrides_of(component, n - 1) {
            Err(f) => Err(f),
            Ok(before) => match override_name(component.parameters@[n - 1].0) {
                None => Ok(before),
                Some(name) => if !identifier(name, true) {
                    Err(
                        about(
                            hdl_code(),
                            component,
                            "HDL parameter override `"@,
                            name,
                            "` is not a safe identifier"@,
                        ),
                    )
                } else {
                    match literal_of(component.parameters@[n - 1].1) {
                        Err(f) => Err(f),
                        Ok(literal) => Ok(
                            before.push(
                                letters("."@ + name + "("@) + literal + letters(")"@),
                            ),
                        ),
                    }
                },
            },
        }
    }
}

proof fn lemma_overrides_stop(component: Component, n: int, m: int)
    requires
        0 <= m <= n,
        overrides_of(component, m) is Err,
    ensures
        overrides_of(component, n) == overrides_of(component, m),
    decreases n - m,
{
    if m < n {
        lemma_overrides_stop(component, n, m + 1);
    }
}

fn compile_overrides(component: &Component) -> (r: Result<Vec<Draft>, EngineError>)
    ensures
        same_lines(r, overrides_of(*component, component.parameters@.len() as int)),
{
    let mut out: Vec<Draft> = Vec::new();
    let mut i: usize = 0;
    assert(drafts(out@) =~= Seq::<Seq<Sign>>::empty());
    while i < component.parameters.len()
        invariant
            i <= component.parameters@.len(),
            overrides_of(*component, i as int) == Ok::<Seq<Seq<Sign>>, Fault>(drafts(out@)),
        decreases component.parameters@.len() - i,
    {
        match find_override(component.parameters.name_at(i)) {
            None => {},
            Some(name) => {
                if !is_safe_identifier(name.as_str()) {
                    proof {
                        lemma_overrides_stop(
                            *component,
                            component.parameters@.len() as int,
                            i + 1,
                        );
                    }
                    return Err(
                        error_about(
                            "verilator_component_invalid",
                            component,
                            "HDL parameter override `",
                            name.as_str(),
                            "` is not a safe identifier",
                        ),
                    );
                }
                match parameter_literal(component.parameters.value_at(i)) {
                    Err(e) => {
                        proof {
                            lemma_overrides_stop(
                                *component,
                                component.parameters@.len() as int,
                                i + 1,
                            );
                        }
                        return Err(e);
                    },
                    Ok(literal) => {
                        let mut binding = Draft::of(cat3(".", name.as_str(), "(").as_str());
                        binding.append(&literal);
                        binding.text(")");
                        let ghost before = drafts(out@);
                        out.push(binding);
                        assert(drafts(out@) =~= before.push(binding@));
                    },
                }
            },
        }
        i = i + 1;
    }
    Ok(out)
}

/// The names of the ports of bindings.
pub open spec fn port_names(all: Seq<Binding>) -> Seq<Seq<char>> {
    all.map_values(|b: Binding| b.port)
}

/// The ports of an instance, each with what it is bound to, in dictionary order.
pub open spec fn bound_ports(
    component: Component,
    all: Seq<Binding>,
    ports: Seq<Seq<char>>,
) -> Result<Seq<Seq<char>>, Fault> {
    collected(ports.len() as int, |i: int| bound_port(component, all, ports[i]))
}

pub open spec fn bound_port(component: Component, all: Seq<Binding>, port: Seq<char>) -> Result<
    Seq<char>,
    Fault,
> {
    match port_expression(component, port, port_bits(all, port, all.len() as int)) {
        Err(f) => Err(f),
        Ok(expression) => Ok("."@ + port + "("@ + expression + ")"@),
    }
}

proof fn lemma_sorted_names_come_from(names: Seq<Seq<char>>, n: int)
    requires
        0 <= n <= names.len(),
    ensures
        forall|x: Seq<char>|
            #[trigger] sorted_names(names, n).contains(x) ==> names.contains(x),
    decreases n,
{
    if n > 0 {
        lemma_sorted_names_come_from(names, n - 1);
        lemma_with_name_comes_from(sorted_names(names, n - 1), names[n - 1]);
        assert(names.contains(names[n - 1]));
    }
}

proof fn lemma_with_name_comes_from(names: Seq<Seq<char>>, name: Seq<char>)
    ensures
        forall|x: Seq<char>|
            #[trigger] crate::digital::with_name(names, name).contains(x) ==> names.contains(x)
                || x == name,
    decreases names.len(),
{
    let r = crate::digital::with_name(names, name);
    if names.len() > 0 && names.last() != name && !crate::text::text_before(names.last(), name) {
        lemma_with_name_comes_from(names.drop_last(), name);
        let inner = crate::digital::with_name(names.drop_last(), name);
        assert forall|x: Seq<char>| #[trigger] r.contains(x) implies names.contains(x) || x
            == name by {
            let k = choose|k: int| 0 <= k < r.len() && r[k] == x;
            if k < inner.len() {
                assert(inner[k] == x);
                assert(inner.contains(x));
                if x != name {
                    let q = choose|q: int|
                        0 <= q < names.drop_last().len() && names.drop_last()[q] == x;
                    assert(names[q] == x);
                }
            } else {
                assert(names[names.len() - 1] == x);
            }
        }
    } else {
        assert forall|x: Seq<char>| #[trigger] r.contains(x) implies names.contains(x) || x
            == name by {
            let k = choose|k: int| 0 <= k < r.len() && r[k] == x;
            if k < names.len() && names.len() > 0 {
                assert(names[k] == r[k]);
            }
        }
    }
}

proof fn lemma_port_has_bits(all: Seq<Binding>, k: int, n: int)
    requires
        0 <= k < n <= all.len(),
    ensures
        port_bits(all, all[k].port, n).len() > 0,
    decreases n,
{
    if k < n - 1 {
        lemma_port_has_bits(all, k, n - 1);
    }
}

fn bind_ports(component: &Component, all: &Vec<PortBinding>) -> (r: Result<
    Vec<String>,
    EngineError,
>)
    ensures
        match (
            r,
            bound_ports(
                *component,
                bindings(all@),
                sorted_names(port_names(bindings(all@)), all@.len() as int),
            ),
        ) {
            (Ok(v), Ok(s)) => texts(v@) == s,
            (Err(e), Err(f)) => e@ == f,
            _ => false,
        },
{
    let ghost listed = bindings(all@);
    let ghost named = port_names(listed);
    let mut names: Vec<String> = Vec::new();
    let mut k: usize = 0;
    while k < all.len()
        invariant
            k <= all@.len(),
            listed == bindings(all@),
            named == port_names(listed),
            texts(names@) =~= named.take(k as int),
        decreases all@.len() - k,
    {
        let ghost before = texts(names@);
        names.push(all[k].port.clone());
        assert(named[k as int] == all@[k as int].port@);
        assert(texts(names@) =~= before.push(named[k as int]));
        assert(named.take(k + 1) =~= named.take(k as int).push(named[k as int]));
        k = k + 1;
    }
    assert(texts(names@) =~= named);
    let ports = sort_names(&names);
    let ghost sorted = texts(ports@);
    let ghost f = |i: int| bound_port(*component, listed, sorted[i]);
    proof {
        lemma_sorted_names_come_from(named, named.len() as int);
    }
    let mut out: Vec<String> = Vec::new();
    let mut i: usize = 0;
    assert(texts(out@) =~= Seq::<Seq<char>>::empty());
    while i < ports.len()
        invariant
            i <= ports@.len(),
            listed == bindings(all@),
            named == port_names(listed),
            sorted == texts(ports@),
            sorted == sorted_names(named, all@.len() as int),
            forall|x: Seq<char>| #[trigger] sorted.contains(x) ==> named.contains(x),
            f == (|i: int| bound_port(*component, listed, sorted[i])),
            collected(i as int, f) == Ok::<Seq<Seq<char>>, Fault>(texts(out@)),
        decreases ports@.len() - i,
    {
        let port = ports[i].as_str();
        assert(sorted[i as int] == ports@[i as int]@);
        assert(sorted.contains(sorted[i as int]));
        let bits = bits_of_port(all, port);
        proof {
            let q = choose|q: int| 0 <= q < named.len() && named[q] == sorted[i as int];
            assert(listed[q].port == sorted[i as int]);
            lemma_port_has_bits(listed, q, listed.len() as int);
            assert(bindings(bits@).len() == bits@.len());
        }
        match bind_port(component, port, &bits) {
            Err(e) => {
                assert(f(i as int) == Err::<Seq<char>, Fault>(e@));
                assert(collected(i + 1, f) == Err::<Seq<Seq<char>>, Fault>(e@));
                proof {
                    lemma_collected_stops(ports@.len() as int, f, i + 1);
                }
                return Err(e);
            },
            Ok(expression) => {
                let bound = cat5(".", port, "(", expression.as_str(), ")");
                let ghost before = texts(out@);
                assert(f(i as int) == Ok::<Seq<char>, Fault>(bound@));
                out.push(bound);
                assert(texts(out@) =~= before.push(bound@));
            },
        }
        i = i + 1;
    }
    Ok(out)
}

/// The module of an instance.
pub open spec fn instance_module(component: Component, models: Seq<ModelDefinition>) -> Result<
    ModelDefinition,
    Fault,
> {
    match parameter_of(component.parameters@, "model"@) {
        None => Err(
            component_fault(hdl_code(), component, "required parameter `model` is missing"@),
        ),
        Some(ParameterValue::Text(id)) => if is_blank(id@) {
            Err(
                component_fault(
                    hdl_code(),
                    component,
                    "parameter `model` must be a non-empty HDL model id"@,
                ),
            )
        } else {
            match module_at(models, id@, models.len() as int) {
                None => Err(
                    about(
                        hdl_code(),
                        component,
                        "HDL model `"@,
                        id@,
                        "` is not a Verilog/SystemVerilog module model"@,
                    ),
                ),
                Some(model) => if !identifier(model.entry@, true) {
                    Err(
                        about(
                            hdl_code(),
                            component,
                            "HDL model entry `"@,
                            model.entry@,
                            "` is not a safe module identifier"@,
                        ),
                    )
                } else {
                    Ok(model)
                },
            }
        },
        Some(_) => Err(
            component_fault(
                hdl_code(),
                component,
                "parameter `model` must be a non-empty HDL model id"@,
            ),
        ),
    }
}

fn find_instance_module<'a>(component: &Component, models: &'a Vec<ModelDefinition>) -> (r: Result<
    &'a ModelDefinition,
    EngineError,
>)
    ensures
        match (r, instance_module(*component, models@)) {
            (Ok(m), Ok(n)) => *m == n,
            (Err(e), Err(f)) => e@ == f,
            _ => false,
        },
{
    let code = "verilator_component_invalid";
    let id = match component.parameters.get("model") {
        None => {
            return Err(component_error(code, component, "required parameter `model` is missing"));
        },
        Some(ParameterValue::Text(id)) => {
            if crate::text::blank(id.as_str()) {
                return Err(
                    component_error(
                        code,
                        component,
                        "parameter `model` must be a non-empty HDL model id",
                    ),
                );
            }
            id
        },
        Some(_) => {
            return Err(
                component_error(
                    code,
                    component,
                    "parameter `model` must be a non-empty HDL model id",
                ),
            );
        },
    };
    match find_module(models, id.as_str()) {
        None => Err(
            error_about(
                code,
                component,
                "HDL model `",
                id.as_str(),
                "` is not a Verilog/SystemVerilog module model",
            ),
        ),
        Some(model) => {
            if !is_safe_identifier(model.entry.as_str()) {
                return Err(
                    error_about(
                        code,
                        component,
                        "HDL model entry `",
                        model.entry.as_str(),
                        "` is not a safe module identifier",
                    ),
                );
            }
            Ok(model)
        },
    }
}

/// The line of an instance.
pub open spec fn instance_text(
    entry: Seq<char>,
    overrides: Seq<Seq<Sign>>,
    index: int,
    ports: Seq<Seq<char>>,
) -> Seq<Sign> {
    let clause = if overrides.len() == 0 {
        letters(""@)
    } else {
        letters(" #("@) + link_of(overrides, ", "@) + letters(")"@)
    };
    letters("  "@ + entry) + clause + letters(
        " ox_u"@ + decimal(index as nat) + " ("@ + join_of(ports, ", "@) + ");"@,
    )
}

/// The line of an HDL module.
pub open spec fn module_line(
    component: Component,
    index: int,
    wires: Seq<Wire>,
    models: Seq<ModelDefinition>,
) -> Result<Seq<Sign>, Fault> {
    match instance_module(component, models) {
        Err(f) => Err(f),
        Ok(model) => match pin_bindings(component, wires) {
            Err(f) => Err(f),
            Ok(all) => if all.len() == 0 {
                Err(
                    component_fault(
                        hdl_code(),
                        component,
                        "hdl_module must expose at least one mapped digital pin"@,
                    ),
                )
            } else {
                match overrides_of(component, component.parameters@.len() as int) {
                    Err(f) => Err(f),
                    Ok(overrides) => match bound_ports(
                        component,
                        all,
                        sorted_names(port_names(all), all.len() as int),
                    ) {
                        Err(f) => Err(f),
                        Ok(ports) => Ok(instance_text(model.entry@, overrides, index, ports)),
                    },
                }
            },
        },
    }
}

pub fn compile_hdl_instance(
    component: &Component,
    index: usize,
    wiring: &Wiring,
    models: &Vec<ModelDefinition>,
) -> (r: Result<Draft, EngineError>)
    ensures
        agrees(r, module_line(*component, index as int, wiring@, models@)),
{
    let model = match find_instance_module(component, models) {
        Err(e) => {
            return Err(e);
        },
        Ok(model) => model,
    };
    let all = match bind_pins(component, wiring) {
        Err(e) => {
            return Err(e);
        },
        Ok(all) => all,
    };
    assert(bindings(all@).len() == all@.len());
    if all.len() == 0 {
        return Err(
            component_error(
                "verilator_component_invalid",
                component,
                "hdl_module must expose at least one mapped digital pin",
            ),
        );
    }
    let overrides = match compile_overrides(component) {
        Err(e) => {
            return Err(e);
        },
        Ok(overrides) => overrides,
    };
    let ports = match bind_ports(component, &all) {
        Err(e) => {
            return Err(e);
        },
        Ok(ports) => ports,
    };
    assert(drafts(overrides@).len() == overrides@.len());
    let mut line = Draft::of(cat2("  ", model.entry.as_str()).as_str());
    let mut clause = Draft::of("");
    if overrides.len() > 0 {
        clause = Draft::of(" #(");
        clause.append(&link(&overrides, ", "));
        clause.text(")");
    }
    line.append(&clause);
    line.text(
        cat5(
            " ox_u",
            decimal_text(index as u64).as_str(),
            " (",
            join_texts(&ports, ", ").as_str(),
            ");",
        ).as_str(),
    );
    Ok(line)
}

/// The lines of one component.
pub open spec fn bench_part(
    component: Component,
    index: int,
    wires: Seq<Wire>,
    models: Seq<ModelDefinition>,
) -> Result<Seq<Seq<Sign>>, Fault> {
    let kind = component.kind@;
    if kind == "logic_input"@ {
        input_lines(component, index, wires)
    } else if kind == "digital_clock"@ {
        clock_lines(component, index, wires)
    } else if kind == "logic_output"@ {
        match needed_node(wires, component, "in"@) {
            Err(f) => Err(f),
            Ok(_) => Ok(Seq::empty()),
        }
    } else {
        match module_line(component, index, wires, models) {
            Err(f) => Err(f),
            Ok(line) => Ok(seq![line]),
        }
    }
}

fn compile_bench_part(
    component: &Component,
    index: usize,
    wiring: &Wiring,
    models: &Vec<ModelDefinition>,
) -> (r: Result<Vec<Draft>, EngineError>)
    ensures
        same_lines(r, bench_part(*component, index as int, wiring@, models@)),
{
    let kind = component.kind.as_str();
    if text_eq(kind, "logic_input") {
        return compile_logic_input(component, index, wiring);
    }
    if text_eq(kind, "digital_clock") {
        return compile_clock(component, index, wiring);
    }
    let mut lines: Vec<Draft> = Vec::new();
    assert(drafts(lines@) =~= Seq::<Seq<Sign>>::empty());
    if text_eq(kind, "logic_output") {
        return match require_connected_pin(component, "in", wiring) {
            Err(e) => Err(e),
            Ok(_) => Ok(lines),
        };
    }
    match compile_hdl_instance(component, index, wiring, models) {
        Err(e) => Err(e),
        Ok(line) => {
            lines.push(line);
            assert(drafts(lines@) =~= seq![line@]);
            Ok(lines)
        },
    }
}

/// The lines of the first `n` components.
pub open spec fn bench_parts(
    components: Seq<Component>,
    wires: Seq<Wire>,
    models: Seq<ModelDefinition>,
    n: int,
) -> Result<Seq<Seq<Sign>>, Fault>
    decreases n,
{
    if n <= 0 {
        Ok(Seq::empty())
    } else {
        match bench_parts(components, wires, models, n - 1) {
            Err(f) => Err(f),
            Ok(before) => match bench_part(components[n - 1], n - 1, wires, models) {
                Err(f) => Err(f),
                Ok(lines) => Ok(before + lines),
            },
        }
    }
}

proof fn lemma_bench_parts_stop(
    components: Seq<Component>,
    wires: Seq<Wire>,
    models: Seq<ModelDefinition>,
    n: int,
    m: int,
)
    requires
        0 <= m <= n,
        bench_parts(components, wires, models, m) is Err,
    ensures
        bench_parts(components, wires, models, n) == bench_parts(components, wires, models, m),
    decreases n - m,
{
    if m < n {
        lemma_bench_parts_stop(components, wires, models, n, m + 1);
    }
}

fn compile_bench_parts(
    components: &Vec<Component>,
    wiring: &Wiring,
    models: &Vec<ModelDefinition>,
) -> (r: Result<Vec<Draft>, EngineError>)
    ensures
        same_lines(r, bench_parts(components@, wiring@, models@, components@.len() as int)),
{
    let mut out: Vec<Draft> = Vec::new();
    let mut i: usize = 0;
    assert(drafts(out@) =~= Seq::<Seq<Sign>>::empty());
    while i < components.len()
        invariant
            i <= components@.len(),
            bench_parts(components@, wiring@, models@, i as int) == Ok::<Seq<Seq<Sign>>, Fault>(
                drafts(out@),
            ),
        decreases components@.len() - i,
    {
        match compile_bench_part(&components[i], i, wiring, models) {
            Err(e) => {
                proof {
                    lemma_bench_parts_stop(
                        components@,
                        wiring@,
                        models@,
                        components@.len() as int,
                        i + 1,
                    );
                }
                return Err(e);
            },
            Ok(lines) => {
                push_drafts(&mut out, &lines);
            },
        }
        i = i + 1;
    }
    Ok(out)
}

/// A source file for the build.
#[derive(Clone, Debug, PartialEq, Eq)]
pub struct HdlSourceFile {
    pub filename: String,
    pub source: String,
}

impl View for HdlSourceFile {
    type V = (Seq<char>, Seq<char>);

    open spec fn view(&self) -> (Seq<char>, Seq<char>) {
        (self.filename@, self.source@)
    }
}

pub open spec fn source_views(v: Seq<HdlSourceFile>) -> Seq<(Seq<char>, Seq<char>)> {
    v.map_values(|f: HdlSourceFile| f@)
}

/// The file of one module.
pub open spec fn source_file(model: ModelDefinition, index: int) -> (Seq<char>, Seq<char>) {
    (
        "hdl_"@ + decimal(index as nat) + "."@ + if model.language == ModelLanguage::Verilog {
            "v"@
        } else {
            "sv"@
        },
        model.source@,
    )
}

/// The files of the modules.
pub open spec fn source_files(models: Seq<ModelDefinition>, places: Seq<int>) -> Seq<
    (Seq<char>, Seq<char>),
> {
    Seq::new(places.len(), |i: int| source_file(models[places[i]], i))
}

/// The places of the HDL modules.
pub open spec fn places(v: Seq<usize>) -> Seq<int> {
    v.map_values(|p: usize| p as int)
}

fn find_hdl_places(models: &Vec<ModelDefinition>) -> (r: Vec<usize>)
    ensures
        places(r@) == hdl_places(models@, models@.len() as int),
        forall|i: int| 0 <= i < r@.len() ==> (#[trigger] r@[i]) < models@.len(),
{
    let mut out: Vec<usize> = Vec::new();
    let mut i: usize = 0;
    assert(places(out@) =~= Seq::<int>::empty());
    while i < models.len()
        invariant
            i <= models@.len(),
            places(out@) == hdl_places(models@, i as int),
            forall|k: int| 0 <= k < out@.len() ==> (#[trigger] out@[k]) < models@.len(),
        decreases models@.len() - i,
    {
        if is_hdl_model(&models[i]) {
            let ghost before = places(out@);
            out.push(i);
            assert(places(out@) =~= before.push(i as int));
        }
        i = i + 1;
    }
    out
}

fn check_sources(models: &Vec<ModelDefinition>, found: &Vec<usize>) -> (r: Result<(), EngineError>)
    requires
        forall|i: int| 0 <= i < found@.len() ==> (#[trigger] found@[i]) < models@.len(),
    ensures
        passes(r, sources_failure(models@, places(found@), found@.len() as int)),
{
    let ghost all = places(found@);
    let mut i: usize = 0;
    while i < found.len()
        invariant
            i <= found@.len(),
            all == places(found@),
            forall|i: int| 0 <= i < found@.len() ==> (#[trigger] found@[i]) < models@.len(),
            sources_failure(models@, all, i as int) is None,
        decreases found@.len() - i,
    {
        let at: usize = found[i];
        assert(all[i as int] == at);
        match validate_hdl_source(&models[at]) {
            Err(e) => {
                proof {
                    lemma_sources_failure_stops(models@, all, found@.len() as int, i + 1);
                }
                return Err(e);
            },
            Ok(_) => {},
        }
        i = i + 1;
    }
    Ok(())
}

fn list_sources(models: &Vec<ModelDefinition>, found: &Vec<usize>) -> (r: Vec<HdlSourceFile>)
    requires
        forall|i: int| 0 <= i < found@.len() ==> (#[trigger] found@[i]) < models@.len(),
    ensures
        source_views(r@) == source_files(models@, places(found@)),
{
    let ghost all = source_files(models@, places(found@));
    let mut out: Vec<HdlSourceFile> = Vec::new();
    let mut i: usize = 0;
    while i < found.len()
        invariant
            i <= found@.len(),
            all == source_files(models@, places(found@)),
            forall|i: int| 0 <= i < found@.len() ==> (#[trigger] found@[i]) < models@.len(),
            source_views(out@) =~= all.take(i as int),
        decreases found@.len() - i,
    {
        let at: usize = found[i];
        let model = &models[at];
        let ending = match model.language {
            ModelLanguage::Verilog => "v",
            _ => "sv",
        };
        let ghost before = source_views(out@);
        out.push(
            HdlSourceFile {
                filename: cat4("hdl_", decimal_text(i as u64).as_str(), ".", ending),
                source: model.source.clone(),
            },
        );
        assert(places(found@)[i as int] == at);
        assert(source_views(out@) =~= before.push(all[i as int]));
        assert(all.take(i + 1) =~= all.take(i as int).push(all[i as int]));
        i = i + 1;
    }
    assert(source_views(out@) =~= all);
    out
}

/// The first of the first `n` nets that is on a node.
pub open spec fn net_on(
    nets: Seq<Net>,
    nodes: Seq<(Seq<char>, Seq<char>)>,
    node: Seq<char>,
    n: int,
) -> Option<Seq<char>>
    decreases n,
{
    if n <= 0 {
        None
    } else {
        match net_on(nets, nodes, node, n - 1) {
            Some(net) => Some(net),
            None => if node_at(nodes, nets[n - 1].id@) == Some(node) {
                Some(nets[n - 1].id@)
            } else {
                None
            },
        }
    }
}

proof fn lemma_net_on_stays(
    nets: Seq<Net>,
    nodes: Seq<(Seq<char>, Seq<char>)>,
    node: Seq<char>,
    n: int,
    m: int,
)
    requires
        0 <= m <= n,
        net_on(nets, nodes, node, m) is Some,
    ensures
        net_on(nets, nodes, node, n) == net_on(nets, nodes, node, m),
    decreases n - m,
{
    if m < n {
        lemma_net_on_stays(nets, nodes, node, n, m + 1);
    }
}

fn find_net_on(nets: &Vec<Net>, nodes: &NodeMap, node: &str) -> (r: Option<String>)
    ensures
        crate::spice_models::text_of(r) == net_on(nets@, nodes@, node@, nets@.len() as int),
{
    let mut i: usize = 0;
    while i < nets.len()
        invariant
            i <= nets@.len(),
            net_on(nets@, nodes@, node@, i as int) is None,
        decreases nets@.len() - i,
    {
        match nodes.find(nets[i].id.as_str()) {
            Some(found) => {
                if text_eq(found.as_str(), node) {
                    proof {
                        lemma_net_on_stays(nets@, nodes@, node@, nets@.len() as int, i + 1);
                    }
                    return Some(nets[i].id.0.clone());
                }
            },
            None => {},
        }
        i = i + 1;
    }
    None
}

/// One probe of a request.
pub open spec fn bench_probe(
    request: SimulationRequest,
    wires: Seq<Wire>,
    nodes: Seq<(Seq<char>, Seq<char>)>,
    i: int,
) -> Result<(Seq<char>, Seq<char>), Fault> {
    let probe = request.probes@[i];
    let nets = request.circuit.nets@;
    match net_at(wires, probe.endpoint.component@, probe.endpoint.pin@) {
        None => Err(loose_probe("verilator_unknown_probe"@, probe)),
        Some(node) => match net_on(nets, nodes, node, nets.len() as int) {
            None => Err(
                fault(
                    "verilator_unknown_probe_net"@,
                    "probe references a node without a circuit net"@,
                ),
            ),
            Some(net) => Ok((signal_name(probe, net), node)),
        },
    }
}

/// The probe of a net where none are asked for.
pub open spec fn bench_net_probe(nets: Seq<Net>, nodes: Seq<(Seq<char>, Seq<char>)>, i: int) -> (
    Seq<char>,
    Seq<char>,
) {
    (
        "net:"@ + nets[i].id@,
        match node_at(nodes, nets[i].id@) {
            Some(node) => node,
            None => ""@,
        },
    )
}

/// The probes of a request: all nets where none are asked for.
pub open spec fn bench_probes(
    request: SimulationRequest,
    wires: Seq<Wire>,
    nodes: Seq<(Seq<char>, Seq<char>)>,
) -> Result<Seq<(Seq<char>, Seq<char>)>, Fault> {
    if request.probes@.len() == 0 {
        Ok(
            Seq::new(
                request.circuit.nets@.len(),
                |i: int| bench_net_probe(request.circuit.nets@, nodes, i),
            ),
        )
    } else {
        collected(
            request.probes@.len() as int,
            |i: int| bench_probe(request, wires, nodes, i),
        )
    }
}

fn compile_bench_probe(request: &SimulationRequest, wiring: &Wiring, nodes: &NodeMap, i: usize) -> (r:
    Result<EventProbe, EngineError>)
    requires
        i < request.probes@.len(),
    ensures
        agrees(r, bench_probe(*request, wiring@, nodes@, i as int)),
{
    let probe = &request.probes[i];
    let node = match wiring.find(probe.endpoint.component.as_str(), probe.endpoint.pin.as_str()) {
        None => {
            return Err(loose_probe_error("verilator_unknown_probe", probe));
        },
        Some(node) => node,
    };
    match find_net_on(&request.circuit.nets, nodes, node.as_str()) {
        None => Err(
            EngineError::new(
                "verilator_unknown_probe_net",
                "probe references a node without a circuit net",
            ),
        ),
        Some(net) => Ok(
            EventProbe { signal: signal_text(probe, net.as_str()), node: node.clone() },
        ),
    }
}

pub fn compile_probes(request: &SimulationRequest, wiring: &Wiring, nodes: &NodeMap) -> (r: Result<
    Vec<EventProbe>,
    EngineError,
>)
    ensures
        match (r, bench_probes(*request, wiring@, nodes@)) {
            (Ok(v), Ok(s)) => event_probes(v@) == s,
            (Err(e), Err(f)) => e@ == f,
            _ => false,
        },
{
    let mut out: Vec<EventProbe> = Vec::new();
    let mut i: usize = 0;
    if request.probes.len() == 0 {
        let nets = &request.circuit.nets;
        let ghost all = Seq::new(nets@.len(), |i: int| bench_net_probe(nets@, nodes@, i));
        while i < nets.len()
            invariant
                i <= nets@.len(),
                all == Seq::new(nets@.len(), |i: int| bench_net_probe(nets@, nodes@, i)),
                event_probes(out@) =~= all.take(i as int),
            decreases nets@.len() - i,
        {
            let node = match nodes.find(nets[i].id.as_str()) {
                Some(node) => node.clone(),
                None => "".to_owned(),
            };
            let ghost before = event_probes(out@);
            out.push(EventProbe { signal: cat2("net:", nets[i].id.as_str()), node });
            assert(event_probes(out@) =~= before.push(all[i as int]));
            assert(all.take(i + 1) =~= all.take(i as int).push(all[i as int]));
            i = i + 1;
        }
        assert(event_probes(out@) =~= all);
        return Ok(out);
    }
    let ghost f = |i: int| bench_probe(*request, wiring@, nodes@, i);
    assert(event_probes(out@) =~= Seq::<(Seq<char>, Seq<char>)>::empty());
    while i < request.probes.len()
        invariant
            i <= request.probes@.len(),
            request.probes@.len() > 0,
            f == (|i: int| bench_probe(*request, wiring@, nodes@, i)),
            collected(i as int, f) == Ok::<Seq<(Seq<char>, Seq<char>)>, Fault>(
                event_probes(out@),
            ),
        decreases request.probes@.len() - i,
    {
        match compile_bench_probe(request, wiring, nodes, i) {
            Err(e) => {
                assert(f(i as int) == Err::<(Seq<char>, Seq<char>), Fault>(e@));
                assert(collected(i + 1, f) == Err::<Seq<(Seq<char>, Seq<char>)>, Fault>(e@));
                proof {
                    lemma_collected_stops(request.probes@.len() as int, f, i + 1);
                }
                return Err(e);
            },
            Ok(probe) => {
                let ghost before = event_probes(out@);
                assert(f(i as int) == Ok::<(Seq<char>, Seq<char>), Fault>(probe@));
                out.push(probe);
                assert(event_probes(out@) =~= before.push(probe@));
            },
        }
        i = i + 1;
    }
    Ok(out)
}

/// The names of nets.
pub open spec fn net_ids(nets: Seq<Net>) -> Seq<Seq<char>> {
    nets.map_values(|n: Net| n.id@)
}

/// The declarations of the nodes, in the order of the names of their nets.
pub open spec fn wire_lines(nets: Seq<Net>) -> Seq<Seq<Sign>> {
    let names = sorted_names(net_ids(nets), nets.len() as int);
    Seq::new(names.len(), |i: int| wire_line(hdl_nodes(nets), names[i]))
}

pub open spec fn wire_line(nodes: Seq<(Seq<char>, Seq<char>)>, net: Seq<char>) -> Seq<Sign> {
    letters(
        "  wire "@ + match node_at(nodes, net) {
            Some(node) => node,
            None => ""@,
        } + ";"@,
    )
}

fn push_wire_lines(lines: &mut Vec<Draft>, nets: &Vec<Net>, nodes: &NodeMap)
    requires
        nodes@ == hdl_nodes(nets@),
    ensures
        drafts(final(lines)@) == drafts(old(lines)@) + wire_lines(nets@),
{
    let ghost ids = net_ids(nets@);
    let mut names: Vec<String> = Vec::new();
    let mut k: usize = 0;
    while k < nets.len()
        invariant
            k <= nets@.len(),
            ids == net_ids(nets@),
            texts(names@) =~= ids.take(k as int),
        decreases nets@.len() - k,
    {
        let ghost before = texts(names@);
        names.push(nets[k].id.0.clone());
        assert(ids[k as int] == nets@[k as int].id@);
        assert(texts(names@) =~= before.push(ids[k as int]));
        assert(ids.take(k + 1) =~= ids.take(k as int).push(ids[k as int]));
        k = k + 1;
    }
    assert(texts(names@) =~= ids);
    let sorted = sort_names(&names);
    let ghost all = wire_lines(nets@);
    let ghost start = drafts(lines@);
    let mut i: usize = 0;
    assert(start + all.take(0) =~= start);
    while i < sorted.len()
        invariant
            i <= sorted@.len(),
            nodes@ == hdl_nodes(nets@),
            all == wire_lines(nets@),
            texts(sorted@) == sorted_names(net_ids(nets@), nets@.len() as int),
            drafts(lines@) == start + all.take(i as int),
        decreases sorted@.len() - i,
    {
        let node = match nodes.find(sorted[i].as_str()) {
            Some(node) => node.clone(),
            None => "".to_owned(),
        };
        assert(texts(sorted@)[i as int] == sorted@[i as int]@);
        push_text(lines, cat3("  wire ", node.as_str(), ";").as_str());
        assert(drafts(lines@) =~= start + all.take(i + 1));
        i = i + 1;
    }
    assert(all.take(i as int) =~= all);
}

/// The lines that record the signals and end the run.
pub open spec fn bench_closing(stop_ticks: u64) -> Seq<Seq<Sign>> {
    seq![
        letters("  initial begin"@),
        letters("    $dumpfile(\"result.vcd\");"@),
        letters("    $dumpvars(0, oxsim_tb);"@),
        letters("    #"@ + decimal(stop_ticks as nat) + ";"@),
        letters("    $finish;"@),
        letters("  end"@),
        letters("endmodule"@),
        letters(""@),
    ]
}

fn push_bench_closing(lines: &mut Vec<Draft>, stop_ticks: u64)
    ensures
        drafts(final(lines)@) == drafts(old(lines)@) + bench_closing(stop_ticks),
{
    let ghost start = drafts(lines@);
    push_text(lines, "  initial begin");
    push_text(lines, "    $dumpfile(\"result.vcd\");");
    push_text(lines, "    $dumpvars(0, oxsim_tb);");
    push_text(lines, cat3("    #", decimal_text(stop_ticks).as_str(), ";").as_str());
    push_text(lines, "    $finish;");
    push_text(lines, "  end");
    push_text(lines, "endmodule");
    push_text(lines, "");
    assert(drafts(lines@) =~= start + bench_closing(stop_ticks));
}

/// A test bench with the modules that it needs.
#[derive(Clone, Debug, PartialEq, Eq)]
pub struct CompiledVerilatorRequest {
    pub sources: Vec<HdlSourceFile>,
    pub wrapper: Draft,
    pub probes: Vec<EventProbe>,
}

/// What a `CompiledVerilatorRequest` says.
pub struct TestBench {
    pub sources: Seq<(Seq<char>, Seq<char>)>,
    pub wrapper: Seq<Sign>,
    pub probes: Seq<(Seq<char>, Seq<char>)>,
}

impl View for CompiledVerilatorRequest {
    type V = TestBench;

    open spec fn view(&self) -> TestBench {
        TestBench {
            sources: source_views(self.sources@),
            wrapper: self.wrapper@,
            probes: event_probes(self.probes@),
        }
    }
}

/// The stop time of a request that a test bench can run.
pub open spec fn bench_stop(request: SimulationRequest) -> Result<Real, Fault> {
    let components = request.circuit.components@;
    match request.analysis {
        Analysis::DigitalTransient { stop } => if !stop.finite() || stop.at_most(
            Real { bits: 0 },
        ) {
            Err(
                fault(
                    "verilator_invalid_analysis"@,
                    "digital transient stop time must be finite and greater than zero"@,
                ),
            )
        } else if !crate::circuit::has_kind(components, "hdl_module"@) {
            Err(
                fault(
                    "verilator_hdl_module_missing"@,
                    "Verilator execution requires at least one hdl_module component"@,
                ),
            )
        } else {
            match unsupported_at(components, components.len() as int) {
                Some(i) => Err(
                    fault(
                        "verilator_unsupported_component"@,
                        "component `"@ + components[i].id@ + "` of kind `"@ + components[i].kind@
                            + "` is not part of the R5 Verilator boundary"@,
                    ),
                ),
                None => Ok(stop),
            }
        },
        _ => Err(
            fault(
                "verilator_unsupported_analysis"@,
                "the Verilator engine only supports digital_transient analysis"@,
            ),
        ),
    }
}

fn read_stop(request: &SimulationRequest) -> (r: Result<Real, EngineError>)
    ensures
        same(r, bench_stop(*request)),
{
    let stop = match &request.analysis {
        Analysis::DigitalTransient { stop } => *stop,
        _ => {
            return Err(
                EngineError::new(
                    "verilator_unsupported_analysis",
                    "the Verilator engine only supports digital_transient analysis",
                ),
            );
        },
    };
    if !stop.is_finite() || stop.le(Real { bits: 0 }) {
        return Err(
            EngineError::new(
                "verilator_invalid_analysis",
                "digital transient stop time must be finite and greater than zero",
            ),
        );
    }
    if !crate::circuit::contains_kind(&request.circuit.components, "hdl_module") {
        return Err(
            EngineError::new(
                "verilator_hdl_module_missing",
                "Verilator execution requires at least one hdl_module component",
            ),
        );
    }
    match find_unsupported(&request.circuit.components) {
        Some(i) => {
            let component = &request.circuit.components[i];
            Err(
                fail(
                    "verilator_unsupported_component",
                    cat5(
                        "component `",
                        component.id.as_str(),
                        "` of kind `",
                        component.kind.as_str(),
                        "` is not part of the R5 Verilator boundary",
                    ),
                ),
            )
        },
        None => Ok(stop),
    }
}

/// Why the modules of a circuit are refused.
pub open spec fn modules_failure(models: Seq<ModelDefinition>) -> Option<Fault> {
    let found = hdl_places(models, models.len() as int);
    if found.len() == 0 {
        Some(
            fault(
                "verilator_model_missing"@,
                "Verilator execution requires at least one inline Verilog/SystemVerilog module model"@,
            ),
        )
    } else {
        sources_failure(models, found, found.len() as int)
    }
}

/// The test bench of a request.
pub open spec fn bench_of(request: SimulationRequest) -> Result<TestBench, Fault> {
    let nets = request.circuit.nets@;
    let models = request.circuit.models@;
    let components = request.circuit.components@;
    match bench_stop(request) {
        Err(f) => Err(f),
        Ok(stop) => match modules_failure(models) {
            Some(f) => Err(f),
            None => match hdl_wires(nets, nets.len() as int) {
                Err(f) => Err(f),
                Ok(wires) => match bench_parts(
                    components,
                    wires,
                    models,
                    components.len() as int,
                ) {
                    Err(f) => Err(f),
                    Ok(parts) => match picoseconds_of(stop, "analysis stop time"@) {
                        Err(f) => Err(f),
                        Ok(ticks) => match bench_probes(request, wires, hdl_nodes(nets)) {
                            Err(f) => Err(f),
                            Ok(probes) => Ok(
                                TestBench {
                                    sources: source_files(
                                        models,
                                        hdl_places(models, models.len() as int),
                                    ),
                                    wrapper: stack_of(
                                        seq![letters("module oxsim_tb;"@)] + wire_lines(nets)
                                            + parts + bench_closing(ticks),
                                    ),
                                    probes,
                                },
                            ),
                        },
                    },
                },
            },
        },
    }
}

pub fn compile_request(request: &SimulationRequest) -> (r: Result<
    CompiledVerilatorRequest,
    EngineError,
>)
    ensures
        agrees(r, bench_of(*request)),
{
    let stop = match read_stop(request) {
        Err(e) => {
            return Err(e);
        },
        Ok(stop) => stop,
    };
    let models = &request.circuit.models;
    let found = find_hdl_places(models);
    assert(places(found@).len() == found@.len());
    if found.len() == 0 {
        return Err(
            EngineError::new(
                "verilator_model_missing",
                "Verilator execution requires at least one inline Verilog/SystemVerilog module model",
            ),
        );
    }
    match check_sources(models, &found) {
        Err(e) => {
            return Err(e);
        },
        Ok(_) => {},
    }
    let nets = &request.circuit.nets;
    let wiring = match connect_nodes(nets) {
        Err(e) => {
            return Err(e);
        },
        Ok(wiring) => wiring,
    };
    let nodes = name_hdl_nodes(nets);
    let parts = match compile_bench_parts(&request.circuit.components, &wiring, models) {
        Err(e) => {
            return Err(e);
        },
        Ok(parts) => parts,
    };
    let ticks: u64 = match seconds_to_picoseconds(stop, "analysis stop time") {
        Err(e) => {
            return Err(e);
        },
        Ok(ticks) => ticks,
    };
    let probes = match compile_probes(request, &wiring, &nodes) {
        Err(e) => {
            return Err(e);
        },
        Ok(probes) => probes,
    };
    let mut lines: Vec<Draft> = Vec::new();
    assert(drafts(lines@) =~= Seq::<Seq<Sign>>::empty());
    push_text(&mut lines, "module oxsim_tb;");
    assert(drafts(lines@) =~= seq![letters("module oxsim_tb;"@)]);
    push_wire_lines(&mut lines, nets, &nodes);
    push_drafts(&mut lines, &parts);
    push_bench_closing(&mut lines, ticks);
    Ok(
        CompiledVerilatorRequest {
            sources: list_sources(models, &found),
            wrapper: stack(&lines),
            probes,
        },
    )
}

/// What ends the wait for a running build or run.
pub open spec fn hdl_wait_failure(
    policy: ExecutionPolicy,
    phase: Seq<char>,
    cancelled: bool,
    elapsed_ms: u128,
    log_bytes: u64,
    result_bytes: u64,
) -> Option<Fault> {
    if cancelled {
        Some(
            fault(
                "execution_cancelled"@,
                "Verilator "@ + phase + " execution was cancelled"@,
            ),
        )
    } else if policy.timeout_ms != 0 && elapsed_ms >= policy.timeout_ms {
        Some(
            Fault {
                retryable: true,
                ..fault(
                    "execution_timeout"@,
                    "Verilator execution exceeded total timeout of "@ + decimal(
                        policy.timeout_ms as nat,
                    ) + " ms"@,
                )
            },
        )
    } else {
        match size_failure("log"@, log_bytes, policy.max_log_bytes) {
            Some(f) => Some(f),
            None => size_failure("result"@, result_bytes, policy.max_output_bytes),
        }
    }
}

/// Whether to wait on for a running build or run. A file that does not exist, or
/// is not asked for, has no bytes.
pub fn check_hdl_wait(
    policy: &ExecutionPolicy,
    phase: &str,
    cancelled: bool,
    elapsed_ms: u128,
    log_bytes: u64,
    result_bytes: u64,
) -> (r: Result<(), EngineError>)
    ensures
        passes(
            r,
            hdl_wait_failure(*policy, phase@, cancelled, elapsed_ms, log_bytes, result_bytes),
        ),
{
    if cancelled {
        return Err(
            fail(
                "execution_cancelled",
                cat3("Verilator ", phase, " execution was cancelled"),
            ),
        );
    }
    if policy.timeout_ms != 0 && elapsed_ms >= policy.timeout_ms as u128 {
        return Err(
            fail(
                "execution_timeout",
                cat3(
                    "Verilator execution exceeded total timeout of ",
                    decimal_text(policy.timeout_ms).as_str(),
                    " ms",
                ),
            ).retryable(true),
        );
    }
    match enforce_buffer_limit("log", log_bytes, policy.max_log_bytes) {
        Err(e) => Err(e),
        Ok(_) => enforce_buffer_limit("result", result_bytes, policy.max_output_bytes),
    }
}

/// A line of a log that warns.
pub open spec fn is_hdl_warning(line: Seq<char>) -> bool {
    begins_with(line, "%Warning"@) || begins_with(lowercase(line), "warning"@)
}

/// The warnings among the first `n` lines, each once.
pub open spec fn hdl_warnings(lines: Seq<Seq<char>>, n: int) -> Seq<Seq<char>>
    decreases n,
{
    if n <= 0 {
        Seq::empty()
    } else {
        let before = hdl_warnings(lines, n - 1);
        let line = trim(lines[n - 1]);
        if is_hdl_warning(line) && !before.contains(line) {
            before.push(line)
        } else {
            before
        }
    }
}

pub fn extract_verilator_warnings(log: &str) -> (r: Vec<String>)
    ensures
        texts(r@) == hdl_warnings(lines_of(log@), lines_of(log@).len() as int),
{
    let lines = split_lines(&to_chars(log));
    let ghost all = rows(lines@);
    let mut out: Vec<String> = Vec::new();
    let mut i: usize = 0;
    assert(texts(out@) =~= Seq::<Seq<char>>::empty());
    while i < lines.len()
        invariant
            i <= lines@.len(),
            all == rows(lines@),
            texts(out@) == hdl_warnings(all, i as int),
        decreases lines@.len() - i,
    {
        assert(all[i as int] == lines@[i as int]@);
        let bounds = trim_bounds(&lines[i]);
        let line = slice_chars(&lines[i], bounds.0, bounds.1);
        if chars_begin_with(&line, "%Warning") || chars_begin_with(
            &lowercase_chars(&line),
            "warning",
        ) {
            let text = from_chars(&line);
            if !holds_text(&out, text.as_str()) {
                let ghost before = texts(out@);
                out.push(text);
                assert(texts(out@) =~= before.push(line@));
            }
        }
        i = i + 1;
    }
    out
}

/// No warning is passed on twice.
pub proof fn hdl_warnings_are_distinct(lines: Seq<Seq<char>>, n: int)
    ensures
        hdl_warnings(lines, n).no_duplicates(),
    decreases n,
{
    if n > 0 {
        hdl_warnings_are_distinct(lines, n - 1);
    }
}

} // verus!
