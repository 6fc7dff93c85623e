//! Digital netlists for the XSPICE event engine of ngspice.
use crate::analysis::Analysis;
use crate::circuit::{parameter_of, Component, Net, ParameterValue, PinDirection};
use crate::digital::{insert_name, with_name};
use crate::draft::{
    drafts, figure, letters, push_drafts, push_text, stack, stack_of, Draft, Sign,
};
use crate::engine::{Probe, SimulationRequest};
use crate::fault::{
    agrees, collected, fail, fault, lemma_collected_stops, passes, EngineError, Fault,
};
use crate::lines::{
    chars_include, includes, join_of, join_texts, text_list1, text_list2, text_list3,
};
use crate::ngspice::{loose_probe, loose_probe_error, signal_name, signal_text};
use crate::nodes::{node_at, same_text, NodeMap, NodeName};
use crate::number::Real;
use crate::reading::{
    about, delay_seconds, duty_cycle, duty_of, error_about, logic_of, needed_logic,
    needed_quantity, optional_logic_value, optional_non_negative_seconds, pin_failure,
    positive_seconds, require_pin, required_logic_value, required_positive_seconds,
    required_quantity, same,
};
use crate::stimulus::{
    clock_events, clock_levels, compile_stimulus, feeds, started_feeds, stimulus_of, Feed,
    SourceSpec,
};
use crate::text::{
    cat2, cat3, cat4, cat5, decimal, decimal_text, lowercase, lowercase_chars, lowercase_text,
    text_eq, texts, to_chars, trim, trim_text,
};
use crate::units::Unit;
use crate::waveform::LogicValue;
use crate::wiring::{clash, endpoint_net_map, net_at, wires, Wire, Wiring};
use vstd::prelude::*;

verus! {

pub const XSPICE_ENGINE_ID: &'static str = "xspice";

/// The least delay that the event engine takes: a picosecond.
pub const XSPICE_MIN_DELAY_BITS: u64 = 0x3d71_9799_812d_ea11;

pub open spec fn xspice_code() -> Seq<char> {
    "xspice_component_invalid"@
}

/// The connections of a circuit and the nodes of its nets.
#[derive(Clone, Debug, PartialEq, Eq)]
pub struct Grid {
    pub wiring: Wiring,
    pub nodes: NodeMap,
}

/// What a `Grid` says.
pub struct Mesh {
    pub wires: Seq<Wire>,
    pub nodes: Seq<(Seq<char>, Seq<char>)>,
}

impl View for Grid {
    type V = Mesh;

    open spec fn view(&self) -> Mesh {
        Mesh { wires: self.wiring@, nodes: self.nodes@ }
    }
}

/// The node of a connected pin.
pub open spec fn joined_node(mesh: Mesh, component: Component, pin: Seq<char>) -> Result<
    Seq<char>,
    Fault,
> {
    match net_at(mesh.wires, component.id@, pin) {
        None => Err(
            about(
                xspice_code(),
                component,
                "required digital pin `"@,
                pin,
                "` is not connected to a net"@,
            ),
        ),
        Some(net) => match node_at(mesh.nodes, net) {
            None => Err(
                about(
                    xspice_code(),
                    component,
                    "digital pin `"@,
                    pin,
                    "` references unknown net `"@ + net + "`"@,
                ),
            ),
            Some(node) => Ok(node),
        },
    }
}

pub fn connected_node(component: &Component, pin: &str, grid: &Grid) -> (r: Result<
    String,
    EngineError,
>)
    ensures
        same_text(r, joined_node(grid@, *component, pin@)),
{
    let net = match grid.wiring.find(component.id.as_str(), pin) {
        None => {
            return Err(
                error_about(
                    "xspice_component_invalid",
                    component,
                    "required digital pin `",
                    pin,
                    "` is not connected to a net",
                ),
            );
        },
        Some(net) => net,
    };
    match grid.nodes.find(net.as_str()) {
        None => Err(
            error_about(
                "xspice_component_invalid",
                component,
                "digital pin `",
                pin,
                cat3("` references unknown net `", net.as_str(), "`").as_str(),
            ),
        ),
        Some(node) => Ok(node.clone()),
    }
}

/// The node of a digital pin of this direction.
pub open spec fn digital_node(
    mesh: Mesh,
    component: Component,
    pin: Seq<char>,
    direction: PinDirection,
) -> Result<Seq<char>, Fault> {
    match pin_failure(xspice_code(), component, pin, direction) {
        Some(f) => Err(f),
        None => joined_node(mesh, component, pin),
    }
}

pub fn require_node(component: &Component, pin: &str, direction: PinDirection, grid: &Grid) -> (r:
    Result<String, EngineError>)
    ensures
        same_text(r, digital_node(grid@, *component, pin@, direction)),
{
    match require_pin("xspice_component_invalid", component, pin, direction) {
        Err(e) => Err(e),
        Ok(_) => connected_node(component, pin, grid),
    }
}

/// The nodes of digital inputs.
pub open spec fn input_nodes(mesh: Mesh, component: Component, pins: Seq<Seq<char>>) -> Result<
    Seq<Seq<char>>,
    Fault,
> {
    collected(
        pins.len() as int,
        |i: int| digital_node(mesh, component, pins[i], PinDirection::Input),
    )
}

fn require_inputs(component: &Component, pins: &Vec<String>, grid: &Grid) -> (r: Result<
    Vec<String>,
    EngineError,
>)
    ensures
        match (r, input_nodes(grid@, *component, texts(pins@))) {
            (Ok(v), Ok(s)) => texts(v@) == s && v@.len() == pins@.len(),
            (Err(e), Err(f)) => e@ == f,
            _ => false,
        },
{
    let ghost names = texts(pins@);
    let ghost f = |i: int| digital_node(grid@, *component, names[i], PinDirection::Input);
    let mut out: Vec<String> = Vec::new();
    let mut i: usize = 0;
    assert(texts(out@) =~= Seq::<Seq<char>>::empty());
    while i < pins.len()
        invariant
            i <= pins@.len(),
            out@.len() == i,
            names == texts(pins@),
            f == (|i: int| digital_node(grid@, *component, names[i], PinDirection::Input)),
            collected(i as int, f) == Ok::<Seq<Seq<char>>, Fault>(texts(out@)),
        decreases pins@.len() - i,
    {
        assert(names[i as int] == pins@[i as int]@);
        match require_node(component, pins[i].as_str(), PinDirection::Input, grid) {
            Err(e) => {
                assert(f(i as int) == Err::<Seq<char>, Fault>(e@));
                assert(collected(i + 1, f) == Err::<Seq<Seq<char>>, Fault>(e@));
                proof {
                    lemma_collected_stops(pins@.len() as int, f, i + 1);
                }
                return Err(e);
            },
            Ok(node) => {
                let ghost before = texts(out@);
                assert(f(i as int) == Ok::<Seq<char>, Fault>(node@));
                out.push(node);
                assert(texts(out@) =~= before.push(node@));
            },
        }
        i = i + 1;
    }
    Ok(out)
}

/// What one component adds to a netlist.
#[derive(Clone, Debug, PartialEq, Eq)]
pub struct Fragment {
    pub sources: Vec<SourceSpec>,
    pub instances: Vec<Draft>,
    pub models: Vec<Draft>,
    pub delay_floor_applied: bool,
}

/// What a `Fragment` says.
pub struct Addition {
    pub sources: Seq<Feed>,
    pub instances: Seq<Seq<Sign>>,
    pub models: Seq<Seq<Sign>>,
    pub floored: bool,
}

impl View for Fragment {
    type V = Addition;

    open spec fn view(&self) -> Addition {
        Addition {
            sources: feeds(self.sources@),
            instances: drafts(self.instances@),
            models: drafts(self.models@),
            floored: self.delay_floor_applied,
        }
    }
}

pub open spec fn no_addition() -> Addition {
    Addition {
        sources: Seq::empty(),
        instances: Seq::empty(),
        models: Seq::empty(),
        floored: false,
    }
}

fn empty_fragment() -> (r: Fragment)
    ensures
        r@ == no_addition(),
{
    let f = Fragment {
        sources: Vec::new(),
        instances: Vec::new(),
        models: Vec::new(),
        delay_floor_applied: false,
    };
    assert(feeds(f.sources@) =~= Seq::<Feed>::empty());
    assert(drafts(f.instances@) =~= Seq::<Seq<Sign>>::empty());
    assert(drafts(f.models@) =~= Seq::<Seq<Sign>>::empty());
    f
}

pub open spec fn source_addition(node: Seq<char>, events: Seq<(Real, LogicValue)>) -> Addition {
    Addition { sources: seq![Feed { node, events }], ..no_addition() }
}

fn source_fragment(node: String, events: Vec<(Real, LogicValue)>) -> (r: Fragment)
    ensures
        r@ == source_addition(node@, events@),
{
    let mut f = empty_fragment();
    f.sources.push(SourceSpec { node, events });
    assert(feeds(f.sources@) =~= seq![Feed { node: node@, events: events@ }]);
    f
}

pub open spec fn device_addition(instance: Seq<Sign>, model: Seq<Sign>, floored: bool) -> Addition {
    Addition { sources: Seq::empty(), instances: seq![instance], models: seq![model], floored }
}

fn device_fragment(instance: Draft, model: Draft, floored: bool) -> (r: Fragment)
    ensures
        r@ == device_addition(instance@, model@, floored),
{
    let mut f = empty_fragment();
    f.instances.push(instance);
    f.models.push(model);
    f.delay_floor_applied = floored;
    assert(drafts(f.instances@) =~= seq![instance@]);
    assert(drafts(f.models@) =~= seq![model@]);
    f
}

/// The inputs, the output and the model of a gate.
pub open spec fn gate_terms(kind: Seq<char>) -> Option<(Seq<Seq<char>>, Seq<char>)> {
    if kind == "buffer"@ {
        Some((seq!["in"@], "d_buffer"@))
    } else if kind == "not_gate"@ {
        Some((seq!["in"@], "d_inverter"@))
    } else if kind == "and_gate"@ {
        Some((seq!["a"@, "b"@], "d_and"@))
    } else if kind == "or_gate"@ {
        Some((seq!["a"@, "b"@], "d_or"@))
    } else if kind == "xor_gate"@ {
        Some((seq!["a"@, "b"@], "d_xor"@))
    } else if kind == "nand_gate"@ {
        Some((seq!["a"@, "b"@], "d_nand"@))
    } else if kind == "nor_gate"@ {
        Some((seq!["a"@, "b"@], "d_nor"@))
    } else if kind == "xnor_gate"@ {
        Some((seq!["a"@, "b"@], "d_xnor"@))
    } else {
        None
    }
}

/// The inputs, the output and the model of a gate.
pub fn gate_contract(kind: &str) -> (r: Result<
    (Vec<String>, &'static str, &'static str),
    EngineError,
>)
    ensures
        match (r, gate_terms(kind@)) {
            (Ok((pins, output, model)), Some((names, name))) => texts(pins@) == names && output@
                == "out"@ && model@ == name && pins@.len() > 0,
            (Err(e), None) => e@ == fault(
                "xspice_unsupported_gate"@,
                "unsupported XSPICE gate kind `"@ + kind@ + "`"@,
            ),
            _ => false,
        },
{
    let model = if text_eq(kind, "buffer") {
        "d_buffer"
    } else if text_eq(kind, "not_gate") {
        "d_inverter"
    } else if text_eq(kind, "and_gate") {
        "d_and"
    } else if text_eq(kind, "or_gate") {
        "d_or"
    } else if text_eq(kind, "xor_gate") {
        "d_xor"
    } else if text_eq(kind, "nand_gate") {
        "d_nand"
    } else if text_eq(kind, "nor_gate") {
        "d_nor"
    } else if text_eq(kind, "xnor_gate") {
        "d_xnor"
    } else {
        return Err(
            fail(
                "xspice_unsupported_gate",
                cat3("unsupported XSPICE gate kind `", kind, "`"),
            ),
        );
    };
    let pins = if text_eq(kind, "buffer") || text_eq(kind, "not_gate") {
        text_list1("in")
    } else {
        text_list2("a", "b")
    };
    assert(texts(pins@).len() == pins@.len());
    Ok((pins, "out", model))
}

/// A delay that the event engine takes.
pub open spec fn floored_delay(requested: Real) -> Real {
    if requested.less(Real { bits: XSPICE_MIN_DELAY_BITS }) {
        Real { bits: XSPICE_MIN_DELAY_BITS }
    } else {
        requested
    }
}

pub fn floor_delay(requested: Real) -> (r: (Real, bool))
    ensures
        r.0 == floored_delay(requested),
        r.1 == requested.less(Real { bits: XSPICE_MIN_DELAY_BITS }),
{
    if requested.lt(Real { bits: XSPICE_MIN_DELAY_BITS }) {
        (Real { bits: XSPICE_MIN_DELAY_BITS }, true)
    } else {
        (requested, false)
    }
}

/// A delay is never below what the event engine takes, and otherwise as it was
/// asked for.
pub proof fn delay_floor_holds(requested: Real)
    requires
        requested.finite(),
    ensures
        !floored_delay(requested).less(Real { bits: XSPICE_MIN_DELAY_BITS }),
        !requested.less(Real { bits: XSPICE_MIN_DELAY_BITS }) ==> floored_delay(requested)
            == requested,
{
}

/// The delay that a component asks for.
pub open spec fn asked_delay(component: Component) -> Result<Real, Fault> {
    match delay_seconds(xspice_code(), component, "delay"@) {
        Err(f) => Err(f),
        Ok(Some(x)) => Ok(x),
        Ok(None) => Ok(Real { bits: 0 }),
    }
}

fn requested_delay(component: &Component) -> (r: Result<Real, EngineError>)
    ensures
        same(r, asked_delay(*component)),
{
    match optional_non_negative_seconds("xspice_component_invalid", component, "delay") {
        Err(e) => Err(e),
        Ok(Some(x)) => Ok(x),
        Ok(None) => Ok(Real { bits: 0 }),
    }
}

/// The inputs of a gate in its line.
pub open spec fn input_expression(nodes: Seq<Seq<char>>) -> Seq<char> {
    if nodes.len() == 1 {
        nodes[0]
    } else {
        "["@ + join_of(nodes, " "@) + "]"@
    }
}

/// What a gate adds; the tag tells netlists apart.
pub open spec fn gate_addition(
    component: Component,
    index: int,
    tag: Seq<char>,
    mesh: Mesh,
    pins: Seq<Seq<char>>,
    model: Seq<char>,
) -> Result<Addition, Fault> {
    match input_nodes(mesh, component, pins) {
        Err(f) => Err(f),
        Ok(inputs) => match digital_node(mesh, component, "out"@, PinDirection::Output) {
            Err(f) => Err(f),
            Ok(output) => match asked_delay(component) {
                Err(f) => Err(f),
                Ok(delay) => {
                    let name = "x"@ + tag + "g"@ + decimal(index as nat);
                    Ok(
                        device_addition(
                            letters(
                                "a"@ + tag + "g"@ + decimal(index as nat) + " "@
                                    + input_expression(inputs) + " "@ + output + " "@ + name,
                            ),
                            letters(".model "@ + name + " "@ + model + "(rise_delay="@) + figure(
                                floored_delay(delay),
                            ) + letters(" fall_delay="@) + figure(floored_delay(delay)) + letters(
                                ")"@,
                            ),
                            delay.less(Real { bits: XSPICE_MIN_DELAY_BITS }),
                        ),
                    )
                },
            },
        },
    }
}

fn compile_gate(component: &Component, index: usize, tag: &str, grid: &Grid) -> (r: Result<
    Fragment,
    EngineError,
>)
    requires
        gate_terms(component.kind@) is Some,
    ensures
        agrees(
            r,
            gate_addition(
                *component,
                index as int,
                tag@,
                grid@,
                (gate_terms(component.kind@)->0).0,
                (gate_terms(component.kind@)->0).1,
            ),
        ),
{
    let (pins, output_pin, model) = match gate_contract(component.kind.as_str()) {
        Err(e) => {
            return Err(e);
        },
        Ok(terms) => terms,
    };
    let inputs = match require_inputs(component, &pins, grid) {
        Err(e) => {
            return Err(e);
        },
        Ok(inputs) => inputs,
    };
    let output = match require_node(component, output_pin, PinDirection::Output, grid) {
        Err(e) => {
            return Err(e);
        },
        Ok(output) => output,
    };
    let requested = match requested_delay(component) {
        Err(e) => {
            return Err(e);
        },
        Ok(delay) => delay,
    };
    let (delay, floored) = floor_delay(requested);
    let number = decimal_text(index as u64);
    let name = cat4("x", tag, "g", number.as_str());
    let shown = if inputs.len() == 1 {
        assert(texts(inputs@)[0] == inputs@[0]@);
        inputs[0].clone()
    } else {
        cat3("[", join_texts(&inputs, " ").as_str(), "]")
    };
    assert(texts(inputs@).len() == inputs@.len());
    assert(shown@ == input_expression(texts(inputs@)));
    let instance = Draft::of(
        crate::text::cat9(
            "a",
            tag,
            "g",
            number.as_str(),
            " ",
            shown.as_str(),
            " ",
            output.as_str(),
            " ",
        ).concat(name.as_str()).as_str(),
    );
    let mut line = Draft::of(cat5(".model ", name.as_str(), " ", model, "(rise_delay=").as_str());
    line.number(delay);
    line.text(" fall_delay=");
    line.number(delay);
    line.text(")");
    Ok(device_fragment(instance, line, floored))
}

/// What a tri-state buffer adds.
pub open spec fn tri_state_addition(
    component: Component,
    index: int,
    tag: Seq<char>,
    mesh: Mesh,
) -> Result<Addition, Fault> {
    let failure = match pin_failure(xspice_code(), component, "in"@, PinDirection::Input) {
        Some(f) => Some(f),
        None => match pin_failure(xspice_code(), component, "enable"@, PinDirection::Input) {
            Some(f) => Some(f),
            None => pin_failure(xspice_code(), component, "out"@, PinDirection::Output),
        },
    };
    match failure {
        Some(f) => Err(f),
        None => match joined_node(mesh, component, "in"@) {
            Err(f) => Err(f),
            Ok(input) => match joined_node(mesh, component, "enable"@) {
                Err(f) => Err(f),
                Ok(enable) => match joined_node(mesh, component, "out"@) {
                    Err(f) => Err(f),
                    Ok(output) => match asked_delay(component) {
                        Err(f) => Err(f),
                        Ok(delay) => {
                            let name = "x"@ + tag + "t"@ + decimal(index as nat);
                            Ok(
                                device_addition(
                                    letters(
                                        "a"@ + tag + "t"@ + decimal(index as nat) + " "@ + input
                                            + " "@ + enable + " "@ + output + " "@ + name,
                                    ),
                                    letters(".model "@ + name + " d_tristate(delay="@) + figure(
                                        floored_delay(delay),
                                    ) + letters(")"@),
                                    delay.less(Real { bits: XSPICE_MIN_DELAY_BITS }),
                                ),
                            )
                        },
                    },
                },
            },
        },
    }
}

fn compile_tri_state(component: &Component, index: usize, tag: &str, grid: &Grid) -> (r: Result<
    Fragment,
    EngineError,
>)
    ensures
        agrees(r, tri_state_addition(*component, index as int, tag@, grid@)),
{
    match require_pin("xspice_component_invalid", component, "in", PinDirection::Input) {
        Err(e) => {
            return Err(e);
        },
        Ok(_) => {},
    }
    match require_pin("xspice_component_invalid", component, "enable", PinDirection::Input) {
        Err(e) => {
            return Err(e);
        },
        Ok(_) => {},
    }
    match require_pin("xspice_component_invalid", component, "out", PinDirection::Output) {
        Err(e) => {
            return Err(e);
        },
        Ok(_) => {},
    }
    let input = match connected_node(component, "in", grid) {
        Err(e) => {
            return Err(e);
        },
        Ok(node) => node,
    };
    let enable = match connected_node(component, "enable", grid) {
        Err(e) => {
            return Err(e);
        },
        Ok(node) => node,
    };
    let output = match connected_node(component, "out", grid) {
        Err(e) => {
            return Err(e);
        },
        Ok(node) => node,
    };
    let requested = match requested_delay(component) {
        Err(e) => {
            return Err(e);
        },
        Ok(delay) => delay,
    };
    let (delay, floored) = floor_delay(requested);
    let number = decimal_text(index as u64);
    let name = cat4("x", tag, "t", number.as_str());
    let instance = Draft::of(
        crate::text::cat9(
            "a",
            tag,
            "t",
            number.as_str(),
            " ",
            input.as_str(),
            " ",
            enable.as_str(),
            " ",
        ).concat(output.as_str()).concat(" ").concat(name.as_str()).as_str(),
    );
    let mut line = Draft::of(cat3(".model ", name.as_str(), " d_tristate(delay=").as_str());
    line.number(delay);
    line.text(")");
    Ok(device_fragment(instance, line, floored))
}

/// The failure of a component that asks for another than the rising edge.
pub open spec fn edge_failure(component: Component) -> Option<Fault> {
    match parameter_of(component.parameters@, "edge"@) {
        Some(ParameterValue::Text(edge)) => {
            let word = lowercase(trim(edge@));
            if word == "rising"@ || word == "positive"@ || word == "pos"@ {
                None
            } else {
                Some(
                    fault(
                        "xspice_unsupported_clock_edge"@,
                        "component `"@ + component.id@ + "` requests `"@ + edge@
                            + "` clocking but the canonical XSPICE sequential models are rising-edge triggered"@,
                    ),
                )
            }
        },
        _ => None,
    }
}

fn check_edge(component: &Component) -> (r: Result<(), EngineError>)
    ensures
        passes(r, edge_failure(*component)),
{
    match component.parameters.get("edge") {
        Some(ParameterValue::Text(edge)) => {
            let word = lowercase_text(trim_text(edge.as_str()).as_str());
            if text_eq(word.as_str(), "rising") || text_eq(word.as_str(), "positive") || text_eq(
                word.as_str(),
                "pos",
            ) {
                Ok(())
            } else {
                Err(
                    fail(
                        "xspice_unsupported_clock_edge",
                        cat5(
                            "component `",
                            component.id.as_str(),
                            "` requests `",
                            edge.as_str(),
                            "` clocking but the canonical XSPICE sequential models are rising-edge triggered",
                        ),
                    ),
                )
            }
        },
        _ => Ok(()),
    }
}

/// The leading inputs and the model of a sequential component.
pub open spec fn sequential_terms(kind: Seq<char>) -> Option<(Seq<Seq<char>>, Seq<char>)> {
    if kind == "d_flip_flop"@ {
        Some((seq!["d"@, "clk"@], "d_dff"@))
    } else if kind == "jk_flip_flop"@ {
        Some((seq!["j"@, "k"@, "clk"@], "d_jkff"@))
    } else if kind == "t_flip_flop"@ {
        Some((seq!["t"@, "clk"@], "d_jkff"@))
    } else if kind == "sr_flip_flop"@ {
        Some((seq!["s"@, "r"@, "clk"@], "d_srff"@))
    } else if kind == "d_latch"@ {
        Some((seq!["d"@, "enable"@], "d_dlatch"@))
    } else {
        None
    }
}

/// The leading nodes in the line of a sequential component: a toggle drives both
/// inputs of a JK flip-flop.
pub open spec fn leading_nodes(kind: Seq<char>, inputs: Seq<Seq<char>>) -> Seq<Seq<char>> {
    if kind == "t_flip_flop"@ {
        seq![inputs[0]] + inputs
    } else {
        inputs
    }
}

/// The digit of an initial level.
pub open spec fn initial_digit(value: LogicValue) -> nat {
    match value {
        LogicValue::Zero => 0,
        LogicValue::One => 1,
        _ => 2,
    }
}

/// The model of a sequential component.
pub open spec fn sequential_model(
    kind: Seq<char>,
    name: Seq<char>,
    model: Seq<char>,
    delay: Real,
    initial: LogicValue,
) -> Seq<Sign> {
    let least = Real { bits: XSPICE_MIN_DELAY_BITS };
    let first = if kind == "d_latch"@ {
        letters(".model "@ + name + " "@ + model + "(data_delay="@) + figure(delay) + letters(
            " enable_delay="@,
        ) + figure(delay)
    } else {
        letters(".model "@ + name + " "@ + model + "(clk_delay="@) + figure(delay)
    };
    first + letters(" set_delay="@) + figure(delay) + letters(" reset_delay="@) + figure(delay)
        + letters(" ic="@ + decimal(initial_digit(initial)) + " rise_delay="@) + figure(least)
        + letters(" fall_delay="@) + figure(least) + letters(")"@)
}

/// The node of one of the pins that every sequential component has.
pub open spec fn control_nodes(mesh: Mesh, component: Component) -> Result<
    (Seq<char>, Seq<char>, Seq<char>, Seq<char>),
    Fault,
> {
    match digital_node(mesh, component, "q"@, PinDirection::Output) {
        Err(f) => Err(f),
        Ok(q) => match digital_node(mesh, component, "set"@, PinDirection::Input) {
            Err(f) => Err(f),
            Ok(set) => match digital_node(mesh, component, "reset"@, PinDirection::Input) {
                Err(f) => Err(f),
                Ok(reset) => match digital_node(mesh, component, "nq"@, PinDirection::Output) {
                    Err(f) => Err(f),
                    Ok(nq) => Ok((q, set, reset, nq)),
                },
            },
        },
    }
}

/// What a sequential component adds.
pub open spec fn sequential_addition(
    component: Component,
    number: nat,
    mesh: Mesh,
    pins: Seq<Seq<char>>,
    model: Seq<char>,
) -> Result<Addition, Fault> {
    match edge_failure(component) {
        Some(f) => Err(f),
        None => match asked_delay(component) {
            Err(f) => Err(f),
            Ok(delay) => match logic_of(xspice_code(), component, "initial"@) {
                Err(f) => Err(f),
                Ok(initial) => match input_nodes(mesh, component, pins) {
                    Err(f) => Err(f),
                    Ok(inputs) => match control_nodes(mesh, component) {
                        Err(f) => Err(f),
                        Ok((q, set, reset, nq)) => {
                            let name = "xs"@ + decimal(number);
                            let level = match initial {
                                Some(level) => level,
                                None => LogicValue::X,
                            };
                            Ok(
                                device_addition(
                                    letters(
                                        "as"@ + decimal(number) + " "@ + join_of(
                                            leading_nodes(component.kind@, inputs),
                                            " "@,
                                        ) + " "@ + set + " "@ + reset + " "@ + q + " "@ + nq
                                            + " "@ + name,
                                    ),
                                    sequential_model(
                                        component.kind@,
                                        name,
                                        model,
                                        floored_delay(delay),
                                        level,
                                    ),
                                    delay.less(Real { bits: XSPICE_MIN_DELAY_BITS }),
                                ),
                            )
                        },
                    },
                },
            },
        },
    }
}

fn write_sequential_model(kind: &str, name: &str, model: &str, delay: Real, initial: LogicValue) -> (r:
    Draft)
    ensures
        r@ == sequential_model(kind@, name@, model@, delay, initial),
{
    let least = Real { bits: XSPICE_MIN_DELAY_BITS };
    let digit: u64 = match initial {
        LogicValue::Zero => 0,
        LogicValue::One => 1,
        _ => 2,
    };
    let mut line = if text_eq(kind, "d_latch") {
        let mut line = Draft::of(cat5(".model ", name, " ", model, "(data_delay=").as_str());
        line.number(delay);
        line.text(" enable_delay=");
        line
    } else {
        Draft::of(cat5(".model ", name, " ", model, "(clk_delay=").as_str())
    };
    line.number(delay);
    line.text(" set_delay=");
    line.number(delay);
    line.text(" reset_delay=");
    line.number(delay);
    line.text(cat3(" ic=", decimal_text(digit).as_str(), " rise_delay=").as_str());
    line.number(least);
    line.text(" fall_delay=");
    line.number(least);
    line.text(")");
    line
}

fn sequential_contract(kind: &str) -> (r: (Vec<String>, &'static str))
    requires
        sequential_terms(kind@) is Some,
    ensures
        texts(r.0@) == (sequential_terms(kind@)->0).0,
        r.1@ == (sequential_terms(kind@)->0).1,
        r.0@.len() > 0,
{
    let (pins, model) = if text_eq(kind, "d_flip_flop") {
        (text_list2("d", "clk"), "d_dff")
    } else if text_eq(kind, "jk_flip_flop") {
        (text_list3("j", "k", "clk"), "d_jkff")
    } else if text_eq(kind, "t_flip_flop") {
        (text_list2("t", "clk"), "d_jkff")
    } else if text_eq(kind, "sr_flip_flop") {
        (text_list3("s", "r", "clk"), "d_srff")
    } else {
        (text_list2("d", "enable"), "d_dlatch")
    };
    assert(texts(pins@).len() == pins@.len());
    (pins, model)
}

fn require_controls(component: &Component, grid: &Grid) -> (r: Result<
    (String, String, String, String),
    EngineError,
>)
    ensures
        match (r, control_nodes(grid@, *component)) {
            (Ok((a, b, c, d)), Ok((w, x, y, z))) => a@ == w && b@ == x && c@ == y && d@ == z,
            (Err(e), Err(f)) => e@ == f,
            _ => false,
        },
{
    let q = match require_node(component, "q", PinDirection::Output, grid) {
        Err(e) => {
            return Err(e);
        },
        Ok(node) => node,
    };
    let set = match require_node(component, "set", PinDirection::Input, grid) {
        Err(e) => {
            return Err(e);
        },
        Ok(node) => node,
    };
    let reset = match require_node(component, "reset", PinDirection::Input, grid) {
        Err(e) => {
            return Err(e);
        },
        Ok(node) => node,
    };
    match require_node(component, "nq", PinDirection::Output, grid) {
        Err(e) => Err(e),
        Ok(nq) => Ok((q, set, reset, nq)),
    }
}

/// What a latch or flip-flop adds.
pub fn compile_sequential_xspice(component: &Component, number: u64, grid: &Grid) -> (r: Result<
    Fragment,
    EngineError,
>)
    requires
        sequential_terms(component.kind@) is Some,
    ensures
        agrees(
            r,
            sequential_addition(
                *component,
                number as nat,
                grid@,
                (sequential_terms(component.kind@)->0).0,
                (sequential_terms(component.kind@)->0).1,
            ),
        ),
{
    match check_edge(component) {
        Err(e) => {
            return Err(e);
        },
        Ok(_) => {},
    }
    let requested = match requested_delay(component) {
        Err(e) => {
            return Err(e);
        },
        Ok(delay) => delay,
    };
    let (delay, floored) = floor_delay(requested);
    let initial = match optional_logic_value("xspice_component_invalid", component, "initial") {
        Err(e) => {
            return Err(e);
        },
        Ok(Some(level)) => level,
        Ok(None) => LogicValue::X,
    };
    let kind = component.kind.as_str();
    let (pins, model) = sequential_contract(kind);
    let inputs = match require_inputs(component, &pins, grid) {
        Err(e) => {
            return Err(e);
        },
        Ok(inputs) => inputs,
    };
    let (q, set, reset, nq) = match require_controls(component, grid) {
        Err(e) => {
            return Err(e);
        },
        Ok(nodes) => nodes,
    };
    let digits = decimal_text(number);
    let name = cat2("xs", digits.as_str());
    let leading = lead(kind, &inputs);
    let instance = Draft::of(
        crate::text::cat9(
            "as",
            digits.as_str(),
            " ",
            join_texts(&leading, " ").as_str(),
            " ",
            set.as_str(),
            " ",
            reset.as_str(),
            " ",
        ).concat(q.as_str()).concat(" ").concat(nq.as_str()).concat(" ").concat(
            name.as_str(),
        ).as_str(),
    );
    let line = write_sequential_model(kind, name.as_str(), model, delay, initial);
    Ok(device_fragment(instance, line, floored))
}

fn lead(kind: &str, inputs: &Vec<String>) -> (r: Vec<String>)
    requires
        inputs@.len() > 0,
    ensures
        texts(r@) == leading_nodes(kind@, texts(inputs@)),
{
    let ghost all = texts(inputs@);
    let mut out: Vec<String> = Vec::new();
    assert(all[0] == inputs@[0]@);
    if text_eq(kind, "t_flip_flop") {
        out.push(inputs[0].clone());
        assert(texts(out@) =~= seq![all[0]]);
    }
    let ghost front = texts(out@);
    let mut i: usize = 0;
    assert(front + all.take(0) =~= front);
    while i < inputs.len()
        invariant
            i <= inputs@.len(),
            all == texts(inputs@),
            texts(out@) == front + all.take(i as int),
        decreases inputs@.len() - i,
    {
        let ghost before = texts(out@);
        out.push(inputs[i].clone());
        assert(all[i as int] == inputs@[i as int]@);
        assert(texts(out@) =~= before.push(all[i as int]));
        assert(texts(out@) =~= front + all.take(i + 1));
        i = i + 1;
    }
    assert(all.take(i as int) =~= all);
    assert(Seq::<Seq<char>>::empty() + all =~= all);
    out
}

/// The period of a clock, by the reader of the engine.
pub open spec fn period_of(component: Component, mixed: bool) -> Result<Real, Fault> {
    if mixed {
        let code = "mixed_signal_component_invalid"@;
        match needed_quantity(code, component, "period"@, Unit::Second) {
            Err(f) => Err(f),
            Ok(x) => if x.at_most(Real { bits: 0 }) {
                Err(
                    about(
                        code,
                        component,
                        "parameter `"@,
                        "period"@,
                        "` must be greater than zero"@,
                    ),
                )
            } else {
                Ok(x)
            },
        }
    } else {
        positive_seconds(xspice_code(), component, "period"@)
    }
}

fn required_period(component: &Component, mixed: bool) -> (r: Result<Real, EngineError>)
    ensures
        same(r, period_of(*component, mixed)),
{
    if mixed {
        let code = "mixed_signal_component_invalid";
        match required_quantity(code, component, "period", Unit::Second) {
            Err(e) => Err(e),
            Ok(x) => {
                if x.le(Real { bits: 0 }) {
                    Err(
                        error_about(
                            code,
                            component,
                            "parameter `",
                            "period",
                            "` must be greater than zero",
                        ),
                    )
                } else {
                    Ok(x)
                }
            },
        }
    } else {
        required_positive_seconds("xspice_component_invalid", component, "period")
    }
}

/// What a clock adds.
pub open spec fn clock_addition(component: Component, stop: Real, mesh: Mesh, mixed: bool) -> Result<
    Addition,
    Fault,
> {
    match digital_node(mesh, component, "out"@, PinDirection::Output) {
        Err(f) => Err(f),
        Ok(node) => match period_of(component, mixed) {
            Err(f) => Err(f),
            Ok(period) => match duty_of(
                xspice_code(),
                component,
                "parameter `duty_cycle` must be dimensionless"@,
                "parameter `duty_cycle` must be finite and strictly between zero and one"@,
            ) {
                Err(f) => Err(f),
                Ok(duty) => match logic_of(xspice_code(), component, "initial"@) {
                    Err(f) => Err(f),
                    Ok(initial) => match clock_levels(
                        stop,
                        period,
                        duty,
                        match initial {
                            Some(level) => level,
                            None => LogicValue::Zero,
                        },
                    ) {
                        Err(f) => Err(f),
                        Ok(events) => Ok(source_addition(node, events)),
                    },
                },
            },
        },
    }
}

fn compile_clock(component: &Component, stop: Real, grid: &Grid, mixed: bool) -> (r: Result<
    Fragment,
    EngineError,
>)
    ensures
        agrees(r, clock_addition(*component, stop, grid@, mixed)),
        r matches Ok(f) ==> started_feeds(f@.sources),
{
    let node = match require_node(component, "out", PinDirection::Output, grid) {
        Err(e) => {
            return Err(e);
        },
        Ok(node) => node,
    };
    let period = match required_period(component, mixed) {
        Err(e) => {
            return Err(e);
        },
        Ok(period) => period,
    };
    let duty = match duty_cycle(
        "xspice_component_invalid",
        component,
        "parameter `duty_cycle` must be dimensionless",
        "parameter `duty_cycle` must be finite and strictly between zero and one",
    ) {
        Err(e) => {
            return Err(e);
        },
        Ok(duty) => duty,
    };
    let initial = match optional_logic_value("xspice_component_invalid", component, "initial") {
        Err(e) => {
            return Err(e);
        },
        Ok(Some(level)) => level,
        Ok(None) => LogicValue::Zero,
    };
    match clock_events(stop, period, duty, initial) {
        Err(e) => Err(e),
        Ok(events) => Ok(source_fragment(node, events)),
    }
}

/// What a constant input adds.
pub open spec fn input_addition(component: Component, mesh: Mesh) -> Result<Addition, Fault> {
    match digital_node(mesh, component, "out"@, PinDirection::Output) {
        Err(f) => Err(f),
        Ok(node) => match needed_logic(xspice_code(), component, "value"@) {
            Err(f) => Err(f),
            Ok(level) => Ok(source_addition(node, seq![(Real { bits: 0 }, level)])),
        },
    }
}

fn compile_input(component: &Component, grid: &Grid) -> (r: Result<Fragment, EngineError>)
    ensures
        agrees(r, input_addition(*component, grid@)),
        r matches Ok(f) ==> started_feeds(f@.sources),
{
    let node = match require_node(component, "out", PinDirection::Output, grid) {
        Err(e) => {
            return Err(e);
        },
        Ok(node) => node,
    };
    let level = match required_logic_value("xspice_component_invalid", component, "value") {
        Err(e) => {
            return Err(e);
        },
        Ok(level) => level,
    };
    let mut events: Vec<(Real, LogicValue)> = Vec::new();
    events.push((Real { bits: 0 }, level));
    assert(events@ =~= seq![(Real { bits: 0 }, level)]);
    Ok(source_fragment(node, events))
}

/// What a component of a kind that the event engine has adds; none for another
/// kind.
pub open spec fn digital_addition(
    component: Component,
    index: int,
    stop: Real,
    mesh: Mesh,
    mixed: bool,
) -> Option<Result<Addition, Fault>> {
    let kind = component.kind@;
    let tag = if mixed {
        "m"@
    } else {
        ""@
    };
    if kind == "logic_input"@ {
        Some(input_addition(component, mesh))
    } else if kind == "digital_clock"@ {
        Some(clock_addition(component, stop, mesh, mixed))
    } else if kind == "logic_output"@ {
        Some(
            match digital_node(mesh, component, "in"@, PinDirection::Input) {
                Err(f) => Err(f),
                Ok(_) => Ok(no_addition()),
            },
        )
    } else if gate_terms(kind) is Some {
        let terms = gate_terms(kind)->0;
        Some(gate_addition(component, index, tag, mesh, terms.0, terms.1))
    } else if kind == "tri_state_buffer"@ {
        Some(tri_state_addition(component, index, tag, mesh))
    } else if sequential_terms(kind) is Some {
        let terms = sequential_terms(kind)->0;
        let number = if mixed {
            index + 10_000
        } else {
            index
        };
        Some(sequential_addition(component, number as nat, mesh, terms.0, terms.1))
    } else {
        None
    }
}

/// The addition of a component, seen through its view.
pub open spec fn adds(
    r: Option<Result<Fragment, EngineError>>,
    model: Option<Result<Addition, Fault>>,
) -> bool {
    match (r, model) {
        (Some(x), Some(y)) => agrees(x, y),
        (None, None) => true,
        _ => false,
    }
}

fn is_gate(kind: &str) -> (r: bool)
    ensures
        r == (gate_terms(kind@) is Some),
{
    gate_contract(kind).is_ok()
}

fn is_sequential(kind: &str) -> (r: bool)
    ensures
        r == (sequential_terms(kind@) is Some),
{
    text_eq(kind, "d_flip_flop") || text_eq(kind, "jk_flip_flop") || text_eq(kind, "t_flip_flop")
        || text_eq(kind, "sr_flip_flop") || text_eq(kind, "d_latch")
}

pub fn compile_digital(component: &Component, index: usize, stop: Real, grid: &Grid, mixed: bool) -> (r:
    Option<Result<Fragment, EngineError>>)
    requires
        mixed ==> index + 10_000 <= usize::MAX,
    ensures
        adds(r, digital_addition(*component, index as int, stop, grid@, mixed)),
        r matches Some(Ok(f)) ==> started_feeds(f@.sources),
{
    let kind = component.kind.as_str();
    let tag = if mixed {
        "m"
    } else {
        ""
    };
    if text_eq(kind, "logic_input") {
        return Some(compile_input(component, grid));
    }
    if text_eq(kind, "digital_clock") {
        return Some(compile_clock(component, stop, grid, mixed));
    }
    if text_eq(kind, "logic_output") {
        return Some(
            match require_node(component, "in", PinDirection::Input, grid) {
                Err(e) => Err(e),
                Ok(_) => Ok(empty_fragment()),
            },
        );
    }
    if is_gate(kind) {
        return Some(compile_gate(component, index, tag, grid));
    }
    if text_eq(kind, "tri_state_buffer") {
        return Some(compile_tri_state(component, index, tag, grid));
    }
    if is_sequential(kind) {
        let number: u64 = if mixed {
            index as u64 + 10_000
        } else {
            index as u64
        };
        return Some(compile_sequential_xspice(component, number, grid));
    }
    None
}

/// Two additions, one behind the other.
pub open spec fn merged(a: Addition, b: Addition) -> Addition {
    Addition {
        sources: a.sources + b.sources,
        instances: a.instances + b.instances,
        models: a.models + b.models,
        floored: a.floored || b.floored,
    }
}

/// Adds all of a fragment.
pub fn merge(into: &mut Fragment, other: Fragment)
    requires
        started_feeds(old(into)@.sources),
        started_feeds(other@.sources),
    ensures
        final(into)@ == merged(old(into)@, other@),
        started_feeds(final(into)@.sources),
{
    let ghost a = into@;
    let ghost b = other@;
    push_drafts(&mut into.instances, &other.instances);
    push_drafts(&mut into.models, &other.models);
    into.delay_floor_applied = into.delay_floor_applied || other.delay_floor_applied;
    let mut sources = other.sources;
    let ghost front = feeds(into.sources@);
    into.sources.append(&mut sources);
    assert(feeds(into.sources@) =~= front + b.sources);
    assert(into@ == merged(a, b));
}

/// What the first `n` components add.
pub open spec fn circuit_addition(
    components: Seq<Component>,
    stop: Real,
    mesh: Mesh,
    n: int,
) -> Result<Addition, Fault>
    decreases n,
{
    if n <= 0 {
        Ok(no_addition())
    } else {
        match circuit_addition(components, stop, mesh, n - 1) {
            Err(f) => Err(f),
            Ok(before) => match digital_addition(components[n - 1], n - 1, stop, mesh, false) {
                None => Err(
                    fault(
                        "xspice_unsupported_component"@,
                        "component `"@ + components[n - 1].id@
                            + "` has unsupported XSPICE digital kind `"@ + components[n - 1].kind@
                            + "`"@,
                    ),
                ),
                Some(Err(f)) => Err(f),
                Some(Ok(addition)) => Ok(merged(before, addition)),
            },
        }
    }
}

proof fn lemma_circuit_addition_stops(
    components: Seq<Component>,
    stop: Real,
    mesh: Mesh,
    n: int,
    m: int,
)
    requires
        0 <= m <= n,
        circuit_addition(components, stop, mesh, m) is Err,
    ensures
        circuit_addition(components, stop, mesh, n) == circuit_addition(components, stop, mesh, m),
    decreases n - m,
{
    if m < n {
        lemma_circuit_addition_stops(components, stop, mesh, n, m + 1);
    }
}

fn compile_circuit(components: &Vec<Component>, stop: Real, grid: &Grid) -> (r: Result<
    Fragment,
    EngineError,
>)
    ensures
        agrees(r, circuit_addition(components@, stop, grid@, components@.len() as int)),
        r matches Ok(f) ==> started_feeds(f@.sources),
{
    let mut all = empty_fragment();
    let mut i: usize = 0;
    while i < components.len()
        invariant
            i <= components@.len(),
            circuit_addition(components@, stop, grid@, i as int) == Ok::<Addition, Fault>(all@),
            started_feeds(all@.sources),
        decreases components@.len() - i,
    {
        match compile_digital(&components[i], i, stop, grid, false) {
            None => {
                proof {
                    lemma_circuit_addition_stops(
                        components@,
                        stop,
                        grid@,
                        components@.len() as int,
                        i + 1,
                    );
                }
                return Err(
                    fail(
                        "xspice_unsupported_component",
                        cat5(
                            "component `",
                            components[i].id.as_str(),
                            "` has unsupported XSPICE digital kind `",
                            components[i].kind.as_str(),
                            "`",
                        ),
                    ),
                );
            },
            Some(Err(e)) => {
                proof {
                    lemma_circuit_addition_stops(
                        components@,
                        stop,
                        grid@,
                        components@.len() as int,
                        i + 1,
                    );
                }
                return Err(e);
            },
            Some(Ok(fragment)) => {
                merge(&mut all, fragment);
            },
        }
        i = i + 1;
    }
    Ok(all)
}

/// A signal and the event node that shows it.
#[derive(Clone, Debug, PartialEq, Eq)]
pub struct EventProbe {
    pub signal: String,
    pub node: String,
}

impl View for EventProbe {
    type V = (Seq<char>, Seq<char>);

    open spec fn view(&self) -> (Seq<char>, Seq<char>) {
        (self.signal@, self.node@)
    }
}

pub open spec fn event_probes(v: Seq<EventProbe>) -> Seq<(Seq<char>, Seq<char>)> {
    v.map_values(|p: EventProbe| p@)
}

/// The nodes of the first `n` probes in dictionary order, each once.
pub open spec fn probed_nodes(probes: Seq<(Seq<char>, Seq<char>)>, n: int) -> Seq<Seq<char>>
    decreases n,
{
    if n <= 0 {
        Seq::empty()
    } else {
        with_name(probed_nodes(probes, n - 1), probes[n - 1].1)
    }
}

pub fn sorted_nodes(probes: &Vec<EventProbe>) -> (r: Vec<String>)
    ensures
        texts(r@) == probed_nodes(event_probes(probes@), probes@.len() as int),
{
    let ghost all = event_probes(probes@);
    let mut names: Vec<String> = Vec::new();
    let mut i: usize = 0;
    assert(texts(names@) =~= Seq::<Seq<char>>::empty());
    while i < probes.len()
        invariant
            i <= probes@.len(),
            all == event_probes(probes@),
            texts(names@) == probed_nodes(all, i as int),
        decreases probes@.len() - i,
    {
        assert(all[i as int] == probes@[i as int]@);
        insert_name(&mut names, &probes[i].node);
        i = i + 1;
    }
    names
}

/// The probe of a request on an event node.
pub open spec fn event_probe(mesh: Mesh, probe: Probe) -> Result<(Seq<char>, Seq<char>), Fault> {
    match net_at(mesh.wires, probe.endpoint.component@, probe.endpoint.pin@) {
        None => Err(loose_probe("xspice_unknown_probe"@, probe)),
        Some(net) => match node_at(mesh.nodes, net) {
            None => Err(
                fault(
                    "xspice_unknown_probe_net"@,
                    "probe references unknown net `"@ + net + "`"@,
                ),
            ),
            Some(node) => Ok((signal_name(probe, net), node)),
        },
    }
}

pub fn compile_probe(probe: &Probe, grid: &Grid) -> (r: Result<EventProbe, EngineError>)
    ensures
        agrees(r, event_probe(grid@, *probe)),
{
    let net = match grid.wiring.find(
        probe.endpoint.component.as_str(),
        probe.endpoint.pin.as_str(),
    ) {
        None => {
            return Err(loose_probe_error("xspice_unknown_probe", probe));
        },
        Some(net) => net,
    };
    match grid.nodes.find(net.as_str()) {
        None => Err(
            fail(
                "xspice_unknown_probe_net",
                cat3("probe references unknown net `", net.as_str(), "`"),
            ),
        ),
        Some(node) => Ok(
            EventProbe { signal: signal_text(probe, net.as_str()), node: node.clone() },
        ),
    }
}

/// The nodes of the nets, numbered from zero.
pub open spec fn event_nodes(nets: Seq<Net>) -> Seq<(Seq<char>, Seq<char>)> {
    Seq::new(nets.len(), |i: int| (nets[i].id@, "d"@ + decimal(i as nat)))
}

/// The probe of a net under its own name.
pub open spec fn net_event_probe(mesh: Mesh, net: Net) -> (Seq<char>, Seq<char>) {
    (
        "net:"@ + net.id@,
        match node_at(mesh.nodes, net.id@) {
            Some(node) => node,
            None => ""@,
        },
    )
}

/// The probes of a request: all nets where none are asked for.
pub open spec fn event_probes_of(request: SimulationRequest, mesh: Mesh) -> Result<
    Seq<(Seq<char>, Seq<char>)>,
    Fault,
> {
    if request.probes@.len() == 0 {
        Ok(
            Seq::new(
                request.circuit.nets@.len(),
                |i: int| net_event_probe(mesh, request.circuit.nets@[i]),
            ),
        )
    } else {
        collected(
            request.probes@.len() as int,
            |i: int| event_probe(mesh, request.probes@[i]),
        )
    }
}

pub fn compile_probes(request: &SimulationRequest, grid: &Grid) -> (r: Result<
    Vec<EventProbe>,
    EngineError,
>)
    ensures
        match (r, event_probes_of(*request, grid@)) {
            (Ok(v), Ok(s)) => event_probes(v@) == s,
            (Err(e), Err(f)) => e@ == f,
            _ => false,
        },
{
    let mut out: Vec<EventProbe> = Vec::new();
    let mut i: usize = 0;
    if request.probes.len() == 0 {
        let nets = &request.circuit.nets;
        let ghost all = Seq::new(nets@.len(), |i: int| net_event_probe(grid@, nets@[i]));
        while i < nets.len()
            invariant
                i <= nets@.len(),
                all == Seq::new(nets@.len(), |i: int| net_event_probe(grid@, nets@[i])),
                event_probes(out@) =~= all.take(i as int),
            decreases nets@.len() - i,
        {
            let node = match grid.nodes.find(nets[i].id.as_str()) {
                Some(node) => node.clone(),
                None => "".to_owned(),
            };
            let ghost before = event_probes(out@);
            out.push(EventProbe { signal: cat2("net:", nets[i].id.as_str()), node });
            assert(event_probes(out@) =~= before.push(all[i as int]));
            assert(all.take(i + 1) =~= all.take(i as int).push(all[i as int]));
            i = i + 1;
        }
        assert(event_probes(out@) =~= all);
        return Ok(out);
    }
    let ghost f = |i: int| event_probe(grid@, request.probes@[i]);
    assert(event_probes(out@) =~= Seq::<(Seq<char>, Seq<char>)>::empty());
    while i < request.probes.len()
        invariant
            i <= request.probes@.len(),
            request.probes@.len() > 0,
            f == (|i: int| event_probe(grid@, request.probes@[i])),
            collected(i as int, f) == Ok::<Seq<(Seq<char>, Seq<char>)>, Fault>(
                event_probes(out@),
            ),
        decreases request.probes@.len() - i,
    {
        match compile_probe(&request.probes[i], grid) {
            Err(e) => {
                assert(f(i as int) == Err::<(Seq<char>, Seq<char>), Fault>(e@));
                assert(collected(i + 1, f) == Err::<Seq<(Seq<char>, Seq<char>)>, Fault>(e@));
                proof {
                    lemma_collected_stops(request.probes@.len() as int, f, i + 1);
                }
                return Err(e);
            },
            Ok(probe) => {
                let ghost before = event_probes(out@);
                assert(f(i as int) == Ok::<(Seq<char>, Seq<char>), Fault>(probe@));
                out.push(probe);
                assert(event_probes(out@) =~= before.push(probe@));
            },
        }
        i = i + 1;
    }
    Ok(out)
}

/// The lines that connect the sources to their stimulus file.
pub open spec fn source_lines(sources: Seq<Feed>) -> Seq<Seq<Sign>> {
    if sources.len() == 0 {
        Seq::empty()
    } else {
        seq![
            letters("a_source ["@ + join_of(feed_nodes(sources), " "@) + "] xsource"@),
            letters(".model xsource d_source(input_file=\"source.txt\")"@),
        ]
    }
}

pub open spec fn feed_nodes(sources: Seq<Feed>) -> Seq<Seq<char>> {
    sources.map_values(|s: Feed| s.node)
}

pub fn push_source_lines(lines: &mut Vec<Draft>, sources: &Vec<SourceSpec>)
    ensures
        drafts(final(lines)@) == drafts(old(lines)@) + source_lines(feeds(sources@)),
{
    let ghost all = feed_nodes(feeds(sources@));
    let ghost start = drafts(lines@);
    if sources.len() > 0 {
        let mut nodes: Vec<String> = Vec::new();
        let mut i: usize = 0;
        while i < sources.len()
            invariant
                i <= sources@.len(),
                all == feed_nodes(feeds(sources@)),
                texts(nodes@) =~= all.take(i as int),
            decreases sources@.len() - i,
        {
            let ghost before = texts(nodes@);
            nodes.push(sources[i].node.clone());
            assert(all[i as int] == sources@[i as int].node@);
            assert(texts(nodes@) =~= before.push(all[i as int]));
            assert(all.take(i + 1) =~= all.take(i as int).push(all[i as int]));
            i = i + 1;
        }
        assert(texts(nodes@) =~= all);
        push_text(
            lines,
            cat3("a_source [", join_texts(&nodes, " ").as_str(), "] xsource").as_str(),
        );
        push_text(lines, ".model xsource d_source(input_file=\"source.txt\")");
    }
    assert(drafts(lines@) =~= start + source_lines(feeds(sources@)));
}

/// A thousandth of the stop time, but no finer than a femtosecond and no longer
/// than the stop time.
pub open spec fn step_of(stop: Real) -> Real {
    let thousandth = stop.quotient(Real { bits: THOUSAND_BITS });
    let fine = if thousandth.less(Real { bits: FEMTOSECOND_BITS }) {
        Real { bits: FEMTOSECOND_BITS }
    } else {
        thousandth
    };
    if stop.less(fine) {
        stop
    } else {
        fine
    }
}

pub const THOUSAND_BITS: u64 = 0x408f_4000_0000_0000;

pub const FEMTOSECOND_BITS: u64 = 0x3cd2_03af_9ee7_5616;

fn transient_step(stop: Real) -> (r: Real)
    requires
        stop.finite(),
    ensures
        r == step_of(stop),
{
    let thousandth = stop.over(Real { bits: THOUSAND_BITS });
    let least = Real { bits: FEMTOSECOND_BITS };
    let fine = if thousandth.lt(least) {
        least
    } else {
        thousandth
    };
    if stop.lt(fine) {
        stop
    } else {
        fine
    }
}

/// A netlist, its stimulus and its probes.
#[derive(Clone, Debug, PartialEq, Eq)]
pub struct CompiledXSpiceRequest {
    pub netlist: Draft,
    pub stimulus: Draft,
    pub probes: Vec<EventProbe>,
    pub delay_floor_applied: bool,
}

/// What a `CompiledXSpiceRequest` says.
pub struct EventNetlist {
    pub netlist: Seq<Sign>,
    pub stimulus: Seq<Sign>,
    pub probes: Seq<(Seq<char>, Seq<char>)>,
    pub floored: bool,
}

impl View for CompiledXSpiceRequest {
    type V = EventNetlist;

    open spec fn view(&self) -> EventNetlist {
        EventNetlist {
            netlist: self.netlist@,
            stimulus: self.stimulus@,
            probes: event_probes(self.probes@),
            floored: self.delay_floor_applied,
        }
    }
}

/// The lines that run a digital transient and write its events.
pub open spec fn event_control_lines(stop: Real, nodes: Seq<char>) -> Seq<Seq<Sign>> {
    seq![
        letters(".control"@),
        letters("set noaskquit"@),
        letters("set noacct"@),
        letters("set digital_delay_type=2"@),
        letters("esave all"@),
        letters("tran "@) + figure(step_of(stop)) + letters(" "@) + figure(stop),
        letters("eprvcd -t 1e-15 "@ + nodes + " > result.vcd"@),
        letters("quit"@),
        letters(".endc"@),
        letters(".end"@),
        letters(""@),
    ]
}

fn push_event_control_lines(lines: &mut Vec<Draft>, stop: Real, nodes: &str)
    requires
        stop.finite(),
    ensures
        drafts(final(lines)@) == drafts(old(lines)@) + event_control_lines(stop, nodes@),
{
    let ghost start = drafts(lines@);
    push_text(lines, ".control");
    push_text(lines, "set noaskquit");
    push_text(lines, "set noacct");
    push_text(lines, "set digital_delay_type=2");
    push_text(lines, "esave all");
    let mut command = Draft::of("tran ");
    command.number(transient_step(stop));
    command.text(" ");
    command.number(stop);
    let ghost before = drafts(lines@);
    lines.push(command);
    assert(drafts(lines@) =~= before.push(command@));
    push_text(lines, cat3("eprvcd -t 1e-15 ", nodes, " > result.vcd").as_str());
    push_text(lines, "quit");
    push_text(lines, ".endc");
    push_text(lines, ".end");
    push_text(lines, "");
    assert(drafts(lines@) =~= start + event_control_lines(stop, nodes@));
}

/// The netlist of a digital transient with its additions and probes.
pub open spec fn event_netlist(
    addition: Addition,
    probes: Seq<(Seq<char>, Seq<char>)>,
    stop: Real,
) -> Seq<Sign> {
    stack_of(
        seq![
            letters("* OntologyX Sim Core generated XSPICE digital netlist"@),
            letters("Vdummy dummy 0 DC=0"@),
        ] + source_lines(addition.sources) + addition.instances + addition.models
            + event_control_lines(
            stop,
            join_of(probed_nodes(probes, probes.len() as int), " "@),
        ),
    )
}

/// The netlist of a request, its stimulus and its probes.
pub open spec fn event_compiled(request: SimulationRequest) -> Result<EventNetlist, Fault> {
    let nets = request.circuit.nets@;
    match request.analysis {
        Analysis::DigitalTransient { stop } => if !stop.finite() || stop.at_most(
            Real { bits: 0 },
        ) {
            Err(
                fault(
                    "xspice_invalid_analysis"@,
                    "digital transient stop time must be finite and greater than zero"@,
                ),
            )
        } else if nets.len() == 0 {
            Err(
                fault(
                    "xspice_no_nets"@,
                    "XSPICE digital simulation requires at least one net"@,
                ),
            )
        } else {
            let mesh = Mesh { wires: wires(nets), nodes: event_nodes(nets) };
            match clash("xspice_endpoint_on_multiple_nets"@, wires(nets)) {
                Some(f) => Err(f),
                None => match circuit_addition(
                    request.circuit.components@,
                    stop,
                    mesh,
                    request.circuit.components@.len() as int,
                ) {
                    Err(f) => Err(f),
                    Ok(addition) => match event_probes_of(request, mesh) {
                        Err(f) => Err(f),
                        Ok(probes) => match stimulus_of(addition.sources) {
                            Err(f) => Err(f),
                            Ok(stimulus) => Ok(
                                EventNetlist {
                                    netlist: event_netlist(addition, probes, stop),
                                    stimulus,
                                    probes,
                                    floored: addition.floored,
                                },
                            ),
                        },
                    },
                },
            }
        },
        _ => Err(
            fault(
                "xspice_unsupported_analysis"@,
                "the XSPICE engine only supports digital_transient analysis"@,
            ),
        ),
    }
}

fn name_event_nodes(nets: &Vec<Net>) -> (r: NodeMap)
    ensures
        r@ == event_nodes(nets@),
{
    let ghost all = event_nodes(nets@);
    let mut nodes = NodeMap { names: Vec::new() };
    let mut i: usize = 0;
    while i < nets.len()
        invariant
            i <= nets@.len(),
            all == event_nodes(nets@),
            nodes@ =~= all.take(i as int),
        decreases nets@.len() - i,
    {
        let ghost before = nodes@;
        nodes.names.push(
            NodeName {
                net: nets[i].id.0.clone(),
                node: cat2("d", decimal_text(i as u64).as_str()),
            },
        );
        assert(nodes@ =~= before.push(all[i as int]));
        assert(all.take(i + 1) =~= all.take(i as int).push(all[i as int]));
        i = i + 1;
    }
    assert(nodes@ =~= all);
    nodes
}

pub fn compile_request(request: &SimulationRequest) -> (r: Result<
    CompiledXSpiceRequest,
    EngineError,
>)
    ensures
        agrees(r, event_compiled(*request)),
{
    let stop = match &request.analysis {
        Analysis::DigitalTransient { stop } => *stop,
        _ => {
            return Err(
                EngineError::new(
                    "xspice_unsupported_analysis",
                    "the XSPICE engine only supports digital_transient analysis",
                ),
            );
        },
    };
    if !stop.is_finite() || stop.le(Real { bits: 0 }) {
        return Err(
            EngineError::new(
                "xspice_invalid_analysis",
                "digital transient stop time must be finite and greater than zero",
            ),
        );
    }
    if request.circuit.nets.len() == 0 {
        return Err(
            EngineError::new(
                "xspice_no_nets",
                "XSPICE digital simulation requires at least one net",
            ),
        );
    }
    let nodes = name_event_nodes(&request.circuit.nets);
    let wiring = match endpoint_net_map(&request.circuit, "xspice_endpoint_on_multiple_nets") {
        Err(e) => {
            return Err(e);
        },
        Ok(wiring) => wiring,
    };
    let grid = Grid { wiring, nodes };
    let all = match compile_circuit(&request.circuit.components, stop, &grid) {
        Err(e) => {
            return Err(e);
        },
        Ok(all) => all,
    };
    let probes = match compile_probes(request, &grid) {
        Err(e) => {
            return Err(e);
        },
        Ok(probes) => probes,
    };
    let stimulus = match compile_stimulus(&all.sources) {
        Err(e) => {
            return Err(e);
        },
        Ok(stimulus) => stimulus,
    };
    let mut lines: Vec<Draft> = Vec::new();
    assert(drafts(lines@) =~= Seq::<Seq<Sign>>::empty());
    push_text(&mut lines, "* OntologyX Sim Core generated XSPICE digital netlist");
    push_text(&mut lines, "Vdummy dummy 0 DC=0");
    assert(drafts(lines@) =~= seq![
        letters("* OntologyX Sim Core generated XSPICE digital netlist"@),
        letters("Vdummy dummy 0 DC=0"@),
    ]);
    push_source_lines(&mut lines, &all.sources);
    push_drafts(&mut lines, &all.instances);
    push_drafts(&mut lines, &all.models);
    let nodes = join_texts(&sorted_nodes(&probes), " ");
    push_event_control_lines(&mut lines, stop, nodes.as_str());
    assert(event_probes(probes@).len() == probes@.len());
    Ok(
        CompiledXSpiceRequest {
            netlist: stack(&lines),
            stimulus,
            probes,
            delay_floor_applied: all.delay_floor_applied,
        },
    )
}

/// A log that shows that the event models are missing.
pub open spec fn shows_failure(log: Seq<char>) -> bool {
    let lowered = lowercase(log);
    ||| includes(lowered, "unknown model type d_"@)
    ||| includes(lowered, "unknown device type"@)
    ||| includes(lowered, "d_source: source.txt file was not read successfully"@)
}

pub fn log_has_xspice_failure(log: &str) -> (r: bool)
    ensures
        r == shows_failure(log@),
{
    let lowered = lowercase_chars(&to_chars(log));
    chars_include(&lowered, "unknown model type d_") || chars_include(
        &lowered,
        "unknown device type",
    ) || chars_include(&lowered, "d_source: source.txt file was not read successfully")
}

} // verus!
