//! Digital programs: what the event engine makes of a circuit.
use crate::analysis::Analysis;
use crate::circuit::{parameter_of, Circuit, Component, Net, ParameterValue, PinDirection};
use crate::engine::{Probe, SimulationRequest};
use crate::fault::{
    collected, fail, fault, lemma_collected_stops, EngineError, Fault,
};
use crate::logic::{
    bits_of, fill_levels, number_bits, validate_width, width_failure,
};
use crate::number::{saturated, Real};
use crate::reading::{
    about, component_error, component_fault, delay_seconds, duty_cycle, duty_of, error_about,
    has_pin, logic_of, needed_logic, optional_logic_value, optional_non_negative_seconds,
    pin_failure, pin_present, positive_seconds, require_pin, required_logic_value,
    required_positive_seconds, same,
};
use crate::text::{
    cat2, cat5, concat_upto, decimal, decimal_text, lemma_before_irreflexive, lowercase,
    lowercase_text, text_before, text_eq, text_lt, texts, trim, trim_text,
};
use crate::waveform::LogicValue;
use crate::wiring::{clash, endpoint_net_map, net_at, net_wires, wires, Wire, Wiring};
use vstd::prelude::*;

verus! {

pub const DIGITAL_ENGINE_ID: &'static str = "digital";

pub const MAX_DIGITAL_EVENTS: usize = 1_000_000;

#[derive(Clone, Copy, Debug, PartialEq, Eq, Structural)]
pub enum GateKind {
    Buffer,
    Not,
    And,
    Or,
    Xor,
    Nand,
    Nor,
    Xnor,
}

#[derive(Clone, Copy, Debug, PartialEq, Eq, Structural)]
pub enum EdgeKind {
    Rising,
    Falling,
}

#[derive(Clone, Copy, Debug, PartialEq, Eq, Structural)]
pub enum DigitalPrimitive {
    Constant(LogicValue),
    Clock { period: Real, duty_cycle: Real, initial: LogicValue },
    Gate(GateKind),
    TriState,
    Mux2,
    Demux2,
    Decoder2To4,
    DLatch,
    SRLatch,
    DFlipFlop { edge: EdgeKind },
    JKFlipFlop { edge: EdgeKind },
    TFlipFlop { edge: EdgeKind },
    SRFlipFlop { edge: EdgeKind },
    Register { width: usize, edge: EdgeKind },
    Counter { width: usize, edge: EdgeKind },
    Sink,
}

impl DigitalPrimitive {
    /// A primitive that holds one level.
    pub open spec fn holds_level(self) -> bool {
        self is DLatch || self is SRLatch || self is DFlipFlop || self is JKFlipFlop
            || self is TFlipFlop || self is SRFlipFlop
    }

    /// How many levels a register or counter holds.
    pub open spec fn held_width(self) -> Option<usize> {
        match self {
            DigitalPrimitive::Register { width, .. } => Some(width),
            DigitalPrimitive::Counter { width, .. } => Some(width),
            _ => None,
        }
    }
}

/// A pin and the net that it is on, by the net's place among the nets.
#[derive(Clone, Debug, PartialEq, Eq)]
pub struct PinSlot {
    pub pin: String,
    pub slot: usize,
}

impl View for PinSlot {
    type V = (Seq<char>, int);

    open spec fn view(&self) -> (Seq<char>, int) {
        (self.pin@, self.slot as int)
    }
}

pub open spec fn slots_of(v: Seq<PinSlot>) -> Seq<(Seq<char>, int)> {
    v.map_values(|p: PinSlot| p@)
}

#[derive(Clone, Debug, PartialEq, Eq)]
pub struct CompiledDigitalComponent {
    pub primitive: DigitalPrimitive,
    pub inputs: Vec<PinSlot>,
    pub outputs: Vec<PinSlot>,
    pub delay: Real,
    pub initial_scalar: LogicValue,
    pub initial_vector: Vec<LogicValue>,
}

/// What a compiled component is.
pub struct Part {
    pub primitive: DigitalPrimitive,
    pub inputs: Seq<(Seq<char>, int)>,
    pub outputs: Seq<(Seq<char>, int)>,
    pub delay: Real,
    pub initial_scalar: LogicValue,
    pub initial_vector: Seq<LogicValue>,
}

impl View for CompiledDigitalComponent {
    type V = Part;

    open spec fn view(&self) -> Part {
        Part {
            primitive: self.primitive,
            inputs: slots_of(self.inputs@),
            outputs: slots_of(self.outputs@),
            delay: self.delay,
            initial_scalar: self.initial_scalar,
            initial_vector: self.initial_vector@,
        }
    }
}

#[derive(Clone, Debug, PartialEq, Eq)]
pub struct CompiledProbe {
    pub signal: String,
    pub slot: usize,
}

impl View for CompiledProbe {
    type V = (Seq<char>, int);

    open spec fn view(&self) -> (Seq<char>, int) {
        (self.signal@, self.slot as int)
    }
}

#[derive(Clone, Debug, PartialEq, Eq)]
pub struct DigitalProgram {
    pub components: Vec<CompiledDigitalComponent>,
    /// The names of the nets, in dictionary order.
    pub nets: Vec<String>,
    pub probes: Vec<CompiledProbe>,
}

/// What a program is.
pub struct Program {
    pub parts: Seq<Part>,
    pub nets: Seq<Seq<char>>,
    pub probes: Seq<(Seq<char>, int)>,
}

pub open spec fn parts_of(v: Seq<CompiledDigitalComponent>) -> Seq<Part> {
    v.map_values(|c: CompiledDigitalComponent| c@)
}

pub open spec fn probes_of(v: Seq<CompiledProbe>) -> Seq<(Seq<char>, int)> {
    v.map_values(|p: CompiledProbe| p@)
}

impl View for DigitalProgram {
    type V = Program;

    open spec fn view(&self) -> Program {
        Program {
            parts: parts_of(self.components@),
            nets: texts(self.nets@),
            probes: probes_of(self.probes@),
        }
    }
}

pub open spec fn code() -> Seq<char> {
    "digital_invalid_component"@
}

/// A list of names in dictionary order, with one more name in its place.
pub open spec fn with_name(names: Seq<Seq<char>>, name: Seq<char>) -> Seq<Seq<char>>
    decreases names.len(),
{
    if names.len() == 0 {
        seq![name]
    } else if names.last() == name {
        names
    } else if text_before(names.last(), name) {
        names.push(name)
    } else {
        with_name(names.drop_last(), name).push(names.last())
    }
}

/// The names of the first `n` nets in dictionary order, each once.
pub open spec fn net_names(nets: Seq<Net>, n: int) -> Seq<Seq<char>>
    decreases n,
{
    if n <= 0 {
        Seq::empty()
    } else {
        with_name(net_names(nets, n - 1), nets[n - 1].id@)
    }
}

/// The place of a name in a list, or the list's length.
pub open spec fn place_of(names: Seq<Seq<char>>, name: Seq<char>) -> int
    decreases names.len(),
{
    if names.len() == 0 {
        0
    } else if names[0] == name {
        0
    } else {
        1 + place_of(names.drop_first(), name)
    }
}

proof fn lemma_with_name_contains(names: Seq<Seq<char>>, name: Seq<char>)
    ensures
        with_name(names, name).contains(name),
        forall|x: Seq<char>| names.contains(x) ==> #[trigger] with_name(names, name).contains(x),
        names.len() <= with_name(names, name).len() <= names.len() + 1,
    decreases names.len(),
{
    let r = with_name(names, name);
    if names.len() == 0 {
        assert(r[0] == name);
    } else if names.last() == name {
        assert(names[names.len() - 1] == name);
    } else if text_before(names.last(), name) {
        assert(r[names.len() as int] == name);
        assert forall|x: Seq<char>| names.contains(x) implies #[trigger] r.contains(x) by {
            let i = choose|i: int| 0 <= i < names.len() && names[i] == x;
            assert(r[i] == x);
        }
    } else {
        let rest = names.drop_last();
        lemma_with_name_contains(rest, name);
        let w = with_name(rest, name);
        let i = choose|i: int| 0 <= i < w.len() && w[i] == name;
        assert(r[i] == name);
        assert forall|x: Seq<char>| names.contains(x) implies #[trigger] r.contains(x) by {
            let k = choose|k: int| 0 <= k < names.len() && names[k] == x;
            if k == names.len() - 1 {
                assert(r[r.len() - 1] == x);
            } else {
                assert(rest[k] == x);
                assert(rest.contains(x));
                assert(w.contains(x));
                let m = choose|m: int| 0 <= m < w.len() && w[m] == x;
                assert(r[m] == x);
            }
        }
    }
}

proof fn lemma_net_names_contains(nets: Seq<Net>, n: int, i: int)
    requires
        0 <= i < n <= nets.len(),
    ensures
        net_names(nets, n).contains(nets[i].id@),
    decreases n,
{
    lemma_with_name_contains(net_names(nets, n - 1), nets[n - 1].id@);
    if i < n - 1 {
        lemma_net_names_contains(nets, n - 1, i);
    }
}

proof fn lemma_place_of(names: Seq<Seq<char>>, name: Seq<char>)
    requires
        names.contains(name),
    ensures
        0 <= place_of(names, name) < names.len(),
        names[place_of(names, name)] == name,
    decreases names.len(),
{
    let i = choose|i: int| 0 <= i < names.len() && names[i] == name;
    if names[0] != name {
        assert(names.drop_first()[i - 1] == name);
        lemma_place_of(names.drop_first(), name);
    }
}

/// The net of a pin is the net of some connection.
proof fn lemma_net_at_among(ws: Seq<Wire>, component: Seq<char>, pin: Seq<char>)
    requires
        net_at(ws, component, pin) is Some,
    ensures
        exists|i: int| 0 <= i < ws.len() && (#[trigger] ws[i]).net == net_at(ws, component, pin)->0,
    decreases ws.len(),
{
    match net_at(ws.drop_last(), component, pin) {
        Some(net) => {
            lemma_net_at_among(ws.drop_last(), component, pin);
            let i = choose|i: int|
                0 <= i < ws.drop_last().len() && (#[trigger] ws.drop_last()[i]).net == net;
            assert(ws[i].net == net);
        },
        None => {
            assert(ws[ws.len() - 1].net == net_at(ws, component, pin)->0);
        },
    }
}

proof fn lemma_wire_net(nets: Seq<Net>, n: int, i: int)
    requires
        0 <= n <= nets.len(),
        0 <= i < concat_upto(n, |k: int| net_wires(nets[k])).len(),
    ensures
        exists|k: int|
            0 <= k < n && (#[trigger] nets[k]).id@ == concat_upto(
                n,
                |k: int| net_wires(nets[k]),
            )[i].net,
    decreases n,
{
    let f = |k: int| net_wires(nets[k]);
    let short = concat_upto(n - 1, f);
    if i < short.len() {
        lemma_wire_net(nets, n - 1, i);
    } else {
        assert(concat_upto(n, f)[i] == net_wires(nets[n - 1])[i - short.len()]);
        assert(nets[n - 1].id@ == concat_upto(n, f)[i].net);
    }
}

/// A pin's net is among the net names.
pub proof fn lemma_connected_slot(nets: Seq<Net>, component: Seq<char>, pin: Seq<char>)
    requires
        net_at(wires(nets), component, pin) is Some,
    ensures
        ({
            let names = net_names(nets, nets.len() as int);
            let name = net_at(wires(nets), component, pin)->0;
            0 <= place_of(names, name) < names.len() && names[place_of(names, name)] == name
        }),
{
    lemma_net_at_among(wires(nets), component, pin);
    let name = net_at(wires(nets), component, pin)->0;
    let i = choose|i: int| 0 <= i < wires(nets).len() && (#[trigger] wires(nets)[i]).net == name;
    lemma_wire_net(nets, nets.len() as int, i);
    let k = choose|k: int| 0 <= k < nets.len() && (#[trigger] nets[k]).id@ == name;
    lemma_net_names_contains(nets, nets.len() as int, k);
    lemma_place_of(net_names(nets, nets.len() as int), name);
}

/// Names that count up behind a prefix.
pub open spec fn numbered(prefix: Seq<char>, width: nat) -> Seq<Seq<char>> {
    Seq::new(width, |i: int| prefix + decimal(i as nat))
}

/// Those of two optional pins that the component has.
pub open spec fn optional_pins(component: Component, a: Seq<char>, b: Seq<char>) -> Seq<Seq<char>> {
    (if has_pin(component, a) {
        seq![a]
    } else {
        Seq::empty()
    }) + (if has_pin(component, b) {
        seq![b]
    } else {
        Seq::empty()
    })
}

/// The input pins that a primitive needs and those optional ones that the
/// component has.
pub open spec fn input_pins(component: Component, primitive: DigitalPrimitive) -> Seq<Seq<char>> {
    let set_reset = optional_pins(component, "set"@, "reset"@);
    let enable_reset = optional_pins(component, "enable"@, "reset"@);
    match primitive {
        DigitalPrimitive::Constant(_) => Seq::empty(),
        DigitalPrimitive::Clock { .. } => Seq::empty(),
        DigitalPrimitive::Gate(kind) => if kind == GateKind::Buffer || kind == GateKind::Not {
            seq!["in"@]
        } else {
            seq!["a"@, "b"@]
        },
        DigitalPrimitive::TriState => seq!["in"@, "enable"@],
        DigitalPrimitive::Mux2 => seq!["a"@, "b"@, "sel"@],
        DigitalPrimitive::Demux2 => seq!["in"@, "sel"@],
        DigitalPrimitive::Decoder2To4 => seq!["a"@, "b"@, "enable"@],
        DigitalPrimitive::DLatch => seq!["d"@, "enable"@] + set_reset,
        DigitalPrimitive::SRLatch => seq!["s"@, "r"@] + set_reset,
        DigitalPrimitive::DFlipFlop { .. } => seq!["d"@, "clk"@] + set_reset,
        DigitalPrimitive::JKFlipFlop { .. } => seq!["j"@, "k"@, "clk"@] + set_reset,
        DigitalPrimitive::TFlipFlop { .. } => seq!["t"@, "clk"@] + set_reset,
        DigitalPrimitive::SRFlipFlop { .. } => seq!["s"@, "r"@, "clk"@] + set_reset,
        DigitalPrimitive::Register { width, .. } => numbered("d"@, width as nat) + seq!["clk"@]
            + enable_reset,
        DigitalPrimitive::Counter { .. } => seq!["clk"@] + enable_reset,
        DigitalPrimitive::Sink => seq!["in"@],
    }
}

/// The output pins that a primitive needs and the optional inverted output if
/// the component has it.
pub open spec fn output_pins(component: Component, primitive: DigitalPrimitive) -> Seq<Seq<char>> {
    match primitive {
        DigitalPrimitive::Demux2 => seq!["a"@, "b"@],
        DigitalPrimitive::Decoder2To4 => numbered("y"@, 4),
        DigitalPrimitive::Register { width, .. } => numbered("q"@, width as nat),
        DigitalPrimitive::Counter { width, .. } => numbered("q"@, width as nat),
        DigitalPrimitive::Sink => Seq::empty(),
        _ => if primitive.holds_level() {
            if has_pin(component, "nq"@) {
                seq!["q"@, "nq"@]
            } else {
                seq!["q"@]
            }
        } else {
            seq!["out"@]
        },
    }
}

/// The number of levels of a register or counter: four unless given.
pub open spec fn width_of(component: Component) -> Result<usize, Fault> {
    let width = match parameter_of(component.parameters@, "width"@) {
        None => Some(4usize),
        Some(ParameterValue::Integer(n)) => if n > 0 {
            Some(n as usize)
        } else {
            None
        },
        Some(ParameterValue::Number(x)) => if x.finite() && x.key() > 0 {
            Some(clipped(saturated(x.whole())))
        } else {
            None
        },
        Some(_) => None,
    };
    match width {
        None => Err(
            component_fault(code(), component, "parameter `width` must be a positive integer"@),
        ),
        Some(w) => match width_failure(w) {
            Some(f) => Err(f),
            None => Ok(w),
        },
    }
}

/// A number as a `usize`, the largest where it does not fit.
pub open spec fn clipped(n: u64) -> usize {
    if n > usize::MAX {
        usize::MAX
    } else {
        n as usize
    }
}

/// The active edge of a clock input: rising unless given.
pub open spec fn edge_of(component: Component) -> Result<EdgeKind, Fault> {
    match parameter_of(component.parameters@, "edge"@) {
        None => Ok(EdgeKind::Rising),
        Some(ParameterValue::Text(text)) => {
            let word = lowercase(trim(text@));
            if word == "rising"@ || word == "positive"@ || word == "pos"@ {
                Ok(EdgeKind::Rising)
            } else if word == "falling"@ || word == "negative"@ || word == "neg"@ {
                Ok(EdgeKind::Falling)
            } else {
                Err(
                    component_fault(
                        code(),
                        component,
                        "parameter `edge` must be `rising` or `falling`"@,
                    ),
                )
            }
        },
        Some(_) => Err(component_fault(code(), component, "parameter `edge` must be text"@)),
    }
}

/// The levels with which a register or counter starts: zero unless given.
pub open spec fn start_levels(component: Component, width: usize) -> Result<Seq<LogicValue>, Fault> {
    let unfit = Err(
        component_fault(
            code(),
            component,
            "vector parameter `initial` must be a non-negative integer"@,
        ),
    );
    match parameter_of(component.parameters@, "initial"@) {
        None => Ok(Seq::new(width as nat, |i: int| LogicValue::Zero)),
        Some(ParameterValue::Integer(n)) => if n >= 0 {
            Ok(bits_of(width as nat, n as nat))
        } else {
            unfit
        },
        Some(ParameterValue::Number(x)) => if x.finite() && x.key() >= 0 && x.remainder() == 0 {
            Ok(bits_of(width as nat, saturated(x.whole()) as nat))
        } else {
            unfit
        },
        Some(_) => unfit,
    }
}

/// Which logic element a kind of component is.
pub open spec fn gate_of(kind: Seq<char>) -> Option<GateKind> {
    if kind == "buffer"@ {
        Some(GateKind::Buffer)
    } else if kind == "not_gate"@ {
        Some(GateKind::Not)
    } else if kind == "and_gate"@ {
        Some(GateKind::And)
    } else if kind == "or_gate"@ {
        Some(GateKind::Or)
    } else if kind == "xor_gate"@ {
        Some(GateKind::Xor)
    } else if kind == "nand_gate"@ {
        Some(GateKind::Nand)
    } else if kind == "nor_gate"@ {
        Some(GateKind::Nor)
    } else if kind == "xnor_gate"@ {
        Some(GateKind::Xnor)
    } else {
        None
    }
}

pub open spec fn duty_unfit() -> Seq<char> {
    "parameter `duty_cycle` must be a dimensionless number"@
}

pub open spec fn duty_outside() -> Seq<char> {
    "parameter `duty_cycle` must be greater than zero and less than one"@
}

pub open spec fn clock_of(component: Component) -> Result<DigitalPrimitive, Fault> {
    match positive_seconds(code(), component, "period"@) {
        Err(f) => Err(f),
        Ok(period) => match duty_of(code(), component, duty_unfit(), duty_outside()) {
            Err(f) => Err(f),
            Ok(duty_cycle) => match logic_of(code(), component, "initial"@) {
                Err(f) => Err(f),
                Ok(initial) => Ok(
                    DigitalPrimitive::Clock {
                        period,
                        duty_cycle,
                        initial: match initial {
                            Some(level) => level,
                            None => LogicValue::Zero,
                        },
                    },
                ),
            },
        },
    }
}

/// The primitive that an edge-triggered kind of component is.
pub open spec fn edge_primitive(kind: Seq<char>, edge: EdgeKind) -> Option<DigitalPrimitive> {
    if kind == "d_flip_flop"@ {
        Some(DigitalPrimitive::DFlipFlop { edge })
    } else if kind == "jk_flip_flop"@ {
        Some(DigitalPrimitive::JKFlipFlop { edge })
    } else if kind == "t_flip_flop"@ {
        Some(DigitalPrimitive::TFlipFlop { edge })
    } else if kind == "sr_flip_flop"@ {
        Some(DigitalPrimitive::SRFlipFlop { edge })
    } else {
        None
    }
}

/// The primitive that a kind of component without parameters is.
pub open spec fn plain_primitive(kind: Seq<char>) -> Option<DigitalPrimitive> {
    match gate_of(kind) {
        Some(gate) => Some(DigitalPrimitive::Gate(gate)),
        None => if kind == "logic_output"@ {
            Some(DigitalPrimitive::Sink)
        } else if kind == "tri_state_buffer"@ {
            Some(DigitalPrimitive::TriState)
        } else if kind == "mux2"@ {
            Some(DigitalPrimitive::Mux2)
        } else if kind == "demux2"@ {
            Some(DigitalPrimitive::Demux2)
        } else if kind == "decoder2_to_4"@ {
            Some(DigitalPrimitive::Decoder2To4)
        } else if kind == "d_latch"@ {
            Some(DigitalPrimitive::DLatch)
        } else if kind == "sr_latch"@ {
            Some(DigitalPrimitive::SRLatch)
        } else {
            None
        },
    }
}

/// The primitive that a component is.
pub open spec fn primitive_of(component: Component) -> Result<DigitalPrimitive, Fault> {
    let kind = component.kind@;
    if plain_primitive(kind) is Some {
        Ok(plain_primitive(kind)->0)
    } else if kind == "logic_input"@ {
        match needed_logic(code(), component, "value"@) {
            Err(f) => Err(f),
            Ok(level) => Ok(DigitalPrimitive::Constant(level)),
        }
    } else if kind == "digital_clock"@ {
        clock_of(component)
    } else if edge_primitive(kind, EdgeKind::Rising) is Some {
        match edge_of(component) {
            Err(f) => Err(f),
            Ok(edge) => Ok(edge_primitive(kind, edge)->0),
        }
    } else if kind == "register"@ || kind == "counter"@ {
        match width_of(component) {
            Err(f) => Err(f),
            Ok(width) => match edge_of(component) {
                Err(f) => Err(f),
                Ok(edge) => Ok(
                    if kind == "register"@ {
                        DigitalPrimitive::Register { width, edge }
                    } else {
                        DigitalPrimitive::Counter { width, edge }
                    },
                ),
            },
        }
    } else {
        Err(
            fault(
                "digital_unsupported_component"@,
                "component `"@ + component.id@ + "` has unsupported digital kind `"@ + kind + "`"@,
            ),
        )
    }
}

/// The place of the net that a pin of a component is on.
pub open spec fn joined_pin(
    component: Component,
    pin: Seq<char>,
    direction: PinDirection,
    nets: Seq<Net>,
) -> Result<(Seq<char>, int), Fault> {
    match pin_failure(code(), component, pin, direction) {
        Some(f) => Err(f),
        None => match net_at(wires(nets), component.id@, pin) {
            None => Err(
                about(
                    code(),
                    component,
                    "required digital pin `"@,
                    pin,
                    "` is not connected to a net"@,
                ),
            ),
            Some(net) => Ok((pin, place_of(net_names(nets, nets.len() as int), net))),
        },
    }
}

pub open spec fn joined_pins(
    component: Component,
    pins: Seq<Seq<char>>,
    direction: PinDirection,
    nets: Seq<Net>,
) -> Result<Seq<(Seq<char>, int)>, Fault> {
    collected(pins.len() as int, |i: int| joined_pin(component, pins[i], direction, nets))
}

pub open spec fn delay_of(component: Component, primitive: DigitalPrimitive) -> Result<Real, Fault> {
    match primitive {
        DigitalPrimitive::Constant(_) => Ok(Real { bits: 0 }),
        DigitalPrimitive::Clock { .. } => Ok(Real { bits: 0 }),
        DigitalPrimitive::Sink => Ok(Real { bits: 0 }),
        _ => match delay_seconds(code(), component, "delay"@) {
            Err(f) => Err(f),
            Ok(Some(x)) => Ok(x),
            Ok(None) => Ok(Real { bits: 0 }),
        },
    }
}

pub open spec fn scalar_of(component: Component, primitive: DigitalPrimitive) -> Result<
    LogicValue,
    Fault,
> {
    if primitive.holds_level() {
        match logic_of(code(), component, "initial"@) {
            Err(f) => Err(f),
            Ok(Some(level)) => Ok(level),
            Ok(None) => Ok(LogicValue::X),
        }
    } else {
        Ok(LogicValue::X)
    }
}

pub open spec fn vector_of(component: Component, primitive: DigitalPrimitive) -> Result<
    Seq<LogicValue>,
    Fault,
> {
    match primitive.held_width() {
        Some(width) => start_levels(component, width),
        None => Ok(Seq::empty()),
    }
}

/// What a component becomes in a circuit with these nets.
pub open spec fn part_of(component: Component, nets: Seq<Net>) -> Result<Part, Fault> {
    match primitive_of(component) {
        Err(f) => Err(f),
        Ok(primitive) => match joined_pins(
            component,
            input_pins(component, primitive),
            PinDirection::Input,
            nets,
        ) {
            Err(f) => Err(f),
            Ok(inputs) => match joined_pins(
                component,
                output_pins(component, primitive),
                PinDirection::Output,
                nets,
            ) {
                Err(f) => Err(f),
                Ok(outputs) => match delay_of(component, primitive) {
                    Err(f) => Err(f),
                    Ok(delay) => match scalar_of(component, primitive) {
                        Err(f) => Err(f),
                        Ok(initial_scalar) => match vector_of(component, primitive) {
                            Err(f) => Err(f),
                            Ok(initial_vector) => Ok(
                                Part {
                                    primitive,
                                    inputs,
                                    outputs,
                                    delay,
                                    initial_scalar,
                                    initial_vector,
                                },
                            ),
                        },
                    },
                },
            },
        },
    }
}


/// The name in its place among names in dictionary order.
pub fn insert_name(names: &mut Vec<String>, name: &String)
    ensures
        texts(final(names)@) == with_name(texts(old(names)@), name@),
{
    let ghost all = texts(names@);
    let mut p: usize = names.len();
    assert(all.take(p as int) =~= all);
    assert(all.skip(p as int) =~= Seq::<Seq<char>>::empty());
    assert(with_name(all, name@) + Seq::<Seq<char>>::empty() =~= with_name(all, name@));
    while p > 0 && !text_lt(names[p - 1].as_str(), name.as_str())
        invariant
            p <= names@.len(),
            all == texts(names@),
            names@ == old(names)@,
            with_name(all, name@) == with_name(all.take(p as int), name@) + all.skip(p as int),
        decreases p,
    {
        let ghost front = all.take(p as int);
        assert(front.last() == names@[p - 1]@);
        assert(front.drop_last() =~= all.take(p - 1));
        if text_eq(names[p - 1].as_str(), name.as_str()) {
            assert(front + all.skip(p as int) =~= all);
            return;
        }
        assert(with_name(all.take(p - 1), name@).push(front.last()) + all.skip(p as int)
            =~= with_name(all.take(p - 1), name@) + all.skip(p - 1));
        p = p - 1;
    }
    let ghost front = all.take(p as int);
    assert(front.len() > 0 ==> front.last() == names@[p - 1]@);
    proof {
        lemma_before_irreflexive(name@);
    }
    assert(with_name(front, name@) =~= front.push(name@));
    names.insert(p, name.clone());
    assert(texts(names@) =~= front.push(name@) + all.skip(p as int));
}

/// The first `n` names in dictionary order, each once.
pub open spec fn sorted_names(names: Seq<Seq<char>>, n: int) -> Seq<Seq<char>>
    decreases n,
{
    if n <= 0 {
        Seq::empty()
    } else {
        with_name(sorted_names(names, n - 1), names[n - 1])
    }
}

/// The names in dictionary order, each once.
pub fn sort_names(names: &Vec<String>) -> (r: Vec<String>)
    ensures
        texts(r@) == sorted_names(texts(names@), names@.len() as int),
{
    let ghost listed = texts(names@);
    let mut out: Vec<String> = Vec::new();
    let mut i: usize = 0;
    assert(texts(out@) =~= Seq::<Seq<char>>::empty());
    while i < names.len()
        invariant
            i <= names@.len(),
            listed == texts(names@),
            texts(out@) == sorted_names(listed, i as int),
        decreases names@.len() - i,
    {
        assert(listed[i as int] == names@[i as int]@);
        insert_name(&mut out, &names[i]);
        i = i + 1;
    }
    out
}

/// The names of the nets in dictionary order, each once.
fn sorted_nets(nets: &Vec<Net>) -> (r: Vec<String>)
    ensures
        texts(r@) == net_names(nets@, nets@.len() as int),
{
    let mut names: Vec<String> = Vec::new();
    let mut i: usize = 0;
    assert(texts(names@) =~= Seq::<Seq<char>>::empty());
    while i < nets.len()
        invariant
            i <= nets@.len(),
            texts(names@) == net_names(nets@, i as int),
        decreases nets@.len() - i,
    {
        insert_name(&mut names, &nets[i].id.0);
        i = i + 1;
    }
    names
}

/// The place of a name in a list.
fn find_place(names: &Vec<String>, name: &str) -> (r: usize)
    requires
        texts(names@).contains(name@),
    ensures
        r == place_of(texts(names@), name@),
        r < names@.len(),
{
    let ghost all = texts(names@);
    proof {
        lemma_place_of(all, name@);
    }
    let mut i: usize = 0;
    assert(all.skip(0) =~= all);
    while i < names.len()
        invariant
            i <= names@.len(),
            all == texts(names@),
            place_of(all, name@) == i + place_of(all.skip(i as int), name@),
            place_of(all, name@) < names@.len(),
        decreases names@.len() - i,
    {
        assert(all.skip(i as int)[0] == names@[i as int]@);
        assert(all.skip(i as int).drop_first() =~= all.skip(i + 1));
        if text_eq(names[i].as_str(), name) {
            return i;
        }
        i = i + 1;
    }
    0
}

fn names1(a: &str) -> (r: Vec<String>)
    ensures
        texts(r@) == seq![a@],
{
    let mut v: Vec<String> = Vec::new();
    v.push(a.to_owned());
    assert(texts(v@) =~= seq![a@]);
    v
}

fn names2(a: &str, b: &str) -> (r: Vec<String>)
    ensures
        texts(r@) == seq![a@, b@],
{
    let mut v: Vec<String> = Vec::new();
    v.push(a.to_owned());
    v.push(b.to_owned());
    assert(texts(v@) =~= seq![a@, b@]);
    v
}

fn names3(a: &str, b: &str, c: &str) -> (r: Vec<String>)
    ensures
        texts(r@) == seq![a@, b@, c@],
{
    let mut v: Vec<String> = Vec::new();
    v.push(a.to_owned());
    v.push(b.to_owned());
    v.push(c.to_owned());
    assert(texts(v@) =~= seq![a@, b@, c@]);
    v
}

/// Names that count up behind a prefix.
fn numbered_names(prefix: &str, width: usize) -> (r: Vec<String>)
    ensures
        texts(r@) == numbered(prefix@, width as nat),
{
    let mut v: Vec<String> = Vec::new();
    let mut i: usize = 0;
    while i < width
        invariant
            i <= width,
            texts(v@) =~= numbered(prefix@, i as nat),
        decreases width - i,
    {
        let ghost before = texts(v@);
        v.push(cat2(prefix, decimal_text(i as u64).as_str()));
        assert(texts(v@) =~= before.push(prefix@ + decimal(i as nat)));
        i = i + 1;
    }
    v
}

/// Appends those of two optional pins that the component has.
fn append_optional_pins(component: &Component, pins: &mut Vec<String>, a: &str, b: &str)
    ensures
        texts(final(pins)@) == texts(old(pins)@) + optional_pins(*component, a@, b@),
{
    let ghost start = texts(pins@);
    if pin_present(component, a) {
        pins.push(a.to_owned());
    }
    if pin_present(component, b) {
        pins.push(b.to_owned());
    }
    assert(texts(pins@) =~= start + optional_pins(*component, a@, b@));
}

fn append_names(pins: &mut Vec<String>, name: &str)
    ensures
        texts(final(pins)@) == texts(old(pins)@) + seq![name@],
{
    let ghost start = texts(pins@);
    pins.push(name.to_owned());
    assert(texts(pins@) =~= start + seq![name@]);
}

fn needed_inputs(component: &Component, primitive: DigitalPrimitive) -> (r: Vec<String>)
    ensures
        texts(r@) == input_pins(*component, primitive),
{
    match primitive {
        DigitalPrimitive::Constant(_) | DigitalPrimitive::Clock { .. } => {
            let v: Vec<String> = Vec::new();
            assert(texts(v@) =~= Seq::<Seq<char>>::empty());
            v
        },
        DigitalPrimitive::Gate(kind) => {
            if kind == GateKind::Buffer || kind == GateKind::Not {
                names1("in")
            } else {
                names2("a", "b")
            }
        },
        DigitalPrimitive::TriState => names2("in", "enable"),
        DigitalPrimitive::Mux2 => names3("a", "b", "sel"),
        DigitalPrimitive::Demux2 => names2("in", "sel"),
        DigitalPrimitive::Decoder2To4 => names3("a", "b", "enable"),
        DigitalPrimitive::DLatch => {
            let mut v = names2("d", "enable");
            append_optional_pins(component, &mut v, "set", "reset");
            v
        },
        DigitalPrimitive::SRLatch => {
            let mut v = names2("s", "r");
            append_optional_pins(component, &mut v, "set", "reset");
            v
        },
        DigitalPrimitive::DFlipFlop { .. } => {
            let mut v = names2("d", "clk");
            append_optional_pins(component, &mut v, "set", "reset");
            v
        },
        DigitalPrimitive::JKFlipFlop { .. } => {
            let mut v = names3("j", "k", "clk");
            append_optional_pins(component, &mut v, "set", "reset");
            v
        },
        DigitalPrimitive::TFlipFlop { .. } => {
            let mut v = names2("t", "clk");
            append_optional_pins(component, &mut v, "set", "reset");
            v
        },
        DigitalPrimitive::SRFlipFlop { .. } => {
            let mut v = names3("s", "r", "clk");
            append_optional_pins(component, &mut v, "set", "reset");
            v
        },
        DigitalPrimitive::Register { width, .. } => {
            let mut v = numbered_names("d", width);
            append_names(&mut v, "clk");
            append_optional_pins(component, &mut v, "enable", "reset");
            v
        },
        DigitalPrimitive::Counter { .. } => {
            let mut v = names1("clk");
            append_optional_pins(component, &mut v, "enable", "reset");
            v
        },
        DigitalPrimitive::Sink => names1("in"),
    }
}

fn holds_a_level(primitive: DigitalPrimitive) -> (r: bool)
    ensures
        r == primitive.holds_level(),
{
    match primitive {
        DigitalPrimitive::DLatch
        | DigitalPrimitive::SRLatch
        | DigitalPrimitive::DFlipFlop { .. }
        | DigitalPrimitive::JKFlipFlop { .. }
        | DigitalPrimitive::TFlipFlop { .. }
        | DigitalPrimitive::SRFlipFlop { .. } => true,
        _ => false,
    }
}

fn needed_outputs(component: &Component, primitive: DigitalPrimitive) -> (r: Vec<String>)
    ensures
        texts(r@) == output_pins(*component, primitive),
{
    match primitive {
        DigitalPrimitive::Demux2 => names2("a", "b"),
        DigitalPrimitive::Decoder2To4 => numbered_names("y", 4),
        DigitalPrimitive::Register { width, .. } => numbered_names("q", width),
        DigitalPrimitive::Counter { width, .. } => numbered_names("q", width),
        DigitalPrimitive::Sink => {
            let v: Vec<String> = Vec::new();
            assert(texts(v@) =~= Seq::<Seq<char>>::empty());
            v
        },
        _ => {
            if holds_a_level(primitive) {
                if pin_present(component, "nq") {
                    names2("q", "nq")
                } else {
                    names1("q")
                }
            } else {
                names1("out")
            }
        },
    }
}

fn component_width(component: &Component) -> (r: Result<usize, EngineError>)
    ensures
        same(r, width_of(*component)),
{
    let width: usize = match component.parameters.get("width") {
        None => 4,
        Some(ParameterValue::Integer(n)) => {
            if *n > 0 {
                *n as usize
            } else {
                return Err(
                    component_error(
                        "digital_invalid_component",
                        component,
                        "parameter `width` must be a positive integer",
                    ),
                );
            }
        },
        Some(ParameterValue::Number(x)) => {
            if x.is_finite() && (Real { bits: 0 }).lt(*x) {
                let n: u64 = x.to_u64();
                if n > usize::MAX as u64 {
                    usize::MAX
                } else {
                    n as usize
                }
            } else {
                return Err(
                    component_error(
                        "digital_invalid_component",
                        component,
                        "parameter `width` must be a positive integer",
                    ),
                );
            }
        },
        Some(_) => {
            return Err(
                component_error(
                    "digital_invalid_component",
                    component,
                    "parameter `width` must be a positive integer",
                ),
            );
        },
    };
    match validate_width(width) {
        Err(e) => Err(e),
        Ok(_) => Ok(width),
    }
}

fn initial_vector(component: &Component, width: usize) -> (r: Result<Vec<LogicValue>, EngineError>)
    ensures
        match (r, start_levels(*component, width)) {
            (Ok(v), Ok(s)) => v@ == s,
            (Err(e), Err(f)) => e@ == f,
            _ => false,
        },
{
    match component.parameters.get("initial") {
        None => Ok(fill_levels(width, LogicValue::Zero)),
        Some(ParameterValue::Integer(n)) => {
            if *n >= 0 {
                Ok(number_bits(width, *n as u64))
            } else {
                Err(
                    component_error(
                        "digital_invalid_component",
                        component,
                        "vector parameter `initial` must be a non-negative integer",
                    ),
                )
            }
        },
        Some(ParameterValue::Number(x)) => {
            if x.is_finite() && (Real { bits: 0 }).le(*x) && x.is_whole() {
                Ok(number_bits(width, x.to_u64()))
            } else {
                Err(
                    component_error(
                        "digital_invalid_component",
                        component,
                        "vector parameter `initial` must be a non-negative integer",
                    ),
                )
            }
        },
        Some(_) => Err(
            component_error(
                "digital_invalid_component",
                component,
                "vector parameter `initial` must be a non-negative integer",
            ),
        ),
    }
}

fn edge_kind(component: &Component) -> (r: Result<EdgeKind, EngineError>)
    ensures
        same(r, edge_of(*component)),
{
    match component.parameters.get("edge") {
        None => Ok(EdgeKind::Rising),
        Some(ParameterValue::Text(text)) => {
            let word = lowercase_text(trim_text(text.as_str()).as_str());
            let t = word.as_str();
            if text_eq(t, "rising") || text_eq(t, "positive") || text_eq(t, "pos") {
                Ok(EdgeKind::Rising)
            } else if text_eq(t, "falling") || text_eq(t, "negative") || text_eq(t, "neg") {
                Ok(EdgeKind::Falling)
            } else {
                Err(
                    component_error(
                        "digital_invalid_component",
                        component,
                        "parameter `edge` must be `rising` or `falling`",
                    ),
                )
            }
        },
        Some(_) => Err(
            component_error(
                "digital_invalid_component",
                component,
                "parameter `edge` must be text",
            ),
        ),
    }
}

fn gate_kind(component: &Component) -> (r: Option<GateKind>)
    ensures
        r == gate_of(component.kind@),
{
    let kind = &component.kind;
    if kind.is("buffer") {
        Some(GateKind::Buffer)
    } else if kind.is("not_gate") {
        Some(GateKind::Not)
    } else if kind.is("and_gate") {
        Some(GateKind::And)
    } else if kind.is("or_gate") {
        Some(GateKind::Or)
    } else if kind.is("xor_gate") {
        Some(GateKind::Xor)
    } else if kind.is("nand_gate") {
        Some(GateKind::Nand)
    } else if kind.is("nor_gate") {
        Some(GateKind::Nor)
    } else if kind.is("xnor_gate") {
        Some(GateKind::Xnor)
    } else {
        None
    }
}

fn simple_primitive(component: &Component) -> (r: Option<DigitalPrimitive>)
    ensures
        r == plain_primitive(component.kind@),
{
    let kind = &component.kind;
    match gate_kind(component) {
        Some(gate) => Some(DigitalPrimitive::Gate(gate)),
        None => {
            if kind.is("logic_output") {
                Some(DigitalPrimitive::Sink)
            } else if kind.is("tri_state_buffer") {
                Some(DigitalPrimitive::TriState)
            } else if kind.is("mux2") {
                Some(DigitalPrimitive::Mux2)
            } else if kind.is("demux2") {
                Some(DigitalPrimitive::Demux2)
            } else if kind.is("decoder2_to_4") {
                Some(DigitalPrimitive::Decoder2To4)
            } else if kind.is("d_latch") {
                Some(DigitalPrimitive::DLatch)
            } else if kind.is("sr_latch") {
                Some(DigitalPrimitive::SRLatch)
            } else {
                None
            }
        },
    }
}

fn edged_primitive(component: &Component, edge: EdgeKind) -> (r: Option<DigitalPrimitive>)
    ensures
        r == edge_primitive(component.kind@, edge),
{
    let kind = &component.kind;
    if kind.is("d_flip_flop") {
        Some(DigitalPrimitive::DFlipFlop { edge })
    } else if kind.is("jk_flip_flop") {
        Some(DigitalPrimitive::JKFlipFlop { edge })
    } else if kind.is("t_flip_flop") {
        Some(DigitalPrimitive::TFlipFlop { edge })
    } else if kind.is("sr_flip_flop") {
        Some(DigitalPrimitive::SRFlipFlop { edge })
    } else {
        None
    }
}

fn clock_primitive(component: &Component) -> (r: Result<DigitalPrimitive, EngineError>)
    ensures
        same(r, clock_of(*component)),
        r matches Ok(p) ==> sound_primitive(p),
{
    let period = match required_positive_seconds("digital_invalid_component", component, "period") {
        Err(e) => {
            return Err(e);
        },
        Ok(x) => x,
    };
    let duty_cycle = match duty_cycle(
        "digital_invalid_component",
        component,
        "parameter `duty_cycle` must be a dimensionless number",
        "parameter `duty_cycle` must be greater than zero and less than one",
    ) {
        Err(e) => {
            return Err(e);
        },
        Ok(x) => x,
    };
    let initial = match optional_logic_value("digital_invalid_component", component, "initial") {
        Err(e) => {
            return Err(e);
        },
        Ok(Some(level)) => level,
        Ok(None) => LogicValue::Zero,
    };
    Ok(DigitalPrimitive::Clock { period, duty_cycle, initial })
}

/// The numbers of a clock are finite and in range; a bus is not too wide.
pub open spec fn sound_primitive(primitive: DigitalPrimitive) -> bool {
    match primitive {
        DigitalPrimitive::Clock { period, duty_cycle, .. } => period.finite() && period.key() > 0
            && duty_cycle.finite() && 0 < duty_cycle.key() < (Real {
            bits: crate::reading::ONE_BITS,
        }).key(),
        DigitalPrimitive::Register { width, .. } => 0 < width <= 64,
        DigitalPrimitive::Counter { width, .. } => 0 < width <= 64,
        _ => true,
    }
}

fn compile_primitive(component: &Component) -> (r: Result<DigitalPrimitive, EngineError>)
    ensures
        same(r, primitive_of(*component)),
        r matches Ok(p) ==> sound_primitive(p),
{
    let kind = &component.kind;
    match simple_primitive(component) {
        Some(primitive) => {
            return Ok(primitive);
        },
        None => {},
    }
    if kind.is("logic_input") {
        match required_logic_value("digital_invalid_component", component, "value") {
            Err(e) => Err(e),
            Ok(level) => Ok(DigitalPrimitive::Constant(level)),
        }
    } else if kind.is("digital_clock") {
        clock_primitive(component)
    } else if edged_primitive(component, EdgeKind::Rising).is_some() {
        match edge_kind(component) {
            Err(e) => Err(e),
            Ok(edge) => Ok(edged_primitive(component, edge).unwrap()),
        }
    } else if kind.is("register") || kind.is("counter") {
        match component_width(component) {
            Err(e) => Err(e),
            Ok(width) => match edge_kind(component) {
                Err(e) => Err(e),
                Ok(edge) => {
                    if kind.is("register") {
                        Ok(DigitalPrimitive::Register { width, edge })
                    } else {
                        Ok(DigitalPrimitive::Counter { width, edge })
                    }
                },
            },
        }
    } else {
        Err(
            fail(
                "digital_unsupported_component",
                cat5(
                    "component `",
                    component.id.as_str(),
                    "` has unsupported digital kind `",
                    kind.as_str(),
                    "`",
                ),
            ),
        )
    }
}

/// The places of the nets that pins are on.
fn join_pins(
    component: &Component,
    pins: &Vec<String>,
    direction: PinDirection,
    circuit: &Circuit,
    wiring: &Wiring,
    names: &Vec<String>,
) -> (r: Result<Vec<PinSlot>, EngineError>)
    requires
        wiring@ == wires(circuit.nets@),
        texts(names@) == net_names(circuit.nets@, circuit.nets@.len() as int),
    ensures
        match (r, joined_pins(*component, texts(pins@), direction, circuit.nets@)) {
            (Ok(v), Ok(s)) => slots_of(v@) == s,
            (Err(e), Err(f)) => e@ == f,
            _ => false,
        },
        r matches Ok(v) ==> forall|i: int|
            0 <= i < v@.len() ==> (#[trigger] v@[i]).slot < names@.len(),
{
    let ghost all = texts(pins@);
    let ghost f = |i: int| joined_pin(*component, all[i], direction, circuit.nets@);
    let mut out: Vec<PinSlot> = Vec::new();
    let mut i: usize = 0;
    assert(slots_of(out@) =~= Seq::<(Seq<char>, int)>::empty());
    while i < pins.len()
        invariant
            i <= pins@.len(),
            all == texts(pins@),
            f == (|i: int| joined_pin(*component, all[i], direction, circuit.nets@)),
            wiring@ == wires(circuit.nets@),
            texts(names@) == net_names(circuit.nets@, circuit.nets@.len() as int),
            collected(i as int, f) == Ok::<Seq<(Seq<char>, int)>, Fault>(slots_of(out@)),
            forall|k: int| 0 <= k < out@.len() ==> (#[trigger] out@[k]).slot < names@.len(),
        decreases pins@.len() - i,
    {
        let pin = pins[i].as_str();
        assert(all[i as int] == pin@);
        match require_pin("digital_invalid_component", component, pin, direction) {
            Err(e) => {
                proof {
                    lemma_collected_stops(all.len() as int, f, i + 1);
                }
                return Err(e);
            },
            Ok(_) => {},
        }
        match wiring.find(component.id.as_str(), pin) {
            None => {
                proof {
                    lemma_collected_stops(all.len() as int, f, i + 1);
                }
                return Err(
                    error_about(
                        "digital_invalid_component",
                        component,
                        "required digital pin `",
                        pin,
                        "` is not connected to a net",
                    ),
                );
            },
            Some(net) => {
                proof {
                    lemma_connected_slot(circuit.nets@, component.id@, pin@);
                    assert(texts(names@).contains(net@)) by {
                        let k = place_of(texts(names@), net@);
                        assert(texts(names@)[k] == net@);
                    }
                }
                let slot: usize = find_place(names, net.as_str());
                let ghost before = slots_of(out@);
                out.push(PinSlot { pin: pins[i].clone(), slot });
                assert(slots_of(out@) =~= before.push((pin@, slot as int)));
            },
        }
        i = i + 1;
    }
    Ok(out)
}

/// A component's pins lead to nets that exist, and its numbers are in range.
pub open spec fn sound_part(part: Part, slots: int) -> bool {
    &&& sound_primitive(part.primitive)
    &&& part.delay.finite() && part.delay.key() >= 0
    &&& forall|i: int| 0 <= i < part.inputs.len() ==> 0 <= (#[trigger] part.inputs[i]).1 < slots
    &&& forall|i: int| 0 <= i < part.outputs.len() ==> 0 <= (#[trigger] part.outputs[i]).1 < slots
    &&& part.primitive.held_width() matches Some(w) ==> part.initial_vector.len() == w
        && part.outputs.len() == w
    &&& part.primitive is Constant || part.primitive is Clock ==> part.outputs.len() > 0
}

fn compile_component(
    component: &Component,
    circuit: &Circuit,
    wiring: &Wiring,
    names: &Vec<String>,
) -> (r: Result<CompiledDigitalComponent, EngineError>)
    requires
        wiring@ == wires(circuit.nets@),
        texts(names@) == net_names(circuit.nets@, circuit.nets@.len() as int),
    ensures
        match (r, part_of(*component, circuit.nets@)) {
            (Ok(c), Ok(p)) => c@ == p,
            (Err(e), Err(f)) => e@ == f,
            _ => false,
        },
        r matches Ok(c) ==> sound_part(c@, names@.len() as int),
{
    let primitive = match compile_primitive(component) {
        Err(e) => {
            return Err(e);
        },
        Ok(p) => p,
    };
    let input_pins = needed_inputs(component, primitive);
    let inputs = match join_pins(
        component,
        &input_pins,
        PinDirection::Input,
        circuit,
        wiring,
        names,
    ) {
        Err(e) => {
            return Err(e);
        },
        Ok(v) => v,
    };
    let output_pins = needed_outputs(component, primitive);
    let outputs = match join_pins(
        component,
        &output_pins,
        PinDirection::Output,
        circuit,
        wiring,
        names,
    ) {
        Err(e) => {
            return Err(e);
        },
        Ok(v) => v,
    };
    proof {
        crate::fault::lemma_collected_at(
            texts(output_pins@).len() as int,
            |i: int|
                joined_pin(*component, texts(output_pins@)[i], PinDirection::Output, circuit.nets@),
        );
    }
    let delay = match primitive {
        DigitalPrimitive::Constant(_) | DigitalPrimitive::Clock { .. } | DigitalPrimitive::Sink => {
            Real { bits: 0 }
        },
        _ => match optional_non_negative_seconds("digital_invalid_component", component, "delay") {
            Err(e) => {
                return Err(e);
            },
            Ok(Some(x)) => x,
            Ok(None) => Real { bits: 0 },
        },
    };
    let initial_scalar = if holds_a_level(primitive) {
        match optional_logic_value("digital_invalid_component", component, "initial") {
            Err(e) => {
                return Err(e);
            },
            Ok(Some(level)) => level,
            Ok(None) => LogicValue::X,
        }
    } else {
        LogicValue::X
    };
    let initial_vector = match primitive {
        DigitalPrimitive::Register { width, .. } | DigitalPrimitive::Counter { width, .. } => {
            proof {
                lemma_start_levels_len(*component, width);
            }
            match initial_vector(component, width) {
                Err(e) => {
                    return Err(e);
                },
                Ok(v) => v,
            }
        },
        _ => Vec::new(),
    };
    let compiled = CompiledDigitalComponent {
        primitive,
        inputs,
        outputs,
        delay,
        initial_scalar,
        initial_vector,
    };
    proof {
        let part = compiled@;
        assert forall|i: int| 0 <= i < part.inputs.len() implies 0 <= (#[trigger] part.inputs[i]).1
            < names@.len() by {
            assert(part.inputs[i] == inputs@[i]@);
        }
        assert forall|i: int| 0 <= i < part.outputs.len() implies 0 <= (
        #[trigger] part.outputs[i]).1 < names@.len() by {
            assert(part.outputs[i] == outputs@[i]@);
        }
    }
    Ok(compiled)
}

proof fn lemma_start_levels_len(component: Component, width: usize)
    ensures
        start_levels(component, width) matches Ok(s) ==> s.len() == width,
{
    match parameter_of(component.parameters@, "initial"@) {
        Some(ParameterValue::Integer(n)) => {
            if n >= 0 {
                crate::logic::lemma_bits_of_len(width as nat, n as nat);
            }
        },
        Some(ParameterValue::Number(x)) => {
            crate::logic::lemma_bits_of_len(width as nat, saturated(x.whole()) as nat);
        },
        _ => {},
    }
}

/// What one probe observes.
pub open spec fn probe_of(probe: Probe, nets: Seq<Net>) -> Result<(Seq<char>, int), Fault> {
    match net_at(wires(nets), probe.endpoint.component@, probe.endpoint.pin@) {
        None => Err(
            fault(
                "digital_unknown_probe"@,
                "probe endpoint `"@ + probe.endpoint.component@ + "."@ + probe.endpoint.pin@
                    + "` is not connected"@,
            ),
        ),
        Some(net) => Ok(
            (
                match probe.alias {
                    Some(alias) => alias@,
                    None => "net:"@ + net,
                },
                place_of(net_names(nets, nets.len() as int), net),
            ),
        ),
    }
}

/// What the probes observe: every net where there are none.
pub open spec fn observed(request: SimulationRequest) -> Result<Seq<(Seq<char>, int)>, Fault> {
    let nets = request.circuit.nets@;
    if request.probes@.len() == 0 {
        Ok(
            Seq::new(
                nets.len(),
                |i: int|
                    (
                        "net:"@ + nets[i].id@,
                        place_of(net_names(nets, nets.len() as int), nets[i].id@),
                    ),
            ),
        )
    } else {
        collected(request.probes@.len() as int, |i: int| probe_of(request.probes@[i], nets))
    }
}

fn compile_probe(
    probe: &Probe,
    circuit: &Circuit,
    wiring: &Wiring,
    names: &Vec<String>,
) -> (r: Result<CompiledProbe, EngineError>)
    requires
        wiring@ == wires(circuit.nets@),
        texts(names@) == net_names(circuit.nets@, circuit.nets@.len() as int),
    ensures
        match (r, probe_of(*probe, circuit.nets@)) {
            (Ok(c), Ok(p)) => c@ == p,
            (Err(e), Err(f)) => e@ == f,
            _ => false,
        },
        r matches Ok(c) ==> c.slot < names@.len(),
{
    let component = probe.endpoint.component.as_str();
    let pin = probe.endpoint.pin.as_str();
    match wiring.find(component, pin) {
        None => Err(
            fail(
                "digital_unknown_probe",
                cat5("probe endpoint `", component, ".", pin, "` is not connected"),
            ),
        ),
        Some(net) => {
            proof {
                lemma_connected_slot(circuit.nets@, component@, pin@);
                assert(texts(names@).contains(net@)) by {
                    let k = place_of(texts(names@), net@);
                    assert(texts(names@)[k] == net@);
                }
            }
            let slot: usize = find_place(names, net.as_str());
            let signal = match &probe.alias {
                Some(alias) => alias.clone(),
                None => cat2("net:", net.as_str()),
            };
            Ok(CompiledProbe { signal, slot })
        },
    }
}

fn compile_probes(request: &SimulationRequest, wiring: &Wiring, names: &Vec<String>) -> (r: Result<
    Vec<CompiledProbe>,
    EngineError,
>)
    requires
        wiring@ == wires(request.circuit.nets@),
        texts(names@) == net_names(request.circuit.nets@, request.circuit.nets@.len() as int),
    ensures
        match (r, observed(*request)) {
            (Ok(v), Ok(s)) => probes_of(v@) == s,
            (Err(e), Err(f)) => e@ == f,
            _ => false,
        },
        r matches Ok(v) ==> forall|i: int|
            0 <= i < v@.len() ==> (#[trigger] v@[i]).slot < names@.len(),
{
    let mut out: Vec<CompiledProbe> = Vec::new();
    if request.probes.len() == 0 {
        let nets = &request.circuit.nets;
        let ghost all = observed(*request)->Ok_0;
        let mut i: usize = 0;
        while i < nets.len()
            invariant
                i <= nets@.len(),
                nets@ == request.circuit.nets@,
                request.probes@.len() == 0,
                all == observed(*request)->Ok_0,
                texts(names@) == net_names(nets@, nets@.len() as int),
                probes_of(out@) =~= all.take(i as int),
                forall|k: int| 0 <= k < out@.len() ==> (#[trigger] out@[k]).slot < names@.len(),
            decreases nets@.len() - i,
        {
            proof {
                lemma_net_names_contains(nets@, nets@.len() as int, i as int);
            }
            let slot: usize = find_place(names, nets[i].id.as_str());
            let ghost before = probes_of(out@);
            out.push(CompiledProbe { signal: cat2("net:", nets[i].id.as_str()), slot });
            assert(probes_of(out@) =~= before.push(all[i as int]));
            i = i + 1;
            assert(all.take(i as int) =~= all.take(i - 1).push(all[i - 1]));
        }
        assert(all.take(i as int) =~= all);
        return Ok(out);
    }
    let ghost f = |i: int| probe_of(request.probes@[i], request.circuit.nets@);
    let mut i: usize = 0;
    assert(probes_of(out@) =~= Seq::<(Seq<char>, int)>::empty());
    while i < request.probes.len()
        invariant
            i <= request.probes@.len(),
            request.probes@.len() > 0,
            f == (|i: int| probe_of(request.probes@[i], request.circuit.nets@)),
            wiring@ == wires(request.circuit.nets@),
            texts(names@) == net_names(request.circuit.nets@, request.circuit.nets@.len() as int),
            collected(i as int, f) == Ok::<Seq<(Seq<char>, int)>, Fault>(probes_of(out@)),
            forall|k: int| 0 <= k < out@.len() ==> (#[trigger] out@[k]).slot < names@.len(),
        decreases request.probes@.len() - i,
    {
        match compile_probe(&request.probes[i], &request.circuit, wiring, names) {
            Err(e) => {
                proof {
                    lemma_collected_stops(request.probes@.len() as int, f, i + 1);
                }
                return Err(e);
            },
            Ok(probe) => {
                let ghost before = probes_of(out@);
                out.push(probe);
                assert(probes_of(out@) =~= before.push(probe@));
            },
        }
        i = i + 1;
    }
    Ok(out)
}

/// What a request becomes.
pub open spec fn program_of(request: SimulationRequest) -> Result<Program, Fault> {
    let nets = request.circuit.nets@;
    let components = request.circuit.components@;
    match request.analysis {
        Analysis::DigitalTransient { stop } => if !stop.finite() || stop.key() <= 0 {
            Err(
                fault(
                    "digital_invalid_analysis"@,
                    "digital transient stop time must be finite and greater than zero"@,
                ),
            )
        } else {
            match clash("digital_endpoint_on_multiple_nets"@, wires(nets)) {
                Some(f) => Err(f),
                None => match collected(
                    components.len() as int,
                    |i: int| part_of(components[i], nets),
                ) {
                    Err(f) => Err(f),
                    Ok(parts) => if nets.len() == 0 {
                        Err(
                            fault(
                                "digital_no_nets"@,
                                "digital simulation requires at least one connected net"@,
                            ),
                        )
                    } else {
                        match observed(request) {
                            Err(f) => Err(f),
                            Ok(probes) => Ok(
                                Program {
                                    parts,
                                    nets: net_names(nets, nets.len() as int),
                                    probes,
                                },
                            ),
                        }
                    },
                },
            }
        },
        _ => Err(
            fault(
                "digital_unsupported_analysis"@,
                "the built-in digital engine only supports digital_transient analysis"@,
            ),
        ),
    }
}

/// Every part and probe of a program leads to a net of it.
pub open spec fn sound_program(program: Program) -> bool {
    &&& forall|i: int|
        0 <= i < program.parts.len() ==> sound_part(
            #[trigger] program.parts[i],
            program.nets.len() as int,
        )
    &&& forall|i: int|
        0 <= i < program.probes.len() ==> 0 <= (#[trigger] program.probes[i]).1
            < program.nets.len()
}

impl DigitalProgram {
    /// Compiles the circuit of a digital transient analysis.
    pub fn compile(request: &SimulationRequest) -> (r: Result<Self, EngineError>)
        ensures
            crate::fault::agrees(r, program_of(*request)),
            r matches Ok(p) ==> sound_program(p@),
    {
        match &request.analysis {
            Analysis::DigitalTransient { stop } => {
                if !stop.is_finite() || stop.le(Real { bits: 0 }) {
                    return Err(
                        EngineError::new(
                            "digital_invalid_analysis",
                            "digital transient stop time must be finite and greater than zero",
                        ),
                    );
                }
            },
            _ => {
                return Err(
                    EngineError::new(
                        "digital_unsupported_analysis",
                        "the built-in digital engine only supports digital_transient analysis",
                    ),
                );
            },
        }
        let circuit = &request.circuit;
        let wiring = match endpoint_net_map(circuit, "digital_endpoint_on_multiple_nets") {
            Err(e) => {
                return Err(e);
            },
            Ok(w) => w,
        };
        let nets = sorted_nets(&circuit.nets);
        let ghost f = |i: int| part_of(circuit.components@[i], circuit.nets@);
        let mut components: Vec<CompiledDigitalComponent> = Vec::new();
        let mut i: usize = 0;
        assert(parts_of(components@) =~= Seq::<Part>::empty());
        while i < circuit.components.len()
            invariant
                i <= circuit.components@.len(),
                f == (|i: int| part_of(circuit.components@[i], circuit.nets@)),
                wiring@ == wires(circuit.nets@),
                circuit == request.circuit,
                clash("digital_endpoint_on_multiple_nets"@, wires(circuit.nets@)) is None,
                request.analysis is DigitalTransient,
                request.analysis->DigitalTransient_stop.finite(),
                request.analysis->DigitalTransient_stop.key() > 0,
                texts(nets@) == net_names(circuit.nets@, circuit.nets@.len() as int),
                collected(i as int, f) == Ok::<Seq<Part>, Fault>(parts_of(components@)),
                forall|k: int|
                    0 <= k < components@.len() ==> sound_part(
                        (#[trigger] components@[k])@,
                        nets@.len() as int,
                    ),
            decreases circuit.components@.len() - i,
        {
            match compile_component(&circuit.components[i], circuit, &wiring, &nets) {
                Err(e) => {
                    proof {
                        lemma_collected_stops(circuit.components@.len() as int, f, i + 1);
                    }
                    return Err(e);
                },
                Ok(compiled) => {
                    let ghost before = parts_of(components@);
                    components.push(compiled);
                    assert(parts_of(components@) =~= before.push(compiled@));
                },
            }
            i = i + 1;
        }
        if circuit.nets.len() == 0 {
            return Err(
                EngineError::new(
                    "digital_no_nets",
                    "digital simulation requires at least one connected net",
                ),
            );
        }
        let probes = match compile_probes(request, &wiring, &nets) {
            Err(e) => {
                return Err(e);
            },
            Ok(v) => v,
        };
        let program = DigitalProgram { components, nets, probes };
        proof {
            let p = program@;
            assert forall|i: int| 0 <= i < p.parts.len() implies sound_part(
                #[trigger] p.parts[i],
                p.nets.len() as int,
            ) by {
                assert(p.parts[i] == components@[i]@);
            }
            assert forall|i: int| 0 <= i < p.probes.len() implies 0 <= (#[trigger] p.probes[i]).1
                < p.nets.len() by {
                assert(p.probes[i] == probes@[i]@);
            }
        }
        Ok(program)
    }
}

/// Names in strictly ascending dictionary order.
pub open spec fn in_order(names: Seq<Seq<char>>) -> bool {
    forall|i: int, j: int|
        0 <= i < j < names.len() ==> text_before(#[trigger] names[i], #[trigger] names[j])
}

pub proof fn lemma_with_name_order(names: Seq<Seq<char>>, name: Seq<char>)
    requires
        in_order(names),
    ensures
        in_order(with_name(names, name)),
        forall|x: Seq<char>| #[trigger]
            with_name(names, name).contains(x) <==> x == name || names.contains(x),
    decreases names.len(),
{
    let r = with_name(names, name);
    lemma_with_name_contains(names, name);
    if names.len() == 0 {
        assert forall|x: Seq<char>| #[trigger] r.contains(x) <==> x == name || names.contains(x) by {}
    } else if names.last() == name {
        assert(names[names.len() - 1] == name);
    } else if text_before(names.last(), name) {
        assert forall|i: int, j: int| 0 <= i < j < r.len() implies text_before(
            #[trigger] r[i],
            #[trigger] r[j],
        ) by {
            if j == names.len() && i < names.len() - 1 {
                assert(text_before(names[i], names[names.len() - 1]));
                crate::text::lemma_before_transitive(names[i], names.last(), name);
            }
        }
        assert forall|x: Seq<char>| #[trigger] r.contains(x) implies x == name || names.contains(
            x,
        ) by {
            let i = choose|i: int| 0 <= i < r.len() && r[i] == x;
            if i < names.len() {
                assert(names[i] == x);
            }
        }
    } else {
        let rest = names.drop_last();
        assert forall|i: int, j: int| 0 <= i < j < rest.len() implies text_before(
            #[trigger] rest[i],
            #[trigger] rest[j],
        ) by {
            assert(text_before(names[i], names[j]));
        }
        lemma_with_name_order(rest, name);
        crate::text::lemma_before_total(names.last(), name);
        let w = with_name(rest, name);
        assert forall|i: int, j: int| 0 <= i < j < r.len() implies text_before(
            #[trigger] r[i],
            #[trigger] r[j],
        ) by {
            if j == w.len() {
                assert(w.contains(w[i]));
                if w[i] != name {
                    assert(rest.contains(w[i]));
                    let k = choose|k: int| 0 <= k < rest.len() && rest[k] == w[i];
                    assert(text_before(names[k], names[names.len() - 1]));
                }
            }
        }
        assert forall|x: Seq<char>| #[trigger] r.contains(x) implies x == name || names.contains(
            x,
        ) by {
            let i = choose|i: int| 0 <= i < r.len() && r[i] == x;
            if i < w.len() {
                assert(w[i] == x);
                assert(w.contains(x));
                if x != name {
                    let k = choose|k: int| 0 <= k < rest.len() && rest[k] == x;
                    assert(names[k] == x);
                }
            } else {
                assert(names[names.len() - 1] == x);
            }
        }
    }
}

/// The names of the nets stand in dictionary order, each once, and are those of the
/// nets and no others.
pub proof fn net_names_stand_in_order(nets: Seq<Net>, n: int, x: Seq<char>)
    requires
        0 <= n <= nets.len(),
    ensures
        in_order(net_names(nets, n)),
        net_names(nets, n).contains(x) <==> exists|i: int|
            0 <= i < n && (#[trigger] nets[i]).id@ == x,
    decreases n,
{
    if n > 0 {
        net_names_stand_in_order(nets, n - 1, x);
        lemma_with_name_order(net_names(nets, n - 1), nets[n - 1].id@);
    }
}

/// Names that are sorted stand in dictionary order, each once, and are those that were
/// given and no others.
pub proof fn sorted_names_stand_in_order(names: Seq<Seq<char>>, n: int, x: Seq<char>)
    requires
        0 <= n <= names.len(),
    ensures
        in_order(sorted_names(names, n)),
        sorted_names(names, n).contains(x) <==> exists|i: int|
            0 <= i < n && #[trigger] names[i] == x,
    decreases n,
{
    if n > 0 {
        sorted_names_stand_in_order(names, n - 1, x);
        lemma_with_name_order(sorted_names(names, n - 1), names[n - 1]);
    }
}

/// A program has a part for each component, in order, and knows all nets.
pub proof fn programs_hold_every_component(request: SimulationRequest, program: Program, i: int)
    requires
        program_of(request) == Ok::<Program, Fault>(program),
        0 <= i < request.circuit.components@.len(),
    ensures
        program.parts.len() == request.circuit.components@.len(),
        part_of(request.circuit.components@[i], request.circuit.nets@) == Ok::<Part, Fault>(
            program.parts[i],
        ),
        in_order(program.nets),
{
    let f = |i: int| part_of(request.circuit.components@[i], request.circuit.nets@);
    let count = request.circuit.components@.len() as int;
    crate::fault::lemma_collected_at(count, f);
    assert(f(i) == Ok::<Part, Fault>(collected(count, f)->Ok_0[i]));
    net_names_stand_in_order(
        request.circuit.nets@,
        request.circuit.nets@.len() as int,
        Seq::empty(),
    );
}

/// A probe of a request observes the net that its pin is on, under its alias or the
/// name of that net.
pub proof fn probes_observe_the_net_of_their_pin(
    request: SimulationRequest,
    program: Program,
    i: int,
)
    requires
        program_of(request) == Ok::<Program, Fault>(program),
        0 <= i < request.probes@.len(),
    ensures
        program.probes.len() == request.probes@.len(),
        ({
            let probe = request.probes@[i];
            let (signal, slot) = program.probes[i];
            &&& 0 <= slot < program.nets.len()
            &&& net_at(
                wires(request.circuit.nets@),
                probe.endpoint.component@,
                probe.endpoint.pin@,
            ) == Some(program.nets[slot])
            &&& match probe.alias {
                Some(alias) => signal == alias@,
                None => signal == "net:"@ + program.nets[slot],
            }
        }),
{
    let nets = request.circuit.nets@;
    let f = |i: int| probe_of(request.probes@[i], nets);
    let count = request.probes@.len() as int;
    crate::fault::lemma_collected_at(count, f);
    assert(f(i) == Ok::<(Seq<char>, int), Fault>(collected(count, f)->Ok_0[i]));
    let probe = request.probes@[i];
    lemma_connected_slot(nets, probe.endpoint.component@, probe.endpoint.pin@);
}

} // verus!
