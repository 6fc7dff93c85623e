//! What logic elements are for, in terms of the levels on their pins.
//!
//! The tables of gates are plain arithmetic on zeros and ones. Everything else is
//! said of the level that an output pin takes when the levels on the input pins
//! are given by name.
use crate::circuit::{Component, Net, PinDirection};
use crate::digital::{
    code, edge_of, gate_of, input_pins, joined_pin, lemma_connected_slot, net_names, numbered,
    output_pins, part_of, primitive_of, DigitalPrimitive, EdgeKind, Part,
};
use crate::events::{evaluated, input, input_or, slot_for, Held};
use crate::fault::{collected, lemma_collected_at, Fault};
use crate::logic::{all_known, bits_of, lemma_bits_of_len, numeric};
use crate::lookup::{pins_are_on_the_nets_that_reach_them, sits};
use crate::reading::{has_pin, pin_failure};
use crate::text::decimal;
use crate::waveform::LogicValue;
use crate::wiring::{net_at, wires};
use vstd::prelude::*;

verus! {

/// The table of a kind of gate, on zeros and ones. A gate with one input has no
/// use for the second.
pub open spec fn truth(kind: Seq<char>, x: int, y: int) -> Option<int> {
    if kind == "buffer"@ {
        Some(x)
    } else if kind == "not_gate"@ {
        Some(1 - x)
    } else if kind == "and_gate"@ {
        Some(x * y)
    } else if kind == "nand_gate"@ {
        Some(1 - x * y)
    } else if kind == "or_gate"@ {
        Some(x + y - x * y)
    } else if kind == "nor_gate"@ {
        Some(1 - (x + y - x * y))
    } else if kind == "xor_gate"@ {
        Some((x + y) % 2)
    } else if kind == "xnor_gate"@ {
        Some((x + y + 1) % 2)
    } else {
        None
    }
}

/// A kind of gate with one input.
pub open spec fn unary(kind: Seq<char>) -> bool {
    kind == "buffer"@ || kind == "not_gate"@
}

/// Zero or one.
pub open spec fn is_bit(x: int) -> bool {
    x == 0 || x == 1
}

/// A level that may turn out to be this bit.
pub open spec fn may_be(level: LogicValue, x: int) -> bool {
    &&& is_bit(x)
    &&& level == LogicValue::Zero ==> x == 0
    &&& level == LogicValue::One ==> x == 1
}

/// The level of a bit.
pub open spec fn level_of_bit(x: int) -> LogicValue {
    if x == 1 {
        LogicValue::One
    } else {
        LogicValue::Zero
    }
}

/// An input pin of a component is on nets of this level.
pub open spec fn reads(part: Part, pin: Seq<char>, nets: Seq<LogicValue>, level: LogicValue) -> bool {
    &&& exists|k: int| 0 <= k < part.inputs.len() && (#[trigger] part.inputs[k]).0 == pin
    &&& forall|k: int|
        0 <= k < part.inputs.len() && (#[trigger] part.inputs[k]).0 == pin
            ==> nets[part.inputs[k].1] == level
}

/// A component has no such input pin.
pub open spec fn lacks(part: Part, pin: Seq<char>) -> bool {
    forall|k: int| 0 <= k < part.inputs.len() ==> (#[trigger] part.inputs[k]).0 != pin
}

/// An input pin that is missing, or low.
pub open spec fn idle(part: Part, pin: Seq<char>, nets: Seq<LogicValue>) -> bool {
    lacks(part, pin) || reads(part, pin, nets, LogicValue::Zero)
}

/// An enabling input that is missing, or high.
pub open spec fn ready(part: Part, pin: Seq<char>, nets: Seq<LogicValue>) -> bool {
    lacks(part, pin) || reads(part, pin, nets, LogicValue::One)
}

/// An output pin of a component takes a level.
pub open spec fn drives(part: Part, levels: Seq<LogicValue>, pin: Seq<char>, level: LogicValue) -> bool {
    exists|k: int|
        0 <= k < part.outputs.len() && k < levels.len() && (#[trigger] part.outputs[k]).0 == pin
            && levels[k] == level
}

/// A component that is evaluated drives its output pins and remembers something.
pub open spec fn acts(
    part: Part,
    nets: Seq<LogicValue>,
    held: Held,
    levels: Seq<LogicValue>,
    after: Held,
) -> bool {
    evaluated(part, nets, held) == Some((levels, after))
}

proof fn lemma_slot(inputs: Seq<(Seq<char>, int)>, pin: Seq<char>)
    ensures
        match slot_for(inputs, pin) {
            Some(slot) => exists|k: int|
                0 <= k < inputs.len() && (#[trigger] inputs[k]).0 == pin && inputs[k].1 == slot,
            None => forall|k: int| 0 <= k < inputs.len() ==> (#[trigger] inputs[k]).0 != pin,
        },
    decreases inputs.len(),
{
    if inputs.len() > 0 {
        let rest = inputs.drop_last();
        lemma_slot(rest, pin);
        match slot_for(rest, pin) {
            Some(slot) => {
                let k = choose|k: int|
                    0 <= k < rest.len() && (#[trigger] rest[k]).0 == pin && rest[k].1 == slot;
                assert(inputs[k] == rest[k]);
            },
            None => {
                assert forall|k: int| 0 <= k < inputs.len() - 1 implies (#[trigger] inputs[k]).0
                    != pin by {
                    assert(rest[k] == inputs[k]);
                }
                let last = inputs.len() - 1;
                assert(inputs[last] == inputs.last());
            },
        }
    }
}

proof fn lemma_reads(part: Part, pin: Seq<char>, nets: Seq<LogicValue>, level: LogicValue)
    requires
        reads(part, pin, nets, level),
    ensures
        input(part, pin, nets) == level,
        slot_for(part.inputs, pin) is Some,
        forall|other: LogicValue| #[trigger] input_or(part, pin, nets, other) == level.buffered(),
{
    lemma_slot(part.inputs, pin);
    let k = choose|k: int| 0 <= k < part.inputs.len() && (#[trigger] part.inputs[k]).0 == pin;
    assert(part.inputs[k].0 == pin);
}

proof fn lemma_lacks(part: Part, pin: Seq<char>, nets: Seq<LogicValue>)
    requires
        lacks(part, pin),
    ensures
        slot_for(part.inputs, pin) is None,
        forall|other: LogicValue| #[trigger] input_or(part, pin, nets, other) == other,
{
    lemma_slot(part.inputs, pin);
}

proof fn lemma_idle(part: Part, pin: Seq<char>, nets: Seq<LogicValue>)
    requires
        idle(part, pin, nets),
    ensures
        input_or(part, pin, nets, LogicValue::Zero) == LogicValue::Zero,
        slot_for(part.inputs, pin) is Some ==> input(part, pin, nets) == LogicValue::Zero,
{
    if lacks(part, pin) {
        lemma_lacks(part, pin, nets);
    } else {
        lemma_reads(part, pin, nets, LogicValue::Zero);
    }
}

proof fn lemma_ready(part: Part, pin: Seq<char>, nets: Seq<LogicValue>)
    requires
        ready(part, pin, nets),
    ensures
        input_or(part, pin, nets, LogicValue::One) == LogicValue::One,
{
    if lacks(part, pin) {
        lemma_lacks(part, pin, nets);
    } else {
        lemma_reads(part, pin, nets, LogicValue::One);
    }
}

proof fn lemma_joined(
    component: Component,
    pins: Seq<Seq<char>>,
    direction: PinDirection,
    nets: Seq<Net>,
    joined: Seq<(Seq<char>, int)>,
)
    requires
        crate::digital::joined_pins(component, pins, direction, nets) == Ok::<
            Seq<(Seq<char>, int)>,
            Fault,
        >(joined),
    ensures
        joined.len() == pins.len(),
        forall|k: int| 0 <= k < pins.len() ==> (#[trigger] joined[k]).0 == pins[k],
{
    let f = |i: int| joined_pin(component, pins[i], direction, nets);
    lemma_collected_at(pins.len() as int, f);
    assert forall|k: int| 0 <= k < pins.len() implies (#[trigger] joined[k]).0 == pins[k] by {
        assert(f(k) == Ok::<(Seq<char>, int), Fault>(collected(pins.len() as int, f)->Ok_0[k]));
    }
}

/// The pins of a compiled component.
pub proof fn lemma_part(component: Component, wiring: Seq<Net>, part: Part)
    requires
        part_of(component, wiring) == Ok::<Part, Fault>(part),
    ensures
        primitive_of(component) == Ok::<DigitalPrimitive, Fault>(part.primitive),
        part.outputs.len() == output_pins(component, part.primitive).len(),
        part.inputs.len() == input_pins(component, part.primitive).len(),
        forall|k: int|
            0 <= k < part.outputs.len() ==> (#[trigger] part.outputs[k]).0 == output_pins(
                component,
                part.primitive,
            )[k],
        forall|k: int|
            0 <= k < part.inputs.len() ==> (#[trigger] part.inputs[k]).0 == input_pins(
                component,
                part.primitive,
            )[k],
{
    lemma_joined(
        component,
        input_pins(component, part.primitive),
        PinDirection::Input,
        wiring,
        part.inputs,
    );
    lemma_joined(
        component,
        output_pins(component, part.primitive),
        PinDirection::Output,
        wiring,
        part.outputs,
    );
}

/// A number made of the length and the first three letters of a word.
pub open spec fn mark(word: Seq<char>) -> int {
    word.len() * 16777216 + (if word.len() > 0 { word[0] as int * 65536 } else { 0 }) + (
    if word.len() > 1 { word[1] as int * 256 } else { 0 }) + (
    if word.len() > 2 { word[2] as int } else { 0 })
}

/// The words for kinds of logic elements all differ.
pub proof fn lemma_words()
    ensures
        mark("buffer"@) == 107115878,
        mark("not_gate"@) == 141455220,
        mark("and_gate"@) == 140602980,
        mark("or_gate"@) == 124744287,
        mark("xor_gate"@) == 142110578,
        mark("nand_gate"@) == 158228846,
        mark("nor_gate"@) == 141455218,
        mark("xnor_gate"@) == 158887535,
        mark("logic_output"@) == 208432999,
        mark("tri_state_buffer"@) == 276066921,
        mark("mux2"@) == 74282360,
        mark("demux2"@) == 107242861,
        mark("decoder2_to_4"@) == 224683363,
        mark("d_latch"@) == 124018540,
        mark("sr_latch"@) == 141783647,
        mark("logic_input"@) == 191655783,
        mark("digital_clock"@) == 224684391,
        mark("d_flip_flop"@) == 191127398,
        mark("jk_flip_flop"@) == 208300895,
        mark("t_flip_flop"@) == 192175974,
        mark("sr_flip_flop"@) == 208892511,
        mark("register"@) == 141714791,
        mark("counter"@) == 123957109,
{
    reveal_strlit("buffer");
    reveal_strlit("not_gate");
    reveal_strlit("and_gate");
    reveal_strlit("or_gate");
    reveal_strlit("xor_gate");
    reveal_strlit("nand_gate");
    reveal_strlit("nor_gate");
    reveal_strlit("xnor_gate");
    reveal_strlit("logic_output");
    reveal_strlit("tri_state_buffer");
    reveal_strlit("mux2");
    reveal_strlit("demux2");
    reveal_strlit("decoder2_to_4");
    reveal_strlit("d_latch");
    reveal_strlit("sr_latch");
    reveal_strlit("logic_input");
    reveal_strlit("digital_clock");
    reveal_strlit("d_flip_flop");
    reveal_strlit("jk_flip_flop");
    reveal_strlit("t_flip_flop");
    reveal_strlit("sr_flip_flop");
    reveal_strlit("register");
    reveal_strlit("counter");
}

/// A gate computes its table: whatever its unknown inputs turn out to be, an
/// output that is known is the table's, known inputs give a known output, and no
/// gate leaves its output undriven.
pub proof fn gates_compute_their_table(
    component: Component,
    wiring: Seq<Net>,
    part: Part,
    nets: Seq<LogicValue>,
    held: Held,
    a: LogicValue,
    b: LogicValue,
    x: int,
    y: int,
)
    requires
        part_of(component, wiring) == Ok::<Part, Fault>(part),
        truth(component.kind@, x, y) is Some,
        may_be(a, x),
        may_be(b, y),
        unary(component.kind@) ==> reads(part, "in"@, nets, a),
        !unary(component.kind@) ==> reads(part, "a"@, nets, a) && reads(part, "b"@, nets, b),
    ensures
        exists|levels: Seq<LogicValue>| #[trigger]
            acts(part, nets, held, levels, held) && levels.len() == 1 && {
                &&& drives(part, levels, "out"@, levels[0])
                &&& levels[0].known() ==> levels[0] == level_of_bit(
                    truth(component.kind@, x, y)->0,
                )
                &&& a.known() && (unary(component.kind@) || b.known()) ==> levels[0].known()
                &&& levels[0] != LogicValue::Z
            },
{
    lemma_words();
    lemma_part(component, wiring, part);
    let kind = component.kind@;
    if unary(kind) {
        lemma_reads(part, "in"@, nets, a);
    } else {
        lemma_reads(part, "a"@, nets, a);
        lemma_reads(part, "b"@, nets, b);
    }
    assert(gate_of(kind) is Some);
    let (levels, _) = evaluated(part, nets, held)->0;
    assert(x * y == 0 || x * y == 1) by (nonlinear_arith)
        requires
            is_bit(x),
            is_bit(y),
    ;
    assert(x == 1 && y == 1 ==> x * y == 1) by (nonlinear_arith);
    assert(x == 0 || y == 0 ==> x * y == 0) by (nonlinear_arith);
    assert(acts(part, nets, held, levels, held));
    assert(part.outputs[0].0 == "out"@);
    assert(drives(part, levels, "out"@, levels[0]));
}

/// A gate is no more unsure than its inputs make it: where its output is unknown,
/// the inputs may still turn out to give either level.
pub proof fn gates_are_as_sure_as_they_can_be(
    component: Component,
    wiring: Seq<Net>,
    part: Part,
    nets: Seq<LogicValue>,
    held: Held,
    a: LogicValue,
    b: LogicValue,
    result: int,
)
    requires
        part_of(component, wiring) == Ok::<Part, Fault>(part),
        truth(component.kind@, 0, 0) is Some,
        unary(component.kind@) ==> reads(part, "in"@, nets, a),
        !unary(component.kind@) ==> reads(part, "a"@, nets, a) && reads(part, "b"@, nets, b),
        is_bit(result),
        evaluated(part, nets, held) matches Some((levels, after)) && !levels[0].known(),
    ensures
        exists|x: int, y: int| #[trigger]
            truth(component.kind@, x, y) == Some(result) && may_be(a, x) && may_be(b, y),
{
    lemma_words();
    lemma_part(component, wiring, part);
    let kind = component.kind@;
    if unary(kind) {
        lemma_reads(part, "in"@, nets, a);
    } else {
        lemma_reads(part, "a"@, nets, a);
        lemma_reads(part, "b"@, nets, b);
    }
    assert(0int * 0int == 0 && 0int * 1int == 0 && 1int * 0int == 0 && 1int * 1int == 1);
    assert(truth(kind, 0, 0) is Some && truth(kind, 0, 1) is Some && truth(kind, 1, 0) is Some
        && truth(kind, 1, 1) is Some);
    let p = if a == LogicValue::One { 1int } else { 0int };
    let q = if b == LogicValue::One { 1int } else { 0int };
    assert(may_be(a, p) && may_be(b, q));
    if a.known() {
        assert(may_be(a, p) && may_be(b, 1 - q));
        assert(truth(kind, p, q) == Some(result) || truth(kind, p, 1 - q) == Some(result));
    } else if b.known() || unary(kind) {
        assert(may_be(a, 1 - p) && may_be(b, q));
        assert(truth(kind, p, q) == Some(result) || truth(kind, 1 - p, q) == Some(result));
    } else {
        assert(may_be(a, 1) && may_be(b, 1) && may_be(a, 0) && may_be(b, 0));
        assert(truth(kind, 0, 0) == Some(result) || truth(kind, 1, 1) == Some(result)
            || truth(kind, 0, 1) == Some(result));
    }
}

/// The other of the two levels; an unknown level has no other.
pub open spec fn opposite(level: LogicValue) -> LogicValue {
    match level {
        LogicValue::Zero => LogicValue::One,
        LogicValue::One => LogicValue::Zero,
        _ => LogicValue::X,
    }
}

/// The level that an element with a clock sees where a net has a level: one that
/// nothing drives is unknown to it.
pub open spec fn perceived(level: LogicValue) -> LogicValue {
    if level == LogicValue::Z {
        LogicValue::X
    } else {
        level
    }
}

/// A kind of element that acts on an edge of its clock.
pub open spec fn edge_triggered(kind: Seq<char>) -> bool {
    kind == "d_flip_flop"@ || kind == "jk_flip_flop"@ || kind == "t_flip_flop"@ || kind
        == "sr_flip_flop"@ || kind == "register"@ || kind == "counter"@
}

/// A kind of element that holds one level.
pub open spec fn one_level(kind: Seq<char>) -> bool {
    kind == "d_flip_flop"@ || kind == "jk_flip_flop"@ || kind == "t_flip_flop"@ || kind
        == "sr_flip_flop"@ || kind == "d_latch"@ || kind == "sr_latch"@
}

/// The clock of a component goes through the edge on which it acts: upwards, or
/// downwards where its parameter asks for that.
pub open spec fn triggered(component: Component, part: Part, nets: Seq<LogicValue>, held: Held) -> bool {
    ||| edge_of(component) == Ok::<EdgeKind, Fault>(EdgeKind::Rising) && held.clock == LogicValue::Zero
        && reads(part, "clk"@, nets, LogicValue::One)
    ||| edge_of(component) == Ok::<EdgeKind, Fault>(EdgeKind::Falling) && held.clock
        == LogicValue::One && reads(part, "clk"@, nets, LogicValue::Zero)
}

/// The clock of a component is at a level and does not go through an edge on which
/// the component acts.
pub open spec fn waiting(
    component: Component,
    part: Part,
    nets: Seq<LogicValue>,
    held: Held,
    clock: LogicValue,
) -> bool {
    &&& reads(part, "clk"@, nets, clock)
    &&& !triggered(component, part, nets, held)
}

/// Neither set nor reset is active.
pub open spec fn undisturbed(part: Part, nets: Seq<LogicValue>) -> bool {
    idle(part, "set"@, nets) && idle(part, "reset"@, nets)
}

/// The primitive of a kind of component that holds something.
pub proof fn lemma_sequential(component: Component, wiring: Seq<Net>, part: Part)
    requires
        part_of(component, wiring) == Ok::<Part, Fault>(part),
    ensures
        component.kind@ == "d_latch"@ ==> part.primitive is DLatch,
        component.kind@ == "sr_latch"@ ==> part.primitive is SRLatch,
        edge_triggered(component.kind@) ==> edge_of(component) is Ok,
        component.kind@ == "d_flip_flop"@ ==> part.primitive == (DigitalPrimitive::DFlipFlop {
            edge: edge_of(component)->Ok_0,
        }),
        component.kind@ == "jk_flip_flop"@ ==> part.primitive == (DigitalPrimitive::JKFlipFlop {
            edge: edge_of(component)->Ok_0,
        }),
        component.kind@ == "t_flip_flop"@ ==> part.primitive == (DigitalPrimitive::TFlipFlop {
            edge: edge_of(component)->Ok_0,
        }),
        component.kind@ == "sr_flip_flop"@ ==> part.primitive == (DigitalPrimitive::SRFlipFlop {
            edge: edge_of(component)->Ok_0,
        }),
        component.kind@ == "register"@ ==> part.primitive == (DigitalPrimitive::Register {
            width: part.outputs.len() as usize,
            edge: edge_of(component)->Ok_0,
        }),
        component.kind@ == "counter"@ ==> part.primitive == (DigitalPrimitive::Counter {
            width: part.outputs.len() as usize,
            edge: edge_of(component)->Ok_0,
        }),
        one_level(component.kind@) ==> {
            &&& part.outputs.len() == if has_pin(component, "nq"@) { 2nat } else { 1nat }
            &&& part.outputs[0].0 == "q"@
            &&& has_pin(component, "nq"@) ==> part.outputs[1].0 == "nq"@
        },
{
    lemma_words();
    lemma_part(component, wiring, part);
}

/// An element that holds one level shows it on `q`, and its opposite on `nq`
/// where it has that pin.
pub proof fn held_level_is_shown(
    component: Component,
    wiring: Seq<Net>,
    part: Part,
    nets: Seq<LogicValue>,
    held: Held,
)
    requires
        part_of(component, wiring) == Ok::<Part, Fault>(part),
        one_level(component.kind@),
    ensures
        exists|levels: Seq<LogicValue>, after: Held| #[trigger]
            acts(part, nets, held, levels, after) && {
                &&& levels.len() == part.outputs.len()
                &&& drives(part, levels, "q"@, after.q)
                &&& has_pin(component, "nq"@) ==> drives(part, levels, "nq"@, opposite(after.q))
                &&& after.bits == held.bits
            },
{
    lemma_sequential(component, wiring, part);
    let (levels, after) = evaluated(part, nets, held)->0;
    assert(acts(part, nets, held, levels, after));
    assert(part.outputs[0].0 == "q"@ && levels[0] == after.q);
    assert(has_pin(component, "nq"@) ==> part.outputs[1].0 == "nq"@ && levels[1] == opposite(
        after.q,
    ));
}

/// An edge-triggered element remembers the level that its clock now has, whatever
/// else it does.
pub proof fn clock_level_is_remembered(
    component: Component,
    wiring: Seq<Net>,
    part: Part,
    nets: Seq<LogicValue>,
    held: Held,
    clock: LogicValue,
)
    requires
        part_of(component, wiring) == Ok::<Part, Fault>(part),
        edge_triggered(component.kind@),
        reads(part, "clk"@, nets, clock),
    ensures
        exists|levels: Seq<LogicValue>, after: Held| #[trigger]
            acts(part, nets, held, levels, after) && after.clock == perceived(clock),
{
    lemma_sequential(component, wiring, part);
    lemma_reads(part, "clk"@, nets, clock);
    let (levels, after) = evaluated(part, nets, held)->0;
    assert(acts(part, nets, held, levels, after));
}

/// At an active edge a J/K flip-flop with both inputs high takes the other level,
/// with J alone high goes high, with K alone high goes low, and with both low stays
/// as it is; an input that is not known leaves it unknown.
pub proof fn jk_flip_flop_obeys_its_inputs(
    component: Component,
    wiring: Seq<Net>,
    part: Part,
    nets: Seq<LogicValue>,
    held: Held,
    j: LogicValue,
    k: LogicValue,
)
    requires
        part_of(component, wiring) == Ok::<Part, Fault>(part),
        component.kind@ == "jk_flip_flop"@,
        undisturbed(part, nets),
        triggered(component, part, nets, held),
        reads(part, "j"@, nets, j),
        reads(part, "k"@, nets, k),
    ensures
        exists|levels: Seq<LogicValue>, after: Held| #[trigger]
            acts(part, nets, held, levels, after) && {
                &&& j == LogicValue::One && k == LogicValue::One && held.q == LogicValue::Zero
                    ==> after.q == LogicValue::One
                &&& j == LogicValue::One && k == LogicValue::One && held.q == LogicValue::One
                    ==> after.q == LogicValue::Zero
                &&& j == LogicValue::One && k == LogicValue::One && !held.q.known() ==> after.q
                    == LogicValue::X
                &&& j == LogicValue::One && k == LogicValue::Zero ==> after.q == LogicValue::One
                &&& j == LogicValue::Zero && k == LogicValue::One ==> after.q == LogicValue::Zero
                &&& j == LogicValue::Zero && k == LogicValue::Zero ==> after.q == held.q
                &&& !j.known() || !k.known() ==> after.q == LogicValue::X
            },
{
    lemma_sequential(component, wiring, part);
    lemma_idle(part, "set"@, nets);
    lemma_idle(part, "reset"@, nets);
    lemma_reads(part, "j"@, nets, j);
    lemma_reads(part, "k"@, nets, k);
    lemma_trigger(component, part, nets, held);
    let (levels, after) = evaluated(part, nets, held)->0;
    assert(acts(part, nets, held, levels, after));
}

proof fn lemma_trigger(component: Component, part: Part, nets: Seq<LogicValue>, held: Held)
    requires
        edge_of(component) is Ok,
    ensures
        triggered(component, part, nets, held) ==> crate::events::edge_seen(
            held.clock,
            input(part, "clk"@, nets).buffered(),
            edge_of(component)->Ok_0,
        ),
        forall|clock: LogicValue| #[trigger]
            reads(part, "clk"@, nets, clock) && !triggered(component, part, nets, held)
                ==> !crate::events::edge_seen(
                held.clock,
                input(part, "clk"@, nets).buffered(),
                edge_of(component)->Ok_0,
            ) && input(part, "clk"@, nets) == clock,
{
    if reads(part, "clk"@, nets, LogicValue::One) {
        lemma_reads(part, "clk"@, nets, LogicValue::One);
    }
    if reads(part, "clk"@, nets, LogicValue::Zero) {
        lemma_reads(part, "clk"@, nets, LogicValue::Zero);
    }
    assert forall|clock: LogicValue| #[trigger]
        reads(part, "clk"@, nets, clock) && !triggered(component, part, nets, held) implies !crate::events::edge_seen(
        held.clock,
        input(part, "clk"@, nets).buffered(),
        edge_of(component)->Ok_0,
    ) && input(part, "clk"@, nets) == clock by {
        lemma_reads(part, "clk"@, nets, clock);
    }
}

/// At an active edge a D flip-flop takes the level of its input.
pub proof fn d_flip_flop_takes_its_input(
    component: Component,
    wiring: Seq<Net>,
    part: Part,
    nets: Seq<LogicValue>,
    held: Held,
    d: LogicValue,
)
    requires
        part_of(component, wiring) == Ok::<Part, Fault>(part),
        component.kind@ == "d_flip_flop"@,
        undisturbed(part, nets),
        triggered(component, part, nets, held),
        reads(part, "d"@, nets, d),
    ensures
        exists|levels: Seq<LogicValue>, after: Held| #[trigger]
            acts(part, nets, held, levels, after) && after.q == perceived(d),
{
    lemma_sequential(component, wiring, part);
    lemma_idle(part, "set"@, nets);
    lemma_idle(part, "reset"@, nets);
    lemma_reads(part, "d"@, nets, d);
    lemma_trigger(component, part, nets, held);
    let (levels, after) = evaluated(part, nets, held)->0;
    assert(acts(part, nets, held, levels, after));
}

/// At an active edge a T flip-flop takes the other level where its input is high,
/// stays as it is where it is low, and is unknown where it is neither.
pub proof fn t_flip_flop_toggles_on_demand(
    component: Component,
    wiring: Seq<Net>,
    part: Part,
    nets: Seq<LogicValue>,
    held: Held,
    t: LogicValue,
)
    requires
        part_of(component, wiring) == Ok::<Part, Fault>(part),
        component.kind@ == "t_flip_flop"@,
        undisturbed(part, nets),
        triggered(component, part, nets, held),
        reads(part, "t"@, nets, t),
    ensures
        exists|levels: Seq<LogicValue>, after: Held| #[trigger]
            acts(part, nets, held, levels, after) && {
                &&& t == LogicValue::One ==> after.q == opposite(held.q)
                &&& t == LogicValue::Zero ==> after.q == held.q
                &&& !t.known() ==> after.q == LogicValue::X
            },
{
    lemma_sequential(component, wiring, part);
    lemma_idle(part, "set"@, nets);
    lemma_idle(part, "reset"@, nets);
    lemma_reads(part, "t"@, nets, t);
    lemma_trigger(component, part, nets, held);
    let (levels, after) = evaluated(part, nets, held)->0;
    assert(acts(part, nets, held, levels, after));
}

/// At an active edge a set/reset flip-flop, and at any time a set/reset latch, is
/// high after S alone, low after R alone, as it was after neither, and unknown
/// otherwise.
pub proof fn set_reset_elements_obey_their_inputs(
    component: Component,
    wiring: Seq<Net>,
    part: Part,
    nets: Seq<LogicValue>,
    held: Held,
    s: LogicValue,
    r: LogicValue,
)
    requires
        part_of(component, wiring) == Ok::<Part, Fault>(part),
        component.kind@ == "sr_latch"@ || (component.kind@ == "sr_flip_flop"@ && triggered(
            component,
            part,
            nets,
            held,
        )),
        undisturbed(part, nets),
        reads(part, "s"@, nets, s),
        reads(part, "r"@, nets, r),
    ensures
        exists|levels: Seq<LogicValue>, after: Held| #[trigger]
            acts(part, nets, held, levels, after) && {
                &&& s == LogicValue::One && r == LogicValue::Zero ==> after.q == LogicValue::One
                &&& s == LogicValue::Zero && r == LogicValue::One ==> after.q == LogicValue::Zero
                &&& s == LogicValue::Zero && r == LogicValue::Zero ==> after.q == held.q
                &&& s == LogicValue::One && r == LogicValue::One ==> after.q == LogicValue::X
                &&& !s.known() || !r.known() ==> after.q == LogicValue::X
            },
{
    lemma_words();
    lemma_sequential(component, wiring, part);
    lemma_idle(part, "set"@, nets);
    lemma_idle(part, "reset"@, nets);
    lemma_reads(part, "s"@, nets, s);
    lemma_reads(part, "r"@, nets, r);
    if component.kind@ == "sr_flip_flop"@ {
        lemma_trigger(component, part, nets, held);
    }
    let (levels, after) = evaluated(part, nets, held)->0;
    assert(acts(part, nets, held, levels, after));
}

/// A D latch follows its input while it is enabled, keeps its level while it is
/// not, and is unknown where that is not known.
pub proof fn d_latch_is_transparent_while_enabled(
    component: Component,
    wiring: Seq<Net>,
    part: Part,
    nets: Seq<LogicValue>,
    held: Held,
    d: LogicValue,
    enable: LogicValue,
)
    requires
        part_of(component, wiring) == Ok::<Part, Fault>(part),
        component.kind@ == "d_latch"@,
        undisturbed(part, nets),
        reads(part, "d"@, nets, d),
        reads(part, "enable"@, nets, enable),
    ensures
        exists|levels: Seq<LogicValue>, after: Held| #[trigger]
            acts(part, nets, held, levels, after) && {
                &&& enable == LogicValue::One ==> after.q == perceived(d)
                &&& enable == LogicValue::Zero ==> after.q == held.q
                &&& !enable.known() ==> after.q == LogicValue::X
            },
{
    lemma_sequential(component, wiring, part);
    lemma_idle(part, "set"@, nets);
    lemma_idle(part, "reset"@, nets);
    lemma_reads(part, "d"@, nets, d);
    lemma_reads(part, "enable"@, nets, enable);
    let (levels, after) = evaluated(part, nets, held)->0;
    assert(acts(part, nets, held, levels, after));
}

/// Set alone makes an element that holds one level high and reset alone makes it
/// low, at once and whatever its other inputs are; both, or one that is not known,
/// leave it unknown.
pub proof fn set_and_reset_win(
    component: Component,
    wiring: Seq<Net>,
    part: Part,
    nets: Seq<LogicValue>,
    held: Held,
)
    requires
        part_of(component, wiring) == Ok::<Part, Fault>(part),
        one_level(component.kind@),
    ensures
        exists|levels: Seq<LogicValue>, after: Held| #[trigger]
            acts(part, nets, held, levels, after) && {
                &&& reads(part, "set"@, nets, LogicValue::One) && idle(part, "reset"@, nets)
                    ==> after.q == LogicValue::One
                &&& idle(part, "set"@, nets) && reads(part, "reset"@, nets, LogicValue::One)
                    ==> after.q == LogicValue::Zero
                &&& reads(part, "set"@, nets, LogicValue::One) && reads(
                    part,
                    "reset"@,
                    nets,
                    LogicValue::One,
                ) ==> after.q == LogicValue::X
                &&& reads(part, "set"@, nets, LogicValue::X) || reads(
                    part,
                    "set"@,
                    nets,
                    LogicValue::Z,
                ) || reads(part, "reset"@, nets, LogicValue::X) || reads(
                    part,
                    "reset"@,
                    nets,
                    LogicValue::Z,
                ) ==> after.q == LogicValue::X
            },
{
    lemma_sequential(component, wiring, part);
    if idle(part, "set"@, nets) {
        lemma_idle(part, "set"@, nets);
    }
    if idle(part, "reset"@, nets) {
        lemma_idle(part, "reset"@, nets);
    }
    assert forall|pin: Seq<char>, level: LogicValue| #[trigger] reads(part, pin, nets, level) implies input_or(
        part,
        pin,
        nets,
        LogicValue::Zero,
    ) == level.buffered() by {
        lemma_reads(part, pin, nets, level);
    }
    let (levels, after) = evaluated(part, nets, held)->0;
    assert(acts(part, nets, held, levels, after));
}

/// Away from an active edge a flip-flop keeps a known level.
pub proof fn flip_flops_wait_for_an_edge(
    component: Component,
    wiring: Seq<Net>,
    part: Part,
    nets: Seq<LogicValue>,
    held: Held,
    clock: LogicValue,
)
    requires
        part_of(component, wiring) == Ok::<Part, Fault>(part),
        one_level(component.kind@),
        edge_triggered(component.kind@),
        undisturbed(part, nets),
        waiting(component, part, nets, held, clock),
        held.q != LogicValue::Z,
    ensures
        exists|levels: Seq<LogicValue>, after: Held| #[trigger]
            acts(part, nets, held, levels, after) && after.q == held.q,
{
    lemma_words();
    lemma_sequential(component, wiring, part);
    lemma_idle(part, "set"@, nets);
    lemma_idle(part, "reset"@, nets);
    lemma_trigger(component, part, nets, held);
    let (levels, after) = evaluated(part, nets, held)->0;
    assert(acts(part, nets, held, levels, after));
}

/// A register or a counter shows each bit that it holds on the output of that
/// number.
pub proof fn held_bits_are_shown(
    component: Component,
    wiring: Seq<Net>,
    part: Part,
    nets: Seq<LogicValue>,
    held: Held,
    i: int,
)
    requires
        part_of(component, wiring) == Ok::<Part, Fault>(part),
        component.kind@ == "register"@ || component.kind@ == "counter"@,
        held.bits.len() == part.outputs.len(),
        part.outputs.len() <= 64,
        0 <= i < held.bits.len(),
    ensures
        exists|levels: Seq<LogicValue>, after: Held| #[trigger]
            acts(part, nets, held, levels, after) && {
                &&& levels.len() == part.outputs.len()
                &&& after.bits.len() == held.bits.len()
                &&& drives(part, levels, "q"@ + decimal(i as nat), after.bits[i])
                &&& after.q == held.q
            },
{
    lemma_words();
    lemma_sequential(component, wiring, part);
    lemma_part(component, wiring, part);
    let (levels, after) = evaluated(part, nets, held)->0;
    crate::events::held_width_is_kept(
        part,
        nets,
        held,
        part.outputs.len(),
        edge_of(component)->Ok_0,
    );
    assert(acts(part, nets, held, levels, after));
    assert(part.outputs[i].0 == "q"@ + decimal(i as nat) && levels[i] == after.bits[i]);
}

/// At an active edge a register that is enabled takes the level of each data
/// input into the bit of that number.
pub proof fn register_takes_its_inputs(
    component: Component,
    wiring: Seq<Net>,
    part: Part,
    nets: Seq<LogicValue>,
    held: Held,
    i: int,
    d: LogicValue,
)
    requires
        part_of(component, wiring) == Ok::<Part, Fault>(part),
        component.kind@ == "register"@,
        0 <= i < part.outputs.len() <= 64,
        idle(part, "reset"@, nets),
        ready(part, "enable"@, nets),
        triggered(component, part, nets, held),
        reads(part, "d"@ + decimal(i as nat), nets, d),
    ensures
        exists|levels: Seq<LogicValue>, after: Held| #[trigger]
            acts(part, nets, held, levels, after) && after.bits.len() == part.outputs.len()
                && after.bits[i] == perceived(d),
{
    lemma_words();
    lemma_sequential(component, wiring, part);
    lemma_idle(part, "reset"@, nets);
    lemma_ready(part, "enable"@, nets);
    lemma_reads(part, "d"@ + decimal(i as nat), nets, d);
    lemma_trigger(component, part, nets, held);
    let (levels, after) = evaluated(part, nets, held)->0;
    assert(acts(part, nets, held, levels, after));
}

/// Every bit of a bus below a place is high.
pub open spec fn high_below(bits: Seq<LogicValue>, i: int) -> bool {
    forall|k: int| 0 <= k < i ==> #[trigger] bits[k] == LogicValue::One
}

proof fn lemma_carry(bits: Seq<LogicValue>, i: int)
    requires
        all_known(bits),
        0 <= i < bits.len(),
    ensures
        bits_of(bits.len(), numeric(bits) + 1).len() == bits.len(),
        bits_of(bits.len(), numeric(bits) + 1)[i] == if high_below(bits, i) {
            opposite(bits[i])
        } else {
            bits[i]
        },
    decreases bits.len(),
{
    let rest = bits.drop_first();
    let more = bits_of(bits.len(), numeric(bits) + 1);
    lemma_bits_of_len(bits.len(), numeric(bits) + 1);
    assert(bits[0].known());
    assert forall|k: int| 0 <= k < rest.len() implies (#[trigger] rest[k]).known() by {
        assert(bits[k + 1].known());
    }
    if bits[0] == LogicValue::One {
        assert((numeric(bits) + 1) / 2 == numeric(rest) + 1);
        if i > 0 {
            lemma_carry(rest, i - 1);
            assert(more[i] == bits_of(rest.len(), numeric(rest) + 1)[i - 1]);
            if high_below(rest, i - 1) {
                assert forall|k: int| 0 <= k < i implies #[trigger] bits[k] == LogicValue::One by {
                    assert(k > 0 ==> rest[k - 1] == bits[k]);
                }
            } else {
                let k = choose|k: int| 0 <= k < i - 1 && #[trigger] rest[k] != LogicValue::One;
                assert(bits[k + 1] != LogicValue::One);
            }
        }
    } else {
        assert((numeric(bits) + 1) / 2 == numeric(rest));
        crate::logic::bus_survives_number(rest);
        if i > 0 {
            assert(more[i] == bits_of(rest.len(), numeric(rest))[i - 1]);
            assert(bits[0] != LogicValue::One);
        }
    }
}

/// At an active edge a counter that is enabled counts up by one in binary: a bit
/// changes exactly where all bits below it are high. Where a bit is not known, none
/// is afterwards.
pub proof fn counter_counts_up(
    component: Component,
    wiring: Seq<Net>,
    part: Part,
    nets: Seq<LogicValue>,
    held: Held,
    i: int,
)
    requires
        part_of(component, wiring) == Ok::<Part, Fault>(part),
        component.kind@ == "counter"@,
        held.bits.len() == part.outputs.len(),
        0 <= i < part.outputs.len() <= 64,
        idle(part, "reset"@, nets),
        ready(part, "enable"@, nets),
        triggered(component, part, nets, held),
    ensures
        exists|levels: Seq<LogicValue>, after: Held| #[trigger]
            acts(part, nets, held, levels, after) && after.bits.len() == held.bits.len() && {
                if forall|k: int| 0 <= k < held.bits.len() ==> (#[trigger] held.bits[k]).known() {
                    after.bits[i] == if high_below(held.bits, i) {
                        opposite(held.bits[i])
                    } else {
                        held.bits[i]
                    }
                } else {
                    after.bits[i] == LogicValue::X
                }
            },
{
    lemma_words();
    lemma_sequential(component, wiring, part);
    lemma_idle(part, "reset"@, nets);
    lemma_ready(part, "enable"@, nets);
    lemma_trigger(component, part, nets, held);
    let (levels, after) = evaluated(part, nets, held)->0;
    if all_known(held.bits) {
        lemma_carry(held.bits, i);
    }
    assert(acts(part, nets, held, levels, after));
}

/// A register or a counter is cleared by reset at once; otherwise it keeps its bits
/// away from an active edge and where it is not enabled, and loses them at an active
/// edge where that is not known.
pub proof fn registers_and_counters_keep_their_bits(
    component: Component,
    wiring: Seq<Net>,
    part: Part,
    nets: Seq<LogicValue>,
    held: Held,
    clock: LogicValue,
)
    requires
        part_of(component, wiring) == Ok::<Part, Fault>(part),
        component.kind@ == "register"@ || component.kind@ == "counter"@,
        part.outputs.len() <= 64,
        reads(part, "clk"@, nets, clock),
    ensures
        exists|levels: Seq<LogicValue>, after: Held| #[trigger]
            acts(part, nets, held, levels, after) && {
                &&& reads(part, "reset"@, nets, LogicValue::One) ==> after.bits.len()
                    == part.outputs.len() && forall|i: int|
                    0 <= i < after.bits.len() ==> #[trigger] after.bits[i] == LogicValue::Zero
                &&& idle(part, "reset"@, nets) && waiting(component, part, nets, held, clock)
                    ==> after.bits == held.bits
                &&& idle(part, "reset"@, nets) && reads(part, "enable"@, nets, LogicValue::Zero)
                    ==> after.bits == held.bits
                &&& idle(part, "reset"@, nets) && triggered(component, part, nets, held) && (reads(
                    part,
                    "enable"@,
                    nets,
                    LogicValue::X,
                ) || reads(part, "enable"@, nets, LogicValue::Z)) ==> after.bits.len()
                    == part.outputs.len() && forall|i: int|
                    0 <= i < after.bits.len() ==> #[trigger] after.bits[i] == LogicValue::X
            },
{
    lemma_words();
    lemma_sequential(component, wiring, part);
    if idle(part, "reset"@, nets) {
        lemma_idle(part, "reset"@, nets);
    }
    lemma_trigger(component, part, nets, held);
    lemma_reads(part, "clk"@, nets, clock);
    assert forall|pin: Seq<char>, level: LogicValue| #[trigger] reads(part, pin, nets, level) implies input_or(
        part,
        pin,
        nets,
        LogicValue::One,
    ) == level.buffered() && input(part, pin, nets) == level && slot_for(part.inputs, pin) is Some by {
        lemma_reads(part, pin, nets, level);
    }
    let (levels, after) = evaluated(part, nets, held)->0;
    assert(acts(part, nets, held, levels, after));
}

/// A tri-state buffer hands its input on while it is enabled, drives nothing while
/// it is not, and is unknown where that is not known.
pub proof fn tri_state_buffer_lets_go(
    component: Component,
    wiring: Seq<Net>,
    part: Part,
    nets: Seq<LogicValue>,
    held: Held,
    level: LogicValue,
    enable: LogicValue,
)
    requires
        part_of(component, wiring) == Ok::<Part, Fault>(part),
        component.kind@ == "tri_state_buffer"@,
        reads(part, "in"@, nets, level),
        reads(part, "enable"@, nets, enable),
    ensures
        exists|levels: Seq<LogicValue>| #[trigger]
            acts(part, nets, held, levels, held) && levels.len() == 1 && {
                &&& enable == LogicValue::One ==> drives(part, levels, "out"@, perceived(level))
                &&& enable == LogicValue::Zero ==> drives(part, levels, "out"@, LogicValue::Z)
                &&& !enable.known() ==> drives(part, levels, "out"@, LogicValue::X)
            },
{
    lemma_words();
    lemma_part(component, wiring, part);
    lemma_reads(part, "in"@, nets, level);
    lemma_reads(part, "enable"@, nets, enable);
    let (levels, _) = evaluated(part, nets, held)->0;
    assert(acts(part, nets, held, levels, held));
    assert(part.outputs[0].0 == "out"@);
}

/// A multiplexer hands on the input that is selected, and where that is not known
/// what both inputs agree on.
pub proof fn multiplexer_selects(
    component: Component,
    wiring: Seq<Net>,
    part: Part,
    nets: Seq<LogicValue>,
    held: Held,
    a: LogicValue,
    b: LogicValue,
    sel: LogicValue,
)
    requires
        part_of(component, wiring) == Ok::<Part, Fault>(part),
        component.kind@ == "mux2"@,
        reads(part, "a"@, nets, a),
        reads(part, "b"@, nets, b),
        reads(part, "sel"@, nets, sel),
    ensures
        exists|levels: Seq<LogicValue>| #[trigger]
            acts(part, nets, held, levels, held) && levels.len() == 1 && {
                &&& sel == LogicValue::Zero ==> drives(part, levels, "out"@, perceived(a))
                &&& sel == LogicValue::One ==> drives(part, levels, "out"@, perceived(b))
                &&& !sel.known() && perceived(a) == perceived(b) ==> drives(
                    part,
                    levels,
                    "out"@,
                    perceived(a),
                )
                &&& !sel.known() && perceived(a) != perceived(b) ==> drives(
                    part,
                    levels,
                    "out"@,
                    LogicValue::X,
                )
            },
{
    lemma_words();
    lemma_part(component, wiring, part);
    lemma_reads(part, "a"@, nets, a);
    lemma_reads(part, "b"@, nets, b);
    lemma_reads(part, "sel"@, nets, sel);
    let (levels, _) = evaluated(part, nets, held)->0;
    assert(acts(part, nets, held, levels, held));
    assert(part.outputs[0].0 == "out"@);
}

/// A demultiplexer hands its input to the output that is selected and keeps the
/// other low; neither is known where the selection is not.
pub proof fn demultiplexer_selects(
    component: Component,
    wiring: Seq<Net>,
    part: Part,
    nets: Seq<LogicValue>,
    held: Held,
    level: LogicValue,
    sel: LogicValue,
)
    requires
        part_of(component, wiring) == Ok::<Part, Fault>(part),
        component.kind@ == "demux2"@,
        reads(part, "in"@, nets, level),
        reads(part, "sel"@, nets, sel),
    ensures
        exists|levels: Seq<LogicValue>| #[trigger]
            acts(part, nets, held, levels, held) && levels.len() == 2 && {
                &&& sel == LogicValue::Zero ==> drives(part, levels, "a"@, perceived(level)) && drives(
                    part,
                    levels,
                    "b"@,
                    LogicValue::Zero,
                )
                &&& sel == LogicValue::One ==> drives(part, levels, "b"@, perceived(level)) && drives(
                    part,
                    levels,
                    "a"@,
                    LogicValue::Zero,
                )
                &&& !sel.known() ==> drives(part, levels, "a"@, LogicValue::X) && drives(
                    part,
                    levels,
                    "b"@,
                    LogicValue::X,
                )
            },
{
    lemma_words();
    lemma_part(component, wiring, part);
    lemma_reads(part, "in"@, nets, level);
    lemma_reads(part, "sel"@, nets, sel);
    let (levels, _) = evaluated(part, nets, held)->0;
    assert(acts(part, nets, held, levels, held));
    assert(part.outputs[0].0 == "a"@ && part.outputs[1].0 == "b"@);
}

/// A decoder that is enabled makes the output high whose number has `a` as its low
/// and `b` as its high binary digit, and the others low; all are low where it is not
/// enabled and unknown where it cannot tell.
pub proof fn decoder_counts_in_binary(
    component: Component,
    wiring: Seq<Net>,
    part: Part,
    nets: Seq<LogicValue>,
    held: Held,
    a: LogicValue,
    b: LogicValue,
    enable: LogicValue,
    i: int,
)
    requires
        part_of(component, wiring) == Ok::<Part, Fault>(part),
        component.kind@ == "decoder2_to_4"@,
        reads(part, "a"@, nets, a),
        reads(part, "b"@, nets, b),
        reads(part, "enable"@, nets, enable),
        0 <= i < 4,
    ensures
        exists|levels: Seq<LogicValue>| #[trigger]
            acts(part, nets, held, levels, held) && levels.len() == 4 && drives(
                part,
                levels,
                "y"@ + decimal(i as nat),
                if enable == LogicValue::Zero {
                    LogicValue::Zero
                } else if !enable.known() || !a.known() || !b.known() {
                    LogicValue::X
                } else if level_of_bit(i % 2) == a && level_of_bit(i / 2) == b {
                    LogicValue::One
                } else {
                    LogicValue::Zero
                },
            ),
{
    lemma_words();
    lemma_part(component, wiring, part);
    lemma_reads(part, "a"@, nets, a);
    lemma_reads(part, "b"@, nets, b);
    lemma_reads(part, "enable"@, nets, enable);
    let (levels, _) = evaluated(part, nets, held)->0;
    assert(acts(part, nets, held, levels, held));
    assert(part.outputs[i].0 == "y"@ + decimal(i as nat));
}

/// The names of the pins of logic elements all differ.
proof fn lemma_pin_words()
    ensures
        mark("in"@) == 40463872,
        mark("a"@) == 23134208,
        mark("b"@) == 23199744,
        mark("out"@) == 57636212,
        mark("enable"@) == 107310689,
        mark("sel"@) == 57894252,
        mark("d"@) == 23330816,
        mark("s"@) == 24313856,
        mark("r"@) == 24248320,
        mark("j"@) == 23724032,
        mark("k"@) == 23789568,
        mark("t"@) == 24379392,
        mark("clk"@) == 56847467,
        mark("set"@) == 57894260,
        mark("reset"@) == 91383155,
        mark("q"@) == 24182784,
        mark("nq"@) == 40792320,
        mark("y"@) == 24707072,
        "d"@.len() == 1,
        "d"@[0] == 'd',
        "enable"@.len() > 0,
        "enable"@[0] == 'e',
        "reset"@.len() > 0,
        "reset"@[0] == 'r',
{
    reveal_strlit("in");
    reveal_strlit("a");
    reveal_strlit("b");
    reveal_strlit("out");
    reveal_strlit("enable");
    reveal_strlit("sel");
    reveal_strlit("d");
    reveal_strlit("s");
    reveal_strlit("r");
    reveal_strlit("j");
    reveal_strlit("k");
    reveal_strlit("t");
    reveal_strlit("clk");
    reveal_strlit("set");
    reveal_strlit("reset");
    reveal_strlit("q");
    reveal_strlit("nq");
    reveal_strlit("y");
}

/// A component has an input pin.
pub open spec fn takes(part: Part, pin: Seq<char>) -> bool {
    exists|k: int| 0 <= k < part.inputs.len() && (#[trigger] part.inputs[k]).0 == pin
}

/// A component has an output pin.
pub open spec fn offers(part: Part, pin: Seq<char>) -> bool {
    exists|k: int| 0 <= k < part.outputs.len() && (#[trigger] part.outputs[k]).0 == pin
}

/// A pin of a component is on a net, by the net's place among the names of all nets.
pub open spec fn joins(component: Component, wiring: Seq<Net>, pin: Seq<char>, slot: int) -> bool {
    let names = net_names(wiring, wiring.len() as int);
    &&& 0 <= slot < names.len()
    &&& sits(wiring, component.id@, pin, names[slot])
}

/// Each pin of a compiled component is on a net that has an endpoint at that pin,
/// and the component lists the pin as a digital one of that direction.
pub proof fn compiled_pins_are_joined(component: Component, wiring: Seq<Net>, part: Part, k: int)
    requires
        part_of(component, wiring) == Ok::<Part, Fault>(part),
    ensures
        0 <= k < part.inputs.len() ==> joins(
            component,
            wiring,
            part.inputs[k].0,
            part.inputs[k].1,
        ) && pin_failure(code(), component, part.inputs[k].0, PinDirection::Input) is None,
        0 <= k < part.outputs.len() ==> joins(
            component,
            wiring,
            part.outputs[k].0,
            part.outputs[k].1,
        ) && pin_failure(code(), component, part.outputs[k].0, PinDirection::Output) is None,
{
    if 0 <= k < part.inputs.len() {
        lemma_slots(
            component,
            input_pins(component, part.primitive),
            PinDirection::Input,
            wiring,
            part.inputs,
            k,
        );
    }
    if 0 <= k < part.outputs.len() {
        lemma_slots(
            component,
            output_pins(component, part.primitive),
            PinDirection::Output,
            wiring,
            part.outputs,
            k,
        );
    }
}

proof fn lemma_slots(
    component: Component,
    pins: Seq<Seq<char>>,
    direction: PinDirection,
    nets: Seq<Net>,
    joined: Seq<(Seq<char>, int)>,
    k: int,
)
    requires
        crate::digital::joined_pins(component, pins, direction, nets) == Ok::<
            Seq<(Seq<char>, int)>,
            Fault,
        >(joined),
        0 <= k < joined.len(),
    ensures
        joins(component, nets, joined[k].0, joined[k].1),
        pin_failure(code(), component, joined[k].0, direction) is None,
{
    let f = |i: int| joined_pin(component, pins[i], direction, nets);
    lemma_collected_at(pins.len() as int, f);
    assert(f(k) == Ok::<(Seq<char>, int), Fault>(collected(pins.len() as int, f)->Ok_0[k]));
    let pin = pins[k];
    let net = net_at(wires(nets), component.id@, pin)->0;
    pins_are_on_the_nets_that_reach_them(nets, component.id@, pin, net);
    lemma_connected_slot(nets, component.id@, pin);
}

proof fn lemma_takes(component: Component, wiring: Seq<Net>, part: Part)
    requires
        part_of(component, wiring) == Ok::<Part, Fault>(part),
    ensures
        forall|pin: Seq<char>| #[trigger]
            takes(part, pin) <==> input_pins(component, part.primitive).contains(pin),
        forall|pin: Seq<char>| #[trigger]
            offers(part, pin) <==> output_pins(component, part.primitive).contains(pin),
{
    lemma_part(component, wiring, part);
    let ins = input_pins(component, part.primitive);
    let outs = output_pins(component, part.primitive);
    assert forall|pin: Seq<char>| #[trigger] takes(part, pin) <==> ins.contains(pin) by {
        if takes(part, pin) {
            let k = choose|k: int| 0 <= k < part.inputs.len() && (#[trigger] part.inputs[k]).0 == pin;
            assert(ins[k] == pin);
        }
        if ins.contains(pin) {
            let k = choose|k: int| 0 <= k < ins.len() && ins[k] == pin;
            assert(part.inputs[k].0 == pin);
        }
    }
    assert forall|pin: Seq<char>| #[trigger] offers(part, pin) <==> outs.contains(pin) by {
        if offers(part, pin) {
            let k = choose|k: int| 0 <= k < part.outputs.len() && (#[trigger] part.outputs[k]).0 == pin;
            assert(outs[k] == pin);
        }
        if outs.contains(pin) {
            let k = choose|k: int| 0 <= k < outs.len() && outs[k] == pin;
            assert(part.outputs[k].0 == pin);
        }
    }
}

/// The first pins of a list are in it.
proof fn lemma_first_pins(pins: Seq<Seq<char>>)
    ensures
        pins.len() > 0 ==> pins.contains(pins[0]),
        pins.len() > 1 ==> pins.contains(pins[1]),
        pins.len() > 2 ==> pins.contains(pins[2]),
{
}

/// Every compiled gate takes its inputs and has its output; a source of levels has
/// an output and takes nothing.
pub proof fn gates_have_their_pins(component: Component, wiring: Seq<Net>, part: Part)
    requires
        part_of(component, wiring) == Ok::<Part, Fault>(part),
    ensures
        truth(component.kind@, 0, 0) is Some ==> offers(part, "out"@) && if unary(component.kind@) {
            takes(part, "in"@)
        } else {
            takes(part, "a"@) && takes(part, "b"@)
        },
        component.kind@ == "logic_input"@ || component.kind@ == "digital_clock"@ ==> offers(
            part,
            "out"@,
        ) && part.inputs.len() == 0,
        component.kind@ == "logic_output"@ ==> takes(part, "in"@) && part.outputs.len() == 0,
{
    lemma_words();
    lemma_part(component, wiring, part);
    lemma_takes(component, wiring, part);
    lemma_first_pins(input_pins(component, part.primitive));
    lemma_first_pins(output_pins(component, part.primitive));
}

/// Every compiled selecting element has the pins that it works on.
pub proof fn selectors_have_their_pins(component: Component, wiring: Seq<Net>, part: Part, i: int)
    requires
        part_of(component, wiring) == Ok::<Part, Fault>(part),
    ensures
        component.kind@ == "tri_state_buffer"@ ==> takes(part, "in"@) && takes(part, "enable"@)
            && offers(part, "out"@),
        component.kind@ == "mux2"@ ==> takes(part, "a"@) && takes(part, "b"@) && takes(part, "sel"@)
            && offers(part, "out"@),
        component.kind@ == "demux2"@ ==> takes(part, "in"@) && takes(part, "sel"@) && offers(
            part,
            "a"@,
        ) && offers(part, "b"@),
        component.kind@ == "decoder2_to_4"@ ==> takes(part, "a"@) && takes(part, "b"@) && takes(
            part,
            "enable"@,
        ) && (0 <= i < 4 ==> offers(part, "y"@ + decimal(i as nat))),
{
    lemma_words();
    lemma_part(component, wiring, part);
    lemma_takes(component, wiring, part);
    let outs = output_pins(component, part.primitive);
    lemma_first_pins(input_pins(component, part.primitive));
    lemma_first_pins(outs);
    assert(0 <= i < outs.len() ==> outs.contains(outs[i]));
}

/// Every compiled element that holds one level has the pins that it works on, and
/// of the optional ones those that the component lists.
pub proof fn level_elements_have_their_pins(component: Component, wiring: Seq<Net>, part: Part)
    requires
        part_of(component, wiring) == Ok::<Part, Fault>(part),
        one_level(component.kind@),
    ensures
        component.kind@ == "d_latch"@ ==> takes(part, "d"@) && takes(part, "enable"@),
        component.kind@ == "sr_latch"@ ==> takes(part, "s"@) && takes(part, "r"@),
        component.kind@ == "d_flip_flop"@ ==> takes(part, "d"@),
        component.kind@ == "jk_flip_flop"@ ==> takes(part, "j"@) && takes(part, "k"@),
        component.kind@ == "t_flip_flop"@ ==> takes(part, "t"@),
        component.kind@ == "sr_flip_flop"@ ==> takes(part, "s"@) && takes(part, "r"@),
        edge_triggered(component.kind@) ==> takes(part, "clk"@),
        offers(part, "q"@),
        offers(part, "nq"@) <==> has_pin(component, "nq"@),
        takes(part, "set"@) <==> has_pin(component, "set"@),
        takes(part, "reset"@) <==> has_pin(component, "reset"@),
{
    lemma_words();
    lemma_pin_words();
    lemma_sequential(component, wiring, part);
    lemma_takes(component, wiring, part);
    let ins = input_pins(component, part.primitive);
    lemma_first_pins(ins);
    lemma_first_pins(output_pins(component, part.primitive));
    let more = crate::digital::optional_pins(component, "set"@, "reset"@);
    let own = ins.take(ins.len() - more.len());
    assert(own + more =~= ins);
    assert(own.len() <= 3);
    assert(forall|k: int| 0 <= k < own.len() ==> #[trigger] own[k] != "set"@ && own[k] != "reset"@);
    lemma_options(component, "set"@, "reset"@, own);
}

/// Every compiled register and counter has the pins that it works on, and of the
/// optional ones those that the component lists.
pub proof fn bit_elements_have_their_pins(
    component: Component,
    wiring: Seq<Net>,
    part: Part,
    i: int,
)
    requires
        part_of(component, wiring) == Ok::<Part, Fault>(part),
        component.kind@ == "register"@ || component.kind@ == "counter"@,
    ensures
        0 <= i < part.outputs.len() && component.kind@ == "register"@ ==> takes(
            part,
            "d"@ + decimal(i as nat),
        ),
        0 <= i < part.outputs.len() ==> offers(part, "q"@ + decimal(i as nat)),
        takes(part, "clk"@),
        takes(part, "reset"@) <==> has_pin(component, "reset"@),
        takes(part, "enable"@) <==> has_pin(component, "enable"@),
{
    lemma_words();
    lemma_pin_words();
    lemma_sequential(component, wiring, part);
    lemma_part(component, wiring, part);
    lemma_takes(component, wiring, part);
    let ins = input_pins(component, part.primitive);
    let outs = output_pins(component, part.primitive);
    assert(0 <= i < outs.len() ==> outs.contains(outs[i]));
    if component.kind@ == "register"@ {
        let w = part.outputs.len() as int;
        let data = numbered("d"@, w as nat);
        let own = data + seq!["clk"@];
        assert(0 <= i < w ==> ins[i] == "d"@ + decimal(i as nat));
        assert(ins[w] == "clk"@);
        assert(ins.contains(ins[w]));
        assert(0 <= i < w ==> ins.contains(ins[i]));
        assert forall|k: int| 0 <= k < own.len() implies #[trigger] own[k] != "enable"@ && own[k]
            != "reset"@ by {
            if k < w {
                assert(own[k] == "d"@ + decimal(k as nat));
                assert(("d"@ + decimal(k as nat))[0] == "d"@[0]);
            }
        }
        lemma_options(component, "enable"@, "reset"@, own);
    } else {
        assert(ins.contains(ins[0]));
        lemma_options(component, "enable"@, "reset"@, seq!["clk"@]);
    }
}

proof fn lemma_options(component: Component, a: Seq<char>, b: Seq<char>, own: Seq<Seq<char>>)
    requires
        !own.contains(a),
        !own.contains(b),
        a != b,
    ensures
        (own + crate::digital::optional_pins(component, a, b)).contains(a) <==> has_pin(component, a),
        (own + crate::digital::optional_pins(component, a, b)).contains(b) <==> has_pin(component, b),
{
    let more = crate::digital::optional_pins(component, a, b);
    let all = own + more;
    if has_pin(component, a) {
        assert(all[own.len() as int] == a);
    }
    if has_pin(component, b) {
        assert(all[all.len() - 1] == b);
    }
    assert forall|i: int| 0 <= i < own.len() implies all[i] != a && all[i] != b by {
        assert(own.contains(own[i]));
    }
}

} // verus!
