//! The event-driven evaluation of digital programs.
use crate::digital::{
    sound_part, CompiledDigitalComponent, DigitalPrimitive, EdgeKind, GateKind, Part,
};
use crate::logic::{all_unknown, copy_levels, fill_levels, increment_bits, incremented};
use crate::text::{cat2, decimal, decimal_text, text_eq};
use crate::waveform::LogicValue;
use vstd::prelude::*;

verus! {

/// What a component remembers.
#[derive(Debug, PartialEq, Eq)]
pub struct RuntimeState {
    pub q: LogicValue,
    pub bits: Vec<LogicValue>,
    pub previous_clock: LogicValue,
}

pub struct Held {
    pub q: LogicValue,
    pub bits: Seq<LogicValue>,
    pub clock: LogicValue,
}

impl View for RuntimeState {
    type V = Held;

    open spec fn view(&self) -> Held {
        Held { q: self.q, bits: self.bits@, clock: self.previous_clock }
    }
}

/// The place of the net that an input pin is on.
pub open spec fn slot_for(inputs: Seq<(Seq<char>, int)>, pin: Seq<char>) -> Option<int>
    decreases inputs.len(),
{
    if inputs.len() == 0 {
        None
    } else {
        match slot_for(inputs.drop_last(), pin) {
            Some(slot) => Some(slot),
            None => if inputs.last().0 == pin {
                Some(inputs.last().1)
            } else {
                None
            },
        }
    }
}

/// The level on an input pin: low where the component has no such pin.
pub open spec fn input(part: Part, pin: Seq<char>, nets: Seq<LogicValue>) -> LogicValue {
    match slot_for(part.inputs, pin) {
        Some(slot) => nets[slot],
        None => LogicValue::Zero,
    }
}

/// The level on an optional input pin, or another where it is missing.
pub open spec fn input_or(
    part: Part,
    pin: Seq<char>,
    nets: Seq<LogicValue>,
    other: LogicValue,
) -> LogicValue {
    if slot_for(part.inputs, pin) is Some {
        input(part, pin, nets).buffered()
    } else {
        other
    }
}

pub open spec fn gate_level(kind: GateKind, part: Part, nets: Seq<LogicValue>) -> LogicValue {
    let a = input(part, "a"@, nets);
    let b = input(part, "b"@, nets);
    match kind {
        GateKind::Buffer => input(part, "in"@, nets).buffered(),
        GateKind::Not => input(part, "in"@, nets).inverted(),
        GateKind::And => a.conjoined(b),
        GateKind::Or => a.disjoined(b),
        GateKind::Xor => a.exclusive(b),
        GateKind::Nand => a.conjoined(b).inverted(),
        GateKind::Nor => a.disjoined(b).inverted(),
        GateKind::Xnor => a.exclusive(b).inverted(),
    }
}

/// The level that set and reset force, if either is active.
pub open spec fn forced(part: Part, nets: Seq<LogicValue>) -> Option<LogicValue> {
    let set = input_or(part, "set"@, nets, LogicValue::Zero);
    let reset = input_or(part, "reset"@, nets, LogicValue::Zero);
    if set == LogicValue::Zero && reset == LogicValue::Zero {
        None
    } else if set == LogicValue::One && reset == LogicValue::Zero {
        Some(LogicValue::One)
    } else if set == LogicValue::Zero && reset == LogicValue::One {
        Some(LogicValue::Zero)
    } else {
        Some(LogicValue::X)
    }
}

/// What a set/reset element holds next.
pub open spec fn set_reset(current: LogicValue, set: LogicValue, reset: LogicValue) -> LogicValue {
    let s = set.buffered();
    let r = reset.buffered();
    if s == LogicValue::Zero && r == LogicValue::Zero {
        current
    } else if s == LogicValue::One && r == LogicValue::Zero {
        LogicValue::One
    } else if s == LogicValue::Zero && r == LogicValue::One {
        LogicValue::Zero
    } else {
        LogicValue::X
    }
}

/// What a J/K element holds after an active edge.
pub open spec fn jk_next(current: LogicValue, j: LogicValue, k: LogicValue) -> LogicValue {
    if !j.known() || !k.known() {
        LogicValue::X
    } else if j == LogicValue::Zero && k == LogicValue::Zero {
        current
    } else if j == LogicValue::Zero {
        LogicValue::Zero
    } else if k == LogicValue::Zero {
        LogicValue::One
    } else {
        current.inverted()
    }
}

pub open spec fn t_next(current: LogicValue, t: LogicValue) -> LogicValue {
    if t == LogicValue::Zero {
        current
    } else if t == LogicValue::One {
        current.inverted()
    } else {
        LogicValue::X
    }
}

/// The outputs of an element that holds a level: the level, and its inverse
/// on a second output.
pub open spec fn level_outputs(q: LogicValue, count: nat) -> Seq<LogicValue> {
    if count == 0 {
        Seq::empty()
    } else if count == 1 {
        seq![q]
    } else {
        seq![q, q.inverted()]
    }
}

pub open spec fn edge_seen(previous: LogicValue, current: LogicValue, edge: EdgeKind) -> bool {
    match edge {
        EdgeKind::Rising => previous == LogicValue::Zero && current == LogicValue::One,
        EdgeKind::Falling => previous == LogicValue::One && current == LogicValue::Zero,
    }
}

pub open spec fn low_levels(width: nat) -> Seq<LogicValue> {
    Seq::new(width, |i: int| LogicValue::Zero)
}

pub open spec fn tri_state_level(part: Part, nets: Seq<LogicValue>) -> LogicValue {
    match input(part, "enable"@, nets).buffered() {
        LogicValue::Zero => LogicValue::Z,
        LogicValue::One => input(part, "in"@, nets).buffered(),
        _ => LogicValue::X,
    }
}

pub open spec fn mux_level(part: Part, nets: Seq<LogicValue>) -> LogicValue {
    let a = input(part, "a"@, nets).buffered();
    let b = input(part, "b"@, nets).buffered();
    match input(part, "sel"@, nets).buffered() {
        LogicValue::Zero => a,
        LogicValue::One => b,
        _ => if a == b {
            a
        } else {
            LogicValue::X
        },
    }
}

pub open spec fn demux_levels(part: Part, nets: Seq<LogicValue>) -> Seq<LogicValue> {
    let level = input(part, "in"@, nets).buffered();
    match input(part, "sel"@, nets).buffered() {
        LogicValue::Zero => seq![level, LogicValue::Zero],
        LogicValue::One => seq![LogicValue::Zero, level],
        _ => seq![LogicValue::X, LogicValue::X],
    }
}

pub open spec fn decoder_levels(part: Part, nets: Seq<LogicValue>) -> Seq<LogicValue> {
    let enable = input(part, "enable"@, nets).buffered();
    let a = input(part, "a"@, nets).buffered();
    let b = input(part, "b"@, nets).buffered();
    if enable == LogicValue::Zero {
        low_levels(4)
    } else if enable != LogicValue::One || !a.known() || !b.known() {
        all_unknown(4)
    } else {
        let chosen = (if a == LogicValue::One {
            1int
        } else {
            0int
        }) + (if b == LogicValue::One {
            2int
        } else {
            0int
        });
        Seq::new(
            4,
            |i: int|
                if i == chosen {
                    LogicValue::One
                } else {
                    LogicValue::Zero
                },
        )
    }
}

/// What an element with a level and a clock input holds next.
pub open spec fn clocked_level(
    part: Part,
    nets: Seq<LogicValue>,
    held: Held,
    edge: EdgeKind,
) -> LogicValue {
    let clock = input(part, "clk"@, nets).buffered();
    match forced(part, nets) {
        Some(level) => level,
        None => if edge_seen(held.clock, clock, edge) {
            match part.primitive {
                DigitalPrimitive::DFlipFlop { .. } => input(part, "d"@, nets).buffered(),
                DigitalPrimitive::JKFlipFlop { .. } => jk_next(
                    held.q,
                    input(part, "j"@, nets).buffered(),
                    input(part, "k"@, nets).buffered(),
                ),
                DigitalPrimitive::TFlipFlop { .. } => t_next(
                    held.q,
                    input(part, "t"@, nets).buffered(),
                ),
                _ => set_reset(held.q, input(part, "s"@, nets), input(part, "r"@, nets)),
            }
        } else if part.primitive is DFlipFlop && clock == LogicValue::X {
            held.q.buffered()
        } else {
            held.q
        },
    }
}

/// What a latch holds next.
pub open spec fn latched_level(part: Part, nets: Seq<LogicValue>, held: Held) -> LogicValue {
    match forced(part, nets) {
        Some(level) => level,
        None => if part.primitive is DLatch {
            match input(part, "enable"@, nets).buffered() {
                LogicValue::One => input(part, "d"@, nets).buffered(),
                LogicValue::Zero => held.q,
                _ => LogicValue::X,
            }
        } else {
            set_reset(held.q, input(part, "s"@, nets), input(part, "r"@, nets))
        },
    }
}

/// The levels on the data inputs of a register.
pub open spec fn data_levels(part: Part, nets: Seq<LogicValue>, width: nat) -> Seq<LogicValue> {
    Seq::new(width, |i: int| input(part, "d"@ + decimal(i as nat), nets).buffered())
}

/// What a register or counter holds next.
pub open spec fn clocked_bits(
    part: Part,
    nets: Seq<LogicValue>,
    held: Held,
    width: nat,
    edge: EdgeKind,
) -> Seq<LogicValue> {
    let clock = input(part, "clk"@, nets).buffered();
    if slot_for(part.inputs, "reset"@) is Some && input(part, "reset"@, nets) == LogicValue::One {
        low_levels(width)
    } else if edge_seen(held.clock, clock, edge) {
        match input_or(part, "enable"@, nets, LogicValue::One) {
            LogicValue::Zero => held.bits,
            LogicValue::One => if part.primitive is Register {
                data_levels(part, nets, width)
            } else {
                incremented(held.bits)
            },
            _ => all_unknown(width),
        }
    } else {
        held.bits
    }
}

/// The outputs of a component and what it then remembers; nothing for a
/// source or a sink.
pub open spec fn evaluated(part: Part, nets: Seq<LogicValue>, held: Held) -> Option<
    (Seq<LogicValue>, Held),
> {
    let clock = input(part, "clk"@, nets).buffered();
    match part.primitive {
        DigitalPrimitive::Gate(kind) => Some((seq![gate_level(kind, part, nets)], held)),
        DigitalPrimitive::TriState => Some((seq![tri_state_level(part, nets)], held)),
        DigitalPrimitive::Mux2 => Some((seq![mux_level(part, nets)], held)),
        DigitalPrimitive::Demux2 => Some((demux_levels(part, nets), held)),
        DigitalPrimitive::Decoder2To4 => Some((decoder_levels(part, nets), held)),
        DigitalPrimitive::DLatch | DigitalPrimitive::SRLatch => {
            let q = latched_level(part, nets, held);
            Some((level_outputs(q, part.outputs.len()), Held { q, ..held }))
        },
        DigitalPrimitive::DFlipFlop { edge } | DigitalPrimitive::JKFlipFlop { edge }
        | DigitalPrimitive::TFlipFlop { edge } | DigitalPrimitive::SRFlipFlop { edge } => {
            let q = clocked_level(part, nets, held, edge);
            Some((level_outputs(q, part.outputs.len()), Held { q, clock, ..held }))
        },
        DigitalPrimitive::Register { width, edge } => {
            let bits = clocked_bits(part, nets, held, width as nat, edge);
            Some((bits, Held { bits, clock, ..held }))
        },
        DigitalPrimitive::Counter { width, edge } => {
            let bits = clocked_bits(part, nets, held, width as nat, edge);
            Some((bits, Held { bits, clock, ..held }))
        },
        DigitalPrimitive::Constant(_) => None,
        DigitalPrimitive::Clock { .. } => None,
        DigitalPrimitive::Sink => None,
    }
}

/// Set and reset of an element act at once, whatever its clock and data do;
/// both together, or an unknown one, leave it unknown.
pub proof fn set_and_reset_force_the_level(
    part: Part,
    nets: Seq<LogicValue>,
    held: Held,
    edge: EdgeKind,
)
    ensures
        forced(part, nets) matches Some(level) ==> clocked_level(part, nets, held, edge) == level
            && latched_level(part, nets, held) == level,
{
}

/// Without an active clock edge, and with set and reset inactive, an
/// edge-triggered element keeps a known level.
pub proof fn level_holds_between_edges(
    part: Part,
    nets: Seq<LogicValue>,
    held: Held,
    edge: EdgeKind,
)
    requires
        forced(part, nets) is None,
        !edge_seen(held.clock, input(part, "clk"@, nets).buffered(), edge),
        held.q.known(),
    ensures
        clocked_level(part, nets, held, edge) == held.q,
{
}

/// The outputs of a component never exceed what it has pins for, or are cut
/// to them: a register and a counter have one output for each bit they hold.
pub proof fn held_width_is_kept(part: Part, nets: Seq<LogicValue>, held: Held, width: nat, edge: EdgeKind)
    requires
        held.bits.len() == width,
        width <= 64,
    ensures
        clocked_bits(part, nets, held, width, edge).len() == width,
{
    if crate::logic::all_known(held.bits) {
        crate::logic::lemma_bits_of_len(width, crate::logic::numeric(held.bits) + 1);
    }
}

proof fn lemma_slot_stays(inputs: Seq<(Seq<char>, int)>, pin: Seq<char>, n: int)
    requires
        0 <= n <= inputs.len(),
        slot_for(inputs.take(n), pin) is Some,
    ensures
        slot_for(inputs, pin) == slot_for(inputs.take(n), pin),
    decreases inputs.len() - n,
{
    if n < inputs.len() {
        assert(inputs.take(n + 1).drop_last() =~= inputs.take(n));
        lemma_slot_stays(inputs, pin, n + 1);
    } else {
        assert(inputs.take(n) =~= inputs);
    }
}

impl CompiledDigitalComponent {
    /// The place of the net that an input pin is on.
    fn slot(&self, pin: &str) -> (r: Option<usize>)
        ensures
            match (r, slot_for(self@.inputs, pin@)) {
                (Some(i), Some(j)) => i == j,
                (None, None) => true,
                _ => false,
            },
            r matches Some(i) ==> exists|k: int|
                0 <= k < self@.inputs.len() && (#[trigger] self@.inputs[k]).1 == i,
    {
        let ghost all = self@.inputs;
        let mut i: usize = 0;
        while i < self.inputs.len()
            invariant
                i <= self.inputs@.len(),
                all == self@.inputs,
                all.len() == self.inputs@.len(),
                slot_for(all.take(i as int), pin@) is None,
            decreases self.inputs@.len() - i,
        {
            assert(all.take(i + 1).drop_last() =~= all.take(i as int));
            assert(all.take(i + 1).last() == self.inputs@[i as int]@);
            if text_eq(self.inputs[i].pin.as_str(), pin) {
                proof {
                    lemma_slot_stays(all, pin@, i + 1);
                    assert(all[i as int].1 == self.inputs@[i as int].slot);
                }
                return Some(self.inputs[i].slot);
            }
            i = i + 1;
        }
        assert(all.take(i as int) =~= all);
        None
    }

    /// The level on an input pin.
    fn input(&self, pin: &str, nets: &Vec<LogicValue>) -> (r: LogicValue)
        requires
            sound_part(self@, nets@.len() as int),
        ensures
            r == input(self@, pin@, nets@),
    {
        match self.slot(pin) {
            Some(slot) => nets[slot],
            None => LogicValue::Zero,
        }
    }

    fn input_or(&self, pin: &str, nets: &Vec<LogicValue>, other: LogicValue) -> (r: LogicValue)
        requires
            sound_part(self@, nets@.len() as int),
        ensures
            r == input_or(self@, pin@, nets@, other),
    {
        if self.slot(pin).is_some() {
            self.input(pin, nets).logic_buffer()
        } else {
            other
        }
    }

    fn gate(&self, kind: GateKind, nets: &Vec<LogicValue>) -> (r: LogicValue)
        requires
            sound_part(self@, nets@.len() as int),
        ensures
            r == gate_level(kind, self@, nets@),
    {
        match kind {
            GateKind::Buffer => self.input("in", nets).logic_buffer(),
            GateKind::Not => self.input("in", nets).logic_not(),
            GateKind::And => self.input("a", nets).logic_and(self.input("b", nets)),
            GateKind::Or => self.input("a", nets).logic_or(self.input("b", nets)),
            GateKind::Xor => self.input("a", nets).logic_xor(self.input("b", nets)),
            GateKind::Nand => self.input("a", nets).logic_and(self.input("b", nets)).logic_not(),
            GateKind::Nor => self.input("a", nets).logic_or(self.input("b", nets)).logic_not(),
            GateKind::Xnor => self.input("a", nets).logic_xor(self.input("b", nets)).logic_not(),
        }
    }

    fn tri_state(&self, nets: &Vec<LogicValue>) -> (r: LogicValue)
        requires
            sound_part(self@, nets@.len() as int),
        ensures
            r == tri_state_level(self@, nets@),
    {
        match self.input("enable", nets).logic_buffer() {
            LogicValue::Zero => LogicValue::Z,
            LogicValue::One => self.input("in", nets).logic_buffer(),
            LogicValue::X | LogicValue::Z => LogicValue::X,
        }
    }

    fn mux(&self, nets: &Vec<LogicValue>) -> (r: LogicValue)
        requires
            sound_part(self@, nets@.len() as int),
        ensures
            r == mux_level(self@, nets@),
    {
        let a = self.input("a", nets).logic_buffer();
        let b = self.input("b", nets).logic_buffer();
        match self.input("sel", nets).logic_buffer() {
            LogicValue::Zero => a,
            LogicValue::One => b,
            LogicValue::X | LogicValue::Z => {
                if a == b {
                    a
                } else {
                    LogicValue::X
                }
            },
        }
    }

    fn demux(&self, nets: &Vec<LogicValue>) -> (r: Vec<LogicValue>)
        requires
            sound_part(self@, nets@.len() as int),
        ensures
            r@ == demux_levels(self@, nets@),
    {
        let level = self.input("in", nets).logic_buffer();
        let mut out: Vec<LogicValue> = Vec::new();
        match self.input("sel", nets).logic_buffer() {
            LogicValue::Zero => {
                out.push(level);
                out.push(LogicValue::Zero);
            },
            LogicValue::One => {
                out.push(LogicValue::Zero);
                out.push(level);
            },
            LogicValue::X | LogicValue::Z => {
                out.push(LogicValue::X);
                out.push(LogicValue::X);
            },
        }
        assert(out@ =~= demux_levels(self@, nets@));
        out
    }

    fn decoder(&self, nets: &Vec<LogicValue>) -> (r: Vec<LogicValue>)
        requires
            sound_part(self@, nets@.len() as int),
        ensures
            r@ == decoder_levels(self@, nets@),
    {
        let enable = self.input("enable", nets).logic_buffer();
        let a = self.input("a", nets).logic_buffer();
        let b = self.input("b", nets).logic_buffer();
        if enable == LogicValue::Zero {
            return fill_levels(4, LogicValue::Zero);
        }
        if enable != LogicValue::One || !a.is_known() || !b.is_known() {
            return fill_levels(4, LogicValue::X);
        }
        let low: usize = if a == LogicValue::One {
            1
        } else {
            0
        };
        let high: usize = if b == LogicValue::One {
            2
        } else {
            0
        };
        let mut out = fill_levels(4, LogicValue::Zero);
        out.set(low + high, LogicValue::One);
        assert(out@ =~= decoder_levels(self@, nets@));
        out
    }

    /// The level that set and reset force.
    fn async_set_reset(&self, nets: &Vec<LogicValue>) -> (r: Option<LogicValue>)
        requires
            sound_part(self@, nets@.len() as int),
        ensures
            r == forced(self@, nets@),
    {
        let set = self.input_or("set", nets, LogicValue::Zero);
        let reset = self.input_or("reset", nets, LogicValue::Zero);
        match (set, reset) {
            (LogicValue::Zero, LogicValue::Zero) => None,
            (LogicValue::One, LogicValue::Zero) => Some(LogicValue::One),
            (LogicValue::Zero, LogicValue::One) => Some(LogicValue::Zero),
            _ => Some(LogicValue::X),
        }
    }

    fn latch(&self, nets: &Vec<LogicValue>, state: &RuntimeState) -> (r: LogicValue)
        requires
            sound_part(self@, nets@.len() as int),
        ensures
            r == latched_level(self@, nets@, state@),
    {
        match self.async_set_reset(nets) {
            Some(level) => level,
            None => match self.primitive {
                DigitalPrimitive::DLatch => match self.input("enable", nets).logic_buffer() {
                    LogicValue::One => self.input("d", nets).logic_buffer(),
                    LogicValue::Zero => state.q,
                    LogicValue::X | LogicValue::Z => LogicValue::X,
                },
                _ => sr_next(state.q, self.input("s", nets), self.input("r", nets)),
            },
        }
    }

    fn flip_flop(&self, nets: &Vec<LogicValue>, state: &RuntimeState, edge: EdgeKind) -> (r:
        LogicValue)
        requires
            sound_part(self@, nets@.len() as int),
        ensures
            r == clocked_level(self@, nets@, state@, edge),
    {
        let clock = self.input("clk", nets).logic_buffer();
        match self.async_set_reset(nets) {
            Some(level) => level,
            None => {
                if is_edge(state.previous_clock, clock, edge) {
                    match self.primitive {
                        DigitalPrimitive::DFlipFlop { .. } => self.input("d", nets).logic_buffer(),
                        DigitalPrimitive::JKFlipFlop { .. } => {
                            let j = self.input("j", nets).logic_buffer();
                            let k = self.input("k", nets).logic_buffer();
                            match (j, k) {
                                (LogicValue::Zero, LogicValue::Zero) => state.q,
                                (LogicValue::Zero, LogicValue::One) => LogicValue::Zero,
                                (LogicValue::One, LogicValue::Zero) => LogicValue::One,
                                (LogicValue::One, LogicValue::One) => toggle(state.q),
                                _ => LogicValue::X,
                            }
                        },
                        DigitalPrimitive::TFlipFlop { .. } => {
                            match self.input("t", nets).logic_buffer() {
                                LogicValue::Zero => state.q,
                                LogicValue::One => toggle(state.q),
                                LogicValue::X | LogicValue::Z => LogicValue::X,
                            }
                        },
                        _ => sr_next(state.q, self.input("s", nets), self.input("r", nets)),
                    }
                } else {
                    match self.primitive {
                        DigitalPrimitive::DFlipFlop { .. } => {
                            if clock == LogicValue::X {
                                state.q.logic_buffer()
                            } else {
                                state.q
                            }
                        },
                        _ => state.q,
                    }
                }
            },
        }
    }

    fn data(&self, nets: &Vec<LogicValue>, width: usize) -> (r: Vec<LogicValue>)
        requires
            sound_part(self@, nets@.len() as int),
        ensures
            r@ == data_levels(self@, nets@, width as nat),
    {
        let mut out: Vec<LogicValue> = Vec::new();
        let mut i: usize = 0;
        while i < width
            invariant
                i <= width,
                sound_part(self@, nets@.len() as int),
                out@ == data_levels(self@, nets@, i as nat),
            decreases width - i,
        {
            let ghost before = out@;
            let pin = cat2("d", decimal_text(i as u64).as_str());
            let level = self.input(pin.as_str(), nets).logic_buffer();
            out.push(level);
            i = i + 1;
            assert(out@ =~= data_levels(self@, nets@, i as nat));
        }
        out
    }

    fn stored_bits(
        &self,
        nets: &Vec<LogicValue>,
        state: &RuntimeState,
        width: usize,
        edge: EdgeKind,
    ) -> (r: Vec<LogicValue>)
        requires
            sound_part(self@, nets@.len() as int),
        ensures
            r@ == clocked_bits(self@, nets@, state@, width as nat, edge),
    {
        let clock = self.input("clk", nets).logic_buffer();
        if self.slot("reset").is_some() && self.input("reset", nets) == LogicValue::One {
            return fill_levels(width, LogicValue::Zero);
        }
        if !is_edge(state.previous_clock, clock, edge) {
            return copy_levels(&state.bits);
        }
        match self.input_or("enable", nets, LogicValue::One) {
            LogicValue::Zero => copy_levels(&state.bits),
            LogicValue::One => match self.primitive {
                DigitalPrimitive::Register { .. } => self.data(nets, width),
                _ => increment_bits(&state.bits),
            },
            LogicValue::X | LogicValue::Z => fill_levels(width, LogicValue::X),
        }
    }

    /// The outputs of the component with these net levels.
    pub fn evaluate(&self, nets: &Vec<LogicValue>, state: &mut RuntimeState) -> (r: Option<
        Vec<LogicValue>,
    >)
        requires
            sound_part(self@, nets@.len() as int),
        ensures
            match (r, evaluated(self@, nets@, old(state)@)) {
                (Some(v), Some((levels, held))) => v@ == levels && final(state)@ == held,
                (None, None) => final(state)@ == old(state)@,
                _ => false,
            },
    {
        match self.primitive {
            DigitalPrimitive::Gate(kind) => Some(one_level(self.gate(kind, nets))),
            DigitalPrimitive::TriState => Some(one_level(self.tri_state(nets))),
            DigitalPrimitive::Mux2 => Some(one_level(self.mux(nets))),
            DigitalPrimitive::Demux2 => Some(self.demux(nets)),
            DigitalPrimitive::Decoder2To4 => Some(self.decoder(nets)),
            DigitalPrimitive::DLatch | DigitalPrimitive::SRLatch => {
                state.q = self.latch(nets, state);
                Some(q_outputs(state.q, self.outputs.len()))
            },
            DigitalPrimitive::DFlipFlop { edge }
            | DigitalPrimitive::JKFlipFlop { edge }
            | DigitalPrimitive::TFlipFlop { edge }
            | DigitalPrimitive::SRFlipFlop { edge } => {
                state.q = self.flip_flop(nets, state, edge);
                state.previous_clock = self.input("clk", nets).logic_buffer();
                Some(q_outputs(state.q, self.outputs.len()))
            },
            DigitalPrimitive::Register { width, edge } => {
                state.bits = self.stored_bits(nets, state, width, edge);
                state.previous_clock = self.input("clk", nets).logic_buffer();
                Some(copy_levels(&state.bits))
            },
            DigitalPrimitive::Counter { width, edge } => {
                state.bits = self.stored_bits(nets, state, width, edge);
                state.previous_clock = self.input("clk", nets).logic_buffer();
                Some(copy_levels(&state.bits))
            },
            DigitalPrimitive::Constant(_)
            | DigitalPrimitive::Clock { .. }
            | DigitalPrimitive::Sink => None,
        }
    }
}

fn one_level(level: LogicValue) -> (r: Vec<LogicValue>)
    ensures
        r@ == seq![level],
{
    let mut v: Vec<LogicValue> = Vec::new();
    v.push(level);
    assert(v@ =~= seq![level]);
    v
}

fn sr_next(current: LogicValue, set: LogicValue, reset: LogicValue) -> (r: LogicValue)
    ensures
        r == set_reset(current, set, reset),
{
    match (set.logic_buffer(), reset.logic_buffer()) {
        (LogicValue::Zero, LogicValue::Zero) => current,
        (LogicValue::One, LogicValue::Zero) => LogicValue::One,
        (LogicValue::Zero, LogicValue::One) => LogicValue::Zero,
        _ => LogicValue::X,
    }
}

fn toggle(value: LogicValue) -> (r: LogicValue)
    ensures
        r == value.inverted(),
{
    match value {
        LogicValue::Zero => LogicValue::One,
        LogicValue::One => LogicValue::Zero,
        LogicValue::X | LogicValue::Z => LogicValue::X,
    }
}

pub fn q_outputs(q: LogicValue, count: usize) -> (r: Vec<LogicValue>)
    ensures
        r@ == level_outputs(q, count as nat),
{
    let mut v: Vec<LogicValue> = Vec::new();
    if count > 0 {
        v.push(q);
    }
    if count > 1 {
        v.push(q.logic_not());
    }
    assert(v@ =~= level_outputs(q, count as nat));
    v
}

fn is_edge(previous: LogicValue, current: LogicValue, edge: EdgeKind) -> (r: bool)
    ensures
        r == edge_seen(previous, current, edge),
{
    match edge {
        EdgeKind::Rising => previous == LogicValue::Zero && current == LogicValue::One,
        EdgeKind::Falling => previous == LogicValue::One && current == LogicValue::Zero,
    }
}

} // verus!
