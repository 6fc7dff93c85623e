//! The built-in digital engine as a participant of a co-simulation.
use crate::analysis::Analysis;
use crate::circuit::PinDirection;
use crate::control::{check_signal, clock_now, ExecutionControl};
use crate::cosim::{
    seconds_of, ticks_of, CoSimulationParticipant, CoSimulationPort, CoSimulationTime,
    CoSimulationValue, TIMEBASE_BITS,
};
use crate::digital::{program_of, sound_program, DigitalProgram, Part, Program, MAX_DIGITAL_EVENTS};
use crate::digital_engine::lemma_queue_moves;
use crate::engine::SimulationRequest;
use crate::fault::{fail, fault, EngineError, Fault};
use crate::kernel::{
    add_time, batch_applied, check_execution, fits, fresh, indices, interrupted, later,
    listeners_evaluated, may_stop, parts_evaluated, started, DigitalState, Kern,
};
use crate::number::{saturated, Real, TWO_64_BITS};
use crate::text::{
    blank, cat3, cat5, concat_upto, is_blank, text_eq, texts,
};
use crate::waveform::LogicValue;
use std::time::Instant;
use vstd::prelude::*;

verus! {

/// Half a picosecond: how far behind a time its events may lie.
pub const HALF_PICOSECOND_BITS: u64 = 0x3d61_9799_812d_ea11;

#[derive(Clone, Debug, PartialEq, Eq)]
pub struct DigitalCoSimulationBinding {
    pub port: String,
    pub net: String,
    pub direction: PinDirection,
}

impl DigitalCoSimulationBinding {
    pub fn input(port: &str, net: &str) -> (r: Self)
        ensures
            r.port@ == port@,
            r.net@ == net@,
            r.direction == PinDirection::Input,
    {
        DigitalCoSimulationBinding {
            port: port.to_owned(),
            net: net.to_owned(),
            direction: PinDirection::Input,
        }
    }

    pub fn output(port: &str, net: &str) -> (r: Self)
        ensures
            r.port@ == port@,
            r.net@ == net@,
            r.direction == PinDirection::Output,
    {
        DigitalCoSimulationBinding {
            port: port.to_owned(),
            net: net.to_owned(),
            direction: PinDirection::Output,
        }
    }
}

/// The place of a net's name, if the program has that net.
pub open spec fn net_slot(nets: Seq<Seq<char>>, name: Seq<char>) -> Option<int>
    decreases nets.len(),
{
    if nets.len() == 0 {
        None
    } else if nets.last() == name {
        Some(nets.len() - 1)
    } else {
        net_slot(nets.drop_last(), name)
    }
}

fn find_net(nets: &Vec<String>, name: &str) -> (r: Option<usize>)
    ensures
        match (r, net_slot(texts(nets@), name@)) {
            (Some(i), Some(j)) => i == j && i < nets@.len(),
            (None, None) => true,
            _ => false,
        },
{
    let ghost all = texts(nets@);
    let mut i: usize = nets.len();
    assert(all.take(i as int) =~= all);
    while i > 0
        invariant
            i <= nets@.len(),
            all == texts(nets@),
            net_slot(all, name@) == net_slot(all.take(i as int), name@),
        decreases i,
    {
        assert(all.take(i as int).last() == nets@[i - 1]@);
        assert(all.take(i as int).drop_last() =~= all.take(i - 1));
        i = i - 1;
        if text_eq(nets[i].as_str(), name) {
            return Some(i);
        }
    }
    None
}

/// Whether a component drives a net.
pub open spec fn part_drives(part: Part, slot: int) -> bool {
    exists|o: int| 0 <= o < part.outputs.len() && (#[trigger] part.outputs[o]).1 == slot
}

/// Whether any component drives a net.
pub open spec fn driven(program: Program, slot: int) -> bool {
    exists|c: int| 0 <= c < program.parts.len() && #[trigger] part_drives(program.parts[c], slot)
}

fn is_driven(program: &DigitalProgram, slot: usize) -> (r: bool)
    ensures
        r == driven(program@, slot as int),
{
    let mut c: usize = 0;
    while c < program.components.len()
        invariant
            c <= program.components@.len(),
            forall|k: int|
                0 <= k < c ==> !#[trigger] part_drives(program@.parts[k], slot as int),
        decreases program.components@.len() - c,
    {
        let outputs = &program.components[c].outputs;
        let ghost part = program@.parts[c as int];
        assert(part == program.components@[c as int]@);
        let mut o: usize = 0;
        while o < outputs.len()
            invariant
                o <= outputs@.len(),
                c < program.components@.len(),
                part == program@.parts[c as int],
                part.outputs == crate::digital::slots_of(outputs@),
                forall|k: int| 0 <= k < o ==> (#[trigger] part.outputs[k]).1 != slot,
            decreases outputs@.len() - o,
        {
            assert(part.outputs[o as int].1 == outputs@[o as int].slot);
            if outputs[o].slot == slot {
                assert(part_drives(program@.parts[c as int], slot as int));
                return true;
            }
            o = o + 1;
        }
        c = c + 1;
    }
    false
}

/// Whether an earlier binding has the same port.
pub open spec fn binding_repeated(bindings: Seq<DigitalCoSimulationBinding>, i: int) -> bool {
    exists|j: int| 0 <= j < i && (#[trigger] bindings[j]).port@ == bindings[i].port@
}

/// What is wrong with one binding.
pub open spec fn binding_failure(
    program: Program,
    bindings: Seq<DigitalCoSimulationBinding>,
    i: int,
) -> Option<Fault> {
    let binding = bindings[i];
    let port = binding.port@;
    let net = binding.net@;
    if is_blank(port) || is_blank(net) {
        Some(
            fault(
                "digital_cosim_binding_invalid"@,
                "digital co-simulation port and net names must not be empty"@,
            ),
        )
    } else if net_slot(program.nets, net) is None {
        Some(
            fault(
                "digital_cosim_binding_invalid"@,
                "digital co-simulation port `"@ + port + "` references unknown net `"@ + net
                    + "`"@,
            ),
        )
    } else if binding.direction != PinDirection::Input && binding.direction
        != PinDirection::Output {
        Some(
            fault(
                "digital_cosim_binding_invalid"@,
                "digital co-simulation port `"@ + port + "` must be input or output"@,
            ),
        )
    } else if binding.direction == PinDirection::Input && driven(
        program,
        net_slot(program.nets, net)->0,
    ) {
        Some(
            fault(
                "digital_cosim_input_driven"@,
                "external input net `"@ + net + "` already has an internal digital driver"@,
            ),
        )
    } else if binding_repeated(bindings, i) {
        Some(
            fault(
                "digital_cosim_binding_duplicate"@,
                "digital co-simulation port `"@ + port + "` is mapped more than once"@,
            ),
        )
    } else {
        None
    }
}

/// The first failure among the first `n` bindings.
pub open spec fn bindings_failure(
    program: Program,
    bindings: Seq<DigitalCoSimulationBinding>,
    n: int,
) -> Option<Fault>
    decreases n,
{
    if n <= 0 {
        None
    } else {
        match bindings_failure(program, bindings, n - 1) {
            Some(f) => Some(f),
            None => binding_failure(program, bindings, n - 1),
        }
    }
}

proof fn lemma_bindings_failure_stops(
    program: Program,
    bindings: Seq<DigitalCoSimulationBinding>,
    n: int,
    m: int,
)
    requires
        0 <= m <= n,
        bindings_failure(program, bindings, m) is Some,
    ensures
        bindings_failure(program, bindings, n) == bindings_failure(program, bindings, m),
    decreases n - m,
{
    if m < n {
        lemma_bindings_failure_stops(program, bindings, n, m + 1);
    }
}

/// What is wrong with the arguments of a new participant.
pub open spec fn participant_failure(
    id: Seq<char>,
    request: SimulationRequest,
    bindings: Seq<DigitalCoSimulationBinding>,
) -> Option<Fault> {
    if is_blank(id) {
        Some(
            fault(
                "digital_cosim_participant_invalid"@,
                "digital co-simulation participant id must not be empty"@,
            ),
        )
    } else {
        match program_of(request) {
            Err(f) => Some(f),
            Ok(program) => match bindings_failure(program, bindings, bindings.len() as int) {
                Some(f) => Some(f),
                None => if bindings.len() == 0 {
                    Some(
                        fault(
                            "digital_cosim_binding_missing"@,
                            "digital co-simulation participant requires at least one port binding"@,
                        ),
                    )
                } else {
                    None
                },
            },
        }
    }
}

fn check_binding(program: &DigitalProgram, bindings: &Vec<DigitalCoSimulationBinding>, i: usize) -> (r:
    Result<usize, EngineError>)
    requires
        i < bindings@.len(),
    ensures
        match r {
            Ok(slot) => binding_failure(program@, bindings@, i as int) is None && net_slot(
                program@.nets,
                bindings@[i as int].net@,
            ) == Some(slot as int) && slot < program@.nets.len(),
            Err(e) => binding_failure(program@, bindings@, i as int) == Some(e@),
        },
{
    let binding = &bindings[i];
    let port = binding.port.as_str();
    let net = binding.net.as_str();
    if blank(port) || blank(net) {
        return Err(
            EngineError::new(
                "digital_cosim_binding_invalid",
                "digital co-simulation port and net names must not be empty",
            ),
        );
    }
    let slot: usize = match find_net(&program.nets, net) {
        None => {
            return Err(
                fail(
                    "digital_cosim_binding_invalid",
                    cat5(
                        "digital co-simulation port `",
                        port,
                        "` references unknown net `",
                        net,
                        "`",
                    ),
                ),
            );
        },
        Some(slot) => slot,
    };
    if binding.direction != PinDirection::Input && binding.direction != PinDirection::Output {
        return Err(
            fail(
                "digital_cosim_binding_invalid",
                cat3("digital co-simulation port `", port, "` must be input or output"),
            ),
        );
    }
    if binding.direction == PinDirection::Input && is_driven(program, slot) {
        return Err(
            fail(
                "digital_cosim_input_driven",
                cat3("external input net `", net, "` already has an internal digital driver"),
            ),
        );
    }
    let mut j: usize = 0;
    while j < i && !text_eq(bindings[j].port.as_str(), port)
        invariant
            j <= i < bindings@.len(),
            port@ == bindings@[i as int].port@,
            forall|k: int| 0 <= k < j ==> (#[trigger] bindings@[k]).port@ != port@,
        decreases i - j,
    {
        j = j + 1;
    }
    if j < i {
        assert(bindings@[j as int].port@ == bindings@[i as int].port@);
        return Err(
            fail(
                "digital_cosim_binding_duplicate",
                cat3("digital co-simulation port `", port, "` is mapped more than once"),
            ),
        );
    }
    Ok(slot)
}

/// The state after all events up to a time, and a little behind it.
pub open spec fn settled_until(k: Kern, program: Program, stop: Real, target: Real) -> Result<
    Kern,
    Fault,
>
    decreases MAX_DIGITAL_EVENTS - k.processed,
{
    if k.queue.len() == 0 || later(target, Real { bits: HALF_PICOSECOND_BITS }).less(
        k.queue[0].time,
    ) {
        Ok(k)
    } else {
        proof {
            lemma_queue_moves(k.queue);
        }
        match batch_applied(k, program) {
            Err(f) => Err(f),
            Ok((k2, changed)) => match listeners_evaluated(
                k2,
                program,
                changed,
                k.queue[0].time,
                stop,
            ) {
                Err(f) => Err(f),
                Ok(k3) => settled_until(
                    Kern { processed: k2.processed, ..k3 },
                    program,
                    stop,
                    target,
                ),
            },
        }
    }
}

/// A component as often as it has an input on a net.
pub open spec fn part_dependents(part: Part, component: int, slot: int) -> Seq<int> {
    concat_upto(part.inputs.len() as int, |i: int| input_dependent(part, component, slot, i))
}

/// The component, if this input of it is on a net.
pub open spec fn input_dependent(part: Part, component: int, slot: int, i: int) -> Seq<int> {
    if part.inputs[i].1 == slot {
        seq![component]
    } else {
        Seq::empty()
    }
}

/// The components with an input on a net, each as often as it has one.
pub open spec fn dependents(program: Program, slot: int) -> Seq<int> {
    concat_upto(program.parts.len() as int, |c: int| part_dependents(program.parts[c], c, slot))
}

/// The state after a level was put on a net from outside, and whether that
/// changed the net.
pub open spec fn net_written(
    k: Kern,
    program: Program,
    stop: Real,
    slot: int,
    value: LogicValue,
    now: Real,
) -> Result<(bool, Kern), Fault> {
    if k.nets[slot] == value {
        Ok((false, k))
    } else {
        let list = dependents(program, slot);
        match parts_evaluated(
            Kern { nets: k.nets.update(slot, value), ..k },
            program,
            list,
            now,
            stop,
            list.len() as int,
        ) {
            Err(f) => Err(f),
            Ok(k2) => match settled_until(k2, program, stop, now) {
                Err(f) => Err(f),
                Ok(k3) => Ok((true, k3)),
            },
        }
    }
}

/// A time of the digital engine on the picosecond timebase, rounded up; a time
/// behind the present is at least the next picosecond.
pub open spec fn future_time(seconds: Real, current: CoSimulationTime) -> Result<
    CoSimulationTime,
    Fault,
> {
    if !seconds.finite() || seconds.key() < 0 {
        Err(
            fault(
                "digital_cosim_time_invalid"@,
                "digital event time must be finite and non-negative"@,
            ),
        )
    } else if (Real { bits: TWO_64_BITS }).less(ticks_of(seconds)) {
        Err(
            fault(
                "digital_cosim_time_invalid"@,
                "digital event time exceeds co-simulation timebase range"@,
            ),
        )
    } else {
        let ticks = saturated(ticks_of(seconds).raised());
        if ticks <= current.0 && seconds_of(current.0).less(seconds) {
            Ok(
                CoSimulationTime(
                    if current.0 == u64::MAX {
                        u64::MAX
                    } else {
                        (current.0 + 1) as u64
                    },
                ),
            )
        } else {
            Ok(CoSimulationTime(ticks))
        }
    }
}

pub fn digital_seconds_to_future_cosim_time(seconds: Real, current: CoSimulationTime) -> (r: Result<
    CoSimulationTime,
    EngineError,
>)
    ensures
        crate::reading::same(r, future_time(seconds, current)),
{
    if !seconds.is_finite() || seconds.lt(Real { bits: 0 }) {
        return Err(
            EngineError::new(
                "digital_cosim_time_invalid",
                "digital event time must be finite and non-negative",
            ),
        );
    }
    let ticks = seconds.times(Real { bits: TIMEBASE_BITS });
    if (Real { bits: TWO_64_BITS }).lt(ticks) {
        return Err(
            EngineError::new(
                "digital_cosim_time_invalid",
                "digital event time exceeds co-simulation timebase range",
            ),
        );
    }
    proof {
        crate::cosim::lemma_ticks_sign(seconds);
    }
    let up: u64 = ticks.ceil_to_u64();
    if up <= current.0 && current.as_seconds().lt(seconds) {
        return Ok(CoSimulationTime(current.0.saturating_add(1)));
    }
    Ok(CoSimulationTime(up))
}


fn find_dependents(program: &DigitalProgram, slot: usize) -> (r: Vec<usize>)
    ensures
        indices(r@) == dependents(program@, slot as int),
        forall|i: int| 0 <= i < r@.len() ==> (#[trigger] r@[i]) < program@.parts.len(),
{
    let ghost p = program@;
    let ghost at = slot as int;
    let ghost f = |c: int| part_dependents(p.parts[c], c, at);
    let mut out: Vec<usize> = Vec::new();
    let mut c: usize = 0;
    assert(indices(out@) =~= Seq::<int>::empty());
    while c < program.components.len()
        invariant
            c <= program.components@.len(),
            p == program@,
            at == slot,
            f == (|c: int| part_dependents(p.parts[c], c, at)),
            indices(out@) == concat_upto(c as int, f),
            forall|i: int| 0 <= i < out@.len() ==> (#[trigger] out@[i]) < p.parts.len(),
        decreases program.components@.len() - c,
    {
        let inputs = &program.components[c].inputs;
        let ghost part = p.parts[c as int];
        assert(part == program.components@[c as int]@);
        let ghost me = c as int;
        let ghost start = indices(out@);
        let ghost g = |i: int| input_dependent(part, me, at, i);
        let mut i: usize = 0;
        assert(start + concat_upto(0, g) =~= start);
        while i < inputs.len()
            invariant
                i <= inputs@.len(),
                c < program.components@.len(),
                program.components@.len() == p.parts.len(),
                me == c,
                at == slot,
                part.inputs == crate::digital::slots_of(inputs@),
                g == (|i: int| input_dependent(part, me, at, i)),
                indices(out@) == start + concat_upto(i as int, g),
                forall|i: int| 0 <= i < out@.len() ==> (#[trigger] out@[i]) < p.parts.len(),
            decreases inputs@.len() - i,
        {
            let ghost before = indices(out@);
            assert(part.inputs[i as int].1 == inputs@[i as int].slot);
            if inputs[i].slot == slot {
                out.push(c);
                assert(indices(out@) =~= before.push(me));
            }
            assert(indices(out@) =~= start + (concat_upto(i as int, g) + g(i as int)));
            i = i + 1;
        }
        assert(part_dependents(part, me, at) == concat_upto(i as int, g));
        c = c + 1;
    }
    out
}

/// A digital program between two times of a co-simulation.
pub struct DigitalParticipantSession {
    pub state: DigitalState,
    pub current_time: CoSimulationTime,
    pub started: Instant,
}

/// The present of a session.
pub struct Present {
    pub kern: Kern,
    pub time: CoSimulationTime,
}

impl View for DigitalParticipantSession {
    type V = Present;

    open spec fn view(&self) -> Present {
        Present { kern: self.state@, time: self.current_time }
    }
}

/// A session at the start of its program.
pub open spec fn session_start(program: Program, stop: Real) -> Result<Kern, Fault> {
    match started(fresh(program), program, stop, program.parts.len() as int) {
        Err(f) => Err(f),
        Ok(k) => settled_until(k, program, stop, seconds_of(0)),
    }
}

/// A session taken to a later time. The refusal of a target behind the stop time
/// does not write that time out: it is a number, which the caller has.
pub open spec fn session_advanced(
    present: Present,
    program: Program,
    stop: Real,
    target: CoSimulationTime,
) -> Result<Present, Fault> {
    if target.0 < present.time.0 {
        Err(
            fault(
                "digital_cosim_time_invalid"@,
                "digital co-simulation participant cannot move backwards in time"@,
            ),
        )
    } else if later(stop, Real { bits: HALF_PICOSECOND_BITS }).less(seconds_of(target.0)) {
        Err(
            fault(
                "digital_cosim_time_invalid"@,
                "digital co-simulation target exceeds request stop time"@,
            ),
        )
    } else {
        match settled_until(present.kern, program, stop, seconds_of(target.0)) {
            Err(f) => Err(f),
            Ok(kern) => Ok(Present { kern, time: target }),
        }
    }
}

/// A session that is taken to a time stands at that time, and never goes back.
pub proof fn sessions_move_forward(
    present: Present,
    program: Program,
    stop: Real,
    target: CoSimulationTime,
)
    requires
        session_advanced(present, program, stop, target) is Ok,
    ensures
        session_advanced(present, program, stop, target)->Ok_0.time == target,
        present.time.0 <= target.0,
{
}

impl DigitalParticipantSession {
    /// Handles all events up to a time.
    fn process_until(
        &mut self,
        program: &DigitalProgram,
        stop: Real,
        target: Real,
        control: Option<&ExecutionControl>,
    ) -> (r: Result<(), EngineError>)
        requires
            fits(old(self).state@, program@),
            sound_program(program@),
        ensures
            fits(final(self).state@, program@),
            final(self).current_time == old(self).current_time,
            match r {
                Ok(_) => settled_until(old(self).state@, program@, stop, target) == Ok::<
                    Kern,
                    Fault,
                >(final(self).state@),
                Err(e) => may_stop(control, e@) || settled_until(
                    old(self).state@,
                    program@,
                    stop,
                    target,
                ) == Err::<Kern, Fault>(e@),
            },
    {
        let limit = add_time(target, Real { bits: HALF_PICOSECOND_BITS });
        let ghost model = settled_until(self.state@, program@, stop, target);
        loop
            invariant
                limit == later(target, Real { bits: HALF_PICOSECOND_BITS }),
                fits(self.state@, program@),
                sound_program(program@),
                self.current_time == old(self).current_time,
                model == settled_until(old(self).state@, program@, stop, target),
                model == settled_until(self.state@, program@, stop, target),
            decreases MAX_DIGITAL_EVENTS - self.state.processed,
        {
            match check_execution(control, &self.started) {
                Err(e) => {
                    return Err(e);
                },
                Ok(_) => {},
            }
            if self.state.queue.len() == 0 {
                return Ok(());
            }
            let time = self.state.queue.get(0).time;
            if limit.lt(time) {
                return Ok(());
            }
            let changed = match self.state.apply_batch(program) {
                Err(e) => {
                    return Err(e);
                },
                Ok(changed) => changed,
            };
            let affected = DigitalState::affected(program, &changed);
            match check_execution(control, &self.started) {
                Err(e) => {
                    return Err(e);
                },
                Ok(_) => {},
            }
            match self.state.evaluate_components(program, &affected, time, stop) {
                Err(e) => {
                    return Err(e);
                },
                Ok(_) => {},
            }
        }
    }

    /// A session at the start of a program.
    pub fn start(program: &DigitalProgram, stop: Real, control: Option<&ExecutionControl>) -> (r: Result<
        Self,
        EngineError,
    >)
        requires
            sound_program(program@),
        ensures
            match r {
                Ok(session) => {
                    &&& session_start(program@, stop) == Ok::<Kern, Fault>(session.state@)
                    &&& session.current_time.0 == 0
                    &&& fits(session.state@, program@)
                },
                Err(e) => may_stop(control, e@) || session_start(program@, stop) == Err::<
                    Kern,
                    Fault,
                >(e@),
            },
    {
        let mut session = DigitalParticipantSession {
            state: DigitalState::new(program),
            current_time: CoSimulationTime(0),
            started: clock_now(),
        };
        match session.state.schedule_initial(program, stop, control, &session.started) {
            Err(e) => {
                return Err(e);
            },
            Ok(_) => {},
        }
        match session.process_until(program, stop, CoSimulationTime(0).as_seconds(), control) {
            Err(e) => Err(e),
            Ok(_) => Ok(session),
        }
    }

    /// When the next event is due.
    pub fn next_event_time(&self) -> (r: Option<CoSimulationTime>)
        ensures
            r == next_due(self@),
    {
        if self.state.queue.len() == 0 {
            return None;
        }
        match digital_seconds_to_future_cosim_time(
            self.state.queue.get(0).time,
            self.current_time,
        ) {
            Ok(time) => Some(time),
            Err(_) => None,
        }
    }

    pub fn advance_to(
        &mut self,
        program: &DigitalProgram,
        stop: Real,
        target: CoSimulationTime,
        control: Option<&ExecutionControl>,
    ) -> (r: Result<(), EngineError>)
        requires
            fits(old(self).state@, program@),
            sound_program(program@),
        ensures
            fits(final(self).state@, program@),
            match r {
                Ok(_) => session_advanced(old(self)@, program@, stop, target) == Ok::<
                    Present,
                    Fault,
                >(final(self)@),
                Err(e) => may_stop(control, e@) || session_advanced(
                    old(self)@,
                    program@,
                    stop,
                    target,
                ) == Err::<Present, Fault>(e@),
            },
    {
        if target.0 < self.current_time.0 {
            return Err(
                EngineError::new(
                    "digital_cosim_time_invalid",
                    "digital co-simulation participant cannot move backwards in time",
                ),
            );
        }
        let seconds = target.as_seconds();
        if add_time(stop, Real { bits: HALF_PICOSECOND_BITS }).lt(seconds) {
            return Err(
                EngineError::new(
                    "digital_cosim_time_invalid",
                    "digital co-simulation target exceeds request stop time",
                ),
            );
        }
        match self.process_until(program, stop, seconds, control) {
            Err(e) => Err(e),
            Ok(_) => {
                self.current_time = target;
                Ok(())
            },
        }
    }

    /// Puts a level on a net from outside: whether that changed the net.
    pub fn write_external(
        &mut self,
        program: &DigitalProgram,
        stop: Real,
        slot: usize,
        value: LogicValue,
        control: Option<&ExecutionControl>,
    ) -> (r: Result<bool, EngineError>)
        requires
            fits(old(self).state@, program@),
            sound_program(program@),
            slot < program@.nets.len(),
        ensures
            fits(final(self).state@, program@),
            final(self).current_time == old(self).current_time,
            match r {
                Ok(changed) => net_written(
                    old(self).state@,
                    program@,
                    stop,
                    slot as int,
                    value,
                    seconds_of(old(self).current_time.0),
                ) == Ok::<(bool, Kern), Fault>((changed, final(self).state@)),
                Err(e) => may_stop(control, e@) || net_written(
                    old(self).state@,
                    program@,
                    stop,
                    slot as int,
                    value,
                    seconds_of(old(self).current_time.0),
                ) == Err::<(bool, Kern), Fault>(e@),
            },
    {
        if self.state.nets[slot] == value {
            return Ok(false);
        }
        let ghost k = self.state@;
        self.state.nets.set(slot, value);
        proof {
            assert(self.state@ == (Kern { nets: k.nets.update(slot as int, value), ..k }));
            assert(fits(self.state@, program@));
        }
        let now = self.current_time.as_seconds();
        let list = find_dependents(program, slot);
        match check_execution(control, &self.started) {
            Err(e) => {
                return Err(e);
            },
            Ok(_) => {},
        }
        match self.state.evaluate_components(program, &list, now, stop) {
            Err(e) => {
                return Err(e);
            },
            Ok(_) => {},
        }
        match self.process_until(program, stop, now, control) {
            Err(e) => Err(e),
            Ok(_) => Ok(true),
        }
    }
}

/// When the next event of a session is due.
pub open spec fn next_due(present: Present) -> Option<CoSimulationTime> {
    if present.kern.queue.len() == 0 {
        None
    } else {
        match future_time(present.kern.queue[0].time, present.time) {
            Ok(time) => Some(time),
            Err(_) => None,
        }
    }
}

/// A port of the participant and the net behind it.
#[derive(Debug, PartialEq, Eq)]
pub struct BoundPort {
    pub port: String,
    pub slot: usize,
    pub direction: PinDirection,
}

/// A port with the net behind it, as a plain value.
pub struct Bound {
    pub port: Seq<char>,
    pub slot: int,
    pub direction: PinDirection,
}

impl View for BoundPort {
    type V = Bound;

    open spec fn view(&self) -> Bound {
        Bound { port: self.port@, slot: self.slot as int, direction: self.direction }
    }
}

/// The ports with the nets behind them.
pub open spec fn bounds(bound: Seq<BoundPort>) -> Seq<Bound> {
    bound.map_values(|b: BoundPort| b@)
}

/// The ports of the first `n` bindings, with the nets behind them.
pub open spec fn bound_ports(
    program: Program,
    bindings: Seq<DigitalCoSimulationBinding>,
    n: int,
) -> Seq<Bound> {
    Seq::new(
        n as nat,
        |i: int|
            Bound {
                port: bindings[i].port@,
                slot: net_slot(program.nets, bindings[i].net@)->0,
                direction: bindings[i].direction,
            },
    )
}

/// The binding of a port.
pub open spec fn bound_at(bound: Seq<Bound>, port: Seq<char>) -> Option<Bound>
    decreases bound.len(),
{
    if bound.len() == 0 {
        None
    } else if bound.last().port == port {
        Some(bound.last())
    } else {
        bound_at(bound.drop_last(), port)
    }
}

fn find_bound(bound: &Vec<BoundPort>, port: &str) -> (r: Option<usize>)
    ensures
        match (r, bound_at(bounds(bound@), port@)) {
            (Some(i), Some(b)) => i < bound@.len() && bound@[i as int]@ == b,
            (None, None) => true,
            _ => false,
        },
{
    let ghost all = bounds(bound@);
    let mut i: usize = bound.len();
    assert(all.take(i as int) =~= all);
    while i > 0
        invariant
            i <= bound@.len(),
            all == bounds(bound@),
            bound_at(all, port@) == bound_at(all.take(i as int), port@),
        decreases i,
    {
        assert(all.take(i as int).last() == bound@[i - 1]@);
        assert(all.take(i as int).drop_last() =~= all.take(i - 1));
        i = i - 1;
        if text_eq(bound[i].port.as_str(), port) {
            return Some(i);
        }
    }
    None
}

/// A digital program that takes part in a co-simulation.
pub struct DigitalCoSimulationParticipant {
    id: String,
    ports: Vec<CoSimulationPort>,
    program: DigitalProgram,
    stop: Real,
    bound: Vec<BoundPort>,
    session: Option<DigitalParticipantSession>,
}

/// A digital participant as a plain value.
pub struct Member {
    pub id: Seq<char>,
    pub ports: Seq<CoSimulationPort>,
    pub program: Program,
    pub stop: Real,
    pub bound: Seq<Bound>,
    pub present: Option<Present>,
}

impl View for DigitalCoSimulationParticipant {
    type V = Member;

    closed spec fn view(&self) -> Member {
        Member {
            id: self.id@,
            ports: self.ports@,
            program: self.program@,
            stop: self.stop,
            bound: bounds(self.bound@),
            present: match self.session {
                Some(session) => Some(session@),
                None => None,
            },
        }
    }
}

/// The refusal to work on a participant that has not been initialized.
pub open spec fn idle_fault(id: Seq<char>) -> Fault {
    fault(
        "digital_cosim_not_initialized"@,
        "digital co-simulation participant `"@ + id + "` is not initialized"@,
    )
}

/// The refusal to work on a port that the participant does not have.
pub open spec fn missing_port_fault(id: Seq<char>, port: Seq<char>) -> Fault {
    fault(
        "digital_cosim_port_missing"@,
        "digital co-simulation participant `"@ + id + "` has no port `"@ + port + "`"@,
    )
}

impl Member {
    /// The level that an output port shows.
    pub open spec fn shown(self, port: Seq<char>) -> Result<CoSimulationValue, Fault> {
        match bound_at(self.bound, port) {
            None => Err(missing_port_fault(self.id, port)),
            Some(bound) => if bound.direction != PinDirection::Output {
                Err(
                    fault(
                        "digital_cosim_port_direction"@,
                        "digital co-simulation port `"@ + port + "` is not an output"@,
                    ),
                )
            } else {
                match self.present {
                    None => Err(idle_fault(self.id)),
                    Some(present) => Ok(CoSimulationValue::Digital(present.kern.nets[bound.slot])),
                }
            },
        }
    }

    /// The participant at the start of its program.
    pub open spec fn begun(self) -> Result<Member, Fault> {
        match session_start(self.program, self.stop) {
            Err(f) => Err(f),
            Ok(kern) => Ok(
                Member {
                    present: Some(Present { kern, time: CoSimulationTime(0) }),
                    ..self
                },
            ),
        }
    }

    /// The participant at a later time.
    pub open spec fn advanced(self, target: CoSimulationTime) -> Result<Member, Fault> {
        match self.present {
            None => Err(idle_fault(self.id)),
            Some(present) => match session_advanced(present, self.program, self.stop, target) {
                Err(f) => Err(f),
                Ok(present) => Ok(Member { present: Some(present), ..self }),
            },
        }
    }

    /// The participant after a write to one of its input ports, and whether that
    /// changed the net.
    pub open spec fn written(
        self,
        port: Seq<char>,
        time: CoSimulationTime,
        value: CoSimulationValue,
    ) -> Result<(bool, Member), Fault> {
        match bound_at(self.bound, port) {
            None => Err(missing_port_fault(self.id, port)),
            Some(bound) => if bound.direction != PinDirection::Input {
                Err(
                    fault(
                        "digital_cosim_port_direction"@,
                        "digital co-simulation port `"@ + port + "` is not an input"@,
                    ),
                )
            } else {
                match value {
                    CoSimulationValue::Analog(_) => Err(
                        fault(
                            "digital_cosim_domain_mismatch"@,
                            "digital co-simulation port `"@ + port
                                + "` requires a digital value"@,
                        ),
                    ),
                    CoSimulationValue::Digital(level) => match self.present {
                        None => Err(idle_fault(self.id)),
                        Some(present) => if time != present.time {
                            Err(
                                fault(
                                    "digital_cosim_time_invalid"@,
                                    "digital co-simulation input writes must occur at the participant current time"@,
                                ),
                            )
                        } else {
                            match net_written(
                                present.kern,
                                self.program,
                                self.stop,
                                bound.slot,
                                level,
                                seconds_of(present.time.0),
                            ) {
                                Err(f) => Err(f),
                                Ok((changed, kern)) => Ok(
                                    (
                                        changed,
                                        Member {
                                            present: Some(Present { kern, ..present }),
                                            ..self
                                        },
                                    ),
                                ),
                            }
                        },
                    },
                }
            },
        }
    }

    /// The same participant at another moment.
    pub open spec fn same_as(self, other: Member) -> bool {
        self == (Member { present: self.present, ..other })
    }
}

/// The participant that a request and its bindings describe.
pub open spec fn member_of(
    id: Seq<char>,
    program: Program,
    stop: Real,
    bindings: Seq<DigitalCoSimulationBinding>,
    m: Member,
) -> bool {
    &&& m.id == id
    &&& m.program == program
    &&& m.stop == stop
    &&& m.bound == bound_ports(program, bindings, bindings.len() as int)
    &&& m.present is None
    &&& m.ports.len() == bindings.len()
    &&& forall|i: int|
        0 <= i < m.ports.len() ==> (#[trigger] m.ports[i]).name@ == bindings[i].port@
            && m.ports[i].direction == bindings[i].direction && m.ports[i].domain
            == crate::circuit::SignalDomain::Digital && m.ports[i].unit is None
}

impl DigitalCoSimulationParticipant {
    #[verifier::type_invariant]
    spec fn wf(&self) -> bool {
        &&& sound_program(self.program@)
        &&& forall|i: int|
            0 <= i < self.bound@.len() ==> (#[trigger] self.bound@[i]).slot
                < self.program@.nets.len()
        &&& self.session matches Some(session) ==> fits(session.state@, self.program@)
    }

    /// The stop time of the request, in seconds.
    pub fn stop_time(&self) -> (r: Real)
        ensures
            r == self@.stop,
    {
        self.stop
    }

    pub fn new(
        id: &str,
        request: SimulationRequest,
        bindings: Vec<DigitalCoSimulationBinding>,
    ) -> (r: Result<Self, EngineError>)
        ensures
            match r {
                Ok(p) => {
                    &&& participant_failure(id@, request, bindings@) is None
                    &&& member_of(
                        id@,
                        program_of(request)->Ok_0,
                        request.analysis->DigitalTransient_stop,
                        bindings@,
                        p@,
                    )
                },
                Err(e) => participant_failure(id@, request, bindings@) == Some(e@),
            },
    {
        if blank(id) {
            return Err(
                EngineError::new(
                    "digital_cosim_participant_invalid",
                    "digital co-simulation participant id must not be empty",
                ),
            );
        }
        let program = match DigitalProgram::compile(&request) {
            Err(e) => {
                return Err(e);
            },
            Ok(program) => program,
        };
        let stop = match &request.analysis {
            Analysis::DigitalTransient { stop } => *stop,
            _ => {
                assert(false);
                return Err(EngineError::new("digital_cosim_analysis_invalid", ""));
            },
        };
        let ghost listed = bindings@;
        let mut ports: Vec<CoSimulationPort> = Vec::new();
        let mut bound: Vec<BoundPort> = Vec::new();
        let mut i: usize = 0;
        assert(bounds(bound@) =~= bound_ports(program@, listed, 0));
        while i < bindings.len()
            invariant
                i <= bindings@.len(),
                listed == bindings@,
                !is_blank(id@),
                program_of(request) == Ok::<Program, Fault>(program@),
                bindings_failure(program@, listed, i as int) is None,
                bounds(bound@) == bound_ports(program@, listed, i as int),
                bound@.len() == i,
                forall|k: int|
                    0 <= k < bound@.len() ==> (#[trigger] bound@[k]).slot < program@.nets.len(),
                ports@.len() == i,
                forall|k: int|
                    0 <= k < ports@.len() ==> (#[trigger] ports@[k]).name@ == listed[k].port@
                        && ports@[k].direction == listed[k].direction && ports@[k].domain
                        == crate::circuit::SignalDomain::Digital && ports@[k].unit is None,
            decreases bindings@.len() - i,
        {
            match check_binding(&program, &bindings, i) {
                Err(e) => {
                    proof {
                        lemma_bindings_failure_stops(
                            program@,
                            listed,
                            listed.len() as int,
                            i + 1,
                        );
                    }
                    return Err(e);
                },
                Ok(slot) => {
                    let binding = &bindings[i];
                    let ghost before = bounds(bound@);
                    bound.push(
                        BoundPort { port: binding.port.clone(), slot, direction: binding.direction },
                    );
                    assert(bounds(bound@) =~= before.push(bound@.last()@));
                    assert(bounds(bound@) =~= bound_ports(program@, listed, i + 1));
                    ports.push(CoSimulationPort::digital(binding.port.as_str(), binding.direction));
                },
            }
            i = i + 1;
        }
        if ports.len() == 0 {
            return Err(
                EngineError::new(
                    "digital_cosim_binding_missing",
                    "digital co-simulation participant requires at least one port binding",
                ),
            );
        }
        Ok(
            DigitalCoSimulationParticipant {
                id: id.to_owned(),
                ports,
                program,
                stop,
                bound,
                session: None,
            },
        )
    }

    fn idle_error(&self) -> (r: EngineError)
        ensures
            r@ == idle_fault(self@.id),
    {
        fail(
            "digital_cosim_not_initialized",
            cat3(
                "digital co-simulation participant `",
                self.id.as_str(),
                "` is not initialized",
            ),
        )
    }

    fn missing_port_error(&self, port: &str) -> (r: EngineError)
        ensures
            r@ == missing_port_fault(self@.id, port@),
    {
        fail(
            "digital_cosim_port_missing",
            cat5(
                "digital co-simulation participant `",
                self.id.as_str(),
                "` has no port `",
                port,
                "`",
            ),
        )
    }
}

impl CoSimulationParticipant for DigitalCoSimulationParticipant {
    open spec fn name(&self) -> Seq<char> {
        self@.id
    }

    open spec fn port_list(&self) -> Seq<CoSimulationPort> {
        self@.ports
    }

    open spec fn reached(&self) -> CoSimulationTime {
        match self@.present {
            Some(present) => present.time,
            None => CoSimulationTime(0),
        }
    }

    open spec fn upcoming(&self) -> Option<CoSimulationTime> {
        match self@.present {
            Some(present) => next_due(present),
            None => None,
        }
    }

    open spec fn output(&self, port: Seq<char>) -> Result<CoSimulationValue, Fault> {
        self@.shown(port)
    }

    open spec fn may_start(
        &self,
        control: ExecutionControl,
        after: Self,
        outcome: Result<(), Fault>,
    ) -> bool {
        match outcome {
            Ok(_) => control.policy.failure() is None && self@.begun() == Ok::<Member, Fault>(
                after@,
            ),
            Err(f) => after@ == self@ && (control.policy.failure() == Some(f) || interrupted(
                control.policy,
                f,
            ) || self@.begun() == Err::<Member, Fault>(f)),
        }
    }

    open spec fn may_advance(
        &self,
        target: CoSimulationTime,
        control: ExecutionControl,
        after: Self,
        outcome: Result<(), Fault>,
    ) -> bool {
        &&& after@.same_as(self@)
        &&& match outcome {
            Ok(_) => self@.advanced(target) == Ok::<Member, Fault>(after@),
            Err(f) => interrupted(control.policy, f) || self@.advanced(target) == Err::<
                Member,
                Fault,
            >(f),
        }
    }

    open spec fn may_take(
        &self,
        port: Seq<char>,
        time: CoSimulationTime,
        value: CoSimulationValue,
        control: ExecutionControl,
        after: Self,
        outcome: Result<bool, Fault>,
    ) -> bool {
        &&& after@.same_as(self@)
        &&& match outcome {
            Ok(changed) => self@.written(port, time, value) == Ok::<(bool, Member), Fault>(
                (changed, after@),
            ),
            Err(f) => interrupted(control.policy, f) || self@.written(port, time, value) == Err::<
                (bool, Member),
                Fault,
            >(f),
        }
    }

    fn id(&self) -> &str {
        self.id.as_str()
    }

    fn ports(&self) -> &Vec<CoSimulationPort> {
        &self.ports
    }

    fn current_time(&self) -> CoSimulationTime {
        match &self.session {
            Some(session) => session.current_time,
            None => CoSimulationTime(0),
        }
    }

    fn initialize(&mut self, control: &ExecutionControl) -> Result<(), EngineError> {
        match check_signal(
            &control.policy,
            control.cancellation.is_cancelled(),
            "digital simulation was cancelled",
        ) {
            Err(e) => {
                return Err(e);
            },
            Ok(_) => {},
        }
        proof {
            use_type_invariant(&*self);
        }
        match DigitalParticipantSession::start(&self.program, self.stop, Some(control)) {
            Err(e) => Err(e),
            Ok(session) => {
                self.session = Some(session);
                Ok(())
            },
        }
    }

    fn next_event_time(&self) -> Option<CoSimulationTime> {
        match &self.session {
            Some(session) => session.next_event_time(),
            None => None,
        }
    }

    fn advance_to(&mut self, target: CoSimulationTime, control: &ExecutionControl) -> Result<
        (),
        EngineError,
    > {
        proof {
            use_type_invariant(&*self);
        }
        let mut held: Option<DigitalParticipantSession> = None;
        std::mem::swap(&mut held, &mut self.session);
        match held {
            None => Err(self.idle_error()),
            Some(mut session) => {
                let r = session.advance_to(&self.program, self.stop, target, Some(control));
                self.session = Some(session);
                r
            },
        }
    }

    fn read_output(&self, port: &str) -> Result<CoSimulationValue, EngineError> {
        proof {
            use_type_invariant(self);
        }
        let bound = match find_bound(&self.bound, port) {
            None => {
                return Err(self.missing_port_error(port));
            },
            Some(i) => &self.bound[i],
        };
        if bound.direction != PinDirection::Output {
            return Err(
                fail(
                    "digital_cosim_port_direction",
                    cat3("digital co-simulation port `", port, "` is not an output"),
                ),
            );
        }
        match &self.session {
            None => Err(self.idle_error()),
            Some(session) => Ok(CoSimulationValue::Digital(session.state.nets[bound.slot])),
        }
    }

    fn write_input(
        &mut self,
        port: &str,
        time: CoSimulationTime,
        value: &CoSimulationValue,
        control: &ExecutionControl,
    ) -> Result<bool, EngineError> {
        proof {
            use_type_invariant(&*self);
        }
        let at: usize = match find_bound(&self.bound, port) {
            None => {
                return Err(self.missing_port_error(port));
            },
            Some(i) => i,
        };
        let slot: usize = self.bound[at].slot;
        if self.bound[at].direction != PinDirection::Input {
            return Err(
                fail(
                    "digital_cosim_port_direction",
                    cat3("digital co-simulation port `", port, "` is not an input"),
                ),
            );
        }
        let level = match value {
            CoSimulationValue::Analog(_) => {
                return Err(
                    fail(
                        "digital_cosim_domain_mismatch",
                        cat3(
                            "digital co-simulation port `",
                            port,
                            "` requires a digital value",
                        ),
                    ),
                );
            },
            CoSimulationValue::Digital(level) => *level,
        };
        let mut held: Option<DigitalParticipantSession> = None;
        std::mem::swap(&mut held, &mut self.session);
        match held {
            None => Err(self.idle_error()),
            Some(mut session) => {
                if time.0 != session.current_time.0 {
                    self.session = Some(session);
                    return Err(
                        EngineError::new(
                            "digital_cosim_time_invalid",
                            "digital co-simulation input writes must occur at the participant current time",
                        ),
                    );
                }
                let r = session.write_external(
                    &self.program,
                    self.stop,
                    slot,
                    level,
                    Some(control),
                );
                self.session = Some(session);
                r
            },
        }
    }
}

/// An event that is still to come is reported for a time behind the present one.
pub proof fn coming_events_are_in_the_future(
    seconds: Real,
    current: CoSimulationTime,
    time: CoSimulationTime,
)
    requires
        future_time(seconds, current) == Ok::<CoSimulationTime, Fault>(time),
        seconds_of(current.0).less(seconds),
        current.0 < u64::MAX,
    ensures
        current.0 < time.0,
{
}

/// Where a net is written from outside, exactly the components with an input on it are
/// concerned.
pub proof fn dependents_are_those_concerned(program: Program, slot: int, c: int)
    ensures
        dependents(program, slot).contains(c) <==> 0 <= c < program.parts.len() && exists|i: int|
            0 <= i < program.parts[c].inputs.len() && (#[trigger] program.parts[c].inputs[i]).1
                == slot,
{
    let f = |k: int| part_dependents(program.parts[k], k, slot);
    crate::node_terms::lemma_concat_contains(program.parts.len() as int, f, c);
    assert forall|k: int| 0 <= k < program.parts.len() implies ((#[trigger] f(k)).contains(c) <==> k == c
        && exists|i: int|
        0 <= i < program.parts[k].inputs.len() && (#[trigger] program.parts[k].inputs[i]).1
            == slot) by {
        let part = program.parts[k];
        let g = |i: int| input_dependent(part, k, slot, i);
        crate::node_terms::lemma_concat_contains(part.inputs.len() as int, g, c);
        if f(k).contains(c) {
            let i = choose|i: int| 0 <= i < part.inputs.len() && (#[trigger] g(i)).contains(c);
            assert(input_dependent(part, k, slot, i).contains(c));
            assert(part.inputs[i].1 == slot);
        }
        if k == c && exists|i: int|
            0 <= i < program.parts[k].inputs.len() && (#[trigger] program.parts[k].inputs[i]).1
                == slot {
            let i = choose|i: int|
                0 <= i < program.parts[k].inputs.len() && (#[trigger] program.parts[k].inputs[i]).1
                    == slot;
            assert(g(i) =~= seq![c]);
            assert(g(i)[0] == c);
            assert(g(i).contains(c));
        }
    }
    if dependents(program, slot).contains(c) {
        let k = choose|k: int| 0 <= k < program.parts.len() && (#[trigger] f(k)).contains(c);
        assert(k == c);
    }
    if 0 <= c < program.parts.len() {
        assert(f(c).contains(c) ==> dependents(program, slot).contains(c));
    }
}

/// A level that a net already has changes nothing when it is written.
pub proof fn same_levels_change_nothing(
    k: Kern,
    program: Program,
    stop: Real,
    slot: int,
    value: LogicValue,
    now: Real,
)
    requires
        k.nets[slot] == value,
    ensures
        net_written(k, program, stop, slot, value, now) == Ok::<(bool, Kern), Fault>((false, k)),
{
}

} // verus!
