//! The event queue and the state of a running digital program.
use crate::control::{elapsed_millis, ExecutionControl, ExecutionPolicy};
use crate::digital::{
    sound_part, sound_program, CompiledDigitalComponent, DigitalPrimitive,
    DigitalProgram, Part, Program, MAX_DIGITAL_EVENTS,
};
use crate::events::{evaluated, level_outputs, Held, RuntimeState};
use crate::fault::{fail, fault, EngineError, Fault};
use crate::logic::{copy_levels, fill_levels, resolve_net, resolved};
use crate::number::{Real, INFINITY};
use crate::reading::ONE_BITS;
use crate::text::{cat3, concat_upto, decimal, decimal_text};
use crate::waveform::LogicValue;
use std::time::Instant;
use vstd::prelude::*;

verus! {

/// An output that takes a level at a time.
#[derive(Clone, Copy, Debug, PartialEq, Eq, Structural)]
pub struct ScheduledEvent {
    pub time: Real,
    pub component: usize,
    pub output: usize,
    pub value: LogicValue,
}

/// Events in the order in which they are due; those due at one time in the
/// order in which they were scheduled.
pub open spec fn in_time_order(queue: Seq<ScheduledEvent>) -> bool {
    forall|i: int, j: int|
        0 <= i < j < queue.len() ==> (#[trigger] queue[i]).time.bits <= (#[trigger] queue[j]).time.bits
}

/// The queue with one more event: behind all that are not due later.
pub open spec fn enqueued(queue: Seq<ScheduledEvent>, event: ScheduledEvent) -> Seq<ScheduledEvent>
    decreases queue.len(),
{
    if queue.len() == 0 || queue.last().time.bits <= event.time.bits {
        queue.push(event)
    } else {
        enqueued(queue.drop_last(), event).push(queue.last())
    }
}

/// A new event keeps the queue in time order, and the events that were in it
/// in their order.
pub proof fn queue_stays_in_time_order(queue: Seq<ScheduledEvent>, event: ScheduledEvent)
    requires
        in_time_order(queue),
    ensures
        in_time_order(enqueued(queue, event)),
        enqueued(queue, event).len() == queue.len() + 1,
        exists|k: int|
            0 <= k <= queue.len() && #[trigger] enqueued(queue, event) == queue.insert(k, event),
    decreases queue.len(),
{
    let r = enqueued(queue, event);
    if queue.len() == 0 || queue.last().time.bits <= event.time.bits {
        assert forall|i: int, j: int| 0 <= i < j < r.len() implies (#[trigger] r[i]).time.bits <= (
        #[trigger] r[j]).time.bits by {
            if j == queue.len() && i < queue.len() - 1 {
                assert(queue[i].time.bits <= queue[queue.len() - 1].time.bits);
            }
        }
        assert(r =~= queue.insert(queue.len() as int, event));
    } else {
        let rest = queue.drop_last();
        queue_stays_in_time_order(rest, event);
        let inner = enqueued(rest, event);
        let k = choose|k: int| 0 <= k <= rest.len() && inner == rest.insert(k, event);
        assert(r =~= queue.insert(k, event));
        assert forall|i: int, j: int| 0 <= i < j < r.len() implies (#[trigger] r[i]).time.bits <= (
        #[trigger] r[j]).time.bits by {
            if j < r.len() - 1 {
                assert(r[i] == inner[i] && r[j] == inner[j]);
            } else if i == k {
                assert(r[i] == event);
            } else {
                let m = if i < k { i } else { i - 1 };
                assert(r[i] == queue[m]);
                assert(queue[m].time.bits <= queue[queue.len() - 1].time.bits);
            }
        }
    }
}

/// The events that are still to come.
#[derive(Debug, PartialEq, Eq)]
pub struct EventQueue {
    events: Vec<ScheduledEvent>,
    head: usize,
}

impl View for EventQueue {
    type V = Seq<ScheduledEvent>;

    closed spec fn view(&self) -> Seq<ScheduledEvent> {
        self.events@.skip(self.head as int)
    }
}

impl EventQueue {
    #[verifier::type_invariant]
    spec fn head_inside(self) -> bool {
        self.head <= self.events@.len()
    }

    pub fn new() -> (r: Self)
        ensures
            r@ == Seq::<ScheduledEvent>::empty(),
    {
        let r = EventQueue { events: Vec::new(), head: 0 };
        assert(r@ =~= Seq::<ScheduledEvent>::empty());
        r
    }

    pub fn len(&self) -> (r: usize)
        ensures
            r == self@.len(),
    {
        proof {
            use_type_invariant(self);
        }
        self.events.len() - self.head
    }

    pub fn get(&self, i: usize) -> (r: ScheduledEvent)
        requires
            i < self@.len(),
        ensures
            r == self@[i as int],
    {
        proof {
            use_type_invariant(self);
        }
        let all: usize = self.events.len();
        assert(self.head + i < all);
        self.events[self.head + i]
    }

    /// Adds an event behind all that are not due later.
    pub fn push(&mut self, event: ScheduledEvent)
        ensures
            final(self)@ == enqueued(old(self)@, event),
    {
        proof {
            use_type_invariant(&*self);
        }
        let ghost q = self@;
        let head: usize = self.head;
        let mut events: Vec<ScheduledEvent> = Vec::new();
        self.head = 0;
        std::mem::swap(&mut events, &mut self.events);
        let mut i: usize = events.len();
        assert(q.take(i - head) =~= q);
        assert(q.skip(i - head) =~= Seq::<ScheduledEvent>::empty());
        assert(enqueued(q, event) =~= enqueued(q, event) + Seq::<ScheduledEvent>::empty());
        while i > head && events[i - 1].time.bits > event.time.bits
            invariant
                head <= i <= events@.len(),
                q == events@.skip(head as int),
                enqueued(q, event) == enqueued(q.take(i - head), event) + q.skip(i - head),
            decreases i,
        {
            let ghost part = q.take(i - head);
            proof {
                assert(part.last() == events@[i - 1]);
                assert(part.drop_last() =~= q.take(i - head - 1));
                assert(q.skip(i - head - 1) =~= seq![part.last()] + q.skip(i - head));
                assert(enqueued(part.drop_last(), event).push(part.last()) + q.skip(i - head)
                    =~= enqueued(part.drop_last(), event) + (seq![part.last()] + q.skip(i - head)));
            }
            i = i - 1;
        }
        proof {
            let part = q.take(i - head);
            if i > head {
                assert(part.last() == events@[i - 1]);
            }
            assert(enqueued(part, event) == part.push(event));
        }
        events.insert(i, event);
        assert(events@.skip(head as int) =~= q.take(i - head).push(event) + q.skip(i - head));
        self.events = events;
        self.head = head;
    }

    /// Takes the first `n` events out.
    pub fn drop_front(&mut self, n: usize)
        requires
            n <= old(self)@.len(),
        ensures
            final(self)@ == old(self)@.skip(n as int),
    {
        proof {
            use_type_invariant(&*self);
        }
        let ghost q = self@;
        let all: usize = self.events.len();
        assert(self.head + n <= all);
        self.head = self.head + n;
        assert(self@ =~= q.skip(n as int));
    }
}

/// The state of a running program.
pub struct Kern {
    pub nets: Seq<LogicValue>,
    pub drivers: Seq<Seq<LogicValue>>,
    pub held: Seq<Held>,
    pub queue: Seq<ScheduledEvent>,
    pub scheduled: int,
    pub processed: int,
}

/// `time` plus `delay`; never, where either is endless.
pub open spec fn later(time: Real, delay: Real) -> Real {
    if time.finite() && delay.finite() {
        time.sum(delay)
    } else {
        Real { bits: INFINITY }
    }
}

pub fn add_time(time: Real, delay: Real) -> (r: Real)
    ensures
        r == later(time, delay),
{
    if time.is_finite() && delay.is_finite() {
        time.plus(delay)
    } else {
        Real { bits: INFINITY }
    }
}

/// A share of a duration.
pub open spec fn share_of(duration: Real, share: Real) -> Real {
    if duration.finite() && share.finite() {
        duration.product(share)
    } else {
        Real { bits: INFINITY }
    }
}

pub fn take_share(duration: Real, share: Real) -> (r: Real)
    ensures
        r == share_of(duration, share),
{
    if duration.is_finite() && share.is_finite() {
        duration.times(share)
    } else {
        Real { bits: INFINITY }
    }
}

pub open spec fn event_limit() -> Fault {
    fault(
        "execution_resource_limit"@,
        "digital simulation exceeded "@ + decimal(MAX_DIGITAL_EVENTS as nat) + " scheduled events"@,
    )
}

fn event_limit_error() -> (r: EngineError)
    ensures
        r@ == event_limit(),
{
    fail(
        "execution_resource_limit",
        cat3(
            "digital simulation exceeded ",
            decimal_text(MAX_DIGITAL_EVENTS as u64).as_str(),
            " scheduled events",
        ),
    )
}

/// One more event in the queue.
pub open spec fn scheduled(k: Kern, event: ScheduledEvent) -> Result<Kern, Fault> {
    if !event.time.finite() || event.time.key() < 0 {
        Err(
            fault(
                "digital_invalid_event_time"@,
                "digital event time must be finite and non-negative"@,
            ),
        )
    } else if k.scheduled >= MAX_DIGITAL_EVENTS {
        Err(event_limit())
    } else {
        Ok(Kern { queue: enqueued(k.queue, event), scheduled: k.scheduled + 1, ..k })
    }
}

/// The level after a clock's next edge.
pub open spec fn clock_flip(value: LogicValue) -> LogicValue {
    if value == LogicValue::One {
        LogicValue::Zero
    } else {
        LogicValue::One
    }
}

/// The edges of a clock from a time on, up to the stop time.
pub open spec fn clock_ran(
    k: Kern,
    component: usize,
    stop: Real,
    high: Real,
    low: Real,
    time: Real,
    value: LogicValue,
) -> Result<Kern, Fault>
    decreases MAX_DIGITAL_EVENTS - k.scheduled,
{
    if !time.less(stop) {
        Ok(k)
    } else {
        let next = later(
            time,
            if value == LogicValue::One {
                high
            } else {
                low
            },
        );
        if stop.less(next) {
            Ok(k)
        } else {
            let level = clock_flip(value);
            match scheduled(k, ScheduledEvent { time: next, component, output: 0, value: level }) {
                Err(f) => Err(f),
                Ok(k2) => clock_ran(k2, component, stop, high, low, next, level),
            }
        }
    }
}

/// All edges of a clock.
pub open spec fn clock_scheduled(
    k: Kern,
    component: usize,
    stop: Real,
    period: Real,
    duty_cycle: Real,
    initial: LogicValue,
) -> Result<Kern, Fault> {
    let start = Real { bits: 0 };
    if !initial.known() {
        Err(
            fault(
                "digital_invalid_clock"@,
                "digital clock initial value must be zero or one"@,
            ),
        )
    } else {
        match scheduled(k, ScheduledEvent { time: start, component, output: 0, value: initial }) {
            Err(f) => Err(f),
            Ok(k2) => clock_ran(
                k2,
                component,
                stop,
                share_of(period, duty_cycle),
                share_of(period, (Real { bits: ONE_BITS }).difference(duty_cycle)),
                start,
                initial,
            ),
        }
    }
}

/// The first `n` levels on the outputs of a component, all at one time.
pub open spec fn all_scheduled(
    k: Kern,
    time: Real,
    component: usize,
    levels: Seq<LogicValue>,
    n: int,
) -> Result<Kern, Fault>
    decreases n,
{
    if n <= 0 {
        Ok(k)
    } else {
        match all_scheduled(k, time, component, levels, n - 1) {
            Err(f) => Err(f),
            Ok(k2) => scheduled(
                k2,
                ScheduledEvent {
                    time,
                    component,
                    output: (n - 1) as usize,
                    value: levels[n - 1],
                },
            ),
        }
    }
}

/// What a component that holds something drives at the start.
pub open spec fn first_levels(part: Part, held: Held) -> Seq<LogicValue> {
    if part.primitive.held_width() is Some {
        held.bits
    } else if part.primitive.holds_level() {
        level_outputs(held.q, part.outputs.len())
    } else {
        Seq::empty()
    }
}

/// The events with which one component starts.
pub open spec fn part_started(k: Kern, part: Part, component: usize, stop: Real) -> Result<
    Kern,
    Fault,
> {
    let start = Real { bits: 0 };
    match part.primitive {
        DigitalPrimitive::Constant(value) => scheduled(
            k,
            ScheduledEvent { time: start, component, output: 0, value },
        ),
        DigitalPrimitive::Clock { period, duty_cycle, initial } => clock_scheduled(
            k,
            component,
            stop,
            period,
            duty_cycle,
            initial,
        ),
        _ => {
            let levels = first_levels(part, k.held[component as int]);
            all_scheduled(k, start, component, levels, levels.len() as int)
        },
    }
}

/// The events with which the first `n` components start.
pub open spec fn started(k: Kern, program: Program, stop: Real, n: int) -> Result<Kern, Fault>
    decreases n,
{
    if n <= 0 {
        Ok(k)
    } else {
        match started(k, program, stop, n - 1) {
            Err(f) => Err(f),
            Ok(k2) => part_started(k2, program.parts[n - 1], (n - 1) as usize, stop),
        }
    }
}

/// The state before anything has happened: every net unknown, every output
/// undriven.
pub open spec fn fresh(program: Program) -> Kern {
    Kern {
        nets: Seq::new(program.nets.len(), |i: int| LogicValue::X),
        drivers: Seq::new(
            program.parts.len(),
            |i: int| Seq::new(program.parts[i].outputs.len(), |j: int| LogicValue::Z),
        ),
        held: Seq::new(
            program.parts.len(),
            |i: int|
                Held {
                    q: program.parts[i].initial_scalar,
                    bits: program.parts[i].initial_vector,
                    clock: LogicValue::X,
                },
        ),
        queue: Seq::empty(),
        scheduled: 0,
        processed: 0,
    }
}

/// How many events at the front of the queue are due at the same time.
pub open spec fn batch_len(queue: Seq<ScheduledEvent>) -> int
    decreases queue.len(),
{
    if queue.len() == 0 {
        0
    } else if queue.last().time.bits == queue[0].time.bits {
        queue.len() as int
    } else {
        batch_len(queue.drop_last())
    }
}

/// The driver levels after some events, and which nets had a driver change.
pub open spec fn applied(
    program: Program,
    drivers: Seq<Seq<LogicValue>>,
    events: Seq<ScheduledEvent>,
) -> (Seq<Seq<LogicValue>>, Seq<bool>)
    decreases events.len(),
{
    if events.len() == 0 {
        (drivers, Seq::new(program.nets.len(), |i: int| false))
    } else {
        let (before, marks) = applied(program, drivers, events.drop_last());
        let event = events.last();
        let c = event.component as int;
        let o = event.output as int;
        if before[c][o] == event.value {
            (before, marks)
        } else {
            (
                before.update(c, before[c].update(o, event.value)),
                marks.update(program.parts[c].outputs[o].1, true),
            )
        }
    }
}

/// The levels that the drivers of one component put on a net.
pub open spec fn part_levels(part: Part, levels: Seq<LogicValue>, slot: int) -> Seq<LogicValue> {
    concat_upto(part.outputs.len() as int, |o: int| level_on(part, levels, slot, o))
}

/// The level that one output puts on a net, if it is on that net.
pub open spec fn level_on(
    part: Part,
    levels: Seq<LogicValue>,
    slot: int,
    output: int,
) -> Seq<LogicValue> {
    if part.outputs[output].1 == slot {
        seq![levels[output]]
    } else {
        Seq::empty()
    }
}

/// The levels that all drivers put on a net.
pub open spec fn driver_levels(
    program: Program,
    drivers: Seq<Seq<LogicValue>>,
    slot: int,
) -> Seq<LogicValue> {
    concat_upto(
        program.parts.len() as int,
        |c: int| part_levels(program.parts[c], drivers[c], slot),
    )
}

/// The net levels after the first `n` marked nets were resolved, and which of
/// them changed.
pub open spec fn settled(
    program: Program,
    nets: Seq<LogicValue>,
    drivers: Seq<Seq<LogicValue>>,
    marks: Seq<bool>,
    n: int,
) -> (Seq<LogicValue>, Seq<int>)
    decreases n,
{
    if n <= 0 {
        (nets, Seq::empty())
    } else {
        let (before, changed) = settled(program, nets, drivers, marks, n - 1);
        let level = resolved(driver_levels(program, drivers, n - 1));
        if marks[n - 1] && level != nets[n - 1] {
            (before.update(n - 1, level), changed.push(n - 1))
        } else {
            (before, changed)
        }
    }
}

/// Whether a component has an input on one of these nets.
pub open spec fn listens(part: Part, slots: Seq<int>) -> bool {
    exists|i: int| 0 <= i < part.inputs.len() && slots.contains((#[trigger] part.inputs[i]).1)
}

/// Those of the first `n` components that have an input on one of these nets.
pub open spec fn listeners(program: Program, slots: Seq<int>, n: int) -> Seq<int>
    decreases n,
{
    if n <= 0 {
        Seq::empty()
    } else if listens(program.parts[n - 1], slots) {
        listeners(program, slots, n - 1).push(n - 1)
    } else {
        listeners(program, slots, n - 1)
    }
}

/// How many of a component's output levels become events.
pub open spec fn emitted_count(part: Part, levels: Seq<LogicValue>) -> int {
    if levels.len() <= part.outputs.len() {
        levels.len() as int
    } else {
        part.outputs.len() as int
    }
}

/// One component evaluated: its outputs are due after its delay, unless that
/// is behind the stop time.
pub open spec fn part_evaluated(k: Kern, program: Program, component: int, time: Real, stop: Real) -> Result<
    Kern,
    Fault,
> {
    let part = program.parts[component];
    match evaluated(part, k.nets, k.held[component]) {
        None => Ok(k),
        Some((levels, held)) => {
            let k2 = Kern { held: k.held.update(component, held), ..k };
            let due = later(time, part.delay);
            if due.at_most(stop) {
                all_scheduled(k2, due, component as usize, levels, emitted_count(part, levels))
            } else {
                Ok(k2)
            }
        },
    }
}

/// The first `n` of these components evaluated in order.
pub open spec fn parts_evaluated(
    k: Kern,
    program: Program,
    components: Seq<int>,
    time: Real,
    stop: Real,
    n: int,
) -> Result<Kern, Fault>
    decreases n,
{
    if n <= 0 {
        Ok(k)
    } else {
        match parts_evaluated(k, program, components, time, stop, n - 1) {
            Err(f) => Err(f),
            Ok(k2) => part_evaluated(k2, program, components[n - 1], time, stop),
        }
    }
}

/// All events that are due first taken out of the queue and applied: the nets
/// that changed, and the state then.
pub open spec fn batch_applied(k: Kern, program: Program) -> Result<(Kern, Seq<int>), Fault> {
    let count = batch_len(k.queue);
    if k.processed + count > MAX_DIGITAL_EVENTS {
        Err(event_limit())
    } else {
        let (drivers, marks) = applied(program, k.drivers, k.queue.take(count));
        let (nets, changed) = settled(program, k.nets, drivers, marks, k.nets.len() as int);
        Ok(
            (
                Kern {
                    nets,
                    drivers,
                    queue: k.queue.skip(count),
                    processed: k.processed + count,
                    ..k
                },
                changed,
            ),
        )
    }
}

/// The components that the change of these nets concerns, evaluated.
pub open spec fn listeners_evaluated(
    k: Kern,
    program: Program,
    changed: Seq<int>,
    time: Real,
    stop: Real,
) -> Result<Kern, Fault> {
    let list = listeners(program, changed, program.parts.len() as int);
    parts_evaluated(k, program, list, time, stop, list.len() as int)
}

/// The state fits the program.
pub open spec fn fits(k: Kern, program: Program) -> bool {
    &&& k.nets.len() == program.nets.len()
    &&& k.drivers.len() == program.parts.len()
    &&& k.held.len() == program.parts.len()
    &&& forall|i: int|
        0 <= i < program.parts.len() ==> (#[trigger] k.drivers[i]).len()
            == program.parts[i].outputs.len()
    &&& forall|i: int|
        0 <= i < program.parts.len() ==> (program.parts[i].primitive.held_width() matches Some(w)
            ==> (#[trigger] k.held[i]).bits.len() == w)
    &&& forall|i: int|
        0 <= i < k.queue.len() ==> event_fits(#[trigger] k.queue[i], program)
    &&& in_time_order(k.queue)
    &&& 0 <= k.scheduled <= MAX_DIGITAL_EVENTS
    &&& 0 <= k.processed <= MAX_DIGITAL_EVENTS
}

pub open spec fn event_fits(event: ScheduledEvent, program: Program) -> bool {
    &&& event.component < program.parts.len()
    &&& event.output < program.parts[event.component as int].outputs.len()
}

/// A run ended early, by a signal or for want of time.
pub open spec fn interrupted(policy: ExecutionPolicy, f: Fault) -> bool {
    ||| f == fault("execution_cancelled"@, "digital simulation was cancelled"@)
    ||| policy.timeout_ms > 0 && f == timeout_fault(policy)
}

pub open spec fn timeout_fault(policy: ExecutionPolicy) -> Fault {
    fault(
        "execution_timeout"@,
        "digital simulation exceeded configured timeout of "@ + decimal(policy.timeout_ms as nat)
            + " ms"@,
    )
}

/// Whether a run must end, by the signal and the time that has passed.
pub open spec fn stop_reason(policy: ExecutionPolicy, cancelled: bool, elapsed_ms: u128) -> Option<
    Fault,
> {
    if cancelled {
        Some(fault("execution_cancelled"@, "digital simulation was cancelled"@))
    } else if policy.timeout_ms > 0 && elapsed_ms >= policy.timeout_ms {
        Some(timeout_fault(policy))
    } else {
        None
    }
}

/// Whether a run must end, by the signal and the time that has passed.
pub fn must_stop(policy: &ExecutionPolicy, cancelled: bool, elapsed_ms: u128) -> (r: Result<
    (),
    EngineError,
>)
    ensures
        crate::fault::passes(r, stop_reason(*policy, cancelled, elapsed_ms)),
{
    if cancelled {
        return Err(EngineError::new("execution_cancelled", "digital simulation was cancelled"));
    }
    if policy.timeout_ms > 0 && elapsed_ms >= policy.timeout_ms as u128 {
        return Err(
            fail(
                "execution_timeout",
                cat3(
                    "digital simulation exceeded configured timeout of ",
                    decimal_text(policy.timeout_ms).as_str(),
                    " ms",
                ),
            ),
        );
    }
    Ok(())
}

/// A run under a control may end early; one without a control does not.
pub open spec fn may_stop(control: Option<&ExecutionControl>, f: Fault) -> bool {
    control matches Some(c) && interrupted(c.policy, f)
}

/// Whether the run must end now.
pub fn check_execution(control: Option<&ExecutionControl>, started: &Instant) -> (r: Result<
    (),
    EngineError,
>)
    ensures
        r matches Err(e) ==> may_stop(control, e@),
{
    match control {
        None => Ok(()),
        Some(c) => must_stop(&c.policy, c.cancellation.is_cancelled(), elapsed_millis(started)),
    }
}


/// The call ends as the model does, in the model's state.
pub open spec fn ends_as(r: Result<(), EngineError>, after: Kern, model: Result<Kern, Fault>) -> bool {
    match (r, model) {
        (Ok(_), Ok(k)) => after == k,
        (Err(e), Err(f)) => e@ == f,
        _ => false,
    }
}

/// The call ends as the model does, unless it is interrupted.
pub open spec fn runs_as(
    r: Result<(), EngineError>,
    after: Kern,
    model: Result<Kern, Fault>,
    control: Option<&ExecutionControl>,
) -> bool {
    ||| ends_as(r, after, model)
    ||| r matches Err(e) && may_stop(control, e@)
}

/// The state of a running program.
#[derive(Debug, PartialEq, Eq)]
pub struct DigitalState {
    pub nets: Vec<LogicValue>,
    pub drivers: Vec<Vec<LogicValue>>,
    pub states: Vec<RuntimeState>,
    pub queue: EventQueue,
    pub scheduled: usize,
    pub processed: usize,
}

pub open spec fn driver_views(v: Seq<Vec<LogicValue>>) -> Seq<Seq<LogicValue>> {
    v.map_values(|d: Vec<LogicValue>| d@)
}

pub open spec fn held_views(v: Seq<RuntimeState>) -> Seq<Held> {
    v.map_values(|s: RuntimeState| s@)
}

impl View for DigitalState {
    type V = Kern;

    open spec fn view(&self) -> Kern {
        Kern {
            nets: self.nets@,
            drivers: driver_views(self.drivers@),
            held: held_views(self.states@),
            queue: self.queue@,
            scheduled: self.scheduled as int,
            processed: self.processed as int,
        }
    }
}

proof fn lemma_enqueued_fits(queue: Seq<ScheduledEvent>, event: ScheduledEvent, program: Program)
    requires
        event_fits(event, program),
        forall|i: int| 0 <= i < queue.len() ==> event_fits(#[trigger] queue[i], program),
    ensures
        forall|i: int|
            0 <= i < enqueued(queue, event).len() ==> event_fits(
                #[trigger] enqueued(queue, event)[i],
                program,
            ),
    decreases queue.len(),
{
    if queue.len() > 0 && queue.last().time.bits > event.time.bits {
        let rest = queue.drop_last();
        assert forall|i: int| 0 <= i < rest.len() implies event_fits(#[trigger] rest[i], program) by {
            assert(queue[i] == rest[i]);
        }
        lemma_enqueued_fits(rest, event, program);
        assert(event_fits(queue[queue.len() - 1], program));
        let inner = enqueued(rest, event);
        assert forall|i: int| 0 <= i < enqueued(queue, event).len() implies event_fits(
            #[trigger] enqueued(queue, event)[i],
            program,
        ) by {
            if i < inner.len() {
                assert(event_fits(inner[i], program));
            }
        }
    }
}

/// A failure in an earlier component is the failure of the start.
proof fn lemma_started_stops(k: Kern, program: Program, stop: Real, n: int, m: int)
    requires
        0 <= m <= n,
        started(k, program, stop, m) is Err,
    ensures
        started(k, program, stop, n) == started(k, program, stop, m),
    decreases n - m,
{
    if m < n {
        lemma_started_stops(k, program, stop, n, m + 1);
    }
}

proof fn lemma_all_scheduled_stops(
    k: Kern,
    time: Real,
    component: usize,
    levels: Seq<LogicValue>,
    n: int,
    m: int,
)
    requires
        0 <= m <= n,
        all_scheduled(k, time, component, levels, m) is Err,
    ensures
        all_scheduled(k, time, component, levels, n) == all_scheduled(
            k,
            time,
            component,
            levels,
            m,
        ),
    decreases n - m,
{
    if m < n {
        lemma_all_scheduled_stops(k, time, component, levels, n, m + 1);
    }
}

proof fn lemma_parts_evaluated_stops(
    k: Kern,
    program: Program,
    components: Seq<int>,
    time: Real,
    stop: Real,
    n: int,
    m: int,
)
    requires
        0 <= m <= n,
        parts_evaluated(k, program, components, time, stop, m) is Err,
    ensures
        parts_evaluated(k, program, components, time, stop, n) == parts_evaluated(
            k,
            program,
            components,
            time,
            stop,
            m,
        ),
    decreases n - m,
{
    if m < n {
        lemma_parts_evaluated_stops(k, program, components, time, stop, n, m + 1);
    }
}

proof fn lemma_batch_len(queue: Seq<ScheduledEvent>)
    ensures
        0 <= batch_len(queue) <= queue.len(),
        queue.len() > 0 ==> batch_len(queue) > 0,
    decreases queue.len(),
{
    if queue.len() > 0 && queue.last().time.bits != queue[0].time.bits {
        lemma_batch_len(queue.drop_last());
    }
}

impl DigitalState {
    pub fn new(program: &DigitalProgram) -> (r: Self)
        requires
            sound_program(program@),
        ensures
            r@ == fresh(program@),
            fits(r@, program@),
    {
        let nets = fill_levels(program.nets.len(), LogicValue::X);
        let mut drivers: Vec<Vec<LogicValue>> = Vec::new();
        let mut states: Vec<RuntimeState> = Vec::new();
        let ghost first = fresh(program@);
        let mut i: usize = 0;
        while i < program.components.len()
            invariant
                i <= program.components@.len(),
                first == fresh(program@),
                driver_views(drivers@) =~= first.drivers.take(i as int),
                held_views(states@) =~= first.held.take(i as int),
            decreases program.components@.len() - i,
        {
            let c = &program.components[i];
            let ghost d = driver_views(drivers@);
            let ghost h = held_views(states@);
            drivers.push(fill_levels(c.outputs.len(), LogicValue::Z));
            states.push(
                RuntimeState {
                    q: c.initial_scalar,
                    bits: copy_levels(&c.initial_vector),
                    previous_clock: LogicValue::X,
                },
            );
            proof {
                assert(program@.parts[i as int] == c@);
                assert(driver_views(drivers@) =~= d.push(first.drivers[i as int]));
                assert(held_views(states@) =~= h.push(first.held[i as int]));
            }
            i = i + 1;
            assert(first.drivers.take(i as int) =~= first.drivers.take(i - 1).push(
                first.drivers[i - 1],
            ));
            assert(first.held.take(i as int) =~= first.held.take(i - 1).push(first.held[i - 1]));
        }
        let r = DigitalState {
            nets,
            drivers,
            states,
            queue: EventQueue::new(),
            scheduled: 0,
            processed: 0,
        };
        proof {
            assert(r@.nets =~= first.nets);
            assert(first.drivers.take(i as int) =~= first.drivers);
            assert(first.held.take(i as int) =~= first.held);
            assert(r@ == first);
            assert forall|i: int| 0 <= i < program@.parts.len() implies (
            program@.parts[i].primitive.held_width() matches Some(w) ==> (
            #[trigger] first.held[i]).bits.len() == w) by {
                assert(sound_part(program@.parts[i], program@.nets.len() as int));
            }
        }
        r
    }

    /// Puts one event into the queue.
    pub fn schedule_output(&mut self, program: &DigitalProgram, event: ScheduledEvent) -> (r: Result<
        (),
        EngineError,
    >)
        requires
            fits(old(self)@, program@),
            event_fits(event, program@),
        ensures
            ends_as(r, final(self)@, scheduled(old(self)@, event)),
            fits(final(self)@, program@),
            final(self)@.nets == old(self)@.nets,
            final(self)@.processed == old(self)@.processed,
    {
        if !event.time.is_finite() || event.time.lt(Real { bits: 0 }) {
            return Err(
                EngineError::new(
                    "digital_invalid_event_time",
                    "digital event time must be finite and non-negative",
                ),
            );
        }
        if self.scheduled >= MAX_DIGITAL_EVENTS {
            return Err(event_limit_error());
        }
        proof {
            lemma_enqueued_fits(self.queue@, event, program@);
            queue_stays_in_time_order(self.queue@, event);
        }
        self.queue.push(event);
        self.scheduled = self.scheduled + 1;
        Ok(())
    }

    /// Puts all edges of a clock into the queue.
    pub fn schedule_clock(
        &mut self,
        program: &DigitalProgram,
        component: usize,
        stop: Real,
        period: Real,
        duty_cycle: Real,
        initial: LogicValue,
        control: Option<&ExecutionControl>,
        started: &Instant,
    ) -> (r: Result<(), EngineError>)
        requires
            fits(old(self)@, program@),
            component < program@.parts.len(),
            program@.parts[component as int].outputs.len() > 0,
            duty_cycle.finite(),
        ensures
            runs_as(
                r,
                final(self)@,
                clock_scheduled(old(self)@, component, stop, period, duty_cycle, initial),
                control,
            ),
            fits(final(self)@, program@),
            final(self)@.nets == old(self)@.nets,
            final(self)@.processed == old(self)@.processed,
    {
        if !initial.is_known() {
            return Err(
                EngineError::new(
                    "digital_invalid_clock",
                    "digital clock initial value must be zero or one",
                ),
            );
        }
        let start = Real { bits: 0 };
        match self.schedule_output(
            program,
            ScheduledEvent { time: start, component, output: 0, value: initial },
        ) {
            Err(e) => {
                return Err(e);
            },
            Ok(_) => {},
        }
        let one = Real { bits: ONE_BITS };
        let high = take_share(period, duty_cycle);
        let low = take_share(period, one.minus(duty_cycle));
        let ghost model = clock_ran(self@, component, stop, high, low, start, initial);
        let mut time = start;
        let mut value = initial;
        while time.lt(stop)
            invariant
                fits(self@, program@),
                component < program@.parts.len(),
                program@.parts[component as int].outputs.len() > 0,
                model == clock_ran(self@, component, stop, high, low, time, value),
                model == clock_scheduled(
                    old(self)@,
                    component,
                    stop,
                    period,
                    duty_cycle,
                    initial,
                ),
                self@.nets == old(self)@.nets,
                self@.processed == old(self)@.processed,
            decreases MAX_DIGITAL_EVENTS - self.scheduled,
        {
            match check_execution(control, started) {
                Err(e) => {
                    return Err(e);
                },
                Ok(_) => {},
            }
            let next = add_time(
                time,
                if value == LogicValue::One {
                    high
                } else {
                    low
                },
            );
            if stop.lt(next) {
                return Ok(());
            }
            let level = if value == LogicValue::One {
                LogicValue::Zero
            } else {
                LogicValue::One
            };
            match self.schedule_output(
                program,
                ScheduledEvent { time: next, component, output: 0, value: level },
            ) {
                Err(e) => {
                    return Err(e);
                },
                Ok(_) => {},
            }
            time = next;
            value = level;
        }
        Ok(())
    }

    /// Puts the first `count` levels of a component into the queue.
    fn schedule_levels(
        &mut self,
        program: &DigitalProgram,
        time: Real,
        component: usize,
        levels: &Vec<LogicValue>,
        count: usize,
    ) -> (r: Result<(), EngineError>)
        requires
            fits(old(self)@, program@),
            component < program@.parts.len(),
            count <= levels@.len(),
            count <= program@.parts[component as int].outputs.len(),
        ensures
            ends_as(
                r,
                final(self)@,
                all_scheduled(old(self)@, time, component, levels@, count as int),
            ),
            fits(final(self)@, program@),
            final(self)@.nets == old(self)@.nets,
            final(self)@.processed == old(self)@.processed,
    {
        let mut i: usize = 0;
        while i < count
            invariant
                i <= count <= levels@.len(),
                fits(self@, program@),
                component < program@.parts.len(),
                count <= program@.parts[component as int].outputs.len(),
                all_scheduled(old(self)@, time, component, levels@, i as int) == Ok::<Kern, Fault>(
                    self@,
                ),
                self@.nets == old(self)@.nets,
                self@.processed == old(self)@.processed,
            decreases count - i,
        {
            let event = ScheduledEvent { time, component, output: i, value: levels[i] };
            assert(scheduled(self@, event) == all_scheduled(
                old(self)@,
                time,
                component,
                levels@,
                i + 1,
            ));
            match self.schedule_output(program, event) {
                Err(e) => {
                    proof {
                        lemma_all_scheduled_stops(
                            old(self)@,
                            time,
                            component,
                            levels@,
                            count as int,
                            i + 1,
                        );
                    }
                    return Err(e);
                },
                Ok(_) => {},
            }
            i = i + 1;
        }
        Ok(())
    }

    /// What a component that holds something drives at the start.
    fn initial_outputs(&self, component: &CompiledDigitalComponent, index: usize) -> (r: Vec<
        LogicValue,
    >)
        requires
            index < self.states@.len(),
        ensures
            r@ == first_levels(component@, self@.held[index as int]),
    {
        let state = &self.states[index];
        match component.primitive {
            DigitalPrimitive::Register { .. } | DigitalPrimitive::Counter { .. } => copy_levels(
                &state.bits,
            ),
            DigitalPrimitive::DLatch
            | DigitalPrimitive::SRLatch
            | DigitalPrimitive::DFlipFlop { .. }
            | DigitalPrimitive::JKFlipFlop { .. }
            | DigitalPrimitive::TFlipFlop { .. }
            | DigitalPrimitive::SRFlipFlop { .. } => crate::events::q_outputs(
                state.q,
                component.outputs.len(),
            ),
            _ => {
                let v: Vec<LogicValue> = Vec::new();
                assert(v@ =~= Seq::<LogicValue>::empty());
                v
            },
        }
    }

    /// Puts the events with which the components start into the queue.
    pub fn schedule_initial(
        &mut self,
        program: &DigitalProgram,
        stop: Real,
        control: Option<&ExecutionControl>,
        clock: &Instant,
    ) -> (r: Result<(), EngineError>)
        requires
            fits(old(self)@, program@),
            sound_program(program@),
        ensures
            runs_as(
                r,
                final(self)@,
                started(old(self)@, program@, stop, program@.parts.len() as int),
                control,
            ),
            fits(final(self)@, program@),
            final(self)@.nets == old(self)@.nets,
            final(self)@.processed == old(self)@.processed,
    {
        let mut i: usize = 0;
        while i < program.components.len()
            invariant
                i <= program.components@.len(),
                program@.parts.len() == program.components@.len(),
                fits(self@, program@),
                sound_program(program@),
                    started(old(self)@, program@, stop, i as int) == Ok::<Kern, Fault>(self@),
                self@.nets == old(self)@.nets,
                self@.processed == old(self)@.processed,
            decreases program.components@.len() - i,
        {
            let component = &program.components[i];
            let ghost part = component@;
            assert(part == program@.parts[i as int]);
            assert(sound_part(part, program@.nets.len() as int));
            assert(part_started(self@, part, i, stop) == started(
                old(self)@,
                program@,
                stop,
                i + 1,
            ));
            let start = Real { bits: 0 };
            let outcome = match component.primitive {
                DigitalPrimitive::Constant(value) => self.schedule_output(
                    program,
                    ScheduledEvent { time: start, component: i, output: 0, value },
                ),
                DigitalPrimitive::Clock { period, duty_cycle, initial } => self.schedule_clock(
                    program,
                    i,
                    stop,
                    period,
                    duty_cycle,
                    initial,
                    control,
                    clock,
                ),
                _ => {
                    let levels = self.initial_outputs(component, i);
                    let count: usize = levels.len();
                    self.schedule_levels(program, start, i, &levels, count)
                },
            };
            match outcome {
                Err(e) => {
                    proof {
                        if started(old(self)@, program@, stop, i + 1) is Err {
                            lemma_started_stops(
                                old(self)@,
                                program@,
                                stop,
                                program@.parts.len() as int,
                                i + 1,
                            );
                        }
                    }
                    return Err(e);
                },
                Ok(_) => {},
            }
            i = i + 1;
        }
        Ok(())
    }
}


proof fn lemma_applied_shape(
    program: Program,
    drivers: Seq<Seq<LogicValue>>,
    events: Seq<ScheduledEvent>,
)
    requires
        sound_program(program),
        drivers.len() == program.parts.len(),
        forall|i: int|
            0 <= i < program.parts.len() ==> (#[trigger] drivers[i]).len()
                == program.parts[i].outputs.len(),
        forall|i: int| 0 <= i < events.len() ==> event_fits(#[trigger] events[i], program),
    ensures
        applied(program, drivers, events).0.len() == program.parts.len(),
        applied(program, drivers, events).1.len() == program.nets.len(),
        forall|i: int|
            0 <= i < program.parts.len() ==> (#[trigger] applied(program, drivers, events).0[i]).len()
                == program.parts[i].outputs.len(),
    decreases events.len(),
{
    if events.len() > 0 {
        let rest = events.drop_last();
        assert forall|i: int| 0 <= i < rest.len() implies event_fits(#[trigger] rest[i], program) by {
            assert(event_fits(events[i], program));
        }
        lemma_applied_shape(program, drivers, rest);
        let (before, marks) = applied(program, drivers, rest);
        let event = events.last();
        let c = event.component as int;
        let o = event.output as int;
        assert(event_fits(events[events.len() - 1], program));
        let after = applied(program, drivers, events).0;
        assert forall|i: int| 0 <= i < program.parts.len() implies (#[trigger] after[i]).len()
            == program.parts[i].outputs.len() by {
            assert(before[i].len() == program.parts[i].outputs.len());
            if i == c && before[c][o] != event.value {
                assert(after[i] == before[c].update(o, event.value));
            }
        }
    }
}

proof fn lemma_settled_shape(
    program: Program,
    nets: Seq<LogicValue>,
    drivers: Seq<Seq<LogicValue>>,
    marks: Seq<bool>,
    n: int,
)
    requires
        0 <= n <= nets.len(),
    ensures
        settled(program, nets, drivers, marks, n).0.len() == nets.len(),
        forall|i: int|
            0 <= i < settled(program, nets, drivers, marks, n).1.len() ==> 0 <= #[trigger] settled(
                program,
                nets,
                drivers,
                marks,
                n,
            ).1[i] < n,
    decreases n,
{
    if n > 0 {
        lemma_settled_shape(program, nets, drivers, marks, n - 1);
        let before = settled(program, nets, drivers, marks, n - 1).1;
        let after = settled(program, nets, drivers, marks, n).1;
        assert forall|i: int| 0 <= i < after.len() implies 0 <= #[trigger] after[i] < n by {
            if i < before.len() {
                assert(after[i] == before[i]);
            }
        }
    }
}

proof fn lemma_listeners_range(program: Program, slots: Seq<int>, n: int)
    ensures
        forall|i: int|
            0 <= i < listeners(program, slots, n).len() ==> 0 <= #[trigger] listeners(
                program,
                slots,
                n,
            )[i] < n,
    decreases n,
{
    if n > 0 {
        lemma_listeners_range(program, slots, n - 1);
        let before = listeners(program, slots, n - 1);
        let after = listeners(program, slots, n);
        assert forall|i: int| 0 <= i < after.len() implies 0 <= #[trigger] after[i] < n by {
            if i < before.len() {
                assert(after[i] == before[i]);
            }
        }
    }
}

pub open spec fn indices(v: Seq<usize>) -> Seq<int> {
    v.map_values(|i: usize| i as int)
}

impl DigitalState {
    /// How many events at the front of the queue are due at the same time.
    fn count_batch(&self) -> (r: usize)
        requires
            in_time_order(self.queue@),
        ensures
            r == batch_len(self.queue@),
    {
        let ghost q = self.queue@;
        let all: usize = self.queue.len();
        if all == 0 {
            return 0;
        }
        let first = self.queue.get(0).time.bits;
        let mut n: usize = 1;
        while n < all && self.queue.get(n).time.bits == first
            invariant
                1 <= n <= all,
                all == q.len(),
                q == self.queue@,
                first == q[0].time.bits,
                forall|i: int| 0 <= i < n ==> (#[trigger] q[i]).time.bits == first,
            decreases all - n,
        {
            n = n + 1;
        }
        proof {
            lemma_batch_is_front(q, n as int);
        }
        n
    }

    /// The levels that all drivers put on a net.
    pub fn levels_on(&self, program: &DigitalProgram, slot: usize) -> (r: Vec<LogicValue>)
        requires
            fits(self@, program@),
        ensures
            r@ == driver_levels(program@, self@.drivers, slot as int),
    {
        let ghost p = program@;
        let ghost d = self@.drivers;
        let ghost f = |c: int| part_levels(p.parts[c], d[c], slot as int);
        let mut out: Vec<LogicValue> = Vec::new();
        let mut c: usize = 0;
        while c < program.components.len()
            invariant
                c <= program.components@.len(),
                p == program@,
                d == self@.drivers,
                fits(self@, p),
                f == (|c: int| part_levels(p.parts[c], d[c], slot as int)),
                out@ == concat_upto(c as int, f),
            decreases program.components@.len() - c,
        {
            let outputs = &program.components[c].outputs;
            let levels = &self.drivers[c];
            let ghost part = p.parts[c as int];
            let ghost start = out@;
            let ghost at = slot as int;
            let ghost g = |o: int| level_on(part, levels@, at, o);
            let mut o: usize = 0;
            assert(d[c as int] == levels@);
            assert(levels@.len() == part.outputs.len());
            assert(part.outputs.len() == outputs@.len());
            assert(start + concat_upto(0, g) =~= start);
            while o < outputs.len()
                invariant
                    o <= outputs@.len(),
                    levels@.len() == outputs@.len(),
                    part.outputs == crate::digital::slots_of(outputs@),
                    at == slot,
                    g == (|o: int| level_on(part, levels@, at, o)),
                    out@ == start + concat_upto(o as int, g),
                decreases outputs@.len() - o,
            {
                let ghost before = out@;
                assert(part.outputs[o as int].1 == outputs@[o as int].slot);
                if outputs[o].slot == slot {
                    out.push(levels[o]);
                }
                assert(out@ =~= start + (concat_upto(o as int, g) + g(o as int)));
                o = o + 1;
            }
            assert(part_levels(part, levels@, at) == concat_upto(o as int, g));
            c = c + 1;
        }
        out
    }

    /// Takes the events that are due first out of the queue and applies them:
    /// the nets that changed.
    pub fn apply_batch(&mut self, program: &DigitalProgram) -> (r: Result<Vec<usize>, EngineError>)
        requires
            fits(old(self)@, program@),
            sound_program(program@),
        ensures
            match (r, batch_applied(old(self)@, program@)) {
                (Ok(changed), Ok((k, slots))) => final(self)@ == k && indices(changed@) == slots,
                (Err(e), Err(f)) => e@ == f,
                _ => false,
            },
            fits(final(self)@, program@),
            r matches Ok(changed) ==> forall|i: int|
                0 <= i < changed@.len() ==> (#[trigger] changed@[i]) < program@.nets.len(),
            r is Ok && old(self)@.queue.len() > 0 ==> final(self)@.processed > old(
                self,
            )@.processed,
    {
        let ghost k = self@;
        let ghost p = program@;
        proof {
            lemma_batch_len(k.queue);
        }
        let count: usize = self.count_batch();
        if count > MAX_DIGITAL_EVENTS || self.processed > MAX_DIGITAL_EVENTS - count {
            return Err(event_limit_error());
        }
        let ghost events = k.queue.take(count as int);
        let n: usize = program.nets.len();
        let mut marks: Vec<bool> = Vec::new();
        let mut m: usize = 0;
        while m < n
            invariant
                m <= n,
                marks@ == Seq::new(m as nat, |i: int| false),
            decreases n - m,
        {
            marks.push(false);
            m = m + 1;
            assert(marks@ =~= Seq::new(m as nat, |i: int| false));
        }
        let mut i: usize = 0;
        proof {
            assert forall|i: int| 0 <= i < events.len() implies event_fits(
                #[trigger] events[i],
                p,
            ) by {
                assert(events[i] == k.queue[i]);
            }
        }
        assert(events.take(0) =~= Seq::<ScheduledEvent>::empty());
        while i < count
            invariant
                i <= count,
                count <= k.queue.len(),
                p == program@,
                n == p.nets.len(),
                events == k.queue.take(count as int),
                self.queue@ == k.queue,
                self.nets@ == k.nets,
                self@.held == k.held,
                self.scheduled == k.scheduled,
                self.processed == k.processed,
                fits(k, p),
                sound_program(p),
                forall|i: int| 0 <= i < events.len() ==> event_fits(#[trigger] events[i], p),
                (self@.drivers, marks@) == applied(p, k.drivers, events.take(i as int)),
            decreases count - i,
        {
            let event = self.queue.get(i);
            let ghost sofar = events.take(i as int);
            let ghost before = self@.drivers;
            proof {
                assert(events.take(i + 1).drop_last() =~= sofar);
                assert(events.take(i + 1).last() == event);
                assert(event_fits(events[i as int], p));
                assert forall|j: int| 0 <= j < sofar.len() implies event_fits(
                    #[trigger] sofar[j],
                    p,
                ) by {
                    assert(sofar[j] == events[j]);
                }
                lemma_applied_shape(p, k.drivers, sofar);
                assert(before[event.component as int].len()
                    == p.parts[event.component as int].outputs.len());
                assert(before[event.component as int] == self.drivers@[event.component as int]@);
                assert(sound_part(p.parts[event.component as int], p.nets.len() as int));
                assert(p.parts[event.component as int].outputs[event.output as int].1
                    == program.components@[event.component as int].outputs@[event.output as int].slot);
            }
            let mut levels = copy_levels(&self.drivers[event.component]);
            if levels[event.output] != event.value {
                let slot: usize = program.components[event.component].outputs[event.output].slot;
                levels.set(event.output, event.value);
                self.drivers.set(event.component, levels);
                marks.set(slot, true);
                assert(self@.drivers =~= before.update(
                    event.component as int,
                    before[event.component as int].update(event.output as int, event.value),
                ));
            }
            i = i + 1;
        }
        assert(events.take(i as int) =~= events);
        let ghost drivers = self@.drivers;
        proof {
            lemma_applied_shape(p, k.drivers, events);
        }
        let mut changed: Vec<usize> = Vec::new();
        let mut s: usize = 0;
        assert(indices(changed@) =~= Seq::<int>::empty());
        while s < n
            invariant
                s <= n,
                p == program@,
                n == p.nets.len(),
                k.nets.len() == n,
                marks@.len() == n,
                self.queue@ == k.queue,
                self@.held == k.held,
                self.scheduled == k.scheduled,
                self.processed == k.processed,
                self@.drivers == drivers,
                self.nets@.len() == n,
                fits(k, p),
                drivers.len() == p.parts.len(),
                forall|i: int|
                    0 <= i < p.parts.len() ==> (#[trigger] drivers[i]).len()
                        == p.parts[i].outputs.len(),
                forall|j: int| s <= j < n ==> self.nets@[j] == k.nets[j],
                (self.nets@, indices(changed@)) == settled(p, k.nets, drivers, marks@, s as int),
                forall|i: int| 0 <= i < changed@.len() ==> (#[trigger] changed@[i]) < s,
            decreases n - s,
        {
            if marks[s] {
                assert(fits(self@, p));
                let level = resolve_net(&self.levels_on(program, s));
                if level != self.nets[s] {
                    let ghost before = indices(changed@);
                    self.nets.set(s, level);
                    changed.push(s);
                    assert(indices(changed@) =~= before.push(s as int));
                }
            }
            s = s + 1;
        }
        self.queue.drop_front(count);
        self.processed = self.processed + count;
        proof {
            let q = self.queue@;
            assert forall|i: int| 0 <= i < q.len() implies event_fits(#[trigger] q[i], p) by {
                assert(q[i] == k.queue[i + count]);
            }
            assert forall|i: int, j: int| 0 <= i < j < q.len() implies (#[trigger] q[i]).time.bits
                <= (#[trigger] q[j]).time.bits by {
                assert(q[i] == k.queue[i + count] && q[j] == k.queue[j + count]);
            }
            assert forall|i: int| 0 <= i < p.parts.len() implies (
            p.parts[i].primitive.held_width() matches Some(w) ==> (
            #[trigger] self@.held[i]).bits.len() == w) by {
                assert(k.held[i] == self@.held[i]);
            }
        }
        Ok(changed)
    }
}

/// In a queue in time order the events due first are the front of it.
proof fn lemma_batch_is_front(queue: Seq<ScheduledEvent>, n: int)
    requires
        in_time_order(queue),
        0 < n <= queue.len(),
        forall|i: int| 0 <= i < n ==> (#[trigger] queue[i]).time.bits == queue[0].time.bits,
        n < queue.len() ==> queue[n].time.bits != queue[0].time.bits,
    ensures
        batch_len(queue) == n,
    decreases queue.len(),
{
    if n < queue.len() {
        let last = queue.len() - 1;
        assert(queue[0].time.bits <= queue[n].time.bits);
        if n < last {
            assert(queue[n].time.bits <= queue[last].time.bits);
        }
        assert(queue.last().time.bits != queue[0].time.bits);
        let rest = queue.drop_last();
        assert forall|i: int, j: int| 0 <= i < j < rest.len() implies (#[trigger] rest[i]).time.bits
            <= (#[trigger] rest[j]).time.bits by {
            assert(queue[i].time.bits <= queue[j].time.bits);
        }
        assert forall|i: int| 0 <= i < n implies (#[trigger] rest[i]).time.bits
            == rest[0].time.bits by {
            assert(queue[i].time.bits == queue[0].time.bits);
        }
        lemma_batch_is_front(rest, n);
    } else {
        assert(queue[n - 1].time.bits == queue[0].time.bits);
    }
}


impl DigitalState {
    /// Whether the component has an input on one of these nets.
    fn component_listens(component: &CompiledDigitalComponent, slots: &Vec<usize>) -> (r: bool)
        ensures
            r == listens(component@, indices(slots@)),
    {
        let ghost all = indices(slots@);
        let mut i: usize = 0;
        while i < component.inputs.len()
            invariant
                i <= component.inputs@.len(),
                all == indices(slots@),
                forall|k: int|
                    0 <= k < i ==> !all.contains((#[trigger] component@.inputs[k]).1),
            decreases component.inputs@.len() - i,
        {
            let slot: usize = component.inputs[i].slot;
            assert(component@.inputs[i as int].1 == slot);
            let mut j: usize = 0;
            while j < slots.len()
                invariant
                    j <= slots@.len(),
                    i < component.inputs@.len(),
                    all == indices(slots@),
                    component@.inputs[i as int].1 == slot,
                    forall|k: int| 0 <= k < j ==> (#[trigger] slots@[k]) != slot,
                decreases slots@.len() - j,
            {
                if slots[j] == slot {
                    proof {
                        assert(all[j as int] == slot);
                        assert(all.contains(component@.inputs[i as int].1));
                    }
                    return true;
                }
                j = j + 1;
            }
            proof {
                if all.contains(slot as int) {
                    let k = choose|k: int| 0 <= k < all.len() && all[k] == slot as int;
                    assert(slots@[k] == slot);
                }
            }
            i = i + 1;
        }
        false
    }

    /// The components that the change of these nets concerns.
    pub fn affected(program: &DigitalProgram, changed: &Vec<usize>) -> (r: Vec<usize>)
        ensures
            indices(r@) == listeners(
                program@,
                indices(changed@),
                program@.parts.len() as int,
            ),
            forall|i: int| 0 <= i < r@.len() ==> (#[trigger] r@[i]) < program@.parts.len(),
    {
        let mut out: Vec<usize> = Vec::new();
        let mut i: usize = 0;
        assert(indices(out@) =~= Seq::<int>::empty());
        while i < program.components.len()
            invariant
                i <= program.components@.len(),
                program@.parts.len() == program.components@.len(),
                indices(out@) == listeners(program@, indices(changed@), i as int),
                forall|k: int| 0 <= k < out@.len() ==> (#[trigger] out@[k]) < i,
            decreases program.components@.len() - i,
        {
            assert(program@.parts[i as int] == program.components@[i as int]@);
            if DigitalState::component_listens(&program.components[i], changed) {
                let ghost before = indices(out@);
                out.push(i);
                assert(indices(out@) =~= before.push(i as int));
            }
            i = i + 1;
        }
        out
    }

    /// Evaluates one component and schedules its outputs.
    fn evaluate_component(
        &mut self,
        program: &DigitalProgram,
        index: usize,
        time: Real,
        stop: Real,
    ) -> (r: Result<(), EngineError>)
        requires
            fits(old(self)@, program@),
            sound_program(program@),
            index < program@.parts.len(),
        ensures
            ends_as(
                r,
                final(self)@,
                part_evaluated(old(self)@, program@, index as int, time, stop),
            ),
            fits(final(self)@, program@),
            final(self)@.nets == old(self)@.nets,
            final(self)@.processed == old(self)@.processed,
    {
        let component = &program.components[index];
        let ghost k = self@;
        let ghost p = program@;
        let ghost part = component@;
        proof {
            assert(part == p.parts[index as int]);
            assert(sound_part(part, p.nets.len() as int));
        }
        let old_state = &self.states[index];
        let mut state = RuntimeState {
            q: old_state.q,
            bits: copy_levels(&old_state.bits),
            previous_clock: old_state.previous_clock,
        };
        assert(state@ == k.held[index as int]);
        match component.evaluate(&self.nets, &mut state) {
            None => Ok(()),
            Some(levels) => {
                let ghost pair = evaluated(part, k.nets, k.held[index as int])->0;
                let ghost held = pair.1;
                self.states.set(index, state);
                let ghost k2 = self@;
                proof {
                    assert(k2.held =~= k.held.update(index as int, held));
                    if part.primitive.held_width() is Some {
                        let w = part.primitive.held_width()->0;
                        assert(k.held[index as int].bits.len() == w);
                        match part.primitive {
                            DigitalPrimitive::Register { width, edge } => {
                                crate::events::held_width_is_kept(
                                    part,
                                    k.nets,
                                    k.held[index as int],
                                    width as nat,
                                    edge,
                                );
                            },
                            DigitalPrimitive::Counter { width, edge } => {
                                crate::events::held_width_is_kept(
                                    part,
                                    k.nets,
                                    k.held[index as int],
                                    width as nat,
                                    edge,
                                );
                            },
                            _ => {},
                        }
                    }
                    assert forall|i: int| 0 <= i < p.parts.len() implies (
                    p.parts[i].primitive.held_width() matches Some(w) ==> (
                    #[trigger] k2.held[i]).bits.len() == w) by {
                        if i != index {
                            assert(k2.held[i] == k.held[i]);
                        }
                    }
                    assert(fits(k2, p));
                }
                let due = add_time(time, component.delay);
                if due.le(stop) {
                    let count: usize = if levels.len() <= component.outputs.len() {
                        levels.len()
                    } else {
                        component.outputs.len()
                    };
                    self.schedule_levels(program, due, index, &levels, count)
                } else {
                    Ok(())
                }
            },
        }
    }

    /// Evaluates components in order and schedules their outputs.
    pub fn evaluate_components(
        &mut self,
        program: &DigitalProgram,
        components: &Vec<usize>,
        time: Real,
        stop: Real,
    ) -> (r: Result<(), EngineError>)
        requires
            fits(old(self)@, program@),
            sound_program(program@),
            forall|i: int|
                0 <= i < components@.len() ==> (#[trigger] components@[i]) < program@.parts.len(),
        ensures
            ends_as(
                r,
                final(self)@,
                parts_evaluated(
                    old(self)@,
                    program@,
                    indices(components@),
                    time,
                    stop,
                    components@.len() as int,
                ),
            ),
            fits(final(self)@, program@),
            final(self)@.nets == old(self)@.nets,
            final(self)@.processed == old(self)@.processed,
    {
        let ghost list = indices(components@);
        let mut i: usize = 0;
        while i < components.len()
            invariant
                i <= components@.len(),
                list == indices(components@),
                fits(self@, program@),
                sound_program(program@),
                forall|i: int|
                    0 <= i < components@.len() ==> (#[trigger] components@[i])
                        < program@.parts.len(),
                parts_evaluated(old(self)@, program@, list, time, stop, i as int) == Ok::<
                    Kern,
                    Fault,
                >(self@),
                self@.nets == old(self)@.nets,
                self@.processed == old(self)@.processed,
            decreases components@.len() - i,
        {
            assert(list[i as int] == components@[i as int]);
            match self.evaluate_component(program, components[i], time, stop) {
                Err(e) => {
                    proof {
                        lemma_parts_evaluated_stops(
                            old(self)@,
                            program@,
                            list,
                            time,
                            stop,
                            list.len() as int,
                            i + 1,
                        );
                    }
                    return Err(e);
                },
                Ok(_) => {},
            }
            i = i + 1;
        }
        Ok(())
    }
}


/// A delay that is not negative never leads back in time.
pub proof fn delays_lead_forward(time: Real, delay: Real)
    requires
        time.finite(),
        !time.negative(),
        delay.finite(),
        delay.key() >= 0,
    ensures
        later(time, delay).bits >= time.bits,
{
    let t = time.magnitude();
    let d = delay.magnitude();
    let exact = time.value() + delay.value();
    vstd::arithmetic::power2::lemma_pow2_pos(crate::number::scale(d));
    let m = crate::number::significand(t);
    let p = vstd::arithmetic::power2::pow2(crate::number::scale(t));
    vstd::arithmetic::power2::lemma_pow2_pos(crate::number::scale(t));
    assert(m * p == 0 ==> m == 0) by (nonlinear_arith)
        requires
            p > 0,
    ;
    if delay.negative() {
        assert(d == 0);
        let z = vstd::arithmetic::power2::pow2(0);
        assert(0 * z == 0) by (nonlinear_arith);
        assert(crate::number::units(0) == 0);
    }
    assert(exact >= crate::number::units(t));
    if exact == 0 {
        assert(t == 0);
        assert(later(time, delay) == Real { bits: 0 });
    }
    crate::number::rounding_is_exact_on_doubles(t);
    crate::number::rounding_keeps_order(crate::number::units(t), exact as nat, 1);
}

/// Whether all events of a queue are due at a time or later.
pub open spec fn not_before(queue: Seq<ScheduledEvent>, time: Real) -> bool {
    forall|i: int| 0 <= i < queue.len() ==> (#[trigger] queue[i]).time.bits >= time.bits
}

proof fn lemma_enqueued_not_before(queue: Seq<ScheduledEvent>, event: ScheduledEvent, time: Real)
    requires
        not_before(queue, time),
        event.time.bits >= time.bits,
    ensures
        not_before(enqueued(queue, event), time),
    decreases queue.len(),
{
    if queue.len() > 0 && queue.last().time.bits > event.time.bits {
        let rest = queue.drop_last();
        assert forall|i: int| 0 <= i < rest.len() implies (#[trigger] rest[i]).time.bits
            >= time.bits by {
            assert(queue[i].time.bits >= time.bits);
        }
        lemma_enqueued_not_before(rest, event, time);
        assert(queue[queue.len() - 1].time.bits >= time.bits);
    }
}

proof fn lemma_all_scheduled_not_before(
    k: Kern,
    due: Real,
    component: usize,
    levels: Seq<LogicValue>,
    n: int,
    time: Real,
)
    requires
        not_before(k.queue, time),
        due.bits >= time.bits,
    ensures
        all_scheduled(k, due, component, levels, n) matches Ok(k2) ==> not_before(k2.queue, time),
    decreases n,
{
    if n > 0 {
        lemma_all_scheduled_not_before(k, due, component, levels, n - 1, time);
        match all_scheduled(k, due, component, levels, n - 1) {
            Ok(k2) => {
                lemma_enqueued_not_before(
                    k2.queue,
                    ScheduledEvent {
                        time: due,
                        component,
                        output: (n - 1) as usize,
                        value: levels[n - 1],
                    },
                    time,
                );
            },
            Err(_) => {},
        }
    }
}

proof fn lemma_parts_evaluated_not_before(
    k: Kern,
    program: Program,
    components: Seq<int>,
    time: Real,
    stop: Real,
    n: int,
)
    requires
        sound_program(program),
        not_before(k.queue, time),
        time.finite(),
        !time.negative(),
        forall|i: int|
            0 <= i < n ==> 0 <= #[trigger] components[i] < program.parts.len(),
    ensures
        parts_evaluated(k, program, components, time, stop, n) matches Ok(k2) ==> not_before(
            k2.queue,
            time,
        ),
    decreases n,
{
    if n > 0 {
        lemma_parts_evaluated_not_before(k, program, components, time, stop, n - 1);
        match parts_evaluated(k, program, components, time, stop, n - 1) {
            Ok(k2) => {
                let c = components[n - 1];
                let part = program.parts[c];
                assert(sound_part(part, program.nets.len() as int));
                match evaluated(part, k2.nets, k2.held[c]) {
                    Some((levels, held)) => {
                        delays_lead_forward(time, part.delay);
                        lemma_all_scheduled_not_before(
                            Kern { held: k2.held.update(c, held), ..k2 },
                            later(time, part.delay),
                            c as usize,
                            levels,
                            emitted_count(part, levels),
                            time,
                        );
                    },
                    None => {},
                }
            },
            Err(_) => {},
        }
    }
}

/// Simulated time never goes back: once the events of a time were handled, all
/// that are left are due at that time or later.
pub proof fn time_never_goes_back(k: Kern, program: Program, stop: Real)
    requires
        sound_program(program),
        fits(k, program),
        k.queue.len() > 0,
        k.queue[0].time.finite(),
        !k.queue[0].time.negative(),
    ensures
        batch_applied(k, program) matches Ok((k2, changed)) ==> (listeners_evaluated(
            k2,
            program,
            changed,
            k.queue[0].time,
            stop,
        ) matches Ok(k3) ==> not_before(k3.queue, k.queue[0].time)),
{
    let time = k.queue[0].time;
    match batch_applied(k, program) {
        Ok((k2, changed)) => {
            let count = batch_len(k.queue);
            lemma_batch_len(k.queue);
            assert forall|i: int| 0 <= i < k2.queue.len() implies (#[trigger] k2.queue[i]).time.bits
                >= time.bits by {
                assert(k2.queue[i] == k.queue[i + count]);
            }
            let list = listeners(program, changed, program.parts.len() as int);
            lemma_listeners_range(program, changed, program.parts.len() as int);
            lemma_parts_evaluated_not_before(
                k2,
                program,
                list,
                time,
                stop,
                list.len() as int,
            );
        },
        Err(_) => {},
    }
}

/// The events of a queue in their order, all of them due at a time or later and
/// none of them at the end of time.
pub open spec fn due_from(queue: Seq<ScheduledEvent>, time: Real) -> bool {
    &&& in_time_order(queue)
    &&& forall|i: int|
        0 <= i < queue.len() ==> time.bits <= (#[trigger] queue[i]).time.bits < INFINITY
}

proof fn lemma_enqueued_due(queue: Seq<ScheduledEvent>, event: ScheduledEvent, time: Real)
    requires
        due_from(queue, time),
        time.bits <= event.time.bits < INFINITY,
    ensures
        due_from(enqueued(queue, event), time),
{
    queue_stays_in_time_order(queue, event);
    let all = enqueued(queue, event);
    let k = choose|k: int| 0 <= k <= queue.len() && all == queue.insert(k, event);
    assert forall|i: int| 0 <= i < all.len() implies time.bits <= (#[trigger] all[i]).time.bits
        < INFINITY by {
        if i < k {
            assert(all[i] == queue[i]);
        } else if i > k {
            assert(all[i] == queue[i - 1]);
        }
    }
}

proof fn lemma_all_scheduled_due(
    k: Kern,
    due: Real,
    component: usize,
    levels: Seq<LogicValue>,
    n: int,
    time: Real,
)
    requires
        due_from(k.queue, time),
        time.bits <= due.bits,
        !due.negative(),
    ensures
        all_scheduled(k, due, component, levels, n) matches Ok(k2) ==> due_from(k2.queue, time)
            && k2.nets == k.nets,
    decreases n,
{
    if n > 0 {
        lemma_all_scheduled_due(k, due, component, levels, n - 1, time);
        match all_scheduled(k, due, component, levels, n - 1) {
            Ok(k2) => {
                let event = ScheduledEvent {
                    time: due,
                    component,
                    output: (n - 1) as usize,
                    value: levels[n - 1],
                };
                if scheduled(k2, event) is Ok {
                    lemma_enqueued_due(k2.queue, event, time);
                }
            },
            Err(_) => {},
        }
    }
}

/// From a time that is not negative no delay leads to a negative zero.
proof fn lemma_later_plain(time: Real, delay: Real)
    requires
        time.bits < INFINITY,
        later(time, delay).finite(),
        later(time, delay).key() >= 0,
    ensures
        !later(time, delay).negative(),
{
    if time.finite() && delay.finite() {
        let exact = time.value() + delay.value();
        if exact < 0 {
            let n = (-exact) as nat;
            vstd::arithmetic::power2::lemma2_to64();
            assert(1nat * vstd::arithmetic::power2::pow2(0) == 1);
            assert(crate::number::units(1) == 1);
            crate::number::rounding_is_exact_on_doubles(1);
            crate::number::rounding_keeps_order(1, n, 1);
        }
    }
}

proof fn lemma_clock_ran_due(
    k: Kern,
    component: usize,
    stop: Real,
    high: Real,
    low: Real,
    time: Real,
    value: LogicValue,
)
    requires
        due_from(k.queue, Real { bits: 0 }),
        time.bits < INFINITY,
    ensures
        clock_ran(k, component, stop, high, low, time, value) matches Ok(k2) ==> due_from(
            k2.queue,
            Real { bits: 0 },
        ) && k2.nets == k.nets,
    decreases MAX_DIGITAL_EVENTS - k.scheduled,
{
    if time.less(stop) {
        let delay = if value == LogicValue::One {
            high
        } else {
            low
        };
        let next = later(time, delay);
        let level = clock_flip(value);
        let event = ScheduledEvent { time: next, component, output: 0, value: level };
        if !stop.less(next) {
            match scheduled(k, event) {
                Ok(k2) => {
                    lemma_later_plain(time, delay);
                    lemma_enqueued_due(k.queue, event, Real { bits: 0 });
                    lemma_clock_ran_due(k2, component, stop, high, low, next, level);
                },
                Err(_) => {},
            }
        }
    }
}

/// The events with which components start are due at time zero or later.
pub(crate) proof fn lemma_started_due(k: Kern, program: Program, stop: Real, n: int)
    requires
        due_from(k.queue, Real { bits: 0 }),
    ensures
        started(k, program, stop, n) matches Ok(k2) ==> due_from(k2.queue, Real { bits: 0 })
            && k2.nets == k.nets,
    decreases n,
{
    if n > 0 {
        lemma_started_due(k, program, stop, n - 1);
        let start = Real { bits: 0 };
        match started(k, program, stop, n - 1) {
            Ok(k2) => {
                let part = program.parts[n - 1];
                let component = (n - 1) as usize;
                match part.primitive {
                    DigitalPrimitive::Constant(value) => {
                        lemma_enqueued_due(
                            k2.queue,
                            ScheduledEvent { time: start, component, output: 0, value },
                            start,
                        );
                    },
                    DigitalPrimitive::Clock { period, duty_cycle, initial } => {
                        let event = ScheduledEvent {
                            time: start,
                            component,
                            output: 0,
                            value: initial,
                        };
                        lemma_enqueued_due(k2.queue, event, start);
                        match scheduled(k2, event) {
                            Ok(k3) => {
                                lemma_clock_ran_due(
                                    k3,
                                    component,
                                    stop,
                                    share_of(period, duty_cycle),
                                    share_of(
                                        period,
                                        (Real { bits: ONE_BITS }).difference(duty_cycle),
                                    ),
                                    start,
                                    initial,
                                );
                            },
                            Err(_) => {},
                        }
                    },
                    _ => {
                        let levels = first_levels(part, k2.held[component as int]);
                        lemma_all_scheduled_due(
                            k2,
                            start,
                            component,
                            levels,
                            levels.len() as int,
                            start,
                        );
                    },
                }
            },
            Err(_) => {},
        }
    }
}

proof fn lemma_parts_evaluated_due(
    k: Kern,
    program: Program,
    components: Seq<int>,
    time: Real,
    stop: Real,
    n: int,
)
    requires
        sound_program(program),
        due_from(k.queue, time),
        time.bits < INFINITY,
        forall|i: int| 0 <= i < n ==> 0 <= #[trigger] components[i] < program.parts.len(),
    ensures
        parts_evaluated(k, program, components, time, stop, n) matches Ok(k2) ==> due_from(
            k2.queue,
            time,
        ) && k2.nets == k.nets,
    decreases n,
{
    if n > 0 {
        lemma_parts_evaluated_due(k, program, components, time, stop, n - 1);
        match parts_evaluated(k, program, components, time, stop, n - 1) {
            Ok(k2) => {
                let c = components[n - 1];
                let part = program.parts[c];
                assert(sound_part(part, program.nets.len() as int));
                match evaluated(part, k2.nets, k2.held[c]) {
                    Some((levels, held)) => {
                        let due = later(time, part.delay);
                        delays_lead_forward(time, part.delay);
                        if due.at_most(stop) {
                            assert(!due.negative()) by {
                                let z = vstd::arithmetic::power2::pow2(0);
                                assert(0 * z == 0) by (nonlinear_arith);
                                assert(crate::number::units(0) == 0);
                                assert(part.delay.negative() ==> part.delay.magnitude() == 0);
                                assert(part.delay.value() >= 0);
                                assert(time.value() >= 0);
                            }
                            lemma_all_scheduled_due(
                                Kern { held: k2.held.update(c, held), ..k2 },
                                due,
                                c as usize,
                                levels,
                                emitted_count(part, levels),
                                time,
                            );
                        }
                    },
                    None => {},
                }
            },
            Err(_) => {},
        }
    }
}

/// Once the events of a time were handled, all that are left are due at that time
/// or later, and the nets that changed are nets of the program.
pub(crate) proof fn lemma_batch_due(k: Kern, program: Program, stop: Real, before: Real)
    requires
        sound_program(program),
        due_from(k.queue, before),
        k.queue.len() > 0,
    ensures
        batch_applied(k, program) matches Ok((k2, changed)) ==> {
            &&& k2.nets.len() == k.nets.len()
            &&& forall|i: int|
                0 <= i < changed.len() ==> 0 <= #[trigger] changed[i] < k.nets.len()
            &&& listeners_evaluated(k2, program, changed, k.queue[0].time, stop) matches Ok(k3)
                ==> due_from(k3.queue, k.queue[0].time) && k3.nets == k2.nets
        },
{
    let time = k.queue[0].time;
    match batch_applied(k, program) {
        Ok((k2, changed)) => {
            let count = batch_len(k.queue);
            lemma_batch_len(k.queue);
            let (drivers, marks) = applied(program, k.drivers, k.queue.take(count));
            lemma_settled_shape(program, k.nets, drivers, marks, k.nets.len() as int);
            assert forall|i: int| 0 <= i < k2.queue.len() implies time.bits <= (
            #[trigger] k2.queue[i]).time.bits < INFINITY by {
                assert(k2.queue[i] == k.queue[i + count]);
            }
            assert(in_time_order(k2.queue)) by {
                assert forall|i: int, j: int| 0 <= i < j < k2.queue.len() implies (
                #[trigger] k2.queue[i]).time.bits <= (#[trigger] k2.queue[j]).time.bits by {
                    assert(k2.queue[i] == k.queue[i + count]);
                    assert(k2.queue[j] == k.queue[j + count]);
                }
            }
            let list = listeners(program, changed, program.parts.len() as int);
            lemma_listeners_range(program, changed, program.parts.len() as int);
            lemma_parts_evaluated_due(k2, program, list, time, stop, list.len() as int);
        },
        Err(_) => {},
    }
}

/// An event waits behind all events that are due no later, and before all that are
/// due later.
pub proof fn events_wait_their_turn(queue: Seq<ScheduledEvent>, event: ScheduledEvent)
    requires
        in_time_order(queue),
    ensures
        exists|p: int|
            0 <= p <= queue.len() && #[trigger] queue.insert(p, event) == enqueued(queue, event) && (
            forall|i: int|
                0 <= i < p ==> (#[trigger] queue[i]).time.bits <= event.time.bits) && (forall|i: int|
                p <= i < queue.len() ==> event.time.bits < (#[trigger] queue[i]).time.bits),
    decreases queue.len(),
{
    if queue.len() == 0 || queue.last().time.bits <= event.time.bits {
        let p = queue.len() as int;
        assert(queue.insert(p, event) =~= enqueued(queue, event));
        assert forall|i: int| 0 <= i < p implies (#[trigger] queue[i]).time.bits
            <= event.time.bits by {
            if i < p - 1 {
                assert(queue[i].time.bits <= queue[p - 1].time.bits);
            }
        }
    } else {
        let rest = queue.drop_last();
        events_wait_their_turn(rest, event);
        let p = choose|p: int|
            0 <= p <= rest.len() && #[trigger] rest.insert(p, event) == enqueued(rest, event) && (
            forall|i: int| 0 <= i < p ==> (#[trigger] rest[i]).time.bits <= event.time.bits) && (
            forall|i: int|
                p <= i < rest.len() ==> event.time.bits < (#[trigger] rest[i]).time.bits);
        assert(queue.insert(p, event) =~= enqueued(queue, event));
        assert forall|i: int| 0 <= i < p implies (#[trigger] queue[i]).time.bits
            <= event.time.bits by {
            assert(rest[i] == queue[i]);
        }
        assert forall|i: int| p <= i < queue.len() implies event.time.bits < (
        #[trigger] queue[i]).time.bits by {
            if i < rest.len() {
                assert(rest[i] == queue[i]);
            }
        }
    }
}

proof fn lemma_queue_gains(queue: Seq<ScheduledEvent>, event: ScheduledEvent)
    ensures
        enqueued(queue, event).contains(event),
        forall|e: ScheduledEvent| #[trigger]
            queue.contains(e) ==> enqueued(queue, event).contains(e),
        forall|e: ScheduledEvent| #[trigger]
            enqueued(queue, event).contains(e) ==> e == event || queue.contains(e),
    decreases queue.len(),
{
    let r = enqueued(queue, event);
    if queue.len() == 0 || queue.last().time.bits <= event.time.bits {
        assert(r[queue.len() as int] == event);
        assert forall|e: ScheduledEvent| #[trigger] queue.contains(e) implies r.contains(e) by {
            let i = choose|i: int| 0 <= i < queue.len() && queue[i] == e;
            assert(r[i] == e);
        }
        assert forall|e: ScheduledEvent| #[trigger] r.contains(e) implies e == event
            || queue.contains(e) by {
            let i = choose|i: int| 0 <= i < r.len() && r[i] == e;
            if i < queue.len() {
                assert(queue[i] == e);
            }
        }
    } else {
        let rest = queue.drop_last();
        let inner = enqueued(rest, event);
        lemma_queue_gains(rest, event);
        assert(inner.contains(event));
        let k = choose|k: int| 0 <= k < inner.len() && inner[k] == event;
        assert(r[k] == event);
        assert forall|e: ScheduledEvent| #[trigger] queue.contains(e) implies r.contains(e) by {
            let i = choose|i: int| 0 <= i < queue.len() && queue[i] == e;
            if i < rest.len() {
                assert(rest[i] == e);
                assert(rest.contains(e));
                let j = choose|j: int| 0 <= j < inner.len() && inner[j] == e;
                assert(r[j] == e);
            } else {
                assert(r[r.len() - 1] == e);
            }
        }
        assert forall|e: ScheduledEvent| #[trigger] r.contains(e) implies e == event
            || queue.contains(e) by {
            let i = choose|i: int| 0 <= i < r.len() && r[i] == e;
            if i < inner.len() {
                assert(inner[i] == e);
                assert(inner.contains(e));
                if e != event {
                    let j = choose|j: int| 0 <= j < rest.len() && rest[j] == e;
                    assert(queue[j] == e);
                }
            } else {
                assert(queue[queue.len() - 1] == e);
            }
        }
    }
}

proof fn lemma_all_due(k: Kern, time: Real, component: usize, levels: Seq<LogicValue>, n: int, after: Kern)
    requires
        0 <= n <= levels.len(),
        n <= usize::MAX,
        all_scheduled(k, time, component, levels, n) == Ok::<Kern, Fault>(after),
    ensures
        forall|i: int|
            0 <= i < n ==> after.queue.contains(
                ScheduledEvent { time, component, output: i as usize, value: #[trigger] levels[i] },
            ),
        forall|e: ScheduledEvent| #[trigger] k.queue.contains(e) ==> after.queue.contains(e),
        forall|e: ScheduledEvent| #[trigger]
            after.queue.contains(e) ==> k.queue.contains(e) || (e.time == time && e.component
                == component && 0 <= e.output < n && e.value == levels[e.output as int]),
        after.held == k.held,
        after.nets == k.nets,
        after.drivers == k.drivers,
        after.scheduled == k.scheduled + n,
    decreases n,
{
    if n > 0 {
        let before = all_scheduled(k, time, component, levels, n - 1)->Ok_0;
        lemma_all_due(k, time, component, levels, n - 1, before);
        let event = ScheduledEvent {
            time,
            component,
            output: (n - 1) as usize,
            value: levels[n - 1],
        };
        lemma_queue_gains(before.queue, event);
        assert forall|i: int| 0 <= i < n implies after.queue.contains(
            ScheduledEvent { time, component, output: i as usize, value: #[trigger] levels[i] },
        ) by {
            let e = ScheduledEvent { time, component, output: i as usize, value: levels[i] };
            if i < n - 1 {
                assert(before.queue.contains(e));
            }
        }
    }
}

/// A component that is evaluated puts each of its levels on the output of that place
/// after its delay, counted from the time of the change, if that is not behind the
/// stop time, and schedules nothing else.
pub proof fn outputs_follow_after_the_delay(
    k: Kern,
    program: Program,
    component: int,
    time: Real,
    stop: Real,
    levels: Seq<LogicValue>,
    held: Held,
    after: Kern,
)
    requires
        0 <= component < k.held.len(),
        component <= usize::MAX,
        levels.len() <= usize::MAX,
        evaluated(program.parts[component], k.nets, k.held[component]) == Some((levels, held)),
        part_evaluated(k, program, component, time, stop) == Ok::<Kern, Fault>(after),
        time.finite(),
        program.parts[component].delay.finite(),
    ensures
        after.held == k.held.update(component, held),
        after.nets == k.nets,
        after.drivers == k.drivers,
        ({
            let due = time.sum(program.parts[component].delay);
            let outputs = program.parts[component].outputs.len();
            &&& due.at_most(stop) ==> forall|i: int|
                0 <= i < levels.len() && i < outputs ==> after.queue.contains(
                    ScheduledEvent {
                        time: due,
                        component: component as usize,
                        output: i as usize,
                        value: #[trigger] levels[i],
                    },
                )
            &&& forall|e: ScheduledEvent| #[trigger]
                after.queue.contains(e) ==> k.queue.contains(e) || (e.time == due && e.component
                    == component && 0 <= e.output < levels.len() && e.value
                    == levels[e.output as int])
            &&& !due.at_most(stop) ==> after.queue == k.queue
            &&& forall|e: ScheduledEvent| #[trigger]
                k.queue.contains(e) ==> after.queue.contains(e)
        }),
{
    let part = program.parts[component];
    let k2 = Kern { held: k.held.update(component, held), ..k };
    let due = later(time, part.delay);
    if due.at_most(stop) {
        lemma_all_due(k2, due, component as usize, levels, emitted_count(part, levels), after);
    }
}

/// After a step every net that had a driver change has the level that its drivers
/// resolve to, the other nets keep theirs, and the nets that changed are listed.
pub proof fn nets_settle_to_their_drivers(
    program: Program,
    nets: Seq<LogicValue>,
    drivers: Seq<Seq<LogicValue>>,
    marks: Seq<bool>,
    n: int,
)
    requires
        0 <= n <= nets.len(),
        marks.len() == nets.len(),
    ensures
        ({
            let (after, changed) = settled(program, nets, drivers, marks, n);
            &&& after.len() == nets.len()
            &&& forall|i: int|
                0 <= i < n && #[trigger] marks[i] ==> after[i] == resolved(
                    driver_levels(program, drivers, i),
                )
            &&& forall|i: int|
                0 <= i < nets.len() && (n <= i || !marks[i]) ==> #[trigger] after[i] == nets[i]
            &&& forall|i: int| #[trigger]
                changed.contains(i) <==> 0 <= i < n && after[i] != nets[i]
        }),
    decreases n,
{
    if n > 0 {
        nets_settle_to_their_drivers(program, nets, drivers, marks, n - 1);
        let (before, listed) = settled(program, nets, drivers, marks, n - 1);
        let (after, changed) = settled(program, nets, drivers, marks, n);
        assert forall|i: int| #[trigger] changed.contains(i) <==> 0 <= i < n && after[i]
            != nets[i] by {
            if after != before {
                assert(changed == listed.push(n - 1));
                if listed.contains(i) {
                    let k = choose|k: int| 0 <= k < listed.len() && listed[k] == i;
                    assert(changed[k] == i);
                }
                if i == n - 1 {
                    assert(changed[listed.len() as int] == i);
                }
                if changed.contains(i) && i != n - 1 {
                    let k = choose|k: int| 0 <= k < changed.len() && changed[k] == i;
                    assert(listed[k] == i);
                    assert(listed.contains(i));
                }
            } else {
                assert(listed.contains(i) <==> 0 <= i < n - 1 && before[i] != nets[i]);
            }
        }
    } else {
        let (after, changed) = settled(program, nets, drivers, marks, n);
        assert forall|i: int| #[trigger] changed.contains(i) <==> 0 <= i < n && after[i]
            != nets[i] by {}
    }
}

/// The components that are evaluated after a step are exactly those with an input on a
/// net that changed.
pub proof fn listeners_are_those_concerned(program: Program, slots: Seq<int>, n: int, c: int)
    requires
        0 <= n,
    ensures
        listeners(program, slots, n).contains(c) <==> 0 <= c < n && exists|i: int|
            0 <= i < program.parts[c].inputs.len() && slots.contains(
                (#[trigger] program.parts[c].inputs[i]).1,
            ),
    decreases n,
{
    if n > 0 {
        listeners_are_those_concerned(program, slots, n - 1, c);
        let before = listeners(program, slots, n - 1);
        let all = listeners(program, slots, n);
        if listens(program.parts[n - 1], slots) {
            if before.contains(c) {
                let k = choose|k: int| 0 <= k < before.len() && before[k] == c;
                assert(all[k] == c);
            }
            if c == n - 1 {
                assert(all[before.len() as int] == c);
            }
            if all.contains(c) && c != n - 1 {
                let k = choose|k: int| 0 <= k < all.len() && all[k] == c;
                assert(before[k] == c);
                assert(before.contains(c));
            }
        }
    }
}

/// An event that is due puts its level on its output; the last of several wins, and
/// an output without an event keeps its level.
pub proof fn due_events_set_their_outputs(
    program: Program,
    drivers: Seq<Seq<LogicValue>>,
    events: Seq<ScheduledEvent>,
    c: int,
    o: int,
)
    requires
        drivers.len() == program.parts.len(),
        forall|i: int|
            0 <= i < program.parts.len() ==> (#[trigger] drivers[i]).len()
                == program.parts[i].outputs.len(),
        forall|i: int| 0 <= i < events.len() ==> event_fits(#[trigger] events[i], program),
        0 <= c < program.parts.len(),
        0 <= o < program.parts[c].outputs.len(),
    ensures
        ({
            let (after, marks) = applied(program, drivers, events);
            &&& after.len() == drivers.len()
            &&& forall|i: int|
                0 <= i < program.parts.len() ==> (#[trigger] after[i]).len()
                    == program.parts[i].outputs.len()
            &&& forall|i: int|
                0 <= i < events.len() && (#[trigger] events[i]).component == c && events[i].output
                    == o && (forall|j: int|
                    i < j < events.len() ==> (#[trigger] events[j]).component != c || events[j].output
                        != o) ==> after[c][o] == events[i].value
            &&& (forall|i: int|
                0 <= i < events.len() ==> (#[trigger] events[i]).component != c || events[i].output
                    != o) ==> after[c][o] == drivers[c][o]
        }),
    decreases events.len(),
{
    if events.len() > 0 {
        let rest = events.drop_last();
        assert forall|i: int| 0 <= i < rest.len() implies event_fits(#[trigger] rest[i], program) by {
            assert(events[i] == rest[i]);
        }
        due_events_set_their_outputs(program, drivers, rest, c, o);
        let (before, _) = applied(program, drivers, rest);
        let (after, _) = applied(program, drivers, events);
        let last = events.len() - 1;
        let event = events[last];
        assert(event_fits(event, program));
        assert(before[event.component as int].len()
            == program.parts[event.component as int].outputs.len());
        assert forall|i: int| 0 <= i < program.parts.len() implies (#[trigger] after[i]).len()
            == program.parts[i].outputs.len() by {
            assert(before[i].len() == program.parts[i].outputs.len());
        }
        assert forall|i: int|
            0 <= i < events.len() && (#[trigger] events[i]).component == c && events[i].output == o
                && (forall|j: int|
                i < j < events.len() ==> (#[trigger] events[j]).component != c || events[j].output
                    != o) implies after[c][o] == events[i].value by {
            if i < last {
                assert(rest[i] == events[i]);
                assert(events[last].component != c || events[last].output != o);
                assert forall|j: int| i < j < rest.len() implies (#[trigger] rest[j]).component != c
                    || rest[j].output != o by {
                    assert(rest[j] == events[j]);
                }
                assert(before[c][o] == events[i].value);
            }
        }
        if forall|i: int|
            0 <= i < events.len() ==> (#[trigger] events[i]).component != c || events[i].output
                != o {
            assert(events[last].component != c || events[last].output != o);
            assert forall|i: int| 0 <= i < rest.len() implies (#[trigger] rest[i]).component != c
                || rest[i].output != o by {
                assert(rest[i] == events[i]);
            }
        }
    }
}

} // verus!
