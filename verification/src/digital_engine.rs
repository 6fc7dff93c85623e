//! The built-in digital event engine.
use crate::analysis::{Analysis, AnalysisKind};
use crate::circuit::{contains_kind, has_kind};
use crate::control::{check_signal, clock_now, ExecutionControl};
use crate::digital::{
    program_of, sound_program, DigitalProgram, Program, DIGITAL_ENGINE_ID, MAX_DIGITAL_EVENTS,
};
use crate::engine::{Abilities, EngineCapabilities, SimulationEngine, SimulationRequest};
use crate::fault::{fail, fault, passes, EngineError, Fault};
use crate::kernel::{
    batch_applied, batch_len, check_execution, driver_levels, due_from, fits, fresh, indices,
    interrupted, lemma_batch_due, lemma_started_due, listeners_evaluated, may_stop, started,
    DigitalState, Kern,
};
use crate::number::{Real, INFINITY};
use crate::text::{cat5, decimal, decimal_text};
use crate::waveform::{
    Diagnostic, DiagnosticLevel, DigitalTransition, DigitalWaveform, EngineId, LogicValue,
    SignalId, SimulationResult, Waveform, VERSION,
};
use vstd::prelude::*;

verus! {

/// A waveform with one more level: a level at the time of the last one takes
/// its place, and the level that it already has adds nothing.
pub open spec fn pushed(
    transitions: Seq<DigitalTransition>,
    time: Real,
    value: LogicValue,
) -> Seq<DigitalTransition> {
    if transitions.len() > 0 && transitions.last().time.bits == time.bits {
        transitions.update(transitions.len() - 1, DigitalTransition { value, ..transitions.last() })
    } else if transitions.len() > 0 && transitions.last().value == value {
        transitions
    } else {
        transitions.push(DigitalTransition { time, value })
    }
}

/// Adds a level to a waveform.
pub fn push_transition(transitions: &mut Vec<DigitalTransition>, time: Real, value: LogicValue)
    ensures
        final(transitions)@ == pushed(old(transitions)@, time, value),
{
    let n: usize = transitions.len();
    if n > 0 {
        let last = transitions[n - 1];
        if last.time.bits == time.bits {
            transitions.set(n - 1, DigitalTransition { time: last.time, value });
            return;
        }
        if last.value == value {
            return;
        }
    }
    transitions.push(DigitalTransition { time, value });
}

/// How many transitions the waveforms of all nets have.
pub open spec fn transition_count(histories: Seq<Seq<DigitalTransition>>) -> nat
    decreases histories.len(),
{
    if histories.len() == 0 {
        0
    } else {
        transition_count(histories.drop_last()) + histories.last().len()
    }
}

/// The estimated size of that many transitions.
pub open spec fn estimated_bytes(count: nat) -> u64 {
    if count * 24 > u64::MAX {
        u64::MAX
    } else {
        (count * 24) as u64
    }
}

/// What is wrong with the size of the waveforms, if anything. A limit of zero
/// is none.
pub open spec fn budget_failure(histories: Seq<Seq<DigitalTransition>>, limit: u64) -> Option<Fault> {
    let estimated = estimated_bytes(transition_count(histories));
    if limit == 0 || estimated <= limit {
        None
    } else {
        Some(
            fault(
                "execution_resource_limit"@,
                "digital transition output estimate "@ + decimal(estimated as nat)
                    + " bytes exceeds configured limit "@ + decimal(limit as nat) + " bytes"@,
            ),
        )
    }
}

/// The waveforms with the first `n` changes of a time added.
pub open spec fn recorded(
    histories: Seq<Seq<DigitalTransition>>,
    nets: Seq<LogicValue>,
    changed: Seq<int>,
    time: Real,
    limit: u64,
    n: int,
) -> Result<Seq<Seq<DigitalTransition>>, Fault>
    decreases n,
{
    if n <= 0 {
        Ok(histories)
    } else {
        match recorded(histories, nets, changed, time, limit, n - 1) {
            Err(f) => Err(f),
            Ok(before) => {
                let slot = changed[n - 1];
                let after = before.update(slot, pushed(before[slot], time, nets[slot]));
                match budget_failure(after, limit) {
                    Some(f) => Err(f),
                    None => Ok(after),
                }
            },
        }
    }
}

proof fn lemma_recorded_stops(
    histories: Seq<Seq<DigitalTransition>>,
    nets: Seq<LogicValue>,
    changed: Seq<int>,
    time: Real,
    limit: u64,
    n: int,
    m: int,
)
    requires
        0 <= m <= n,
        recorded(histories, nets, changed, time, limit, m) is Err,
    ensures
        recorded(histories, nets, changed, time, limit, n) == recorded(
            histories,
            nets,
            changed,
            time,
            limit,
            m,
        ),
    decreases n - m,
{
    if m < n {
        lemma_recorded_stops(histories, nets, changed, time, limit, n, m + 1);
    }
}

pub proof fn lemma_queue_moves(queue: Seq<crate::kernel::ScheduledEvent>)
    requires
        queue.len() > 0,
    ensures
        batch_len(queue) > 0,
    decreases queue.len(),
{
    if queue.last().time.bits != queue[0].time.bits {
        lemma_queue_moves(queue.drop_last());
    }
}

/// The waveforms after all events up to the stop time.
pub open spec fn ran(
    k: Kern,
    program: Program,
    stop: Real,
    limit: u64,
    histories: Seq<Seq<DigitalTransition>>,
) -> Result<Seq<Seq<DigitalTransition>>, Fault>
    decreases MAX_DIGITAL_EVENTS - k.processed,
{
    if k.queue.len() == 0 || stop.less(k.queue[0].time) {
        Ok(histories)
    } else {
        proof {
            lemma_queue_moves(k.queue);
        }
        let time = k.queue[0].time;
        match batch_applied(k, program) {
            Err(f) => Err(f),
            Ok((k2, changed)) => match recorded(
                histories,
                k2.nets,
                changed,
                time,
                limit,
                changed.len() as int,
            ) {
                Err(f) => Err(f),
                Ok(more) => match listeners_evaluated(k2, program, changed, time, stop) {
                    Err(f) => Err(f),
                    Ok(k3) => ran(
                        Kern { processed: k2.processed, ..k3 },
                        program,
                        stop,
                        limit,
                        more,
                    ),
                },
            },
        }
    }
}

/// The waveforms before anything has happened.
pub open spec fn first_histories(program: Program) -> Seq<Seq<DigitalTransition>> {
    Seq::new(
        program.nets.len(),
        |i: int| seq![(DigitalTransition { time: Real { bits: 0 }, value: LogicValue::X })],
    )
}

/// The program of a request and the waveforms of its nets.
pub open spec fn simulated(request: SimulationRequest, limit: u64) -> Result<
    (Program, Seq<Seq<DigitalTransition>>),
    Fault,
> {
    match program_of(request) {
        Err(f) => Err(f),
        Ok(program) => {
            let stop = request.analysis->DigitalTransient_stop;
            match started(fresh(program), program, stop, program.parts.len() as int) {
                Err(f) => Err(f),
                Ok(k) => match ran(k, program, stop, limit, first_histories(program)) {
                    Err(f) => Err(f),
                    Ok(histories) => Ok((program, histories)),
                },
            }
        },
    }
}

/// A history that starts at time zero, grows strictly in time, and does not pass
/// a time.
pub open spec fn grows(history: Seq<DigitalTransition>, end: Real) -> bool {
    &&& history.len() > 0
    &&& history[0].time == Real { bits: 0 }
    &&& forall|i: int, j: int|
        0 <= i < j < history.len() ==> (#[trigger] history[i]).time.less(
            (#[trigger] history[j]).time,
        )
    &&& forall|i: int| 0 <= i < history.len() ==> (#[trigger] history[i]).time.at_most(end)
}

/// A history that starts at time zero, grows strictly, and has come to a time at
/// most.
spec fn reaches(history: Seq<DigitalTransition>, time: Real) -> bool {
    &&& history.len() > 0
    &&& history[0].time == Real { bits: 0 }
    &&& forall|i: int, j: int|
        0 <= i < j < history.len() ==> (#[trigger] history[i]).time.bits < (
        #[trigger] history[j]).time.bits
    &&& history.last().time.bits <= time.bits < INFINITY
}

spec fn all_reach(histories: Seq<Seq<DigitalTransition>>, time: Real) -> bool {
    forall|s: int| 0 <= s < histories.len() ==> reaches(#[trigger] histories[s], time)
}

proof fn lemma_pushed_reaches(history: Seq<DigitalTransition>, time: Real, value: LogicValue)
    requires
        reaches(history, time),
    ensures
        reaches(pushed(history, time, value), time),
{
    let after = pushed(history, time, value);
    assert forall|i: int, j: int| 0 <= i < j < after.len() implies (#[trigger] after[i]).time.bits
        < (#[trigger] after[j]).time.bits by {
        if j < history.len() {
            assert(history[i].time.bits < history[j].time.bits);
        } else {
            assert(after[i] == history[i]);
            if i < history.len() - 1 {
                assert(history[i].time.bits < history[history.len() - 1].time.bits);
            }
        }
    }
}

proof fn lemma_recorded_reach(
    histories: Seq<Seq<DigitalTransition>>,
    nets: Seq<LogicValue>,
    changed: Seq<int>,
    time: Real,
    limit: u64,
    n: int,
)
    requires
        all_reach(histories, time),
        0 <= n <= changed.len(),
        forall|i: int| 0 <= i < changed.len() ==> 0 <= #[trigger] changed[i] < histories.len(),
    ensures
        recorded(histories, nets, changed, time, limit, n) matches Ok(after) ==> all_reach(
            after,
            time,
        ) && after.len() == histories.len(),
    decreases n,
{
    if n > 0 {
        lemma_recorded_reach(histories, nets, changed, time, limit, n - 1);
        match recorded(histories, nets, changed, time, limit, n - 1) {
            Ok(before) => {
                let slot = changed[n - 1];
                lemma_pushed_reaches(before[slot], time, nets[slot]);
                let after = before.update(slot, pushed(before[slot], time, nets[slot]));
                assert forall|s: int| 0 <= s < after.len() implies reaches(
                    #[trigger] after[s],
                    time,
                ) by {
                    if s != slot {
                        assert(after[s] == before[s]);
                    }
                }
            },
            Err(_) => {},
        }
    }
}

proof fn lemma_reach_further(histories: Seq<Seq<DigitalTransition>>, time: Real, later: Real)
    requires
        all_reach(histories, time),
        time.bits <= later.bits < INFINITY,
    ensures
        all_reach(histories, later),
{
    assert forall|s: int| 0 <= s < histories.len() implies reaches(
        #[trigger] histories[s],
        later,
    ) by {
        assert(reaches(histories[s], time));
    }
}

proof fn lemma_reach_grows(histories: Seq<Seq<DigitalTransition>>, time: Real, stop: Real)
    requires
        all_reach(histories, time),
        time.at_most(stop),
    ensures
        forall|s: int| 0 <= s < histories.len() ==> grows(#[trigger] histories[s], stop),
{
    assert forall|s: int| 0 <= s < histories.len() implies grows(#[trigger] histories[s], stop) by {
        let history = histories[s];
        assert(reaches(history, time));
        let last = history.len() - 1;
        assert forall|i: int| 0 <= i < history.len() implies (#[trigger] history[i]).time.at_most(
            stop,
        ) && history[i].time.bits <= time.bits by {
            if i < last {
                assert(history[i].time.bits < history[last].time.bits);
            }
        }
        assert forall|i: int, j: int| 0 <= i < j < history.len() implies (
        #[trigger] history[i]).time.less((#[trigger] history[j]).time) by {
            assert(history[i].time.bits < history[j].time.bits);
            assert(history[j].time.bits <= time.bits);
        }
    }
}

proof fn lemma_ran_grows(
    k: Kern,
    program: Program,
    stop: Real,
    limit: u64,
    histories: Seq<Seq<DigitalTransition>>,
    time: Real,
)
    requires
        sound_program(program),
        stop.finite(),
        due_from(k.queue, time),
        time.at_most(stop),
        all_reach(histories, time),
        k.nets.len() == histories.len(),
    ensures
        ran(k, program, stop, limit, histories) matches Ok(after) ==> {
            &&& after.len() == histories.len()
            &&& forall|s: int| 0 <= s < after.len() ==> grows(#[trigger] after[s], stop)
        },
    decreases MAX_DIGITAL_EVENTS - k.processed,
{
    if k.queue.len() == 0 || stop.less(k.queue[0].time) {
        lemma_reach_grows(histories, time, stop);
    } else {
        lemma_queue_moves(k.queue);
        let now = k.queue[0].time;
        lemma_batch_due(k, program, stop, time);
        lemma_reach_further(histories, time, now);
        match batch_applied(k, program) {
            Ok((k2, changed)) => {
                lemma_recorded_reach(
                    histories,
                    k2.nets,
                    changed,
                    now,
                    limit,
                    changed.len() as int,
                );
                match recorded(histories, k2.nets, changed, now, limit, changed.len() as int) {
                    Ok(more) => match listeners_evaluated(k2, program, changed, now, stop) {
                        Ok(k3) => {
                            lemma_ran_grows(
                                Kern { processed: k2.processed, ..k3 },
                                program,
                                stop,
                                limit,
                                more,
                                now,
                            );
                        },
                        Err(_) => {},
                    },
                    Err(_) => {},
                }
            },
            Err(_) => {},
        }
    }
}

/// The history of every net starts at time zero, grows strictly in time, and stays
/// within the stop time.
pub proof fn histories_grow(program: Program, stop: Real, limit: u64)
    requires
        sound_program(program),
        stop.finite(),
        stop.key() > 0,
    ensures
        started(fresh(program), program, stop, program.parts.len() as int) matches Ok(k) ==> (ran(
            k,
            program,
            stop,
            limit,
            first_histories(program),
        ) matches Ok(histories) ==> {
            &&& histories.len() == program.nets.len()
            &&& forall|s: int| 0 <= s < histories.len() ==> grows(#[trigger] histories[s], stop)
        }),
{
    lemma_started_due(fresh(program), program, stop, program.parts.len() as int);
    match started(fresh(program), program, stop, program.parts.len() as int) {
        Ok(k) => {
            lemma_ran_grows(
                k,
                program,
                stop,
                limit,
                first_histories(program),
                Real { bits: 0 },
            );
        },
        Err(_) => {},
    }
}

/// All waveforms of a result are digital ones that grow up to a time.
pub open spec fn waves_grow(result: SimulationResult, end: Real) -> bool {
    forall|i: int|
        0 <= i < result.waveforms@.len() ==> ((#[trigger] result.waveforms@[i]) matches
            Waveform::Digital(w) && grows(w.transitions@, end))
}

/// Whether some net has more than one driver.
pub open spec fn shared_net(program: Program) -> bool {
    exists|slot: int|
        0 <= slot < program.nets.len() && #[trigger] driver_levels(
            program,
            fresh(program).drivers,
            slot,
        ).len() > 1
}

/// The result that the waveforms of a program make.
pub open spec fn result_shows(
    result: SimulationResult,
    request: SimulationRequest,
    program: Program,
    histories: Seq<Seq<DigitalTransition>>,
) -> bool {
    &&& result.engine@ == DIGITAL_ENGINE_ID@
    &&& result.analysis == request.analysis.spec_kind()
    &&& result.metadata.is_current(
        request.circuit.schema_version,
        result.metadata.engine_version,
    )
    &&& result.metadata.engine_version matches Some(version) && version@ == VERSION@
    &&& result.waveforms@.len() == program.probes.len()
    &&& forall|i: int|
        0 <= i < program.probes.len() ==> shows(
            #[trigger] result.waveforms@[i],
            program.probes[i].0,
            histories[program.probes[i].1],
        )
    &&& result.stats.waveform_count == result.waveforms@.len()
    &&& result.stats.point_count == crate::waveform::counted(
        crate::waveform::total_points(result.waveforms@),
    )
    &&& if shared_net(program) {
        &&& result.diagnostics@.len() == 1
        &&& result.diagnostics@[0].level == DiagnosticLevel::Info
        &&& result.diagnostics@[0].code@ == "digital_multi_driver_resolution"@
        &&& result.diagnostics@[0].message@
            == "digital nets with multiple drivers were resolved with four-state Z/X contention semantics"@
    } else {
        result.diagnostics@.len() == 0
    }
}

/// A digital waveform of this name and these transitions.
pub open spec fn shows(
    waveform: Waveform,
    signal: Seq<char>,
    transitions: Seq<DigitalTransition>,
) -> bool {
    match waveform {
        Waveform::Digital(w) => w.signal@ == signal && w.transitions@ == transitions,
        Waveform::Analog(_) => false,
    }
}

pub open spec fn history_views(v: Seq<Vec<DigitalTransition>>) -> Seq<Seq<DigitalTransition>> {
    v.map_values(|h: Vec<DigitalTransition>| h@)
}

pub fn copy_transitions(v: &Vec<DigitalTransition>) -> (r: Vec<DigitalTransition>)
    ensures
        r@ == v@,
{
    let mut out: Vec<DigitalTransition> = Vec::new();
    let mut i: usize = 0;
    while i < v.len()
        invariant
            i <= v@.len(),
            out@ == v@.take(i as int),
        decreases v@.len() - i,
    {
        out.push(v[i]);
        i = i + 1;
        assert(v@.take(i as int) =~= v@.take(i - 1).push(v@[i - 1]));
    }
    assert(v@.take(i as int) =~= v@);
    out
}

fn count_transitions(histories: &Vec<Vec<DigitalTransition>>) -> (r: u128)
    ensures
        r == transition_count(history_views(histories@)),
        r <= histories@.len() * usize::MAX,
{
    let ghost all = history_views(histories@);
    let mut n: u128 = 0;
    let mut i: usize = 0;
    let total: usize = histories.len();
    while i < total
        invariant
            i <= total,
            total == histories@.len(),
            all == history_views(histories@),
            n == transition_count(all.take(i as int)),
            n <= i * usize::MAX,
        decreases histories@.len() - i,
    {
        let count: usize = histories[i].len();
        proof {
            assert(all.take(i + 1).drop_last() =~= all.take(i as int));
            assert(all.take(i + 1).last() == histories@[i as int]@);
            assert((i + 1) * usize::MAX == i * usize::MAX + usize::MAX) by (nonlinear_arith);
            assert((i + 1) * usize::MAX <= 0xffff_ffff_ffff_ffff * 0xffff_ffff_ffff_ffff)
                by (nonlinear_arith)
                requires
                    i + 1 <= usize::MAX,
                    usize::MAX <= 0xffff_ffff_ffff_ffff,
            ;
        }
        n = n + count as u128;
        i = i + 1;
    }
    assert(all.take(i as int) =~= all);
    n
}

fn enforce_transition_budget(histories: &Vec<Vec<DigitalTransition>>, limit: u64) -> (r: Result<
    (),
    EngineError,
>)
    ensures
        passes(r, budget_failure(history_views(histories@), limit)),
{
    if limit == 0 {
        return Ok(());
    }
    let count: u128 = count_transitions(histories);
    let estimated: u64 = if count > 0xffff_ffff_ffff_ffff / 24 {
        u64::MAX
    } else {
        (count * 24) as u64
    };
    if estimated > limit {
        return Err(
            fail(
                "execution_resource_limit",
                cat5(
                    "digital transition output estimate ",
                    decimal_text(estimated).as_str(),
                    " bytes exceeds configured limit ",
                    decimal_text(limit).as_str(),
                    " bytes",
                ),
            ),
        );
    }
    Ok(())
}

/// Adds the changes of a time to the waveforms.
fn record(
    histories: &mut Vec<Vec<DigitalTransition>>,
    nets: &Vec<LogicValue>,
    changed: &Vec<usize>,
    time: Real,
    limit: u64,
) -> (r: Result<(), EngineError>)
    requires
        old(histories)@.len() == nets@.len(),
        forall|i: int| 0 <= i < changed@.len() ==> (#[trigger] changed@[i]) < nets@.len(),
    ensures
        match (
            r,
            recorded(
                history_views(old(histories)@),
                nets@,
                indices(changed@),
                time,
                limit,
                changed@.len() as int,
            ),
        ) {
            (Ok(_), Ok(h)) => history_views(final(histories)@) == h,
            (Err(e), Err(f)) => e@ == f,
            _ => false,
        },
        final(histories)@.len() == old(histories)@.len(),
{
    let ghost start = history_views(histories@);
    let ghost list = indices(changed@);
    let mut i: usize = 0;
    while i < changed.len()
        invariant
            i <= changed@.len(),
            list == indices(changed@),
            histories@.len() == nets@.len(),
            histories@.len() == old(histories)@.len(),
            forall|i: int| 0 <= i < changed@.len() ==> (#[trigger] changed@[i]) < nets@.len(),
            start == history_views(old(histories)@),
            recorded(start, nets@, list, time, limit, i as int) == Ok::<
                Seq<Seq<DigitalTransition>>,
                Fault,
            >(history_views(histories@)),
        decreases changed@.len() - i,
    {
        let slot: usize = changed[i];
        assert(list[i as int] == slot);
        let ghost before = history_views(histories@);
        let mut history = copy_transitions(&histories[slot]);
        push_transition(&mut history, time, nets[slot]);
        histories.set(slot, history);
        assert(history_views(histories@) =~= before.update(
            slot as int,
            pushed(before[slot as int], time, nets@[slot as int]),
        ));
        match enforce_transition_budget(histories, limit) {
            Err(e) => {
                proof {
                    lemma_recorded_stops(
                        start,
                        nets@,
                        list,
                        time,
                        limit,
                        list.len() as int,
                        i + 1,
                    );
                }
                return Err(e);
            },
            Ok(_) => {},
        }
        i = i + 1;
    }
    Ok(())
}

/// The built-in engine for digital transient analyses.
#[derive(Clone, Copy, Debug, PartialEq, Eq)]
pub struct DigitalEngine;

impl DigitalEngine {
    pub fn new() -> (r: Self)
        ensures
            r == DigitalEngine,
    {
        DigitalEngine
    }

    /// Runs all events up to the stop time.
    fn run_events(
        state: &mut DigitalState,
        program: &DigitalProgram,
        stop: Real,
        histories: &mut Vec<Vec<DigitalTransition>>,
        limit: u64,
        control: Option<&ExecutionControl>,
        clock: &std::time::Instant,
    ) -> (r: Result<(), EngineError>)
        requires
            fits(old(state)@, program@),
            sound_program(program@),
            old(histories)@.len() == program@.nets.len(),
        ensures
            match r {
                Ok(_) => ran(
                    old(state)@,
                    program@,
                    stop,
                    limit,
                    history_views(old(histories)@),
                ) == Ok::<Seq<Seq<DigitalTransition>>, Fault>(history_views(final(histories)@)),
                Err(e) => may_stop(control, e@) || ran(
                    old(state)@,
                    program@,
                    stop,
                    limit,
                    history_views(old(histories)@),
                ) == Err::<Seq<Seq<DigitalTransition>>, Fault>(e@),
            },
            final(histories)@.len() == old(histories)@.len(),
    {
        let ghost model = ran(
            state@,
            program@,
            stop,
            limit,
            history_views(histories@),
        );
        while state.queue.len() > 0
            invariant
                fits(state@, program@),
                sound_program(program@),
                histories@.len() == program@.nets.len(),
                histories@.len() == old(histories)@.len(),
                model == ran(
                    old(state)@,
                    program@,
                    stop,
                    limit,
                    history_views(old(histories)@),
                ),
                model == ran(state@, program@, stop, limit, history_views(histories@)),
            decreases MAX_DIGITAL_EVENTS - state.processed,
        {
            match check_execution(control, clock) {
                Err(e) => {
                    return Err(e);
                },
                Ok(_) => {},
            }
            let time = state.queue.get(0).time;
            if stop.lt(time) {
                return Ok(());
            }
            let changed = match state.apply_batch(program) {
                Err(e) => {
                    return Err(e);
                },
                Ok(list) => list,
            };
            match record(histories, &state.nets, &changed, time, limit) {
                Err(e) => {
                    return Err(e);
                },
                Ok(_) => {},
            }
            let affected = DigitalState::affected(program, &changed);
            match state.evaluate_components(program, &affected, time, stop) {
                Err(e) => {
                    return Err(e);
                },
                Ok(_) => {},
            }
        }
        Ok(())
    }

    /// Whether some net has more than one driver.
    fn has_shared_net(state: &DigitalState, program: &DigitalProgram) -> (r: bool)
        requires
            state@ == fresh(program@),
            fits(state@, program@),
        ensures
            r == shared_net(program@),
    {
        let mut i: usize = 0;
        while i < program.nets.len()
            invariant
                i <= program.nets@.len(),
                state@ == fresh(program@),
                fits(state@, program@),
                forall|slot: int|
                    0 <= slot < i ==> !(#[trigger] driver_levels(
                        program@,
                        fresh(program@).drivers,
                        slot,
                    ).len() > 1),
            decreases program.nets@.len() - i,
        {
            if state.levels_on(program, i).len() > 1 {
                assert(driver_levels(program@, fresh(program@).drivers, i as int).len() > 1);
                return true;
            }
            i = i + 1;
        }
        false
    }

    /// Simulates the digital transient analysis of a request, under a control or
    /// without one.
    fn run_program(request: &SimulationRequest, limit: u64, control: Option<&ExecutionControl>) -> (r:
        Result<SimulationResult, EngineError>)
        ensures
            match r {
                Ok(result) => simulated(*request, limit) matches Ok((program, histories))
                    && result_shows(result, *request, program, histories),
                Err(e) => may_stop(control, e@) || simulated(*request, limit) == Err::<
                    (Program, Seq<Seq<DigitalTransition>>),
                    Fault,
                >(e@),
            },
            r matches Ok(result) ==> waves_grow(result, request.analysis->DigitalTransient_stop),
    {
        let program = match DigitalProgram::compile(request) {
            Err(e) => {
                return Err(e);
            },
            Ok(p) => p,
        };
        let stop: Real = match &request.analysis {
            Analysis::DigitalTransient { stop } => *stop,
            _ => {
                return Err(
                    EngineError::new(
                        "digital_unsupported_analysis",
                        "the built-in digital engine only supports digital_transient analysis",
                    ),
                );
            },
        };
        let clock = clock_now();
        let mut state = DigitalState::new(&program);
        let shared: bool = DigitalEngine::has_shared_net(&state, &program);
        match state.schedule_initial(&program, stop, control, &clock) {
            Err(e) => {
                return Err(e);
            },
            Ok(_) => {},
        }
        let ghost first = first_histories(program@);
        let mut histories: Vec<Vec<DigitalTransition>> = Vec::new();
        let mut i: usize = 0;
        while i < program.nets.len()
            invariant
                i <= program.nets@.len(),
                first == first_histories(program@),
                history_views(histories@) =~= first.take(i as int),
            decreases program.nets@.len() - i,
        {
            let ghost before = history_views(histories@);
            let mut history: Vec<DigitalTransition> = Vec::new();
            history.push(DigitalTransition { time: Real { bits: 0 }, value: LogicValue::X });
            assert(history@ =~= first[i as int]);
            histories.push(history);
            assert(history_views(histories@) =~= before.push(first[i as int]));
            i = i + 1;
            assert(first.take(i as int) =~= first.take(i - 1).push(first[i - 1]));
        }
        assert(history_views(histories@) =~= first);
        match DigitalEngine::run_events(
            &mut state,
            &program,
            stop,
            &mut histories,
            limit,
            control,
            &clock,
        ) {
            Err(e) => {
                return Err(e);
            },
            Ok(_) => {},
        }
        proof {
            histories_grow(program@, stop, limit);
        }
        let mut waveforms: Vec<Waveform> = Vec::new();
        let mut j: usize = 0;
        while j < program.probes.len()
            invariant
                j <= program.probes@.len(),
                sound_program(program@),
                histories@.len() == program@.nets.len(),
                forall|s: int|
                    0 <= s < histories@.len() ==> grows(
                        #[trigger] history_views(histories@)[s],
                        stop,
                    ),
                waveforms@.len() == j,
                forall|i: int|
                    0 <= i < j ==> ((#[trigger] waveforms@[i]) matches Waveform::Digital(w)
                        && grows(w.transitions@, stop)),
                forall|i: int|
                    0 <= i < j ==> shows(
                        #[trigger] waveforms@[i],
                        program@.probes[i].0,
                        history_views(histories@)[program@.probes[i].1],
                    ),
            decreases program.probes@.len() - j,
        {
            let probe = &program.probes[j];
            assert(program@.probes[j as int] == probe@);
            assert(grows(history_views(histories@)[probe.slot as int], stop));
            assert(history_views(histories@)[probe.slot as int] == histories@[probe.slot as int]@);
            waveforms.push(
                Waveform::Digital(
                    DigitalWaveform {
                        signal: SignalId::new(probe.signal.as_str()),
                        transitions: copy_transitions(&histories[probe.slot]),
                    },
                ),
            );
            j = j + 1;
        }
        let mut diagnostics: Vec<Diagnostic> = Vec::new();
        if shared {
            diagnostics.push(
                Diagnostic::new(
                    DiagnosticLevel::Info,
                    "digital_multi_driver_resolution",
                    "digital nets with multiple drivers were resolved with four-state Z/X contention semantics",
                ),
            );
        }
        Ok(
            SimulationResult::new(
                EngineId::new(DIGITAL_ENGINE_ID),
                Some(VERSION.to_owned()),
                request.analysis.kind(),
                request.circuit.schema_version,
                waveforms,
                diagnostics,
            ),
        )
    }

    /// Simulates the digital transient analysis of a request to its end: neither a
    /// signal nor the time stops it.
    pub fn run_to_end(&self, request: &SimulationRequest, max_output_bytes: u64) -> (r: Result<
        SimulationResult,
        EngineError,
    >)
        ensures
            match (r, simulated(*request, max_output_bytes)) {
                (Ok(result), Ok((program, histories))) => result_shows(
                    result,
                    *request,
                    program,
                    histories,
                ),
                (Err(e), Err(f)) => e@ == f,
                _ => false,
            },
            r matches Ok(result) ==> waves_grow(result, request.analysis->DigitalTransient_stop),
    {
        DigitalEngine::run_program(request, max_output_bytes, None)
    }

    /// Simulates the digital transient analysis of a request.
    pub fn run(&self, request: &SimulationRequest, control: &ExecutionControl) -> (r: Result<
        SimulationResult,
        EngineError,
    >)
        ensures
            match r {
                Ok(result) => control.policy.failure() is None && (simulated(
                    *request,
                    control.policy.max_output_bytes,
                ) matches Ok((program, histories)) && result_shows(
                    result,
                    *request,
                    program,
                    histories,
                )),
                Err(e) => {
                    ||| control.policy.failure() == Some(e@)
                    ||| control.policy.failure() is None && (interrupted(control.policy, e@)
                        || simulated(*request, control.policy.max_output_bytes) == Err::<
                        (Program, Seq<Seq<DigitalTransition>>),
                        Fault,
                    >(e@))
                },
            },
            r matches Ok(result) ==> waves_grow(result, request.analysis->DigitalTransient_stop),
    {
        match check_signal(
            &control.policy,
            control.cancellation.is_cancelled(),
            "digital simulation was cancelled",
        ) {
            Err(e) => {
                return Err(e);
            },
            Ok(_) => {},
        }
        DigitalEngine::run_program(request, control.policy.max_output_bytes, Some(control))
    }
}

impl SimulationEngine for DigitalEngine {
    open spec fn name(&self) -> Seq<char> {
        DIGITAL_ENGINE_ID@
    }

    open spec fn abilities(&self) -> Abilities {
        Abilities {
            analog: false,
            digital: true,
            mixed_signal: false,
            analyses: seq![AnalysisKind::DigitalTransient],
        }
    }

    open spec fn release(&self) -> Option<Seq<char>> {
        Some(VERSION@)
    }

    open spec fn takes(&self, request: SimulationRequest) -> bool {
        self.abilities().covers(request.analysis) && !has_kind(
            request.circuit.components@,
            "hdl_module"@,
        )
    }

    open spec fn may_end(
        &self,
        request: SimulationRequest,
        control: ExecutionControl,
        outcome: Result<SimulationResult, EngineError>,
    ) -> bool {
        match outcome {
            Ok(result) => control.policy.failure() is None && (simulated(
                request,
                control.policy.max_output_bytes,
            ) matches Ok((program, histories)) && result_shows(
                result,
                request,
                program,
                histories,
            )),
            Err(e) => {
                ||| control.policy.failure() == Some(e@)
                ||| control.policy.failure() is None && (interrupted(control.policy, e@)
                    || simulated(request, control.policy.max_output_bytes) == Err::<
                    (Program, Seq<Seq<DigitalTransition>>),
                    Fault,
                >(e@))
            },
        }
    }

    fn id(&self) -> EngineId {
        EngineId::new(DIGITAL_ENGINE_ID)
    }

    fn capabilities(&self) -> (r: EngineCapabilities) {
        let mut analyses: Vec<AnalysisKind> = Vec::new();
        analyses.push(AnalysisKind::DigitalTransient);
        assert(analyses@ =~= seq![AnalysisKind::DigitalTransient]);
        EngineCapabilities { analog: false, digital: true, mixed_signal: false, analyses }
    }

    fn version(&self) -> Option<String> {
        Some(VERSION.to_owned())
    }

    fn supports_request(&self, request: &SimulationRequest) -> bool {
        self.capabilities().supports(&request.analysis) && !contains_kind(
            &request.circuit.components,
            "hdl_module",
        )
    }

    fn simulate_with_control(&self, request: &SimulationRequest, control: &ExecutionControl) -> Result<
        SimulationResult,
        EngineError,
    > {
        self.run(request, control)
    }
}

/// A history that takes a level at a time ends with that level; what it held before
/// that time stays, and it grows by one level exactly if the level is another one at
/// another time.
pub proof fn histories_end_with_the_level_taken(
    transitions: Seq<DigitalTransition>,
    time: Real,
    value: LogicValue,
)
    ensures
        ({
            let after = pushed(transitions, time, value);
            &&& after.len() > 0
            &&& after.last().value == value
            &&& transitions.len() <= after.len() <= transitions.len() + 1
            &&& forall|i: int|
                0 <= i < transitions.len() - 1 ==> #[trigger] after[i] == transitions[i]
            &&& after.len() == transitions.len() + 1 ==> after.last().time == time
            &&& transitions.len() > 0 && transitions.last().time.bits != time.bits
                && transitions.last().value != value ==> after == transitions.push(
                DigitalTransition { time, value },
            )
        }),
{
}

/// After the changes of a time are recorded, the history of each net that changed ends
/// with its new level, and the histories of the other nets are as they were.
pub proof fn histories_end_at_the_levels(
    histories: Seq<Seq<DigitalTransition>>,
    nets: Seq<LogicValue>,
    changed: Seq<int>,
    time: Real,
    limit: u64,
    n: int,
    after: Seq<Seq<DigitalTransition>>,
    s: int,
)
    requires
        0 <= n <= changed.len(),
        forall|k: int| 0 <= k < changed.len() ==> 0 <= #[trigger] changed[k] < histories.len(),
        recorded(histories, nets, changed, time, limit, n) == Ok::<
            Seq<Seq<DigitalTransition>>,
            Fault,
        >(after),
        0 <= s < histories.len(),
    ensures
        after.len() == histories.len(),
        if exists|k: int| 0 <= k < n && #[trigger] changed[k] == s {
            after[s].len() > 0 && after[s].last().value == nets[s]
        } else {
            after[s] == histories[s]
        },
    decreases n,
{
    if n > 0 {
        let before = recorded(histories, nets, changed, time, limit, n - 1)->Ok_0;
        histories_end_at_the_levels(histories, nets, changed, time, limit, n - 1, before, s);
        let slot = changed[n - 1];
        histories_end_with_the_level_taken(before[slot], time, nets[slot]);
        if slot != s && exists|k: int| 0 <= k < n && #[trigger] changed[k] == s {
            let k = choose|k: int| 0 <= k < n && #[trigger] changed[k] == s;
            assert(0 <= k < n - 1 && changed[k] == s);
        }
    }
}

} // verus!
