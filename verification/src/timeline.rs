//! What a run of the co-simulation master is: how the participants stand before
//! and after each call that is made of them, and what that call was given.
use crate::control::ExecutionControl;
use crate::cosim::{
    cosim_interrupted, participant_fault, seconds_keep_order, seconds_of, CoSimulationConfig,
    CoSimulationParticipant, CoSimulationPort, CoSimulationTime, CoSimulationValue, Join,
};
use crate::fault::{fault, Fault};
use crate::number::Real;
use crate::recorder::{
    all_tracks, graph_unrecordable, new_tracks_are_unused, track_stepped, tracks_are_stepped_alone,
    tracks_stepped, unused, Recording, Track,
};
use crate::scheduler::{
    all_at, astray_fault, carried, events_of, key_at, late_start_fault, moved_fault, next_target,
    next_target_is_bounded, port_at, unsettled_fault,
};
use crate::text::decimal;
use vstd::prelude::*;

verus! {

/// What a run works with: its limits, the names and ports of the participants,
/// and the links in order.
pub struct Setting {
    pub config: CoSimulationConfig,
    pub control: ExecutionControl,
    pub keys: Seq<Seq<char>>,
    pub ports: Seq<Seq<CoSimulationPort>>,
    pub joins: Seq<Join>,
}

/// The course of a run: the times that all participants went to, the first of
/// them zero, and at each of them the settled participants, what has been
/// recorded up to then, and the number of delta cycles that settling took.
pub struct Trace<P> {
    pub times: Seq<CoSimulationTime>,
    pub states: Seq<Seq<P>>,
    pub tracks: Seq<Seq<Track>>,
    pub cycles: Seq<nat>,
}

impl<P> Trace<P> {
    pub open spec fn len(self) -> nat {
        self.times.len()
    }

    /// The course with one more step.
    pub open spec fn with_step(
        self,
        time: CoSimulationTime,
        state: Seq<P>,
        tracks: Seq<Track>,
        cycles: nat,
    ) -> Self {
        Trace {
            times: self.times.push(time),
            states: self.states.push(state),
            tracks: self.tracks.push(tracks),
            cycles: self.cycles.push(cycles),
        }
    }
}

/// The sum of some counts.
pub open spec fn total(counts: Seq<nat>) -> nat
    decreases counts.len(),
{
    if counts.len() == 0 {
        0
    } else {
        total(counts.drop_last()) + counts.last()
    }
}

/// Too many steps.
pub open spec fn step_limit_fault(config: CoSimulationConfig) -> Fault {
    fault(
        "cosim_step_limit"@,
        "co-simulation exceeded the configured "@ + decimal(config.max_steps as nat)
            + " macro-step limit"@,
    )
}

impl Setting {
    /// The place of the participant that gives the value of a link.
    pub open spec fn source_of(self, i: int) -> int {
        key_at(self.keys, self.joins[i].source.0)->0
    }

    /// The place of the participant that takes the value of a link.
    pub open spec fn target_of(self, i: int) -> int {
        key_at(self.keys, self.joins[i].target.0)->0
    }

    /// Every link leads to a participant.
    pub open spec fn linked(self) -> bool {
        forall|i: int|
            0 <= i < self.joins.len() ==> 0 <= #[trigger] self.target_of(i) < self.keys.len()
    }

    /// The run was ended by its signal or for want of time.
    pub open spec fn interrupted(self, f: Fault) -> bool {
        cosim_interrupted(self.control.policy, f)
    }

    /// The first `n` participants have been started and stand at time zero, the
    /// others are as they were.
    pub open spec fn started<P: CoSimulationParticipant>(
        self,
        before: Seq<P>,
        after: Seq<P>,
        n: int,
    ) -> bool {
        &&& after.len() == before.len()
        &&& forall|k: int|
            0 <= k < n ==> (#[trigger] after[k]).reached() == CoSimulationTime(0)
                && before[k].may_start(self.control, after[k], Ok(()))
        &&& forall|k: int| n <= k < after.len() ==> #[trigger] after[k] == before[k]
    }

    /// All participants have been started.
    pub open spec fn all_started<P: CoSimulationParticipant>(
        self,
        before: Seq<P>,
        after: Seq<P>,
    ) -> bool {
        self.started(before, after, before.len() as int)
    }

    /// The participants before this one have been started, and this one could not
    /// be, or does not stand at time zero.
    pub open spec fn start_stops_at<P: CoSimulationParticipant>(
        self,
        before: Seq<P>,
        after: Seq<P>,
        i: int,
        f: Fault,
    ) -> bool {
        &&& 0 <= i < before.len()
        &&& self.started(before, after.update(i, before[i]), i)
        &&& {
            ||| exists|g: Fault|
                #[trigger] before[i].may_start(self.control, after[i], Err(g)) && f
                    == participant_fault(self.keys[i], "initialize"@, g)
            ||| {
                &&& before[i].may_start(self.control, after[i], Ok(()))
                &&& after[i].reached() != CoSimulationTime(0)
                &&& f == late_start_fault(self.keys[i], after[i].reached())
            }
        }
    }

    /// Not all participants could be started.
    pub open spec fn start_broken<P: CoSimulationParticipant>(
        self,
        before: Seq<P>,
        after: Seq<P>,
        f: Fault,
    ) -> bool {
        exists|i: int| #[trigger] self.start_stops_at(before, after, i, f)
    }

    /// The first `n` participants have gone to a time, the others are as they were.
    pub open spec fn advanced<P: CoSimulationParticipant>(
        self,
        before: Seq<P>,
        after: Seq<P>,
        target: CoSimulationTime,
        n: int,
    ) -> bool {
        &&& after.len() == before.len()
        &&& forall|k: int|
            0 <= k < n ==> (#[trigger] after[k]).reached() == target && before[k].may_advance(
                target,
                self.control,
                after[k],
                Ok(()),
            )
        &&& forall|k: int| n <= k < after.len() ==> #[trigger] after[k] == before[k]
    }

    /// All participants have gone to a time.
    pub open spec fn all_advanced<P: CoSimulationParticipant>(
        self,
        before: Seq<P>,
        after: Seq<P>,
        target: CoSimulationTime,
    ) -> bool {
        self.advanced(before, after, target, before.len() as int)
    }

    /// The participants before this one have gone to a time, and this one was not
    /// asked to any more, could not, or stands at another time.
    pub open spec fn advance_stops_at<P: CoSimulationParticipant>(
        self,
        before: Seq<P>,
        after: Seq<P>,
        target: CoSimulationTime,
        i: int,
        f: Fault,
    ) -> bool {
        &&& 0 <= i < before.len()
        &&& self.advanced(before, after.update(i, before[i]), target, i)
        &&& {
            ||| self.interrupted(f) && after[i] == before[i]
            ||| exists|g: Fault|
                #[trigger] before[i].may_advance(target, self.control, after[i], Err(g)) && f
                    == participant_fault(self.keys[i], "advance"@, g)
            ||| {
                &&& before[i].may_advance(target, self.control, after[i], Ok(()))
                &&& after[i].reached() != target
                &&& f == astray_fault(self.keys[i], after[i].reached(), target)
            }
        }
    }

    /// Not all participants could go to a time.
    pub open spec fn advance_broken<P: CoSimulationParticipant>(
        self,
        before: Seq<P>,
        after: Seq<P>,
        target: CoSimulationTime,
        f: Fault,
    ) -> bool {
        exists|i: int| #[trigger] self.advance_stops_at(before, after, target, i, f)
    }

    /// What one link carries.
    pub open spec fn load<P: CoSimulationParticipant>(self, members: Seq<P>, i: int) -> Result<
        CoSimulationValue,
        Fault,
    > {
        carried(
            members[self.source_of(i)],
            self.joins[i].source,
            port_at(self.keys, self.ports, self.joins[i].source)->Ok_0,
        )
    }

    /// What the first `n` links carry, or what keeps one of them from it.
    pub open spec fn loads<P: CoSimulationParticipant>(self, members: Seq<P>, n: int) -> Result<
        Seq<CoSimulationValue>,
        Fault,
    >
        decreases n,
    {
        if n <= 0 {
            Ok(Seq::empty())
        } else {
            match self.loads(members, n - 1) {
                Err(f) => Err(f),
                Ok(values) => match self.load(members, n - 1) {
                    Err(f) => Err(f),
                    Ok(value) => Ok(values.push(value)),
                },
            }
        }
    }

    /// What all links carry, or what keeps one of them from it.
    pub open spec fn all_loads<P: CoSimulationParticipant>(self, members: Seq<P>) -> Result<
        Seq<CoSimulationValue>,
        Fault,
    > {
        self.loads(members, self.joins.len() as int)
    }

    /// A link's target has been given a value, and nobody else has changed.
    pub open spec fn handed<P: CoSimulationParticipant>(
        self,
        i: int,
        value: CoSimulationValue,
        time: CoSimulationTime,
        before: Seq<P>,
        after: Seq<P>,
        outcome: Result<bool, Fault>,
    ) -> bool {
        let k = self.target_of(i);
        &&& after.len() == before.len()
        &&& after == before.update(k, after[k])
        &&& before[k].may_take(
            self.joins[i].target.1,
            time,
            value,
            self.control,
            after[k],
            outcome,
        )
    }

    /// One link after the other has handed its value over: how the participants
    /// stood in between, and whether each of the links changed an input. Each
    /// target is still at its time.
    pub open spec fn hands_over<P: CoSimulationParticipant>(
        self,
        values: Seq<CoSimulationValue>,
        time: CoSimulationTime,
        chain: Seq<Seq<P>>,
        changes: Seq<bool>,
    ) -> bool {
        &&& chain.len() == changes.len() + 1
        &&& changes.len() <= self.joins.len()
        &&& forall|i: int|
            0 <= i < changes.len() ==> self.handed(
                i,
                values[i],
                time,
                chain[i],
                chain[i + 1],
                Ok(#[trigger] changes[i]),
            ) && chain[i + 1][self.target_of(i)].reached() == time
    }

    /// Every link has handed its value over: whether any input changed.
    pub open spec fn passed<P: CoSimulationParticipant>(
        self,
        values: Seq<CoSimulationValue>,
        time: CoSimulationTime,
        before: Seq<P>,
        after: Seq<P>,
        changed: bool,
    ) -> bool {
        exists|chain: Seq<Seq<P>>, changes: Seq<bool>| #[trigger]
            self.hands_over(values, time, chain, changes) && {
                &&& changes.len() == self.joins.len()
                &&& chain[0] == before
                &&& chain.last() == after
                &&& changed == changes.contains(true)
            }
    }

    /// A link's target did not take a value, or left its time.
    pub open spec fn handing_fails<P: CoSimulationParticipant>(
        self,
        i: int,
        value: CoSimulationValue,
        time: CoSimulationTime,
        before: Seq<P>,
        after: Seq<P>,
        f: Fault,
    ) -> bool {
        let member = after[self.target_of(i)];
        ||| exists|g: Fault| #[trigger]
            self.handed(i, value, time, before, after, Err(g)) && f == participant_fault(
                member.name(),
                "write input"@,
                g,
            )
        ||| exists|c: bool| #[trigger]
            self.handed(i, value, time, before, after, Ok(c)) && member.reached() != time && f
                == moved_fault(member.name())
    }

    /// Not every link could hand its value over.
    pub open spec fn pass_broken<P: CoSimulationParticipant>(
        self,
        values: Seq<CoSimulationValue>,
        time: CoSimulationTime,
        before: Seq<P>,
        after: Seq<P>,
        f: Fault,
    ) -> bool {
        exists|chain: Seq<Seq<P>>, changes: Seq<bool>| #[trigger]
            self.hands_over(values, time, chain, changes) && {
                let i = changes.len() as int;
                &&& i < self.joins.len()
                &&& chain[0] == before
                &&& self.handing_fails(i, values[i], time, chain.last(), after, f)
            }
    }

    /// A delta cycle: every link has read its source and then handed over what it
    /// read.
    pub open spec fn cycled<P: CoSimulationParticipant>(
        self,
        time: CoSimulationTime,
        before: Seq<P>,
        after: Seq<P>,
        changed: bool,
    ) -> bool {
        self.all_loads(before) matches Ok(values) && self.passed(
            values,
            time,
            before,
            after,
            changed,
        )
    }

    /// Delta cycles one after the other, each of which changed an input.
    pub open spec fn unsettled<P: CoSimulationParticipant>(
        self,
        time: CoSimulationTime,
        states: Seq<Seq<P>>,
    ) -> bool {
        &&& states.len() > 0
        &&& forall|i: int|
            0 < i < states.len() ==> self.cycled(time, states[i - 1], #[trigger] states[i], true)
    }

    /// The participants have settled at a time: after so many delta cycles one
    /// more changed nothing.
    pub open spec fn settled<P: CoSimulationParticipant>(
        self,
        time: CoSimulationTime,
        before: Seq<P>,
        after: Seq<P>,
        cycles: nat,
    ) -> bool {
        &&& cycles < self.config.max_delta_cycles
        &&& exists|states: Seq<Seq<P>>| #[trigger]
            self.unsettled(time, states) && {
                &&& states.len() == cycles + 1
                &&& states[0] == before
                &&& self.cycled(time, states.last(), after, false)
            }
    }

    /// A delta cycle was not begun, could not read every link, or could not hand
    /// everything over.
    pub open spec fn cycle_broken<P: CoSimulationParticipant>(
        self,
        time: CoSimulationTime,
        before: Seq<P>,
        after: Seq<P>,
        f: Fault,
    ) -> bool {
        ||| self.interrupted(f) && after == before
        ||| match self.all_loads(before) {
            Err(g) => f == g && after == before,
            Ok(values) => self.pass_broken(values, time, before, after, f),
        }
    }

    /// The participants have not settled at a time.
    pub open spec fn settling_broken<P: CoSimulationParticipant>(
        self,
        time: CoSimulationTime,
        before: Seq<P>,
        after: Seq<P>,
        f: Fault,
    ) -> bool {
        exists|states: Seq<Seq<P>>| #[trigger]
            self.unsettled(time, states) && states[0] == before && if states.len() - 1
                < self.config.max_delta_cycles {
                self.cycle_broken(time, states.last(), after, f)
            } else {
                &&& states.len() - 1 == self.config.max_delta_cycles
                &&& after == states.last()
                &&& f == unsettled_fault(self.config, time)
            }
    }

    /// What has been recorded, with what the participants give now.
    pub open spec fn recorded<P: CoSimulationParticipant>(
        self,
        tracks: Seq<Track>,
        members: Seq<P>,
        time: CoSimulationTime,
    ) -> Result<Seq<Track>, Fault> {
        tracks_stepped(tracks, self.keys, members, time, tracks.len() as int)
    }

    /// What keeps the ports of the participants from being recorded.
    pub open spec fn unrecordable(self) -> Option<Fault> {
        graph_unrecordable(self.keys, self.ports, self.keys.len() as int)
    }

    /// The start of a run: all participants are started, settled and recorded at
    /// time zero.
    pub open spec fn opened<P: CoSimulationParticipant>(
        self,
        before: Seq<P>,
        after: Seq<P>,
        tracks: Seq<Track>,
        cycles: nat,
    ) -> bool {
        &&& exists|mid: Seq<P>| #[trigger]
            self.all_started(before, mid) && self.settled(CoSimulationTime(0), mid, after, cycles)
        &&& self.unrecordable() is None
        &&& self.recorded(all_tracks(self.ports), after, CoSimulationTime(0)) == Ok::<
            Seq<Track>,
            Fault,
        >(tracks)
    }

    /// A run that ended before its first step.
    pub open spec fn opening_broken<P: CoSimulationParticipant>(
        self,
        before: Seq<P>,
        after: Seq<P>,
        f: Fault,
    ) -> bool {
        ||| self.start_broken(before, after, f)
        ||| self.all_started(before, after) && self.unrecordable() == Some(f)
        ||| self.unrecordable() is None && exists|mid: Seq<P>| #[trigger]
            self.all_started(before, mid) && {
                ||| self.settling_broken(CoSimulationTime(0), mid, after, f)
                ||| {
                    &&& exists|cycles: nat| #[trigger]
                        self.settled(CoSimulationTime(0), mid, after, cycles)
                    &&& self.recorded(all_tracks(self.ports), after, CoSimulationTime(0)) == Err::<
                        Seq<Track>,
                        Fault,
                    >(f)
                }
            }
    }

    /// The time to which all participants go next.
    pub open spec fn target_after<P: CoSimulationParticipant>(
        self,
        members: Seq<P>,
        now: CoSimulationTime,
    ) -> Result<CoSimulationTime, Fault> {
        next_target(self.keys, events_of(members), self.config, now, members.len() as int)
    }

    /// A step: all participants go to the next time, settle there and are
    /// recorded.
    pub open spec fn stepped<P: CoSimulationParticipant>(
        self,
        now: CoSimulationTime,
        before: Seq<P>,
        tracks: Seq<Track>,
        target: CoSimulationTime,
        after: Seq<P>,
        extended: Seq<Track>,
        cycles: nat,
    ) -> bool {
        &&& now.0 < self.config.stop.0
        &&& self.target_after(before, now) == Ok::<CoSimulationTime, Fault>(target)
        &&& exists|mid: Seq<P>| #[trigger]
            self.all_advanced(before, mid, target) && self.settled(target, mid, after, cycles)
        &&& self.recorded(tracks, after, target) == Ok::<Seq<Track>, Fault>(extended)
    }

    /// A step that failed, after so many others.
    pub open spec fn step_broken<P: CoSimulationParticipant>(
        self,
        taken: int,
        now: CoSimulationTime,
        before: Seq<P>,
        tracks: Seq<Track>,
        after: Seq<P>,
        f: Fault,
    ) -> bool {
        ||| self.interrupted(f) && after == before
        ||| if taken >= self.config.max_steps {
            after == before && f == step_limit_fault(self.config)
        } else {
            match self.target_after(before, now) {
                Err(g) => after == before && f == g,
                Ok(target) => {
                    ||| self.advance_broken(before, after, target, f)
                    ||| exists|mid: Seq<P>| #[trigger]
                        self.all_advanced(before, mid, target) && {
                            ||| self.settling_broken(target, mid, after, f)
                            ||| {
                                &&& exists|cycles: nat| #[trigger]
                                    self.settled(target, mid, after, cycles)
                                &&& self.recorded(tracks, after, target) == Err::<
                                    Seq<Track>,
                                    Fault,
                                >(f)
                            }
                        }
                },
            }
        }
    }

    /// One step of a course.
    pub open spec fn leads<P: CoSimulationParticipant>(self, trace: Trace<P>, i: int) -> bool {
        self.stepped(
            trace.times[i - 1],
            trace.states[i - 1],
            trace.tracks[i - 1],
            trace.times[i],
            trace.states[i],
            trace.tracks[i],
            trace.cycles[i],
        )
    }

    /// The course that a run takes from a start.
    pub open spec fn takes_course<P: CoSimulationParticipant>(
        self,
        start: Seq<P>,
        trace: Trace<P>,
    ) -> bool {
        &&& 0 < trace.len() <= self.config.max_steps + 1
        &&& trace.states.len() == trace.len()
        &&& trace.tracks.len() == trace.len()
        &&& trace.cycles.len() == trace.len()
        &&& trace.times[0] == CoSimulationTime(0)
        &&& self.opened(start, trace.states[0], trace.tracks[0], trace.cycles[0])
        &&& forall|i: int| 0 < i < trace.len() ==> #[trigger] self.leads(trace, i)
    }

    /// A run that began well ended before the stop time.
    pub open spec fn course_broken<P: CoSimulationParticipant>(
        self,
        start: Seq<P>,
        after: Seq<P>,
        f: Fault,
    ) -> bool {
        exists|trace: Trace<P>| #[trigger]
            self.takes_course(start, trace) && {
                &&& trace.times.last().0 < self.config.stop.0
                &&& self.step_broken(
                    trace.len() - 1,
                    trace.times.last(),
                    trace.states.last(),
                    trace.tracks.last(),
                    after,
                    f,
                )
            }
    }

    /// The times of a run: they begin at zero, grow by at most the largest step
    /// at a time, and do not pass the stop time.
    pub open spec fn scheduled(self, times: Seq<CoSimulationTime>) -> bool {
        &&& times.len() > 0
        &&& times[0] == CoSimulationTime(0)
        &&& forall|i: int| 0 <= i < times.len() ==> (#[trigger] times[i]).0 <= self.config.stop.0
        &&& forall|i: int|
            0 < i < times.len() ==> times[i - 1].0 < (#[trigger] times[i]).0 && times[i].0
                - times[i - 1].0 <= self.config.max_step.0
    }
}

pub(crate) proof fn lemma_handed_over<P: CoSimulationParticipant>(
    setting: Setting,
    values: Seq<CoSimulationValue>,
    time: CoSimulationTime,
    chain: Seq<Seq<P>>,
    changes: Seq<bool>,
    after: Seq<P>,
    change: bool,
)
    requires
        setting.hands_over(values, time, chain, changes),
        changes.len() < setting.joins.len(),
        setting.handed(
            changes.len() as int,
            values[changes.len() as int],
            time,
            chain.last(),
            after,
            Ok(change),
        ),
        after[setting.target_of(changes.len() as int)].reached() == time,
    ensures
        setting.hands_over(values, time, chain.push(after), changes.push(change)),
        changes.push(change).contains(true) == (changes.contains(true) || change),
{
    let longer = chain.push(after);
    let more = changes.push(change);
    assert forall|i: int| 0 <= i < more.len() implies setting.handed(
        i,
        values[i],
        time,
        longer[i],
        longer[i + 1],
        Ok(#[trigger] more[i]),
    ) && longer[i + 1][setting.target_of(i)].reached() == time by {
        if i < changes.len() {
            assert(more[i] == changes[i]);
        }
    }
    if changes.contains(true) {
        let j = choose|j: int| 0 <= j < changes.len() && changes[j] == true;
        assert(more[j] == true);
    }
    if change {
        assert(more[changes.len() as int] == true);
    }
    if more.contains(true) && !change {
        let j = choose|j: int| 0 <= j < more.len() && more[j] == true;
        assert(changes[j] == true);
    }
}

pub(crate) proof fn lemma_unsettled_longer<P: CoSimulationParticipant>(
    setting: Setting,
    time: CoSimulationTime,
    states: Seq<Seq<P>>,
    after: Seq<P>,
)
    requires
        setting.unsettled(time, states),
        setting.cycled(time, states.last(), after, true),
    ensures
        setting.unsettled(time, states.push(after)),
{
    let longer = states.push(after);
    assert forall|i: int| 0 < i < longer.len() implies setting.cycled(
        time,
        longer[i - 1],
        #[trigger] longer[i],
        true,
    ) by {
        if i < states.len() {
            assert(longer[i] == states[i]);
        }
    }
}

pub(crate) proof fn lemma_course_longer<P: CoSimulationParticipant>(
    setting: Setting,
    start: Seq<P>,
    trace: Trace<P>,
    target: CoSimulationTime,
    after: Seq<P>,
    tracks: Seq<Track>,
    cycles: nat,
)
    requires
        setting.takes_course(start, trace),
        trace.len() <= setting.config.max_steps,
        setting.stepped(
            trace.times.last(),
            trace.states.last(),
            trace.tracks.last(),
            target,
            after,
            tracks,
            cycles,
        ),
    ensures
        setting.takes_course(start, trace.with_step(target, after, tracks, cycles)),
        total(trace.with_step(target, after, tracks, cycles).cycles) == total(trace.cycles) + cycles,
{
    let longer = trace.with_step(target, after, tracks, cycles);
    assert forall|i: int| 0 < i < longer.len() implies #[trigger] setting.leads(longer, i) by {
        if i < trace.len() {
            assert(setting.leads(trace, i));
        }
    }
    assert(longer.cycles.drop_last() =~= trace.cycles);
}

proof fn lemma_pass_stays<P: CoSimulationParticipant>(
    setting: Setting,
    values: Seq<CoSimulationValue>,
    time: CoSimulationTime,
    chain: Seq<Seq<P>>,
    changes: Seq<bool>,
    n: int,
)
    requires
        setting.linked(),
        setting.hands_over(values, time, chain, changes),
        0 <= n <= changes.len(),
        chain[0].len() == setting.keys.len(),
        all_at(chain[0], time),
    ensures
        chain[n].len() == setting.keys.len(),
        all_at(chain[n], time),
    decreases n,
{
    if n > 0 {
        lemma_pass_stays(setting, values, time, chain, changes, n - 1);
        let i = n - 1;
        assert(setting.handed(i, values[i], time, chain[i], chain[i + 1], Ok(changes[i])));
        let k = setting.target_of(i);
        assert forall|j: int| 0 <= j < chain[n].len() implies (#[trigger] chain[n][j]).reached()
            == time by {
            if j != k {
                assert(chain[n][j] == chain[i][j]);
            }
        }
    }
}

proof fn lemma_cycle_stays<P: CoSimulationParticipant>(
    setting: Setting,
    time: CoSimulationTime,
    before: Seq<P>,
    after: Seq<P>,
    changed: bool,
)
    requires
        setting.linked(),
        setting.cycled(time, before, after, changed),
        before.len() == setting.keys.len(),
        all_at(before, time),
    ensures
        after.len() == setting.keys.len(),
        all_at(after, time),
{
    let values = setting.all_loads(before)->Ok_0;
    let (chain, changes) = choose|chain: Seq<Seq<P>>, changes: Seq<bool>| #[trigger]
        setting.hands_over(values, time, chain, changes) && {
            &&& changes.len() == setting.joins.len()
            &&& chain[0] == before
            &&& chain.last() == after
            &&& changed == changes.contains(true)
        };
    lemma_pass_stays(setting, values, time, chain, changes, changes.len() as int);
}

proof fn lemma_cycles_stay<P: CoSimulationParticipant>(
    setting: Setting,
    time: CoSimulationTime,
    states: Seq<Seq<P>>,
    n: int,
)
    requires
        setting.linked(),
        setting.unsettled(time, states),
        0 <= n < states.len(),
        states[0].len() == setting.keys.len(),
        all_at(states[0], time),
    ensures
        states[n].len() == setting.keys.len(),
        all_at(states[n], time),
    decreases n,
{
    if n > 0 {
        lemma_cycles_stay(setting, time, states, n - 1);
        assert(setting.cycled(time, states[n - 1], states[n], true));
        lemma_cycle_stays(setting, time, states[n - 1], states[n], true);
    }
}

/// Settling leaves every participant at its time.
pub proof fn settling_keeps_the_time<P: CoSimulationParticipant>(
    setting: Setting,
    time: CoSimulationTime,
    before: Seq<P>,
    after: Seq<P>,
    cycles: nat,
)
    requires
        setting.linked(),
        setting.settled(time, before, after, cycles),
        before.len() == setting.keys.len(),
        all_at(before, time),
    ensures
        after.len() == setting.keys.len(),
        all_at(after, time),
{
    let states = choose|states: Seq<Seq<P>>| #[trigger]
        setting.unsettled(time, states) && {
            &&& states.len() == cycles + 1
            &&& states[0] == before
            &&& setting.cycled(time, states.last(), after, false)
        };
    lemma_cycles_stay(setting, time, states, states.len() - 1);
    lemma_cycle_stays(setting, time, states.last(), after, false);
}

proof fn lemma_opened_at_zero<P: CoSimulationParticipant>(
    setting: Setting,
    before: Seq<P>,
    after: Seq<P>,
    tracks: Seq<Track>,
    cycles: nat,
)
    requires
        setting.linked(),
        setting.opened(before, after, tracks, cycles),
        before.len() == setting.keys.len(),
    ensures
        after.len() == setting.keys.len(),
        all_at(after, CoSimulationTime(0)),
{
    let mid = choose|mid: Seq<P>| #[trigger]
        setting.all_started(before, mid) && setting.settled(
            CoSimulationTime(0),
            mid,
            after,
            cycles,
        );
    settling_keeps_the_time(setting, CoSimulationTime(0), mid, after, cycles);
}

proof fn lemma_stepped_at_target<P: CoSimulationParticipant>(
    setting: Setting,
    now: CoSimulationTime,
    before: Seq<P>,
    tracks: Seq<Track>,
    target: CoSimulationTime,
    after: Seq<P>,
    extended: Seq<Track>,
    cycles: nat,
)
    requires
        setting.linked(),
        setting.stepped(now, before, tracks, target, after, extended, cycles),
        before.len() == setting.keys.len(),
    ensures
        after.len() == setting.keys.len(),
        all_at(after, target),
{
    let mid = choose|mid: Seq<P>| #[trigger]
        setting.all_advanced(before, mid, target) && setting.settled(target, mid, after, cycles);
    settling_keeps_the_time(setting, target, mid, after, cycles);
}

/// All participants go through one sequence of times together: after each step
/// every one of them stands at the time of that step.
pub proof fn participants_stand_together<P: CoSimulationParticipant>(
    setting: Setting,
    start: Seq<P>,
    trace: Trace<P>,
    i: int,
)
    requires
        setting.linked(),
        setting.takes_course(start, trace),
        start.len() == setting.keys.len(),
        0 <= i < trace.len(),
    ensures
        trace.states[i].len() == setting.keys.len(),
        all_at(trace.states[i], trace.times[i]),
    decreases i,
{
    if i == 0 {
        lemma_opened_at_zero(setting, start, trace.states[0], trace.tracks[0], trace.cycles[0]);
    } else {
        participants_stand_together(setting, start, trace, i - 1);
        assert(setting.leads(trace, i));
        lemma_stepped_at_target(
            setting,
            trace.times[i - 1],
            trace.states[i - 1],
            trace.tracks[i - 1],
            trace.times[i],
            trace.states[i],
            trace.tracks[i],
            trace.cycles[i],
        );
    }
}

/// The times of a run begin at zero, grow strictly by at most the largest step
/// at a time, and do not pass the stop time.
pub proof fn times_keep_the_schedule<P: CoSimulationParticipant>(
    setting: Setting,
    start: Seq<P>,
    trace: Trace<P>,
)
    requires
        setting.config.failure() is None,
        setting.takes_course(start, trace),
    ensures
        setting.scheduled(trace.times),
{
    let times = trace.times;
    assert forall|i: int| 0 < i < times.len() implies times[i - 1].0 < (#[trigger] times[i]).0
        <= setting.config.stop.0 && times[i].0 - times[i - 1].0 <= setting.config.max_step.0 by {
        assert(setting.leads(trace, i));
        let members = trace.states[i - 1];
        next_target_is_bounded(
            setting.keys,
            events_of(members),
            setting.config,
            times[i - 1],
            members.len() as int,
        );
    }
}

/// The times of a run grow strictly from each to every later one.
pub proof fn later_times_are_greater(setting: Setting, times: Seq<CoSimulationTime>, i: int, j: int)
    requires
        setting.scheduled(times),
        0 <= i < j < times.len(),
    ensures
        times[i].0 < times[j].0,
    decreases j - i,
{
    if i < j - 1 {
        later_times_are_greater(setting, times, i, j - 1);
    }
    assert(times[j - 1].0 < times[j].0);
}

/// The times of a run in seconds, without those that give the same number as the
/// one before.
pub open spec fn axis_of(times: Seq<CoSimulationTime>) -> Seq<Real>
    decreases times.len(),
{
    if times.len() == 0 {
        Seq::empty()
    } else {
        let axis = axis_of(times.drop_last());
        let seconds = seconds_of(times.last().0);
        if axis.len() > 0 && axis.last() == seconds {
            axis
        } else {
            axis.push(seconds)
        }
    }
}

/// A recording covers some times and ends with a value.
pub open spec fn ends_with(
    recording: Recording,
    times: Seq<CoSimulationTime>,
    value: CoSimulationValue,
) -> bool {
    match (recording, value) {
        (Recording::Digital(transitions), CoSimulationValue::Digital(level)) => transitions.len()
            > 0 && transitions.last().value == level,
        (Recording::Analog { unit, times: axis, values }, CoSimulationValue::Analog(number)) => {
            &&& axis == axis_of(times)
            &&& values.len() == axis.len() > 0
            &&& values.last() == number
        },
        _ => false,
    }
}

proof fn lemma_recorded<P: CoSimulationParticipant>(
    setting: Setting,
    tracks: Seq<Track>,
    members: Seq<P>,
    times: Seq<CoSimulationTime>,
    m: int,
)
    requires
        times.len() > 0,
        0 <= m < tracks.len(),
        setting.recorded(tracks, members, times.last()) is Ok,
        times.len() == 1 ==> unused(tracks[m]),
        times.len() > 1 ==> exists|value: CoSimulationValue| #[trigger]
            ends_with(tracks[m].recording, times.drop_last(), value),
    ensures
        ({
            let done = setting.recorded(tracks, members, times.last())->Ok_0;
            &&& done.len() == tracks.len()
            &&& done[m].member == tracks[m].member
            &&& done[m].port == tracks[m].port
            &&& members[done[m].member].output(done[m].port) matches Ok(value) && ends_with(
                done[m].recording,
                times,
                value,
            )
        }),
{
    let time = times.last();
    let done = setting.recorded(tracks, members, time)->Ok_0;
    tracks_are_stepped_alone(tracks, setting.keys, members, time, tracks.len() as int);
    assert(track_stepped(tracks[m], setting.keys, members, time) == Ok::<Track, Fault>(done[m]));
    if times.len() == 1 {
        assert(times.drop_last() =~= Seq::<CoSimulationTime>::empty());
        assert(axis_of(times.drop_last()) =~= Seq::<Real>::empty());
    }
    let axis = axis_of(times.drop_last());
    let seconds = seconds_of(time.0);
    let value = members[done[m].member].output(done[m].port)->Ok_0;
    match (tracks[m].recording, value) {
        (Recording::Analog { unit, times: known, values }, CoSimulationValue::Analog(number)) => {
            assert(known =~= axis);
            assert(axis.len() > 0 && axis.last().bits == seconds.bits ==> axis.last() == seconds);
            assert(done[m].recording->Analog_times =~= axis_of(times));
        },
        _ => {},
    }
}

/// What a run has recorded at each of its times: every port that gives something
/// has a track, which ends with what the port gives then. All numbers stand over
/// one axis, that of the times of the run.
pub proof fn outputs_are_recorded<P: CoSimulationParticipant>(
    setting: Setting,
    start: Seq<P>,
    trace: Trace<P>,
    i: int,
    m: int,
)
    requires
        setting.takes_course(start, trace),
        0 <= i < trace.len(),
        0 <= m < all_tracks(setting.ports).len(),
    ensures
        trace.tracks[i].len() == all_tracks(setting.ports).len(),
        trace.tracks[i][m].member == all_tracks(setting.ports)[m].member,
        trace.tracks[i][m].port == all_tracks(setting.ports)[m].port,
        trace.states[i][trace.tracks[i][m].member].output(trace.tracks[i][m].port) matches Ok(value)
            && ends_with(trace.tracks[i][m].recording, trace.times.take(i + 1), value),
    decreases i,
{
    let times = trace.times.take(i + 1);
    assert(times.last() == trace.times[i]);
    if i == 0 {
        new_tracks_are_unused(setting.ports, m);
        lemma_recorded(setting, all_tracks(setting.ports), trace.states[0], times, m);
    } else {
        outputs_are_recorded(setting, start, trace, i - 1, m);
        assert(setting.leads(trace, i));
        assert(times.drop_last() =~= trace.times.take(i));
        lemma_recorded(setting, trace.tracks[i - 1], trace.states[i], times, m);
    }
}

/// The axis of a run begins at zero, grows strictly, and ends at the last time.
/// It has one point per time where no two neighbouring times give the same number
/// of seconds.
pub proof fn axes_grow(setting: Setting, times: Seq<CoSimulationTime>)
    requires
        setting.scheduled(times),
    ensures
        0 < axis_of(times).len() <= times.len(),
        axis_of(times)[0] == seconds_of(0),
        axis_of(times).last() == seconds_of(times.last().0),
        forall|a: int, b: int|
            0 <= a < b < axis_of(times).len() ==> (#[trigger] axis_of(times)[a]).less(
                #[trigger] axis_of(times)[b],
            ),
        (forall|i: int|
            0 < i < times.len() ==> seconds_of((#[trigger] times[i]).0) != seconds_of(
                times[i - 1].0,
            )) ==> axis_of(times).len() == times.len(),
    decreases times.len(),
{
    let rest = times.drop_last();
    if times.len() == 1 {
        assert(rest =~= Seq::<CoSimulationTime>::empty());
        assert(axis_of(rest) =~= Seq::<Real>::empty());
    } else {
        assert forall|i: int| 0 <= i < rest.len() implies (#[trigger] rest[i]).0
            <= setting.config.stop.0 by {
            assert(rest[i] == times[i]);
        }
        assert forall|i: int| 0 < i < rest.len() implies rest[i - 1].0 < (#[trigger] rest[i]).0
            && rest[i].0 - rest[i - 1].0 <= setting.config.max_step.0 by {
            assert(rest[i] == times[i]);
        }
        axes_grow(setting, rest);
        let axis = axis_of(rest);
        let last = times.len() - 1;
        assert(times[last - 1].0 < times[last].0);
        seconds_keep_order(rest.last().0, times.last().0);
        let seconds = seconds_of(times.last().0);
        if axis.last() != seconds {
            assert(axis.last().less(seconds));
            assert forall|a: int| 0 <= a < axis.len() implies (#[trigger] axis[a]).less(
                seconds,
            ) by {
                if a < axis.len() - 1 {
                    assert(axis[a].less(axis[axis.len() - 1]));
                }
            }
        }
        if forall|i: int|
            0 < i < times.len() ==> seconds_of((#[trigger] times[i]).0) != seconds_of(
                times[i - 1].0,
            ) {
            assert forall|i: int| 0 < i < rest.len() implies seconds_of((#[trigger] rest[i]).0)
                != seconds_of(rest[i - 1].0) by {
                assert(rest[i] == times[i]);
            }
            assert(seconds_of(times[last].0) != seconds_of(times[last - 1].0));
        }
    }
}

/// Participants that do the same whenever they are asked the same: a call that
/// ends well leaves one state and tells one thing.
pub open spec fn repeatable<P: CoSimulationParticipant>(control: ExecutionControl) -> bool {
    &&& forall|a: P, x: P, y: P| #[trigger]
        a.may_start(control, x, Ok(())) && #[trigger] a.may_start(control, y, Ok(())) ==> x == y
    &&& forall|a: P, target: CoSimulationTime, x: P, y: P| #[trigger]
        a.may_advance(target, control, x, Ok(())) && #[trigger] a.may_advance(
            target,
            control,
            y,
            Ok(()),
        ) ==> x == y
    &&& forall|
        a: P,
        port: Seq<char>,
        time: CoSimulationTime,
        value: CoSimulationValue,
        x: P,
        y: P,
        c: bool,
        d: bool,
    | #[trigger]
        a.may_take(port, time, value, control, x, Ok(c)) && #[trigger] a.may_take(
            port,
            time,
            value,
            control,
            y,
            Ok(d),
        ) ==> x == y && c == d
}

proof fn lemma_chains_agree<P: CoSimulationParticipant>(
    setting: Setting,
    values: Seq<CoSimulationValue>,
    time: CoSimulationTime,
    a: Seq<Seq<P>>,
    b: Seq<Seq<P>>,
    c: Seq<bool>,
    d: Seq<bool>,
    n: int,
)
    requires
        repeatable::<P>(setting.control),
        setting.hands_over(values, time, a, c),
        setting.hands_over(values, time, b, d),
        a[0] == b[0],
        0 <= n <= c.len(),
        n <= d.len(),
    ensures
        a[n] == b[n],
        forall|i: int| 0 <= i < n ==> #[trigger] c[i] == d[i],
    decreases n,
{
    if n > 0 {
        let i = n - 1;
        lemma_chains_agree(setting, values, time, a, b, c, d, i);
        assert(setting.handed(i, values[i], time, a[i], a[i + 1], Ok(c[i])));
        assert(setting.handed(i, values[i], time, b[i], b[i + 1], Ok(d[i])));
        assert(a[n] =~= b[n]);
    }
}

proof fn lemma_cycles_agree<P: CoSimulationParticipant>(
    setting: Setting,
    time: CoSimulationTime,
    before: Seq<P>,
    x: Seq<P>,
    y: Seq<P>,
    c: bool,
    d: bool,
)
    requires
        repeatable::<P>(setting.control),
        setting.cycled(time, before, x, c),
        setting.cycled(time, before, y, d),
    ensures
        x == y,
        c == d,
{
    let values = setting.all_loads(before)->Ok_0;
    let (chain, changes) = choose|chain: Seq<Seq<P>>, changes: Seq<bool>| #[trigger]
        setting.hands_over(values, time, chain, changes) && {
            &&& changes.len() == setting.joins.len()
            &&& chain[0] == before
            &&& chain.last() == x
            &&& c == changes.contains(true)
        };
    let (other, flags) = choose|chain: Seq<Seq<P>>, changes: Seq<bool>| #[trigger]
        setting.hands_over(values, time, chain, changes) && {
            &&& changes.len() == setting.joins.len()
            &&& chain[0] == before
            &&& chain.last() == y
            &&& d == changes.contains(true)
        };
    lemma_chains_agree(
        setting,
        values,
        time,
        chain,
        other,
        changes,
        flags,
        changes.len() as int,
    );
    assert(changes =~= flags);
}

proof fn lemma_unsettled_agree<P: CoSimulationParticipant>(
    setting: Setting,
    time: CoSimulationTime,
    a: Seq<Seq<P>>,
    b: Seq<Seq<P>>,
    n: int,
)
    requires
        repeatable::<P>(setting.control),
        setting.unsettled(time, a),
        setting.unsettled(time, b),
        a[0] == b[0],
        0 <= n < a.len(),
        n < b.len(),
    ensures
        a[n] == b[n],
    decreases n,
{
    if n > 0 {
        lemma_unsettled_agree(setting, time, a, b, n - 1);
        assert(setting.cycled(time, a[n - 1], a[n], true));
        assert(setting.cycled(time, b[n - 1], b[n], true));
        lemma_cycles_agree(setting, time, a[n - 1], a[n], b[n], true, true);
    }
}

proof fn lemma_settling_agrees<P: CoSimulationParticipant>(
    setting: Setting,
    time: CoSimulationTime,
    before: Seq<P>,
    x: Seq<P>,
    y: Seq<P>,
    c: nat,
    d: nat,
)
    requires
        repeatable::<P>(setting.control),
        setting.settled(time, before, x, c),
        setting.settled(time, before, y, d),
    ensures
        x == y,
        c == d,
{
    let a = choose|states: Seq<Seq<P>>| #[trigger]
        setting.unsettled(time, states) && {
            &&& states.len() == c + 1
            &&& states[0] == before
            &&& setting.cycled(time, states.last(), x, false)
        };
    let b = choose|states: Seq<Seq<P>>| #[trigger]
        setting.unsettled(time, states) && {
            &&& states.len() == d + 1
            &&& states[0] == before
            &&& setting.cycled(time, states.last(), y, false)
        };
    if c < d {
        lemma_unsettled_agree(setting, time, a, b, c as int);
        assert(setting.cycled(time, b[c as int], b[c as int + 1], true));
        lemma_cycles_agree(setting, time, a[c as int], x, b[c as int + 1], false, true);
    } else if d < c {
        lemma_unsettled_agree(setting, time, a, b, d as int);
        assert(setting.cycled(time, a[d as int], a[d as int + 1], true));
        lemma_cycles_agree(setting, time, b[d as int], y, a[d as int + 1], false, true);
    } else {
        lemma_unsettled_agree(setting, time, a, b, c as int);
        lemma_cycles_agree(setting, time, a.last(), x, y, false, false);
    }
}

/// The master is deterministic: with participants that do the same whenever they
/// are asked the same, two runs from one start go through the same times and
/// states, and record the same.
pub proof fn runs_are_deterministic<P: CoSimulationParticipant>(
    setting: Setting,
    start: Seq<P>,
    a: Trace<P>,
    b: Trace<P>,
    i: int,
)
    requires
        repeatable::<P>(setting.control),
        setting.takes_course(start, a),
        setting.takes_course(start, b),
        0 <= i < a.len(),
        i < b.len(),
    ensures
        a.times[i] == b.times[i],
        a.states[i] == b.states[i],
        a.tracks[i] == b.tracks[i],
        a.cycles[i] == b.cycles[i],
    decreases i,
{
    if i == 0 {
        let time = CoSimulationTime(0);
        let x = choose|mid: Seq<P>| #[trigger]
            setting.all_started(start, mid) && setting.settled(
                time,
                mid,
                a.states[0],
                a.cycles[0],
            );
        let y = choose|mid: Seq<P>| #[trigger]
            setting.all_started(start, mid) && setting.settled(
                time,
                mid,
                b.states[0],
                b.cycles[0],
            );
        assert forall|k: int| 0 <= k < x.len() implies x[k] == y[k] by {
            assert(start[k].may_start(setting.control, x[k], Ok(())));
            assert(start[k].may_start(setting.control, y[k], Ok(())));
        }
        assert(x =~= y);
        lemma_settling_agrees(
            setting,
            time,
            x,
            a.states[0],
            b.states[0],
            a.cycles[0],
            b.cycles[0],
        );
    } else {
        runs_are_deterministic(setting, start, a, b, i - 1);
        assert(setting.leads(a, i));
        assert(setting.leads(b, i));
        let before = a.states[i - 1];
        let target = a.times[i];
        let x = choose|mid: Seq<P>| #[trigger]
            setting.all_advanced(before, mid, target) && setting.settled(
                target,
                mid,
                a.states[i],
                a.cycles[i],
            );
        let y = choose|mid: Seq<P>| #[trigger]
            setting.all_advanced(before, mid, target) && setting.settled(
                target,
                mid,
                b.states[i],
                b.cycles[i],
            );
        assert forall|k: int| 0 <= k < x.len() implies x[k] == y[k] by {
            assert(before[k].may_advance(target, setting.control, x[k], Ok(())));
            assert(before[k].may_advance(target, setting.control, y[k], Ok(())));
        }
        assert(x =~= y);
        lemma_settling_agrees(
            setting,
            target,
            x,
            a.states[i],
            b.states[i],
            a.cycles[i],
            b.cycles[i],
        );
    }
}

/// Two runs of such participants that both come to the stop time take the same
/// course.
pub proof fn finished_runs_agree<P: CoSimulationParticipant>(
    setting: Setting,
    start: Seq<P>,
    a: Trace<P>,
    b: Trace<P>,
)
    requires
        repeatable::<P>(setting.control),
        setting.takes_course(start, a),
        setting.takes_course(start, b),
        a.times.last() == setting.config.stop,
        b.times.last() == setting.config.stop,
    ensures
        a == b,
{
    let n = if a.len() < b.len() {
        a.len() as int
    } else {
        b.len() as int
    };
    assert forall|i: int| 0 <= i < n implies #[trigger] a.times[i] == b.times[i] by {
        runs_are_deterministic(setting, start, a, b, i);
    }
    assert forall|i: int| 0 <= i < n implies #[trigger] a.states[i] == b.states[i] by {
        runs_are_deterministic(setting, start, a, b, i);
    }
    assert forall|i: int| 0 <= i < n implies #[trigger] a.tracks[i] == b.tracks[i] by {
        runs_are_deterministic(setting, start, a, b, i);
    }
    assert forall|i: int| 0 <= i < n implies #[trigger] a.cycles[i] == b.cycles[i] by {
        runs_are_deterministic(setting, start, a, b, i);
    }
    if a.len() < b.len() {
        assert(setting.leads(b, n));
        assert(b.times[n - 1] == a.times[n - 1]);
    }
    if b.len() < a.len() {
        assert(setting.leads(a, n));
        assert(a.times[n - 1] == b.times[n - 1]);
    }
    assert(a.times =~= b.times);
    assert(a.states =~= b.states);
    assert(a.tracks =~= b.tracks);
    assert(a.cycles =~= b.cycles);
}

} // verus!
