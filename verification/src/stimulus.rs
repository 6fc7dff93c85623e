//! Digital sources of a netlist and the file that drives them.
use crate::digital::MAX_DIGITAL_EVENTS;
use crate::draft::{drafts, figure, letters, push_text, stack, stack_of, Draft, Sign};
use crate::fault::{agrees, fail, fault, EngineError, Fault};
use crate::kernel::{
    add_time, clock_flip, clock_ran, enqueued, later, scheduled, share_of, take_share, Kern,
    ScheduledEvent,
};
use crate::lines::{join_of, join_texts};
use crate::number::Real;
use crate::reading::ONE_BITS;
use crate::text::{cat2, cat4, decimal, decimal_text, texts};
use crate::waveform::LogicValue;
use vstd::prelude::*;

verus! {

/// A digital source: its node, and its levels from the start on.
#[derive(Clone, Debug, PartialEq, Eq)]
pub struct SourceSpec {
    pub node: String,
    pub events: Vec<(Real, LogicValue)>,
}

/// What a `SourceSpec` says.
pub struct Feed {
    pub node: Seq<char>,
    pub events: Seq<(Real, LogicValue)>,
}

impl View for SourceSpec {
    type V = Feed;

    open spec fn view(&self) -> Feed {
        Feed { node: self.node@, events: self.events@ }
    }
}

pub open spec fn feeds(v: Seq<SourceSpec>) -> Seq<Feed> {
    v.map_values(|s: SourceSpec| s@)
}

/// Every source has a first level.
pub open spec fn started_feeds(sources: Seq<Feed>) -> bool {
    forall|i: int| 0 <= i < sources.len() ==> (#[trigger] sources[i]).events.len() > 0
}

pub open spec fn clock_limit() -> Fault {
    fault(
        "execution_resource_limit"@,
        "generated XSPICE clock exceeds event limit "@ + decimal(MAX_DIGITAL_EVENTS as nat),
    )
}

/// The edges of a clock behind those that it has, up to the stop time.
pub open spec fn edges_from(
    events: Seq<(Real, LogicValue)>,
    stop: Real,
    high: Real,
    low: Real,
    time: Real,
    value: LogicValue,
) -> Result<Seq<(Real, LogicValue)>, Fault>
    decreases MAX_DIGITAL_EVENTS + 1 - events.len(),
{
    if !time.less(stop) {
        Ok(events)
    } else {
        let next = later(
            time,
            if value == LogicValue::One {
                high
            } else {
                low
            },
        );
        if stop.less(next) {
            Ok(events)
        } else if events.len() + 1 > MAX_DIGITAL_EVENTS {
            Err(clock_limit())
        } else {
            edges_from(
                events.push((next, clock_flip(value))),
                stop,
                high,
                low,
                next,
                clock_flip(value),
            )
        }
    }
}

/// The levels of a clock.
pub open spec fn clock_levels(stop: Real, period: Real, duty: Real, initial: LogicValue) -> Result<
    Seq<(Real, LogicValue)>,
    Fault,
> {
    let start = Real { bits: 0 };
    if !initial.known() {
        Err(
            fault(
                "xspice_invalid_clock"@,
                "XSPICE digital clock initial value must be zero or one"@,
            ),
        )
    } else {
        edges_from(
            seq![(start, initial)],
            stop,
            share_of(period, duty),
            share_of(period, (Real { bits: ONE_BITS }).difference(duty)),
            start,
            initial,
        )
    }
}

pub fn clock_events(stop: Real, period: Real, duty_cycle: Real, initial: LogicValue) -> (r: Result<
    Vec<(Real, LogicValue)>,
    EngineError,
>)
    requires
        duty_cycle.finite(),
    ensures
        match (r, clock_levels(stop, period, duty_cycle, initial)) {
            (Ok(v), Ok(s)) => v@ == s && s.len() > 0,
            (Err(e), Err(f)) => e@ == f,
            _ => false,
        },
{
    if !initial.is_known() {
        return Err(
            EngineError::new(
                "xspice_invalid_clock",
                "XSPICE digital clock initial value must be zero or one",
            ),
        );
    }
    let high = take_share(period, duty_cycle);
    let low = take_share(period, Real { bits: ONE_BITS }.minus(duty_cycle));
    let start = Real { bits: 0 };
    let mut events: Vec<(Real, LogicValue)> = Vec::new();
    events.push((start, initial));
    assert(events@ =~= seq![(start, initial)]);
    let ghost model = clock_levels(stop, period, duty_cycle, initial);
    let mut time = start;
    let mut value = initial;
    while time.lt(stop)
        invariant
            0 < events@.len() <= MAX_DIGITAL_EVENTS,
            model == clock_levels(stop, period, duty_cycle, initial),
            model == edges_from(events@, stop, high, low, time, value),
        decreases MAX_DIGITAL_EVENTS + 1 - events@.len(),
    {
        let next = add_time(
            time,
            if value == LogicValue::One {
                high
            } else {
                low
            },
        );
        if stop.lt(next) {
            return Ok(events);
        }
        let level = if value == LogicValue::One {
            LogicValue::Zero
        } else {
            LogicValue::One
        };
        events.push((next, level));
        if events.len() > MAX_DIGITAL_EVENTS {
            return Err(
                fail(
                    "execution_resource_limit",
                    cat2(
                        "generated XSPICE clock exceeds event limit ",
                        decimal_text(MAX_DIGITAL_EVENTS as u64).as_str(),
                    ),
                ),
            );
        }
        time = next;
        value = level;
    }
    Ok(events)
}

/// How a level is written in the stimulus.
pub open spec fn state_word(value: LogicValue) -> Seq<char> {
    match value {
        LogicValue::Zero => "0s"@,
        LogicValue::One => "1s"@,
        LogicValue::X => "Us"@,
        LogicValue::Z => "Uz"@,
    }
}

pub fn xspice_state(value: LogicValue) -> (r: &'static str)
    ensures
        r@ == state_word(value),
{
    match value {
        LogicValue::Zero => "0s",
        LogicValue::One => "1s",
        LogicValue::X => "Us",
        LogicValue::Z => "Uz",
    }
}

/// Times in ascending order, with one more time in its place.
pub open spec fn with_time(times: Seq<Real>, time: Real) -> Seq<Real>
    decreases times.len(),
{
    if times.len() == 0 {
        seq![time]
    } else if times.last() == time {
        times
    } else if times.last().total_key() < time.total_key() {
        times.push(time)
    } else {
        with_time(times.drop_last(), time).push(times.last())
    }
}

/// Times with those of the first `n` events of a source.
pub open spec fn with_events(times: Seq<Real>, events: Seq<(Real, LogicValue)>, n: int) -> Seq<Real>
    decreases n,
{
    if n <= 0 {
        times
    } else {
        with_time(with_events(times, events, n - 1), events[n - 1].0)
    }
}

/// The times of the events of the first `n` sources in ascending order, each
/// once.
pub open spec fn event_times(sources: Seq<Feed>, n: int) -> Seq<Real>
    decreases n,
{
    if n <= 0 {
        Seq::empty()
    } else {
        with_events(
            event_times(sources, n - 1),
            sources[n - 1].events,
            sources[n - 1].events.len() as int,
        )
    }
}

fn insert_time(times: &mut Vec<Real>, time: Real)
    ensures
        final(times)@ == with_time(old(times)@, time),
{
    let ghost all = times@;
    let mut p: usize = times.len();
    assert(all.take(p as int) =~= all);
    assert(all.skip(p as int) =~= Seq::<Real>::empty());
    assert(with_time(all, time) + Seq::<Real>::empty() =~= with_time(all, time));
    while p > 0 && !times[p - 1].before(time)
        invariant
            p <= times@.len(),
            all == times@,
            times@ == old(times)@,
            with_time(all, time) == with_time(all.take(p as int), time) + all.skip(p as int),
        decreases p,
    {
        let ghost front = all.take(p as int);
        assert(front.last() == times@[p - 1]);
        assert(front.drop_last() =~= all.take(p - 1));
        if times[p - 1].bits == time.bits {
            assert(front + all.skip(p as int) =~= all);
            return;
        }
        assert(with_time(all.take(p - 1), time).push(front.last()) + all.skip(p as int)
            =~= with_time(all.take(p - 1), time) + all.skip(p - 1));
        p = p - 1;
    }
    let ghost front = all.take(p as int);
    assert(front.len() > 0 ==> front.last() == times@[p - 1]);
    assert(with_time(front, time) =~= front.push(time));
    times.insert(p, time);
    assert(times@ =~= front.push(time) + all.skip(p as int));
}

fn collect_times(sources: &Vec<SourceSpec>) -> (r: Vec<Real>)
    ensures
        r@ == event_times(feeds(sources@), sources@.len() as int),
{
    let ghost all = feeds(sources@);
    let mut times: Vec<Real> = Vec::new();
    let mut i: usize = 0;
    while i < sources.len()
        invariant
            i <= sources@.len(),
            all == feeds(sources@),
            times@ == event_times(all, i as int),
        decreases sources@.len() - i,
    {
        assert(all[i as int] == sources@[i as int]@);
        let events = &sources[i].events;
        let ghost start = times@;
        let mut j: usize = 0;
        while j < events.len()
            invariant
                j <= events@.len(),
                times@ == with_events(start, events@, j as int),
            decreases events@.len() - j,
        {
            insert_time(&mut times, events[j].0);
            j = j + 1;
        }
        i = i + 1;
    }
    times
}

/// The last event of a source from the `i`th on that has come by a time.
pub open spec fn event_reached(events: Seq<(Real, LogicValue)>, i: int, time: Real) -> int
    decreases events.len() - i,
{
    if i + 1 < events.len() && events[i + 1].0.at_most(time) {
        event_reached(events, i + 1, time)
    } else {
        i
    }
}

/// The event of a source that holds after the first `n` times.
pub open spec fn event_held(events: Seq<(Real, LogicValue)>, times: Seq<Real>, n: int) -> int
    decreases n,
{
    if n <= 0 {
        0
    } else {
        event_reached(events, event_held(events, times, n - 1), times[n - 1])
    }
}

/// The levels of all sources after the first `n` times, as they are written.
pub open spec fn state_words(sources: Seq<Feed>, times: Seq<Real>, n: int) -> Seq<Seq<char>> {
    Seq::new(
        sources.len(),
        |s: int| state_word(sources[s].events[event_held(sources[s].events, times, n)].1),
    )
}

/// The line of one time.
pub open spec fn stimulus_row(sources: Seq<Feed>, times: Seq<Real>, n: int) -> Seq<Sign> {
    figure(times[n - 1]) + letters(" "@ + join_of(state_words(sources, times, n), " "@))
}

/// The lines of the first `n` times, behind the heading.
pub open spec fn stimulus_rows(sources: Seq<Feed>, times: Seq<Real>, n: int) -> Seq<Seq<Sign>>
    decreases n,
{
    if n <= 0 {
        seq![letters("* time and XSPICE digital source states"@)]
    } else {
        stimulus_rows(sources, times, n - 1).push(stimulus_row(sources, times, n))
    }
}

/// The stimulus of all sources.
pub open spec fn stimulus_of(sources: Seq<Feed>) -> Result<Seq<Sign>, Fault> {
    let times = event_times(sources, sources.len() as int);
    if sources.len() == 0 {
        Ok(Seq::empty())
    } else if times.len() > MAX_DIGITAL_EVENTS {
        Err(
            fault(
                "execution_resource_limit"@,
                "generated XSPICE stimulus contains "@ + decimal(times.len())
                    + " event rows, exceeding limit "@ + decimal(MAX_DIGITAL_EVENTS as nat),
            ),
        )
    } else {
        Ok(
            stack_of(
                stimulus_rows(sources, times, times.len() as int).push(letters(""@)),
            ),
        )
    }
}

proof fn lemma_event_reached_bounds(events: Seq<(Real, LogicValue)>, i: int, time: Real)
    requires
        0 <= i < events.len(),
    ensures
        i <= event_reached(events, i, time) < events.len(),
    decreases events.len() - i,
{
    if i + 1 < events.len() && events[i + 1].0.at_most(time) {
        lemma_event_reached_bounds(events, i + 1, time);
    }
}

fn advance_source(events: &Vec<(Real, LogicValue)>, from: usize, time: Real) -> (r: usize)
    requires
        from < events@.len(),
    ensures
        r == event_reached(events@, from as int, time),
        r < events@.len(),
{
    let mut i: usize = from;
    while events.len() - i > 1 && events[i + 1].0.le(time)
        invariant
            i < events@.len(),
            event_reached(events@, from as int, time) == event_reached(events@, i as int, time),
        decreases events@.len() - i,
    {
        i = i + 1;
    }
    i
}

fn write_row(sources: &Vec<SourceSpec>, held: &Vec<usize>, time: Real) -> (r: Draft)
    requires
        held@.len() == sources@.len(),
        forall|s: int| 0 <= s < held@.len() ==> held@[s] < (#[trigger] sources@[s]).events@.len(),
    ensures
        r@ == figure(time) + letters(
            " "@ + join_of(
                Seq::new(
                    sources@.len(),
                    |s: int| state_word(sources@[s].events@[held@[s] as int].1),
                ),
                " "@,
            ),
        ),
{
    let ghost words = Seq::new(
        sources@.len(),
        |s: int| state_word(sources@[s].events@[held@[s] as int].1),
    );
    let mut list: Vec<String> = Vec::new();
    let mut s: usize = 0;
    while s < sources.len()
        invariant
            s <= sources@.len(),
            held@.len() == sources@.len(),
            forall|s: int|
                0 <= s < held@.len() ==> held@[s] < (#[trigger] sources@[s]).events@.len(),
            words == Seq::new(
                sources@.len(),
                |s: int| state_word(sources@[s].events@[held@[s] as int].1),
            ),
            texts(list@) =~= words.take(s as int),
        decreases sources@.len() - s,
    {
        let ghost before = texts(list@);
        let at: usize = held[s];
        assert(sources@[s as int].events@.len() > at);
        list.push(xspice_state(sources[s].events[at].1).to_owned());
        assert(texts(list@) =~= before.push(words[s as int]));
        assert(words.take(s + 1) =~= words.take(s as int).push(words[s as int]));
        s = s + 1;
    }
    assert(texts(list@) =~= words);
    let mut line = Draft::new();
    line.number(time);
    assert(line@ =~= figure(time));
    line.text(cat2(" ", join_texts(&list, " ").as_str()).as_str());
    line
}

/// The stimulus file of the sources: a line for each time at which one of them
/// has an event, with the levels of all of them.
pub fn compile_stimulus(sources: &Vec<SourceSpec>) -> (r: Result<Draft, EngineError>)
    requires
        started_feeds(feeds(sources@)),
    ensures
        agrees(r, stimulus_of(feeds(sources@))),
{
    let ghost all = feeds(sources@);
    if sources.len() == 0 {
        return Ok(Draft::new());
    }
    let times = collect_times(sources);
    if times.len() > MAX_DIGITAL_EVENTS {
        return Err(
            fail(
                "execution_resource_limit",
                cat4(
                    "generated XSPICE stimulus contains ",
                    decimal_text(times.len() as u64).as_str(),
                    " event rows, exceeding limit ",
                    decimal_text(MAX_DIGITAL_EVENTS as u64).as_str(),
                ),
            ),
        );
    }
    let mut held: Vec<usize> = Vec::new();
    let mut k: usize = 0;
    while k < sources.len()
        invariant
            k <= sources@.len(),
            held@.len() == k,
            forall|s: int| 0 <= s < k ==> #[trigger] held@[s] == 0,
        decreases sources@.len() - k,
    {
        held.push(0);
        k = k + 1;
    }
    assert forall|s: int| 0 <= s < held@.len() implies held@[s] == event_held(
        (#[trigger] sources@[s]).events@,
        times@,
        0,
    ) && held@[s] < sources@[s].events@.len() by {
        assert(all[s].events.len() > 0);
    }
    let mut lines: Vec<Draft> = Vec::new();
    push_text(&mut lines, "* time and XSPICE digital source states");
    assert(drafts(lines@) =~= stimulus_rows(all, times@, 0));
    let mut i: usize = 0;
    while i < times.len()
        invariant
            i <= times@.len(),
            all == feeds(sources@),
            held@.len() == sources@.len(),
            forall|s: int|
                0 <= s < held@.len() ==> held@[s] == event_held(
                    (#[trigger] sources@[s]).events@,
                    times@,
                    i as int,
                ) && held@[s] < sources@[s].events@.len(),
            drafts(lines@) == stimulus_rows(all, times@, i as int),
        decreases times@.len() - i,
    {
        let time = times[i];
        let ghost old_held = held@;
        let mut s: usize = 0;
        while s < sources.len()
            invariant
                s <= sources@.len(),
                i < times@.len(),
                time == times@[i as int],
                held@.len() == sources@.len(),
                forall|q: int|
                    0 <= q < s ==> held@[q] == event_held(
                        (#[trigger] sources@[q]).events@,
                        times@,
                        i + 1,
                    ) && held@[q] < sources@[q].events@.len(),
                forall|q: int|
                    s <= q < held@.len() ==> held@[q] == event_held(
                        (#[trigger] sources@[q]).events@,
                        times@,
                        i as int,
                    ) && held@[q] < sources@[q].events@.len(),
            decreases sources@.len() - s,
        {
            let from: usize = held[s];
            assert(sources@[s as int].events@.len() > from);
            let to: usize = advance_source(&sources[s].events, from, time);
            held.set(s, to);
            s = s + 1;
        }
        let row = write_row(sources, &held, time);
        let ghost words = Seq::new(
            sources@.len(),
            |s: int| state_word(sources@[s].events@[held@[s] as int].1),
        );
        assert(words =~= state_words(all, times@, i + 1)) by {
            assert forall|s: int| 0 <= s < sources@.len() implies words[s] == state_words(
                all,
                times@,
                i + 1,
            )[s] by {
                assert(all[s].events == sources@[s].events@);
            }
        }
        let ghost before = drafts(lines@);
        lines.push(row);
        assert(drafts(lines@) =~= before.push(row@));
        i = i + 1;
    }
    push_text(&mut lines, "");
    Ok(stack(&lines))
}

/// Times in strictly ascending order.
pub open spec fn ascending(times: Seq<Real>) -> bool {
    forall|i: int, j: int|
        0 <= i < j < times.len() ==> (#[trigger] times[i]).total_key() < (
        #[trigger] times[j]).total_key()
}

proof fn lemma_with_time(times: Seq<Real>, time: Real)
    requires
        ascending(times),
    ensures
        ascending(with_time(times, time)),
        forall|t: Real| #[trigger] with_time(times, time).contains(t) <==> times.contains(t) || t == time,
    decreases times.len(),
{
    let r = with_time(times, time);
    if times.len() == 0 {
        assert(r[0] == time);
    } else if times.last() == time {
        assert(times[times.len() - 1] == time);
    } else if times.last().total_key() < time.total_key() {
        assert(r[times.len() as int] == time);
        assert forall|t: Real| #[trigger] r.contains(t) <==> times.contains(t) || t == time by {
            if times.contains(t) {
                let i = choose|i: int| 0 <= i < times.len() && times[i] == t;
                assert(r[i] == t);
            }
            if r.contains(t) && t != time {
                let i = choose|i: int| 0 <= i < r.len() && r[i] == t;
                assert(times[i] == t);
            }
        }
    } else {
        let rest = times.drop_last();
        lemma_with_time(rest, time);
        let inner = with_time(rest, time);
        if times.last().total_key() == time.total_key() {
            crate::number::total_order_separates(times.last(), time);
        }
        assert forall|i: int| 0 <= i < inner.len() implies (#[trigger] inner[i]).total_key()
            < times.last().total_key() by {
            assert(inner.contains(inner[i]));
            if inner[i] != time {
                let k = choose|k: int| 0 <= k < rest.len() && rest[k] == inner[i];
                assert(times[k] == inner[i]);
                assert(times[times.len() - 1] == times.last());
            }
        }
        assert forall|t: Real| #[trigger] r.contains(t) <==> times.contains(t) || t == time by {
            if times.contains(t) {
                let i = choose|i: int| 0 <= i < times.len() && times[i] == t;
                if i < rest.len() {
                    assert(rest[i] == t);
                    assert(inner.contains(t));
                    let k = choose|k: int| 0 <= k < inner.len() && inner[k] == t;
                    assert(r[k] == t);
                } else {
                    assert(r[inner.len() as int] == t);
                }
            }
            if t == time {
                assert(inner.contains(t));
                let k = choose|k: int| 0 <= k < inner.len() && inner[k] == t;
                assert(r[k] == t);
            }
            if r.contains(t) && t != time {
                let i = choose|i: int| 0 <= i < r.len() && r[i] == t;
                if i < inner.len() {
                    assert(inner.contains(t));
                    let k = choose|k: int| 0 <= k < rest.len() && rest[k] == t;
                    assert(times[k] == t);
                } else {
                    assert(times[times.len() - 1] == t);
                }
            }
        }
    }
}

proof fn lemma_with_events(times: Seq<Real>, events: Seq<(Real, LogicValue)>, n: int)
    requires
        ascending(times),
        0 <= n <= events.len(),
    ensures
        ascending(with_events(times, events, n)),
        forall|t: Real| times.contains(t) ==> #[trigger] with_events(times, events, n).contains(t),
        forall|e: int|
            0 <= e < n ==> with_events(times, events, n).contains((#[trigger] events[e]).0),
    decreases n,
{
    if n > 0 {
        lemma_with_events(times, events, n - 1);
        lemma_with_time(with_events(times, events, n - 1), events[n - 1].0);
    }
}

/// The rows of a stimulus are in strictly ascending order, and every event of a
/// source has its row.
pub proof fn stimulus_rows_are_in_order(sources: Seq<Feed>, n: int)
    requires
        0 <= n <= sources.len(),
    ensures
        ascending(event_times(sources, n)),
        forall|s: int, e: int|
            0 <= s < n && 0 <= e < sources[s].events.len() ==> event_times(sources, n).contains(
                (#[trigger] sources[s].events[e]).0,
            ),
    decreases n,
{
    if n > 0 {
        stimulus_rows_are_in_order(sources, n - 1);
        let before = event_times(sources, n - 1);
        let events = sources[n - 1].events;
        lemma_with_events(before, events, events.len() as int);
        assert forall|s: int, e: int|
            0 <= s < n && 0 <= e < sources[s].events.len() implies event_times(
            sources,
            n,
        ).contains((#[trigger] sources[s].events[e]).0) by {
            if s < n - 1 {
                assert(before.contains(sources[s].events[e].0));
            } else {
                assert(events[e] == sources[s].events[e]);
            }
        }
    }
}

/// One edge of a clock: from high to low after the one time, from low to high after
/// the other, not behind the stop time.
pub open spec fn is_edge(
    before: (Real, LogicValue),
    after: (Real, LogicValue),
    stop: Real,
    high: Real,
    low: Real,
) -> bool {
    &&& before.1 == LogicValue::One ==> after == (before.0.sum(high), LogicValue::Zero)
    &&& before.1 == LogicValue::Zero ==> after == (before.0.sum(low), LogicValue::One)
    &&& before.0.less(stop)
    &&& !stop.less(after.0)
}

/// The levels of a clock: it starts at once with the initial level and alternates.
pub open spec fn is_clock(
    events: Seq<(Real, LogicValue)>,
    stop: Real,
    high: Real,
    low: Real,
    initial: LogicValue,
) -> bool {
    &&& events.len() > 0
    &&& events[0] == (Real { bits: 0 }, initial)
    &&& forall|i: int|
        0 < i < events.len() ==> is_edge(events[i - 1], #[trigger] events[i], stop, high, low)
}

proof fn lemma_edges(
    events: Seq<(Real, LogicValue)>,
    stop: Real,
    high: Real,
    low: Real,
    initial: LogicValue,
    time: Real,
    value: LogicValue,
    all: Seq<(Real, LogicValue)>,
)
    requires
        is_clock(events, stop, high, low, initial),
        events.last() == (time, value),
        value.known(),
        stop.finite(),
        high.finite(),
        low.finite(),
        !time.negative(),
        edges_from(events, stop, high, low, time, value) == Ok::<Seq<(Real, LogicValue)>, Fault>(
            all,
        ),
        forall|x: Real| #[trigger] x.sum(high).negative() ==> x.negative(),
        forall|x: Real| #[trigger] x.sum(low).negative() ==> x.negative(),
    ensures
        is_clock(all, stop, high, low, initial),
    decreases MAX_DIGITAL_EVENTS + 1 - events.len(),
{
    if time.less(stop) {
        let step = if value == LogicValue::One {
            high
        } else {
            low
        };
        let next = later(time, step);
        assert(time.finite());
        assert(next == time.sum(step));
        if !stop.less(next) && events.len() + 1 <= MAX_DIGITAL_EVENTS {
            let more = events.push((next, clock_flip(value)));
            assert forall|i: int| 0 < i < more.len() implies is_edge(
                more[i - 1],
                #[trigger] more[i],
                stop,
                high,
                low,
            ) by {
                if i < events.len() {
                    assert(events[i] == more[i]);
                    assert(events[i - 1] == more[i - 1]);
                }
            }
            assert(more[0] == events[0]);
            lemma_edges(more, stop, high, low, initial, next, clock_flip(value), all);
        }
    }
}

/// The last level of a clock lasts until behind the stop time.
proof fn lemma_edges_end(
    events: Seq<(Real, LogicValue)>,
    stop: Real,
    high: Real,
    low: Real,
    time: Real,
    value: LogicValue,
    all: Seq<(Real, LogicValue)>,
)
    requires
        events.len() > 0,
        events.last() == (time, value),
        edges_from(events, stop, high, low, time, value) == Ok::<Seq<(Real, LogicValue)>, Fault>(
            all,
        ),
    ensures
        all.len() > 0,
        !all.last().0.less(stop) || stop.less(
            later(
                all.last().0,
                if all.last().1 == LogicValue::One {
                    high
                } else {
                    low
                },
            ),
        ),
    decreases MAX_DIGITAL_EVENTS + 1 - events.len(),
{
    if time.less(stop) {
        let next = later(
            time,
            if value == LogicValue::One {
                high
            } else {
                low
            },
        );
        if !stop.less(next) && events.len() + 1 <= MAX_DIGITAL_EVENTS {
            lemma_edges_end(
                events.push((next, clock_flip(value))),
                stop,
                high,
                low,
                next,
                clock_flip(value),
                all,
            );
        }
    }
}

/// A sum with a number that is not negative is negative only where the other is.
proof fn lemma_sum_sign(x: Real, step: Real)
    requires
        !step.negative(),
        x.sum(step).negative(),
    ensures
        x.negative(),
{
    assert(step.value() >= 0);
    if !x.negative() {
        assert(x.value() >= 0);
        let exact = x.value() + step.value();
        if exact > 0 {
            assert(crate::number::nearest(exact as nat, 1) <= crate::number::INFINITY);
        }
    }
}

/// A clock starts at once with its initial level and alternates until the stop time;
/// each time it is high for its share of the period and low for the rest of it.
pub proof fn clocks_alternate(
    stop: Real,
    period: Real,
    duty: Real,
    initial: LogicValue,
    events: Seq<(Real, LogicValue)>,
)
    requires
        stop.finite(),
        period.finite(),
        duty.finite(),
        Real::of_nat(1).difference(duty).finite(),
        period.product(duty).finite(),
        period.product(Real::of_nat(1).difference(duty)).finite(),
        !period.product(duty).negative(),
        !period.product(Real::of_nat(1).difference(duty)).negative(),
        clock_levels(stop, period, duty, initial) == Ok::<Seq<(Real, LogicValue)>, Fault>(events),
    ensures
        initial.known(),
        is_clock(
            events,
            stop,
            period.product(duty),
            period.product(Real::of_nat(1).difference(duty)),
            initial,
        ),
        !events.last().0.less(stop) || stop.less(
            later(
                events.last().0,
                if events.last().1 == LogicValue::One {
                    period.product(duty)
                } else {
                    period.product(Real::of_nat(1).difference(duty))
                },
            ),
        ),
{
    crate::scales::fixed_numbers_are_roundings();
    assert(Real { bits: ONE_BITS } == Real::of_nat(1));
    let high = period.product(duty);
    let low = period.product(Real::of_nat(1).difference(duty));
    assert(share_of(period, duty) == high);
    assert(share_of(period, (Real { bits: ONE_BITS }).difference(duty)) == low);
    let zero = Real { bits: 0 };
    let start = seq![(zero, initial)];
    assert forall|x: Real| #[trigger] x.sum(high).negative() implies x.negative() by {
        lemma_sum_sign(x, high);
    }
    assert forall|x: Real| #[trigger] x.sum(low).negative() implies x.negative() by {
        lemma_sum_sign(x, low);
    }
    assert(is_clock(start, stop, high, low, initial));
    lemma_edges(start, stop, high, low, initial, zero, initial, events);
    lemma_edges_end(start, stop, high, low, zero, initial, events);
}

/// The events of a clock, one after the other, in a queue.
pub open spec fn queued(
    queue: Seq<ScheduledEvent>,
    component: usize,
    events: Seq<(Real, LogicValue)>,
    n: int,
) -> Seq<ScheduledEvent>
    decreases n,
{
    if n <= 0 {
        queue
    } else {
        enqueued(
            queued(queue, component, events, n - 1),
            ScheduledEvent {
                time: events[n - 1].0,
                component,
                output: 0,
                value: events[n - 1].1,
            },
        )
    }
}

proof fn lemma_clocks_agree(
    base: Seq<ScheduledEvent>,
    k: Kern,
    component: usize,
    stop: Real,
    high: Real,
    low: Real,
    time: Real,
    value: LogicValue,
    events: Seq<(Real, LogicValue)>,
    after: Kern,
    all: Seq<(Real, LogicValue)>,
)
    requires
        k.queue == queued(base, component, events, events.len() as int),
        clock_ran(k, component, stop, high, low, time, value) == Ok::<Kern, Fault>(after),
        edges_from(events, stop, high, low, time, value) == Ok::<Seq<(Real, LogicValue)>, Fault>(all),
    ensures
        after.queue == queued(base, component, all, all.len() as int),
    decreases MAX_DIGITAL_EVENTS - k.scheduled,
{
    if time.less(stop) {
        let next = later(
            time,
            if value == LogicValue::One {
                high
            } else {
                low
            },
        );
        if !stop.less(next) {
            let level = clock_flip(value);
            let event = ScheduledEvent { time: next, component, output: 0, value: level };
            let k2 = scheduled(k, event)->Ok_0;
            let more = events.push((next, level));
            lemma_queued_prefix(base, component, events, more, events.len() as int);
            assert(queued(base, component, more, more.len() as int) == enqueued(k.queue, event));
            lemma_clocks_agree(
                base,
                k2,
                component,
                stop,
                high,
                low,
                next,
                level,
                more,
                after,
                all,
            );
        }
    }
}

proof fn lemma_queued_prefix(
    base: Seq<ScheduledEvent>,
    component: usize,
    a: Seq<(Real, LogicValue)>,
    b: Seq<(Real, LogicValue)>,
    n: int,
)
    requires
        n <= a.len() <= b.len(),
        forall|i: int| 0 <= i < a.len() ==> #[trigger] a[i] == b[i],
    ensures
        queued(base, component, a, n) == queued(base, component, b, n),
    decreases n,
{
    if n > 0 {
        lemma_queued_prefix(base, component, a, b, n - 1);
        assert(a[n - 1] == b[n - 1]);
    }
}

/// The engine of this library schedules for a clock exactly the levels that the event
/// simulator is given for it.
pub proof fn clocks_agree_with_the_engine(
    k: Kern,
    component: usize,
    stop: Real,
    period: Real,
    duty: Real,
    initial: LogicValue,
    after: Kern,
    events: Seq<(Real, LogicValue)>,
)
    requires
        crate::kernel::clock_scheduled(k, component, stop, period, duty, initial) == Ok::<
            Kern,
            Fault,
        >(after),
        clock_levels(stop, period, duty, initial) == Ok::<Seq<(Real, LogicValue)>, Fault>(events),
    ensures
        after.queue == queued(k.queue, component, events, events.len() as int),
{
    let zero = Real { bits: 0 };
    let first = seq![(zero, initial)];
    let k2 = scheduled(
        k,
        ScheduledEvent { time: zero, component, output: 0, value: initial },
    )->Ok_0;
    assert(queued(k.queue, component, first, 0) == k.queue);
    assert(queued(k.queue, component, first, 1) == k2.queue);
    lemma_clocks_agree(
        k.queue,
        k2,
        component,
        stop,
        share_of(period, duty),
        share_of(period, (Real { bits: ONE_BITS }).difference(duty)),
        zero,
        initial,
        first,
        after,
        events,
    );
}

/// Each level has a word of its own in a stimulus: a digit for a known level, and for
/// the others a letter with the strength.
pub proof fn levels_are_written_apart(a: LogicValue, b: LogicValue)
    ensures
        state_word(LogicValue::Zero) == seq!['0', 's'],
        state_word(LogicValue::One) == seq!['1', 's'],
        state_word(LogicValue::X) == seq!['U', 's'],
        state_word(LogicValue::Z) == seq!['U', 'z'],
        state_word(a) == state_word(b) ==> a == b,
{
    reveal_strlit("0s");
    reveal_strlit("1s");
    reveal_strlit("Us");
    reveal_strlit("Uz");
    assert("0s"@ =~= seq!['0', 's']);
    assert("1s"@ =~= seq!['1', 's']);
    assert("Us"@ =~= seq!['U', 's']);
    assert("Uz"@ =~= seq!['U', 'z']);
    assert("0s"@[0] == '0' && "1s"@[0] == '1' && "Us"@[0] == 'U' && "Uz"@[0] == 'U');
    assert("Us"@[1] == 's' && "Uz"@[1] == 'z');
}

proof fn lemma_reached(events: Seq<(Real, LogicValue)>, i: int, time: Real)
    requires
        0 <= i < events.len(),
    ensures
        ({
            let r = event_reached(events, i, time);
            &&& i <= r < events.len()
            &&& r + 1 < events.len() ==> !events[r + 1].0.at_most(time)
            &&& forall|j: int| i < j <= r ==> (#[trigger] events[j]).0.at_most(time)
        }),
    decreases events.len() - i,
{
    if i + 1 < events.len() && events[i + 1].0.at_most(time) {
        lemma_reached(events, i + 1, time);
    }
}

proof fn lemma_held_inside(events: Seq<(Real, LogicValue)>, times: Seq<Real>, n: int)
    requires
        events.len() > 0,
    ensures
        0 <= event_held(events, times, n) < events.len(),
    decreases n,
{
    if n > 0 {
        lemma_held_inside(events, times, n - 1);
        lemma_reached(events, event_held(events, times, n - 1), times[n - 1]);
    }
}

/// In the row of a time each source shows the level of its last event that has come by
/// then: the next one has not, and any event that was passed in this row has.
pub proof fn rows_show_the_latest_level(sources: Seq<Feed>, times: Seq<Real>, n: int, s: int)
    requires
        started_feeds(sources),
        0 < n <= times.len(),
        0 <= s < sources.len(),
    ensures
        exists|h: int|
            #![trigger sources[s].events[h]]
            {
                let events = sources[s].events;
                &&& 0 <= h < events.len()
                &&& state_words(sources, times, n)[s] == state_word(events[h].1)
                &&& h + 1 < events.len() ==> !events[h + 1].0.at_most(times[n - 1])
                &&& forall|j: int|
                    event_held(events, times, n - 1) < j <= h ==> (#[trigger] events[j]).0.at_most(
                        times[n - 1],
                    )
            },
{
    let events = sources[s].events;
    assert(events.len() > 0);
    lemma_held_inside(events, times, n - 1);
    let before = event_held(events, times, n - 1);
    lemma_reached(events, before, times[n - 1]);
    let h = event_held(events, times, n);
    assert(state_words(sources, times, n)[s] == state_word(sources[s].events[h].1));
}

} // verus!
