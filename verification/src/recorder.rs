//! Recording what the participants of a co-simulation give.
use crate::circuit::{PinDirection, SignalDomain};
use crate::cosim::{
    participant_error, participant_fault, seconds_of, CoSimulationParticipant, CoSimulationPort,
    CoSimulationTime, CoSimulationValue,
};
use crate::fault::{fail, fault, passes, EngineError, Fault};
use crate::number::Real;
use crate::scheduler::port_lists;
use crate::text::{cat3, cat5, cat7, concat_upto, text_before, text_lt, texts};
use crate::units::Unit;
use crate::waveform::{
    AnalogAxis, AnalogWaveform, AxisKind, DigitalTransition, DigitalWaveform, SignalId, Waveform,
};
use vstd::prelude::*;

verus! {

#[derive(Debug, PartialEq, Eq)]
pub enum RecordedSignal {
    Digital { transitions: Vec<DigitalTransition> },
    Analog { unit: Unit, times: Vec<Real>, values: Vec<Real> },
}

pub enum Recording {
    Digital(Seq<DigitalTransition>),
    Analog { unit: Unit, times: Seq<Real>, values: Seq<Real> },
}

impl View for RecordedSignal {
    type V = Recording;

    open spec fn view(&self) -> Recording {
        match self {
            RecordedSignal::Digital { transitions } => Recording::Digital(transitions@),
            RecordedSignal::Analog { unit, times, values } => Recording::Analog {
                unit: *unit,
                times: times@,
                values: values@,
            },
        }
    }
}

/// What one port has given so far.
#[derive(Debug, PartialEq, Eq)]
pub struct RecordedPort {
    pub member: usize,
    pub port: String,
    pub recorded: RecordedSignal,
}

pub struct Track {
    pub member: int,
    pub port: Seq<char>,
    pub recording: Recording,
}

impl View for RecordedPort {
    type V = Track;

    open spec fn view(&self) -> Track {
        Track { member: self.member as int, port: self.port@, recording: self.recorded@ }
    }
}

#[derive(Debug, PartialEq, Eq)]
pub struct WaveformRecorder {
    pub signals: Vec<RecordedPort>,
}

impl View for WaveformRecorder {
    type V = Seq<Track>;

    open spec fn view(&self) -> Seq<Track> {
        self.signals@.map_values(|r: RecordedPort| r@)
    }
}

/// What keeps a port from being recorded.
pub open spec fn unrecordable(id: Seq<char>, port: CoSimulationPort) -> Option<Fault> {
    if !port.gives() {
        None
    } else if port.domain == SignalDomain::Analog && port.unit is None {
        Some(
            fault(
                "cosim_port_invalid"@,
                "analog output `"@ + id + "."@ + port.name@ + "` is missing a unit"@,
            ),
        )
    } else if port.domain != SignalDomain::Analog && port.domain != SignalDomain::Digital {
        Some(
            fault(
                "cosim_port_invalid"@,
                "output `"@ + id + "."@ + port.name@ + "` must be explicitly analog or digital"@,
            ),
        )
    } else {
        None
    }
}

/// The first of the first `n` ports that cannot be recorded.
pub open spec fn member_unrecordable(id: Seq<char>, ports: Seq<CoSimulationPort>, n: int) -> Option<
    Fault,
>
    decreases n,
{
    if n <= 0 {
        None
    } else {
        match member_unrecordable(id, ports, n - 1) {
            Some(f) => Some(f),
            None => unrecordable(id, ports[n - 1]),
        }
    }
}

/// The first port of the first `n` participants that cannot be recorded.
pub open spec fn graph_unrecordable(
    keys: Seq<Seq<char>>,
    ports: Seq<Seq<CoSimulationPort>>,
    n: int,
) -> Option<Fault>
    decreases n,
{
    if n <= 0 {
        None
    } else {
        match graph_unrecordable(keys, ports, n - 1) {
            Some(f) => Some(f),
            None => member_unrecordable(keys[n - 1], ports[n - 1], ports[n - 1].len() as int),
        }
    }
}

/// A new track for a port.
pub open spec fn track_for(member: int, port: CoSimulationPort) -> Track {
    Track {
        member,
        port: port.name@,
        recording: match port.unit {
            Some(unit) if port.domain == SignalDomain::Analog => Recording::Analog {
                unit,
                times: Seq::empty(),
                values: Seq::empty(),
            },
            _ => Recording::Digital(Seq::empty()),
        },
    }
}

/// Tracks in dictionary order of their ports, with one more in its place.
pub open spec fn with_track(tracks: Seq<Track>, track: Track) -> Seq<Track>
    decreases tracks.len(),
{
    if tracks.len() == 0 || !text_before(track.port, tracks.last().port) {
        tracks.push(track)
    } else {
        with_track(tracks.drop_last(), track).push(tracks.last())
    }
}

/// The tracks of the first `n` ports of a participant that give something, in
/// dictionary order.
pub open spec fn member_tracks(member: int, ports: Seq<CoSimulationPort>, n: int) -> Seq<Track>
    decreases n,
{
    if n <= 0 {
        Seq::empty()
    } else if ports[n - 1].gives() {
        with_track(member_tracks(member, ports, n - 1), track_for(member, ports[n - 1]))
    } else {
        member_tracks(member, ports, n - 1)
    }
}

/// The tracks of all participants.
pub open spec fn all_tracks(ports: Seq<Seq<CoSimulationPort>>) -> Seq<Track> {
    concat_upto(
        ports.len() as int,
        |i: int| member_tracks(i, ports[i], ports[i].len() as int),
    )
}

/// A recording with one more value: a level is kept where it differs from the
/// last one, and of two numbers at one time the later stays.
pub open spec fn extended(
    recording: Recording,
    value: CoSimulationValue,
    time: CoSimulationTime,
    id: Seq<char>,
    port: Seq<char>,
) -> Result<Recording, Fault> {
    let seconds = seconds_of(time.0);
    match (recording, value) {
        (Recording::Digital(transitions), CoSimulationValue::Digital(level)) => if transitions.len()
            > 0 && transitions.last().value == level {
            Ok(recording)
        } else {
            Ok(
                Recording::Digital(
                    transitions.push(DigitalTransition { time: seconds, value: level }),
                ),
            )
        },
        (Recording::Analog { unit, times, values }, CoSimulationValue::Analog(number)) => if times.len()
            > 0 && times.last().bits == seconds.bits {
            if values.len() > 0 {
                Ok(
                    Recording::Analog {
                        unit,
                        times,
                        values: values.update(values.len() - 1, number),
                    },
                )
            } else {
                Ok(recording)
            }
        } else {
            Ok(
                Recording::Analog {
                    unit,
                    times: times.push(seconds),
                    values: values.push(number),
                },
            )
        },
        _ => Err(
            fault(
                "cosim_value_domain_mismatch"@,
                "participant `"@ + id + "."@ + port + "` returned "@
                    + value.spec_domain().spec_name() + " while recording a different port domain"@,
            ),
        ),
    }
}

/// A track with what its port gives now.
pub open spec fn track_stepped<P: CoSimulationParticipant>(
    track: Track,
    keys: Seq<Seq<char>>,
    members: Seq<P>,
    time: CoSimulationTime,
) -> Result<Track, Fault> {
    let id = keys[track.member];
    match members[track.member].output(track.port) {
        Err(f) => Err(participant_fault(id, "record output"@, f)),
        Ok(value) => match value.failure() {
            Some(f) => Err(f),
            None => match extended(track.recording, value, time, id, track.port) {
                Err(f) => Err(f),
                Ok(recording) => Ok(Track { recording, ..track }),
            },
        },
    }
}

/// The tracks with what their ports give now, the first `n` of them.
pub open spec fn tracks_stepped<P: CoSimulationParticipant>(
    tracks: Seq<Track>,
    keys: Seq<Seq<char>>,
    members: Seq<P>,
    time: CoSimulationTime,
    n: int,
) -> Result<Seq<Track>, Fault>
    decreases n,
{
    if n <= 0 {
        Ok(tracks)
    } else {
        match tracks_stepped(tracks, keys, members, time, n - 1) {
            Err(f) => Err(f),
            Ok(done) => match track_stepped(tracks[n - 1], keys, members, time) {
                Err(f) => Err(f),
                Ok(track) => Ok(done.update(n - 1, track)),
            },
        }
    }
}

proof fn lemma_tracks_stepped_stops<P: CoSimulationParticipant>(
    tracks: Seq<Track>,
    keys: Seq<Seq<char>>,
    members: Seq<P>,
    time: CoSimulationTime,
    n: int,
    m: int,
)
    requires
        0 <= m <= n,
        tracks_stepped(tracks, keys, members, time, m) is Err,
    ensures
        tracks_stepped(tracks, keys, members, time, n) == tracks_stepped(
            tracks,
            keys,
            members,
            time,
            m,
        ),
    decreases n - m,
{
    if m < n {
        lemma_tracks_stepped_stops(tracks, keys, members, time, n, m + 1);
    }
}

/// Recording steps every track by itself.
pub proof fn tracks_are_stepped_alone<P: CoSimulationParticipant>(
    tracks: Seq<Track>,
    keys: Seq<Seq<char>>,
    members: Seq<P>,
    time: CoSimulationTime,
    n: int,
)
    requires
        0 <= n <= tracks.len(),
    ensures
        tracks_stepped(tracks, keys, members, time, n) matches Ok(done) ==> {
            &&& done.len() == tracks.len()
            &&& forall|m: int|
                0 <= m < n ==> track_stepped(tracks[m], keys, members, time) == Ok::<Track, Fault>(
                    #[trigger] done[m],
                )
            &&& forall|m: int| n <= m < tracks.len() ==> #[trigger] done[m] == tracks[m]
        },
    decreases n,
{
    if n > 0 {
        tracks_are_stepped_alone(tracks, keys, members, time, n - 1);
    }
}

/// Nothing has been recorded on a track.
pub open spec fn unused(track: Track) -> bool {
    match track.recording {
        Recording::Digital(transitions) => transitions.len() == 0,
        Recording::Analog { unit, times, values } => times.len() == 0 && values.len() == 0,
    }
}

proof fn lemma_with_track_unused(tracks: Seq<Track>, track: Track)
    requires
        forall|i: int| 0 <= i < tracks.len() ==> unused(#[trigger] tracks[i]),
        unused(track),
    ensures
        forall|i: int|
            0 <= i < with_track(tracks, track).len() ==> unused(
                #[trigger] with_track(tracks, track)[i],
            ),
    decreases tracks.len(),
{
    if tracks.len() > 0 && text_before(track.port, tracks.last().port) {
        let rest = tracks.drop_last();
        assert forall|i: int| 0 <= i < rest.len() implies unused(#[trigger] rest[i]) by {
            assert(tracks[i] == rest[i]);
        }
        lemma_with_track_unused(rest, track);
        let inner = with_track(rest, track);
        let all = with_track(tracks, track);
        assert(unused(tracks[tracks.len() - 1]));
        assert forall|i: int| 0 <= i < all.len() implies unused(#[trigger] all[i]) by {
            if i < inner.len() {
                assert(all[i] == inner[i]);
            }
        }
    }
}

proof fn lemma_member_tracks_unused(member: int, ports: Seq<CoSimulationPort>, n: int)
    ensures
        forall|i: int|
            0 <= i < member_tracks(member, ports, n).len() ==> unused(
                #[trigger] member_tracks(member, ports, n)[i],
            ),
    decreases n,
{
    if n > 0 {
        lemma_member_tracks_unused(member, ports, n - 1);
        let first = member_tracks(member, ports, n - 1);
        let track = track_for(member, ports[n - 1]);
        assert(unused(track));
        if ports[n - 1].gives() {
            lemma_with_track_unused(first, track);
            assert(member_tracks(member, ports, n) == with_track(first, track));
        } else {
            assert(member_tracks(member, ports, n) == first);
        }
    }
}

proof fn lemma_all_tracks_unused(ports: Seq<Seq<CoSimulationPort>>, n: int)
    ensures
        ({
            let tracks = concat_upto(
                n,
                |i: int| member_tracks(i, ports[i], ports[i].len() as int),
            );
            forall|i: int| 0 <= i < tracks.len() ==> unused(#[trigger] tracks[i])
        }),
    decreases n,
{
    if n > 0 {
        lemma_all_tracks_unused(ports, n - 1);
        lemma_member_tracks_unused(n - 1, ports[n - 1], ports[n - 1].len() as int);
        let f = |i: int| member_tracks(i, ports[i], ports[i].len() as int);
        let first = concat_upto(n - 1, f);
        let all = concat_upto(n, f);
        assert forall|i: int| 0 <= i < all.len() implies unused(#[trigger] all[i]) by {
            if i < first.len() {
                assert(all[i] == first[i]);
            } else {
                assert(all[i] == f(n - 1)[i - first.len()]);
            }
        }
    }
}

/// New tracks have nothing on them.
pub proof fn new_tracks_are_unused(ports: Seq<Seq<CoSimulationPort>>, i: int)
    requires
        0 <= i < all_tracks(ports).len(),
    ensures
        unused(all_tracks(ports)[i]),
{
    lemma_all_tracks_unused(ports, ports.len() as int);
}

/// A waveform shows a track under the name of its participant and port.
pub open spec fn wave_shows(waveform: Waveform, track: Track, keys: Seq<Seq<char>>) -> bool {
    let signal = keys[track.member] + "."@ + track.port;
    match (waveform, track.recording) {
        (Waveform::Digital(w), Recording::Digital(transitions)) => w.signal@ == signal
            && w.transitions@ == transitions,
        (Waveform::Analog(w), Recording::Analog { unit, times, values }) => {
            &&& w.signal@ == signal
            &&& w.unit == unit
            &&& w.axis.kind == AxisKind::Time
            &&& w.axis.unit == Unit::Second
            &&& w.axis.values@ == times
            &&& w.values@ == values
            &&& w.imaginary is None
        },
        _ => false,
    }
}

/// A recording never holds a level twice in a row.
pub open spec fn alternates(transitions: Seq<DigitalTransition>) -> bool {
    forall|i: int|
        0 < i < transitions.len() ==> (#[trigger] transitions[i]).value != transitions[i - 1].value
}

/// Recording keeps levels alternating, and numbers paired with their times.
pub proof fn recording_stays_normal(
    recording: Recording,
    value: CoSimulationValue,
    time: CoSimulationTime,
    id: Seq<char>,
    port: Seq<char>,
)
    requires
        recording matches Recording::Digital(transitions) ==> alternates(transitions),
        recording matches Recording::Analog { unit, times, values } ==> times.len() == values.len(),
    ensures
        extended(recording, value, time, id, port) matches Ok(Recording::Digital(transitions))
            ==> alternates(transitions),
        extended(recording, value, time, id, port) matches Ok(
            Recording::Analog { unit, times, values },
        ) ==> times.len() == values.len(),
{
}

fn insert_track(signals: &mut Vec<RecordedPort>, start: usize, signal: RecordedPort)
    requires
        start <= old(signals)@.len(),
    ensures
        final(signals)@.len() == old(signals)@.len() + 1,
        final(signals)@.take(start as int) == old(signals)@.take(start as int),
        views(final(signals)@.skip(start as int)) == with_track(
            views(old(signals)@.skip(start as int)),
            signal@,
        ),
    decreases old(signals)@.len(),
{
    let ghost before = signals@;
    let ghost all = views(signals@.skip(start as int));
    let n: usize = signals.len();
    if n == start || !text_lt(signal.port.as_str(), signals[n - 1].port.as_str()) {
        proof {
            if n > start {
                assert(all.last() == signals@[n - 1]@);
            }
        }
        signals.push(signal);
        proof {
            assert(signals@.take(start as int) =~= before.take(start as int));
            assert(views(signals@.skip(start as int)) =~= all.push(signal@));
        }
        return;
    }
    assert(all.last() == signals@[n - 1]@);
    let last = signals.pop().unwrap();
    let ghost shorter = signals@;
    assert(views(shorter.skip(start as int)) =~= all.drop_last());
    assert(shorter.take(start as int) =~= before.take(start as int));
    insert_track(signals, start, signal);
    let ghost inner = signals@;
    signals.push(last);
    proof {
        assert(signals@.take(start as int) =~= inner.take(start as int));
        assert(views(signals@.skip(start as int)) =~= views(inner.skip(start as int)).push(
            all.last(),
        ));
    }
}

pub open spec fn views(v: Seq<RecordedPort>) -> Seq<Track> {
    v.map_values(|r: RecordedPort| r@)
}

fn new_track(member: usize, port: &CoSimulationPort) -> (r: RecordedPort)
    ensures
        r@ == track_for(member as int, *port),
{
    let analog: bool = port.domain == SignalDomain::Analog;
    let recorded = match port.unit {
        Some(unit) => {
            if analog {
                RecordedSignal::Analog { unit, times: Vec::new(), values: Vec::new() }
            } else {
                RecordedSignal::Digital { transitions: Vec::new() }
            }
        },
        None => RecordedSignal::Digital { transitions: Vec::new() },
    };
    RecordedPort { member, port: port.name.clone(), recorded }
}

fn check_recordable(id: &str, port: &CoSimulationPort) -> (r: Result<(), EngineError>)
    ensures
        passes(r, unrecordable(id@, *port)),
{
    let gives: bool = port.direction == PinDirection::Output || port.direction
        == PinDirection::Bidirectional;
    if !gives {
        return Ok(());
    }
    match port.domain {
        SignalDomain::Digital => Ok(()),
        SignalDomain::Analog => {
            if port.unit.is_none() {
                Err(
                    fail(
                        "cosim_port_invalid",
                        cat5(
                            "analog output `",
                            id,
                            ".",
                            port.name.as_str(),
                            "` is missing a unit",
                        ),
                    ),
                )
            } else {
                Ok(())
            }
        },
        SignalDomain::Mixed | SignalDomain::Reference => Err(
            fail(
                "cosim_port_invalid",
                cat5(
                    "output `",
                    id,
                    ".",
                    port.name.as_str(),
                    "` must be explicitly analog or digital",
                ),
            ),
        ),
    }
}

proof fn lemma_member_unrecordable_stops(
    id: Seq<char>,
    ports: Seq<CoSimulationPort>,
    n: int,
    m: int,
)
    requires
        0 <= m <= n,
        member_unrecordable(id, ports, m) is Some,
    ensures
        member_unrecordable(id, ports, n) == member_unrecordable(id, ports, m),
    decreases n - m,
{
    if m < n {
        lemma_member_unrecordable_stops(id, ports, n, m + 1);
    }
}

proof fn lemma_graph_unrecordable_stops(
    keys: Seq<Seq<char>>,
    ports: Seq<Seq<CoSimulationPort>>,
    n: int,
    m: int,
)
    requires
        0 <= m <= n,
        graph_unrecordable(keys, ports, m) is Some,
    ensures
        graph_unrecordable(keys, ports, n) == graph_unrecordable(keys, ports, m),
    decreases n - m,
{
    if m < n {
        lemma_graph_unrecordable_stops(keys, ports, n, m + 1);
    }
}

proof fn lemma_with_track_members(tracks: Seq<Track>, track: Track, bound: int)
    requires
        forall|i: int| 0 <= i < tracks.len() ==> 0 <= (#[trigger] tracks[i]).member < bound,
        0 <= track.member < bound,
    ensures
        forall|i: int|
            0 <= i < with_track(tracks, track).len() ==> 0 <= (#[trigger] with_track(
                tracks,
                track,
            )[i]).member < bound,
    decreases tracks.len(),
{
    if tracks.len() > 0 && text_before(track.port, tracks.last().port) {
        let rest = tracks.drop_last();
        assert forall|i: int| 0 <= i < rest.len() implies 0 <= (#[trigger] rest[i]).member
            < bound by {
            assert(tracks[i] == rest[i]);
        }
        lemma_with_track_members(rest, track, bound);
        assert(0 <= tracks[tracks.len() - 1].member < bound);
    }
}

impl WaveformRecorder {
    /// Every track belongs to one of so many participants.
    pub open spec fn within(&self, members: int) -> bool {
        forall|i: int|
            0 <= i < self.signals@.len() ==> (#[trigger] self.signals@[i]).member < members
    }

    pub fn new<P: CoSimulationParticipant>(ids: &Vec<String>, participants: &Vec<P>) -> (r: Result<
        Self,
        EngineError,
    >)
        requires
            ids@.len() == participants@.len(),
        ensures
            match r {
                Ok(recorder) => {
                    &&& graph_unrecordable(
                        texts(ids@),
                        port_lists(participants@),
                        participants@.len() as int,
                    ) is None
                    &&& recorder@ == all_tracks(port_lists(participants@))
                    &&& recorder.within(participants@.len() as int)
                },
                Err(e) => graph_unrecordable(
                    texts(ids@),
                    port_lists(participants@),
                    participants@.len() as int,
                ) == Some(e@),
            },
    {
        let ghost keys = texts(ids@);
        let ghost lists = port_lists(participants@);
        let ghost f = |i: int| member_tracks(i, lists[i], lists[i].len() as int);
        let mut signals: Vec<RecordedPort> = Vec::new();
        let mut i: usize = 0;
        assert(views(signals@) =~= Seq::<Track>::empty());
        while i < participants.len()
            invariant
                i <= participants@.len(),
                ids@.len() == participants@.len(),
                keys == texts(ids@),
                lists == port_lists(participants@),
                f == (|i: int| member_tracks(i, lists[i], lists[i].len() as int)),
                views(signals@) == concat_upto(i as int, f),
                graph_unrecordable(keys, lists, i as int) is None,
                forall|k: int| 0 <= k < signals@.len() ==> (#[trigger] signals@[k]).member < i,
            decreases participants@.len() - i,
        {
            let ports = participants[i].ports();
            let id = ids[i].as_str();
            let start: usize = signals.len();
            let ghost before = signals@;
            let ghost n = lists.len() as int;
            proof {
                assert(lists[i as int] == ports@);
                assert(keys[i as int] == id@);
                assert(signals@.skip(start as int) =~= Seq::<RecordedPort>::empty());
                assert(views(signals@.skip(start as int)) =~= Seq::<Track>::empty());
                assert(signals@.take(start as int) =~= before);
            }
            let mut j: usize = 0;
            while j < ports.len()
                invariant
                    j <= ports@.len(),
                    i < participants@.len(),
                    n == participants@.len(),
                    keys == texts(ids@),
                    lists == port_lists(participants@),
                    lists.len() == participants@.len(),
                    keys[i as int] == id@,
                    lists[i as int] == ports@,
                    graph_unrecordable(keys, lists, i as int) is None,
                    member_unrecordable(id@, ports@, j as int) is None,
                    start == before.len(),
                    start <= signals@.len(),
                    signals@.take(start as int) == before,
                    views(signals@.skip(start as int)) == member_tracks(
                        i as int,
                        ports@,
                        j as int,
                    ),
                    forall|k: int|
                        0 <= k < signals@.len() ==> (#[trigger] signals@[k]).member <= i,
                decreases ports@.len() - j,
            {
                let port = &ports[j];
                match check_recordable(id, port) {
                    Err(e) => {
                        proof {
                            lemma_member_unrecordable_stops(
                                id@,
                                ports@,
                                ports@.len() as int,
                                j + 1,
                            );
                            lemma_graph_unrecordable_stops(keys, lists, n, i + 1);
                        }
                        return Err(e);
                    },
                    Ok(_) => {},
                }
                let gives: bool = port.direction == PinDirection::Output || port.direction
                    == PinDirection::Bidirectional;
                if gives {
                    let ghost tail = views(signals@.skip(start as int));
                    proof {
                        assert forall|k: int| 0 <= k < tail.len() implies 0 <= (
                        #[trigger] tail[k]).member < i + 1 by {
                            assert(tail[k] == signals@[k + start]@);
                        }
                        lemma_with_track_members(
                            tail,
                            track_for(i as int, *port),
                            i + 1,
                        );
                    }
                    insert_track(&mut signals, start, new_track(i, port));
                    proof {
                        let after = views(signals@.skip(start as int));
                        assert forall|k: int| 0 <= k < signals@.len() implies (
                        #[trigger] signals@[k]).member <= i by {
                            if k < start {
                                assert(signals@.take(start as int)[k] == before[k]);
                            } else {
                                assert(after[k - start] == signals@[k]@);
                            }
                        }
                    }
                }
                j = j + 1;
            }
            proof {
                assert(views(signals@) =~= views(before) + views(signals@.skip(start as int))) by {
                    assert(signals@ =~= signals@.take(start as int) + signals@.skip(start as int));
                }
            }
            i = i + 1;
        }
        let recorder = WaveformRecorder { signals };
        assert(recorder@ == views(signals@));
        Ok(recorder)
    }
}

/// Adds one value to a recording.
fn extend(
    recorded: &mut RecordedSignal,
    value: CoSimulationValue,
    time: CoSimulationTime,
    id: &str,
    port: &str,
) -> (r: Result<(), EngineError>)
    ensures
        match (r, extended(old(recorded)@, value, time, id@, port@)) {
            (Ok(_), Ok(recording)) => final(recorded)@ == recording,
            (Err(e), Err(f)) => e@ == f,
            _ => false,
        },
{
    let seconds = time.as_seconds();
    match (recorded, value) {
        (RecordedSignal::Digital { transitions }, CoSimulationValue::Digital(level)) => {
            let n: usize = transitions.len();
            if n > 0 && transitions[n - 1].value == level {
                return Ok(());
            }
            transitions.push(DigitalTransition { time: seconds, value: level });
            Ok(())
        },
        (RecordedSignal::Analog { unit, times, values }, CoSimulationValue::Analog(number)) => {
            let n: usize = times.len();
            if n > 0 && times[n - 1].bits == seconds.bits {
                let m: usize = values.len();
                if m > 0 {
                    values.set(m - 1, number);
                }
            } else {
                times.push(seconds);
                values.push(number);
            }
            Ok(())
        },
        (_, value) => Err(
            fail(
                "cosim_value_domain_mismatch",
                cat7(
                    "participant `",
                    id,
                    ".",
                    port,
                    "` returned ",
                    value.domain().name(),
                    " while recording a different port domain",
                ),
            ),
        ),
    }
}


impl WaveformRecorder {
    /// Reads every recorded port and adds what it gives.
    pub fn record<P: CoSimulationParticipant>(
        &mut self,
        time: CoSimulationTime,
        ids: &Vec<String>,
        participants: &Vec<P>,
    ) -> (r: Result<(), EngineError>)
        requires
            ids@.len() == participants@.len(),
            old(self).within(participants@.len() as int),
        ensures
            match (
                r,
                tracks_stepped(
                    old(self)@,
                    texts(ids@),
                    participants@,
                    time,
                    old(self)@.len() as int,
                ),
            ) {
                (Ok(_), Ok(tracks)) => final(self)@ == tracks,
                (Err(e), Err(f)) => e@ == f,
                _ => false,
            },
            final(self).within(participants@.len() as int),
    {
        let ghost start = self@;
        let ghost keys = texts(ids@);
        let mut i: usize = 0;
        while i < self.signals.len()
            invariant
                i <= self.signals@.len(),
                ids@.len() == participants@.len(),
                keys == texts(ids@),
                start == old(self)@,
                self.signals@.len() == start.len(),
                self.within(participants@.len() as int),
                forall|k: int| i <= k < start.len() ==> self@[k] == start[k],
                tracks_stepped(start, keys, participants@, time, i as int) == Ok::<
                    Seq<Track>,
                    Fault,
                >(self@),
            decreases self.signals@.len() - i,
        {
            let ghost before = self@;
            let ghost track = start[i as int];
            assert(self@[i as int] == track);
            assert(self@[i as int] == self.signals@[i as int]@);
            let member: usize = self.signals[i].member;
            let port = self.signals[i].port.clone();
            assert(keys[member as int] == ids@[member as int]@);
            let value = match participants[member].read_output(port.as_str()) {
                Err(e) => {
                    proof {
                        lemma_tracks_stepped_stops(
                            start,
                            keys,
                            participants@,
                            time,
                            start.len() as int,
                            i + 1,
                        );
                    }
                    return Err(participant_error(ids[member].as_str(), "record output", e));
                },
                Ok(value) => value,
            };
            match value.validate() {
                Err(e) => {
                    proof {
                        lemma_tracks_stepped_stops(
                            start,
                            keys,
                            participants@,
                            time,
                            start.len() as int,
                            i + 1,
                        );
                    }
                    return Err(e);
                },
                Ok(_) => {},
            }
            let mut signal = self.signals.remove(i);
            let outcome = extend(
                &mut signal.recorded,
                value,
                time,
                ids[member].as_str(),
                port.as_str(),
            );
            self.signals.insert(i, signal);
            proof {
                assert(self@ =~= before.update(i as int, signal@));
            }
            match outcome {
                Err(e) => {
                    proof {
                        lemma_tracks_stepped_stops(
                            start,
                            keys,
                            participants@,
                            time,
                            start.len() as int,
                            i + 1,
                        );
                    }
                    return Err(e);
                },
                Ok(_) => {},
            }
            i = i + 1;
        }
        Ok(())
    }

    /// The waveforms of all recorded ports.
    pub fn finish(self, ids: &Vec<String>) -> (r: Vec<Waveform>)
        requires
            self.within(ids@.len() as int),
        ensures
            r@.len() == self@.len(),
            forall|i: int|
                0 <= i < r@.len() ==> wave_shows(#[trigger] r@[i], self@[i], texts(ids@)),
    {
        let ghost all = self@;
        let ghost keys = texts(ids@);
        let ghost original = self.signals@;
        let mut signals = self.signals;
        let mut out: Vec<Waveform> = Vec::new();
        let total: usize = signals.len();
        let mut i: usize = 0;
        while i < total
            invariant
                i <= total,
                total == original.len(),
                total == all.len(),
                all == views(original),
                keys == texts(ids@),
                signals@ == original.skip(i as int),
                out@.len() == i,
                forall|k: int| 0 <= k < total ==> (#[trigger] original[k]).member < ids@.len(),
                forall|k: int|
                    0 <= k < i ==> wave_shows(#[trigger] out@[k], all[k], keys),
            decreases total - i,
        {
            let ghost before = signals@;
            let signal = signals.remove(0);
            assert(signal == original[i as int]);
            assert(all[i as int] == signal@);
            assert(signals@ =~= original.skip(i + 1));
            assert(keys[signal.member as int] == ids@[signal.member as int]@);
            let name = cat3(ids[signal.member].as_str(), ".", signal.port.as_str());
            let waveform = match signal.recorded {
                RecordedSignal::Digital { transitions } => Waveform::Digital(
                    DigitalWaveform { signal: SignalId(name), transitions },
                ),
                RecordedSignal::Analog { unit, times, values } => Waveform::Analog(
                    AnalogWaveform {
                        signal: SignalId(name),
                        unit,
                        axis: AnalogAxis {
                            kind: AxisKind::Time,
                            unit: Unit::Second,
                            values: times,
                        },
                        values,
                        imaginary: None,
                    },
                ),
            };
            out.push(waveform);
            i = i + 1;
        }
        out
    }
}

} // verus!
