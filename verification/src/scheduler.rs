//! The co-simulation master: who takes part, which ports are joined, and how
//! all of them move through time together.
use crate::analysis::AnalysisKind;
use crate::circuit::{PinDirection, SignalDomain, CIRCUIT_SCHEMA_VERSION};
use crate::control::{clock_now, ExecutionControl};
use crate::cosim::{
    all_ports_failure, check_control, cosim_interrupted, participant_error, participant_fault, validate_ports,
    CoSimulationConfig, CoSimulationEndpoint, CoSimulationLink, CoSimulationParticipant,
    CoSimulationPort, CoSimulationStats, CoSimulationTime, CoSimulationValue, Join,
    COSIM_SCHEDULER_ID,
};
use crate::fault::{fail, fault, passes, told, EngineError, Fault};
use crate::reading::same;
use crate::recorder::{wave_shows, WaveformRecorder};
use crate::text::{
    cat3, cat5, cat9, decimal, decimal_text, lemma_before_irreflexive, lemma_before_total,
    lemma_before_transitive, text_before, text_eq, text_lt, texts, trim, trim_text,
};
use crate::timeline::{
    lemma_course_longer, lemma_handed_over, lemma_unsettled_longer, participants_stand_together,
    step_limit_fault, times_keep_the_schedule, total, Setting, Trace,
};
use crate::waveform::{
    counted, total_points, Diagnostic, DiagnosticLevel, EngineId, SimulationResult, VERSION,
};
use std::time::Instant;
use vstd::prelude::*;

verus! {

/// Participants under their names, in dictionary order of the names, and the
/// links between their ports.
pub struct CoSimulationScheduler<P> {
    pub config: CoSimulationConfig,
    pub ids: Vec<String>,
    pub participants: Vec<P>,
    pub links: Vec<CoSimulationLink>,
}

pub open spec fn joins_of(links: Seq<CoSimulationLink>) -> Seq<Join> {
    links.map_values(|l: CoSimulationLink| l@)
}

/// The place of a name among names.
pub open spec fn key_at(keys: Seq<Seq<char>>, name: Seq<char>) -> Option<int>
    decreases keys.len(),
{
    if keys.len() == 0 {
        None
    } else if keys.last() == name {
        Some(keys.len() - 1)
    } else {
        key_at(keys.drop_last(), name)
    }
}

/// How many names stand before a name.
pub open spec fn key_rank(keys: Seq<Seq<char>>, name: Seq<char>) -> int
    decreases keys.len(),
{
    if keys.len() == 0 {
        0
    } else if text_before(keys.last(), name) {
        keys.len() as int
    } else {
        key_rank(keys.drop_last(), name)
    }
}

/// The port of this name.
pub open spec fn port_named(ports: Seq<CoSimulationPort>, name: Seq<char>) -> Option<CoSimulationPort>
    decreases ports.len(),
{
    if ports.len() == 0 {
        None
    } else {
        match port_named(ports.drop_last(), name) {
            Some(port) => Some(port),
            None => if ports.last().name@ == name {
                Some(ports.last())
            } else {
                None
            },
        }
    }
}

pub open spec fn port_lists<P: CoSimulationParticipant>(members: Seq<P>) -> Seq<
    Seq<CoSimulationPort>,
> {
    members.map_values(|p: P| p.port_list())
}

/// The port at one end of a link.
pub open spec fn port_at(
    keys: Seq<Seq<char>>,
    ports: Seq<Seq<CoSimulationPort>>,
    end: (Seq<char>, Seq<char>),
) -> Result<CoSimulationPort, Fault> {
    match key_at(keys, end.0) {
        None => Err(
            fault(
                "cosim_link_invalid"@,
                "co-simulation link references unknown participant `"@ + end.0 + "`"@,
            ),
        ),
        Some(i) => match port_named(ports[i], end.1) {
            None => Err(
                fault(
                    "cosim_link_invalid"@,
                    "co-simulation link references unknown port `"@ + end.0 + "."@ + end.1 + "`"@,
                ),
            ),
            Some(port) => Ok(port),
        },
    }
}

/// What is wrong with the two ports of a link.
pub open spec fn pair_failure(join: Join, source: CoSimulationPort, target: CoSimulationPort) -> Option<
    Fault,
> {
    if !source.gives() {
        Some(
            fault(
                "cosim_link_invalid"@,
                "source `"@ + join.source.0 + "."@ + join.source.1
                    + "` is not an output/bidirectional port"@,
            ),
        )
    } else if !target.takes() {
        Some(
            fault(
                "cosim_link_invalid"@,
                "target `"@ + join.target.0 + "."@ + join.target.1
                    + "` is not an input/bidirectional port"@,
            ),
        )
    } else if source.domain != target.domain {
        Some(
            fault(
                "cosim_domain_mismatch"@,
                "link `"@ + join.source.0 + "."@ + join.source.1 + "` -> `"@ + join.target.0 + "."@
                    + join.target.1 + "` crosses "@ + (source.domain.spec_name() + " -> "@
                    + target.domain.spec_name() + "; use an explicit bridge participant"@),
            ),
        )
    } else if source.unit != target.unit && source.domain == SignalDomain::Analog {
        Some(
            fault(
                "cosim_unit_mismatch"@,
                "analog link `"@ + join.source.0 + "."@ + join.source.1 + "` -> `"@ + join.target.0
                    + "."@ + join.target.1 + "` has incompatible units"@,
            ),
        )
    } else {
        None
    }
}

/// Whether an earlier link has the same target.
pub open spec fn target_taken(joins: Seq<Join>, i: int) -> bool {
    exists|j: int| 0 <= j < i && (#[trigger] joins[j]).target == joins[i].target
}

/// What is wrong with one link.
pub open spec fn link_failure(
    keys: Seq<Seq<char>>,
    ports: Seq<Seq<CoSimulationPort>>,
    joins: Seq<Join>,
    i: int,
) -> Option<Fault> {
    let join = joins[i];
    match port_at(keys, ports, join.source) {
        Err(f) => Some(f),
        Ok(source) => match port_at(keys, ports, join.target) {
            Err(f) => Some(f),
            Ok(target) => match pair_failure(join, source, target) {
                Some(f) => Some(f),
                None => if target_taken(joins, i) {
                    Some(
                        fault(
                            "cosim_multiple_drivers"@,
                            "target `"@ + join.target.0 + "."@ + join.target.1
                                + "` has more than one scheduler link; resolve drivers explicitly inside a participant"@,
                        ),
                    )
                } else {
                    None
                },
            },
        },
    }
}

/// What is wrong with the first `n` links: the first failure.
pub open spec fn links_failure(
    keys: Seq<Seq<char>>,
    ports: Seq<Seq<CoSimulationPort>>,
    joins: Seq<Join>,
    n: int,
) -> Option<Fault>
    decreases n,
{
    if n <= 0 {
        None
    } else {
        match links_failure(keys, ports, joins, n - 1) {
            Some(f) => Some(f),
            None => link_failure(keys, ports, joins, n - 1),
        }
    }
}

/// The order of links: by source, then by target.
pub open spec fn link_before(a: Join, b: Join) -> bool {
    if a.source.0 != b.source.0 {
        text_before(a.source.0, b.source.0)
    } else if a.source.1 != b.source.1 {
        text_before(a.source.1, b.source.1)
    } else if a.target.0 != b.target.0 {
        text_before(a.target.0, b.target.0)
    } else {
        text_before(a.target.1, b.target.1)
    }
}

/// Links in order with one more link in its place.
pub open spec fn with_link(joins: Seq<Join>, join: Join) -> Seq<Join>
    decreases joins.len(),
{
    if joins.len() == 0 || !link_before(join, joins.last()) {
        joins.push(join)
    } else {
        with_link(joins.drop_last(), join).push(joins.last())
    }
}

/// Links in order.
pub open spec fn in_order(joins: Seq<Join>) -> Seq<Join>
    decreases joins.len(),
{
    if joins.len() == 0 {
        Seq::empty()
    } else {
        with_link(in_order(joins.drop_last()), joins.last())
    }
}

proof fn lemma_with_link(joins: Seq<Join>, join: Join)
    ensures
        with_link(joins, join).len() == joins.len() + 1,
        with_link(joins, join).to_multiset() == joins.to_multiset().insert(join),
    decreases joins.len(),
{
    broadcast use vstd::seq_lib::group_to_multiset_ensures;

    if joins.len() > 0 && link_before(join, joins.last()) {
        lemma_with_link(joins.drop_last(), join);
        assert(joins =~= joins.drop_last().push(joins.last()));
        assert(with_link(joins, join).to_multiset() =~= joins.to_multiset().insert(join));
    }
}

/// Putting links in order keeps every link.
pub proof fn ordering_keeps_links(joins: Seq<Join>)
    ensures
        in_order(joins).to_multiset() == joins.to_multiset(),
        in_order(joins).len() == joins.len(),
    decreases joins.len(),
{
    broadcast use vstd::seq_lib::group_to_multiset_ensures;

    if joins.len() > 0 {
        ordering_keeps_links(joins.drop_last());
        lemma_with_link(in_order(joins.drop_last()), joins.last());
        assert(joins =~= joins.drop_last().push(joins.last()));
    } else {
        assert(in_order(joins) =~= joins);
    }
}

/// The order of links is a total one.
pub proof fn link_order_is_total(a: Join, b: Join, c: Join)
    ensures
        !link_before(a, a),
        link_before(a, b) || link_before(b, a) || a == b,
        !(link_before(a, b) && link_before(b, a)),
        link_before(a, b) && link_before(b, c) ==> link_before(a, c),
{
    lemma_before_irreflexive(a.target.1);
    lemma_before_total(a.source.0, b.source.0);
    lemma_before_total(a.source.1, b.source.1);
    lemma_before_total(a.target.0, b.target.0);
    lemma_before_total(a.target.1, b.target.1);
    if link_before(a, b) && link_before(b, c) {
        if a.source.0 != b.source.0 && b.source.0 != c.source.0 {
            lemma_before_transitive(a.source.0, b.source.0, c.source.0);
            lemma_before_irreflexive(a.source.0);
        } else if a.source.0 == b.source.0 && b.source.0 == c.source.0 {
            if a.source.1 != b.source.1 && b.source.1 != c.source.1 {
                lemma_before_transitive(a.source.1, b.source.1, c.source.1);
                lemma_before_irreflexive(a.source.1);
            } else if a.source.1 == b.source.1 && b.source.1 == c.source.1 {
                if a.target.0 != b.target.0 && b.target.0 != c.target.0 {
                    lemma_before_transitive(a.target.0, b.target.0, c.target.0);
                    lemma_before_irreflexive(a.target.0);
                } else if a.target.0 == b.target.0 && b.target.0 == c.target.0 {
                    lemma_before_transitive(a.target.1, b.target.1, c.target.1);
                }
            }
        }
    }
}

/// No link stands behind one that goes before it.
pub open spec fn ascending(joins: Seq<Join>) -> bool {
    forall|i: int, j: int|
        0 <= i < j < joins.len() ==> !link_before(#[trigger] joins[j], #[trigger] joins[i])
}

proof fn lemma_with_link_ascending(joins: Seq<Join>, join: Join)
    requires
        ascending(joins),
    ensures
        ascending(with_link(joins, join)),
        forall|other: Join|
            (forall|i: int| 0 <= i < joins.len() ==> !link_before(other, #[trigger] joins[i]))
                && !link_before(other, join) ==> forall|i: int|
                0 <= i < with_link(joins, join).len() ==> !link_before(
                    other,
                    #[trigger] with_link(joins, join)[i],
                ),
    decreases joins.len(),
{
    let done = with_link(joins, join);
    if joins.len() == 0 || !link_before(join, joins.last()) {
        assert forall|i: int, j: int| 0 <= i < j < done.len() implies !link_before(
            #[trigger] done[j],
            #[trigger] done[i],
        ) by {
            if j == joins.len() {
                let last = joins.last();
                link_order_is_total(join, joins[i], last);
                if i < joins.len() - 1 {
                    assert(!link_before(joins[joins.len() - 1], joins[i]));
                    link_order_is_total(last, joins[i], join);
                    link_order_is_total(join, joins[i], last);
                    link_order_is_total(joins[i], last, join);
                }
            }
        }
    } else {
        let rest = joins.drop_last();
        let last = joins.last();
        assert(ascending(rest)) by {
            assert forall|i: int, j: int| 0 <= i < j < rest.len() implies !link_before(
                #[trigger] rest[j],
                #[trigger] rest[i],
            ) by {
                assert(!link_before(joins[j], joins[i]));
            }
        }
        lemma_with_link_ascending(rest, join);
        let inner = with_link(rest, join);
        lemma_with_link(rest, join);
        link_order_is_total(join, last, last);
        assert forall|i: int| 0 <= i < rest.len() implies !link_before(
            last,
            #[trigger] rest[i],
        ) by {
            assert(!link_before(joins[joins.len() - 1], joins[i]));
        }
        assert forall|i: int| 0 <= i < inner.len() implies !link_before(
            last,
            #[trigger] inner[i],
        ) by {}
        assert forall|i: int, j: int| 0 <= i < j < done.len() implies !link_before(
            #[trigger] done[j],
            #[trigger] done[i],
        ) by {
            if j < inner.len() {
                assert(!link_before(inner[j], inner[i]));
            } else {
                assert(!link_before(last, inner[i]));
            }
        }
        assert forall|other: Join|
            (forall|i: int| 0 <= i < joins.len() ==> !link_before(other, #[trigger] joins[i]))
                && !link_before(other, join) implies forall|i: int|
            0 <= i < done.len() ==> !link_before(other, #[trigger] done[i]) by {
            assert forall|i: int| 0 <= i < rest.len() implies !link_before(
                other,
                #[trigger] rest[i],
            ) by {
                assert(!link_before(other, joins[i]));
            }
            assert(!link_before(other, joins[joins.len() - 1]));
            assert forall|i: int| 0 <= i < done.len() implies !link_before(
                other,
                #[trigger] done[i],
            ) by {
                if i < inner.len() {
                    assert(!link_before(other, inner[i]));
                }
            }
        }
    }
}

/// Links in order ascend.
pub proof fn ordered_links_ascend(joins: Seq<Join>)
    ensures
        ascending(in_order(joins)),
    decreases joins.len(),
{
    if joins.len() > 0 {
        ordered_links_ascend(joins.drop_last());
        lemma_with_link_ascending(in_order(joins.drop_last()), joins.last());
    }
}

/// The order of links does not depend on the order in which they were connected.
pub proof fn ordering_ignores_connection(a: Seq<Join>, b: Seq<Join>)
    requires
        a.to_multiset() == b.to_multiset(),
    ensures
        in_order(a) == in_order(b),
{
    ordering_keeps_links(a);
    ordering_keeps_links(b);
    ordered_links_ascend(a);
    ordered_links_ascend(b);
    let leq = |x: Join, y: Join| !link_before(y, x);
    assert(vstd::relations::total_ordering(leq)) by {
        assert forall|x: Join| #[trigger] leq(x, x) by {
            link_order_is_total(x, x, x);
        }
        assert forall|x: Join, y: Join| #[trigger] leq(x, y) && #[trigger] leq(y, x) implies x
            == y by {
            link_order_is_total(x, y, y);
        }
        assert forall|x: Join, y: Join, z: Join|
            #[trigger] leq(x, y) && #[trigger] leq(y, z) implies leq(x, z) by {
            link_order_is_total(x, y, z);
            link_order_is_total(y, z, x);
            link_order_is_total(z, x, y);
            link_order_is_total(z, y, x);
            link_order_is_total(y, x, z);
            link_order_is_total(x, z, y);
        }
        assert forall|x: Join, y: Join| #[trigger] leq(x, y) || #[trigger] leq(y, x) by {
            link_order_is_total(x, y, y);
        }
    }
    assert(vstd::relations::sorted_by(in_order(a), leq));
    assert(vstd::relations::sorted_by(in_order(b), leq));
    vstd::seq_lib::lemma_sorted_unique(in_order(a), in_order(b), leq);
}

/// Accepted links: both ends of each exist, are of one domain and point the
/// right way, those of an analog link have one unit, and no port is the target
/// of two.
pub proof fn accepted_links_are_sound(
    keys: Seq<Seq<char>>,
    ports: Seq<Seq<CoSimulationPort>>,
    joins: Seq<Join>,
    n: int,
    i: int,
)
    requires
        0 <= i < n <= joins.len(),
        links_failure(keys, ports, joins, n) is None,
    ensures
        port_at(keys, ports, joins[i].source) is Ok,
        port_at(keys, ports, joins[i].target) is Ok,
        port_at(keys, ports, joins[i].source)->Ok_0.gives(),
        port_at(keys, ports, joins[i].target)->Ok_0.takes(),
        port_at(keys, ports, joins[i].source)->Ok_0.domain == port_at(
            keys,
            ports,
            joins[i].target,
        )->Ok_0.domain,
        port_at(keys, ports, joins[i].source)->Ok_0.domain == SignalDomain::Analog ==> port_at(
            keys,
            ports,
            joins[i].source,
        )->Ok_0.unit == port_at(keys, ports, joins[i].target)->Ok_0.unit,
        forall|j: int| 0 <= j < i ==> (#[trigger] joins[j]).target != joins[i].target,
    decreases n,
{
    if i == n - 1 {
        assert(link_failure(keys, ports, joins, i) is None);
    } else {
        accepted_links_are_sound(keys, ports, joins, n - 1, i);
    }
}

proof fn lemma_links_failure_stops(
    keys: Seq<Seq<char>>,
    ports: Seq<Seq<CoSimulationPort>>,
    joins: Seq<Join>,
    n: int,
    m: int,
)
    requires
        0 <= m <= n,
        links_failure(keys, ports, joins, m) is Some,
    ensures
        links_failure(keys, ports, joins, n) == links_failure(keys, ports, joins, m),
    decreases n - m,
{
    if m < n {
        lemma_links_failure_stops(keys, ports, joins, n, m + 1);
    }
}

proof fn lemma_key_at(keys: Seq<Seq<char>>, name: Seq<char>)
    ensures
        key_at(keys, name) matches Some(i) ==> 0 <= i < keys.len() && keys[i] == name,
    decreases keys.len(),
{
    if keys.len() > 0 && keys.last() != name {
        lemma_key_at(keys.drop_last(), name);
    }
}

proof fn lemma_key_rank(keys: Seq<Seq<char>>, name: Seq<char>)
    ensures
        0 <= key_rank(keys, name) <= keys.len(),
    decreases keys.len(),
{
    if keys.len() > 0 {
        lemma_key_rank(keys.drop_last(), name);
    }
}

/// The next time to which all participants go, as far as the first `n` of them
/// have a say: a step further, but not past the stop time or an event.
pub open spec fn next_target(
    ids: Seq<Seq<char>>,
    events: Seq<Option<CoSimulationTime>>,
    config: CoSimulationConfig,
    now: CoSimulationTime,
    n: int,
) -> Result<CoSimulationTime, Fault>
    decreases n,
{
    if n <= 0 {
        Ok(
            CoSimulationTime(
                if now.0 + config.max_step.0 < config.stop.0 {
                    (now.0 + config.max_step.0) as u64
                } else {
                    config.stop.0
                },
            ),
        )
    } else {
        match next_target(ids, events, config, now, n - 1) {
            Err(f) => Err(f),
            Ok(target) => match events[n - 1] {
                None => Ok(target),
                Some(event) => if event.0 <= now.0 {
                    Err(
                        fault(
                            "cosim_event_time_invalid"@,
                            "participant `"@ + ids[n - 1] + "` reported next event "@ + decimal(
                                event.0 as nat,
                            ) + " ps at current time "@ + decimal(now.0 as nat)
                                + " ps; next_event_time must be strictly future"@,
                        ),
                    )
                } else if event.0 < target.0 {
                    Ok(event)
                } else {
                    Ok(target)
                },
            },
        }
    }
}

pub open spec fn events_of<P: CoSimulationParticipant>(members: Seq<P>) -> Seq<
    Option<CoSimulationTime>,
> {
    members.map_values(|p: P| p.upcoming())
}

proof fn lemma_next_target_stops(
    ids: Seq<Seq<char>>,
    events: Seq<Option<CoSimulationTime>>,
    config: CoSimulationConfig,
    now: CoSimulationTime,
    n: int,
    m: int,
)
    requires
        0 <= m <= n,
        next_target(ids, events, config, now, m) is Err,
    ensures
        next_target(ids, events, config, now, n) == next_target(ids, events, config, now, m),
    decreases n - m,
{
    if m < n {
        lemma_next_target_stops(ids, events, config, now, n, m + 1);
    }
}

/// The next time is in the future, not past the stop time, not further than a
/// step, and not past any participant's next event.
pub proof fn next_target_is_bounded(
    ids: Seq<Seq<char>>,
    events: Seq<Option<CoSimulationTime>>,
    config: CoSimulationConfig,
    now: CoSimulationTime,
    n: int,
)
    requires
        now.0 < config.stop.0,
        config.max_step.0 > 0,
        0 <= n <= events.len(),
    ensures
        next_target(ids, events, config, now, n) matches Ok(target) ==> {
            &&& now.0 < target.0 <= config.stop.0
            &&& target.0 <= now.0 + config.max_step.0
            &&& forall|i: int|
                0 <= i < n ==> ((#[trigger] events[i]) matches Some(event) ==> target.0 <= event.0)
        },
    decreases n,
{
    if n > 0 {
        next_target_is_bounded(ids, events, config, now, n - 1);
    }
}

/// What a link carries: the value that its source gives, if it is fit.
pub open spec fn carried<P: CoSimulationParticipant>(
    source: P,
    end: (Seq<char>, Seq<char>),
    port: CoSimulationPort,
) -> Result<CoSimulationValue, Fault> {
    match source.output(end.1) {
        Err(f) => Err(participant_fault(source.name(), "read output"@, f)),
        Ok(value) => match value.failure() {
            Some(f) => Err(f),
            None => if value.spec_domain() != port.domain {
                Err(
                    fault(
                        "cosim_value_domain_mismatch"@,
                        "participant `"@ + end.0 + "."@ + end.1 + "` returned "@
                            + value.spec_domain().spec_name() + " for a "@
                            + port.domain.spec_name() + " port"@,
                    ),
                )
            } else {
                Ok(value)
            },
        },
    }
}

/// Reads the value that a link carries.
pub fn read_link<P: CoSimulationParticipant>(
    source: &P,
    end: &CoSimulationEndpoint,
    port: &CoSimulationPort,
) -> (r: Result<CoSimulationValue, EngineError>)
    ensures
        same(r, carried(*source, end@, *port)),
{
    match source.read_output(end.port.as_str()) {
        Err(e) => Err(participant_error(source.id(), "read output", e)),
        Ok(value) => {
            match value.validate() {
                Err(e) => {
                    return Err(e);
                },
                Ok(_) => {},
            }
            if value.domain() != port.domain {
                return Err(
                    fail(
                        "cosim_value_domain_mismatch",
                        cat9(
                            "participant `",
                            end.participant.as_str(),
                            ".",
                            end.port.as_str(),
                            "` returned ",
                            value.domain().name(),
                            " for a ",
                            port.domain.name(),
                            " port",
                        ),
                    ),
                );
            }
            Ok(value)
        },
    }
}

/// The first port of this name.
pub fn find_port_named<'a>(ports: &'a Vec<CoSimulationPort>, name: &str) -> (r: Option<
    &'a CoSimulationPort,
>)
    ensures
        match (r, port_named(ports@, name@)) {
            (Some(p), Some(q)) => *p == q,
            (None, None) => true,
            _ => false,
        },
{
    let mut i: usize = 0;
    while i < ports.len()
        invariant
            i <= ports@.len(),
            port_named(ports@.take(i as int), name@) is None,
        decreases ports@.len() - i,
    {
        assert(ports@.take(i + 1).drop_last() =~= ports@.take(i as int));
        assert(ports@.take(i + 1).last() == ports@[i as int]);
        if text_eq(ports[i].name.as_str(), name) {
            proof {
                lemma_port_named_stays(ports@, name@, i + 1);
            }
            return Some(&ports[i]);
        }
        i = i + 1;
    }
    assert(ports@.take(i as int) =~= ports@);
    None
}

proof fn lemma_port_named_stays(ports: Seq<CoSimulationPort>, name: Seq<char>, n: int)
    requires
        0 <= n <= ports.len(),
        port_named(ports.take(n), name) is Some,
    ensures
        port_named(ports, name) == port_named(ports.take(n), name),
    decreases ports.len() - n,
{
    if n < ports.len() {
        assert(ports.take(n + 1).drop_last() =~= ports.take(n));
        lemma_port_named_stays(ports, name, n + 1);
    } else {
        assert(ports.take(n) =~= ports);
    }
}

fn link_lt(a: &CoSimulationLink, b: &CoSimulationLink) -> (r: bool)
    ensures
        r == link_before(a@, b@),
{
    if !text_eq(a.source.participant.as_str(), b.source.participant.as_str()) {
        text_lt(a.source.participant.as_str(), b.source.participant.as_str())
    } else if !text_eq(a.source.port.as_str(), b.source.port.as_str()) {
        text_lt(a.source.port.as_str(), b.source.port.as_str())
    } else if !text_eq(a.target.participant.as_str(), b.target.participant.as_str()) {
        text_lt(a.target.participant.as_str(), b.target.participant.as_str())
    } else {
        text_lt(a.target.port.as_str(), b.target.port.as_str())
    }
}

fn insert_link(links: &mut Vec<CoSimulationLink>, link: &CoSimulationLink)
    ensures
        joins_of(final(links)@) == with_link(joins_of(old(links)@), link@),
    decreases old(links)@.len(),
{
    let ghost all = joins_of(links@);
    let n: usize = links.len();
    if n == 0 || !link_lt(link, &links[n - 1]) {
        links.push(link.clone());
        assert(joins_of(links@) =~= all.push(link@));
        return;
    }
    let last = links.pop().unwrap();
    assert(joins_of(links@) =~= all.drop_last());
    insert_link(links, link);
    let ghost inner = joins_of(links@);
    links.push(last);
    assert(joins_of(links@) =~= inner.push(all.last()));
}

/// The links in order.
fn sort_links(links: &Vec<CoSimulationLink>) -> (r: Vec<CoSimulationLink>)
    ensures
        joins_of(r@) == in_order(joins_of(links@)),
{
    let ghost all = joins_of(links@);
    let mut out: Vec<CoSimulationLink> = Vec::new();
    let mut i: usize = 0;
    assert(joins_of(out@) =~= in_order(all.take(0)));
    while i < links.len()
        invariant
            i <= links@.len(),
            all == joins_of(links@),
            joins_of(out@) == in_order(all.take(i as int)),
        decreases links@.len() - i,
    {
        assert(all.take(i + 1).drop_last() =~= all.take(i as int));
        assert(all.take(i + 1).last() == links@[i as int]@);
        insert_link(&mut out, &links[i]);
        i = i + 1;
    }
    assert(all.take(i as int) =~= all);
    out
}

impl<P: CoSimulationParticipant> CoSimulationScheduler<P> {
    /// Every participant has a name of its place.
    pub open spec fn wf(&self) -> bool {
        self.ids@.len() == self.participants@.len()
    }

    pub open spec fn keys(&self) -> Seq<Seq<char>> {
        texts(self.ids@)
    }

    pub open spec fn all_ports(&self) -> Seq<Seq<CoSimulationPort>> {
        port_lists(self.participants@)
    }

    pub open spec fn joins(&self) -> Seq<Join> {
        joins_of(self.links@)
    }

    pub fn new(config: CoSimulationConfig) -> (r: Self)
        ensures
            r.wf(),
            r.config == config,
            r.ids@.len() == 0,
            r.participants@.len() == 0,
            r.links@.len() == 0,
    {
        CoSimulationScheduler {
            config,
            ids: Vec::new(),
            participants: Vec::new(),
            links: Vec::new(),
        }
    }

    pub fn config(&self) -> (r: CoSimulationConfig)
        ensures
            r == self.config,
    {
        self.config
    }

    /// What keeps a participant from taking part.
    pub open spec fn entry_failure(&self, participant: P) -> Option<Fault> {
        let id = trim(participant.name());
        if id.len() == 0 {
            Some(
                fault(
                    "cosim_participant_invalid"@,
                    "co-simulation participant id must not be empty"@,
                ),
            )
        } else if key_at(self.keys(), id) is Some {
            Some(
                fault(
                    "cosim_participant_duplicate"@,
                    "co-simulation participant `"@ + id + "` is already registered"@,
                ),
            )
        } else {
            all_ports_failure(id, participant.port_list())
        }
    }

    /// The place of the participant of this name.
    fn find_key(&self, name: &str) -> (r: Option<usize>)
        requires
            self.wf(),
        ensures
            match (r, key_at(self.keys(), name@)) {
                (Some(i), Some(j)) => i == j && i < self.participants@.len(),
                (None, None) => true,
                _ => false,
            },
    {
        let ghost all = self.keys();
        let mut i: usize = self.ids.len();
        assert(all.take(i as int) =~= all);
        while i > 0
            invariant
                i <= self.ids@.len(),
                self.wf(),
                all == self.keys(),
                key_at(all, name@) == key_at(all.take(i as int), name@),
            decreases i,
        {
            assert(all.take(i as int).last() == self.ids@[i - 1]@);
            assert(all.take(i as int).drop_last() =~= all.take(i - 1));
            i = i - 1;
            if text_eq(self.ids[i].as_str(), name) {
                return Some(i);
            }
        }
        None
    }

    /// How many names stand before a name.
    fn rank(&self, name: &str) -> (r: usize)
        ensures
            r == key_rank(self.keys(), name@),
            r <= self.ids@.len(),
    {
        let ghost all = self.keys();
        let mut i: usize = self.ids.len();
        assert(all.take(i as int) =~= all);
        while i > 0 && !text_lt(self.ids[i - 1].as_str(), name)
            invariant
                i <= self.ids@.len(),
                all == self.keys(),
                key_rank(all, name@) == key_rank(all.take(i as int), name@),
            decreases i,
        {
            assert(all.take(i as int).last() == self.ids@[i - 1]@);
            assert(all.take(i as int).drop_last() =~= all.take(i - 1));
            i = i - 1;
        }
        proof {
            if i > 0 {
                assert(all.take(i as int).last() == self.ids@[i - 1]@);
            }
        }
        i
    }

    pub fn add_participant(&mut self, participant: P) -> (r: Result<(), EngineError>)
        requires
            old(self).wf(),
        ensures
            final(self).wf(),
            passes(r, old(self).entry_failure(participant)),
            final(self).config == old(self).config,
            final(self).links == old(self).links,
            match r {
                Ok(_) => {
                    let id = trim(participant.name());
                    let k = key_rank(old(self).keys(), id);
                    &&& final(self).keys() == old(self).keys().insert(k, id)
                    &&& final(self).participants@ == old(self).participants@.insert(k, participant)
                },
                Err(_) => final(self).ids == old(self).ids && final(self).participants == old(
                    self,
                ).participants,
            },
    {
        let id = trim_text(participant.id());
        if id.as_str().is_empty() {
            return Err(
                EngineError::new(
                    "cosim_participant_invalid",
                    "co-simulation participant id must not be empty",
                ),
            );
        }
        if self.find_key(id.as_str()).is_some() {
            return Err(
                fail(
                    "cosim_participant_duplicate",
                    cat3(
                        "co-simulation participant `",
                        id.as_str(),
                        "` is already registered",
                    ),
                ),
            );
        }
        match validate_ports(id.as_str(), participant.ports()) {
            Err(e) => {
                return Err(e);
            },
            Ok(_) => {},
        }
        let ghost before = self.keys();
        let k: usize = self.rank(id.as_str());
        self.ids.insert(k, id);
        self.participants.insert(k, participant);
        assert(self.keys() =~= before.insert(k as int, id@));
        Ok(())
    }

    pub fn connect(&mut self, link: CoSimulationLink)
        ensures
            final(self).links@ == old(self).links@.push(link),
            final(self).config == old(self).config,
            final(self).ids == old(self).ids,
            final(self).participants == old(self).participants,
    {
        self.links.push(link);
    }

    /// The port at one end of a link.
    fn find_port(&self, end: &CoSimulationEndpoint) -> (r: Result<&CoSimulationPort, EngineError>)
        requires
            self.wf(),
        ensures
            match (r, port_at(self.keys(), self.all_ports(), end@)) {
                (Ok(p), Ok(q)) => *p == q,
                (Err(e), Err(f)) => e@ == f,
                _ => false,
            },
    {
        match self.find_key(end.participant.as_str()) {
            None => Err(
                fail(
                    "cosim_link_invalid",
                    cat3(
                        "co-simulation link references unknown participant `",
                        end.participant.as_str(),
                        "`",
                    ),
                ),
            ),
            Some(i) => {
                assert(self.all_ports()[i as int] == self.participants@[i as int].port_list());
                match find_port_named(self.participants[i].ports(), end.port.as_str()) {
                    Some(port) => Ok(port),
                    None => Err(
                        fail(
                            "cosim_link_invalid",
                            cat5(
                                "co-simulation link references unknown port `",
                                end.participant.as_str(),
                                ".",
                                end.port.as_str(),
                                "`",
                            ),
                        ),
                    ),
                }
            },
        }
    }

    fn check_pair(link: &CoSimulationLink, source: &CoSimulationPort, target: &CoSimulationPort) -> (r:
        Result<(), EngineError>)
        ensures
            passes(r, pair_failure(link@, *source, *target)),
    {
        let gives: bool = source.direction == PinDirection::Output || source.direction
            == PinDirection::Bidirectional;
        if !gives {
            return Err(
                fail(
                    "cosim_link_invalid",
                    cat5(
                        "source `",
                        link.source.participant.as_str(),
                        ".",
                        link.source.port.as_str(),
                        "` is not an output/bidirectional port",
                    ),
                ),
            );
        }
        let takes: bool = target.direction == PinDirection::Input || target.direction
            == PinDirection::Bidirectional;
        if !takes {
            return Err(
                fail(
                    "cosim_link_invalid",
                    cat5(
                        "target `",
                        link.target.participant.as_str(),
                        ".",
                        link.target.port.as_str(),
                        "` is not an input/bidirectional port",
                    ),
                ),
            );
        }
        if source.domain != target.domain {
            let domains = crate::text::cat4(
                source.domain.name(),
                " -> ",
                target.domain.name(),
                "; use an explicit bridge participant",
            );
            return Err(
                fail(
                    "cosim_domain_mismatch",
                    crate::text::cat2(
                        cat9(
                            "link `",
                            link.source.participant.as_str(),
                            ".",
                            link.source.port.as_str(),
                            "` -> `",
                            link.target.participant.as_str(),
                            ".",
                            link.target.port.as_str(),
                            "` crosses ",
                        ).as_str(),
                        domains.as_str(),
                    ),
                ),
            );
        }
        if source.unit != target.unit && source.domain == SignalDomain::Analog {
            return Err(
                fail(
                    "cosim_unit_mismatch",
                    cat9(
                        "analog link `",
                        link.source.participant.as_str(),
                        ".",
                        link.source.port.as_str(),
                        "` -> `",
                        link.target.participant.as_str(),
                        ".",
                        link.target.port.as_str(),
                        "` has incompatible units",
                    ),
                ),
            );
        }
        Ok(())
    }

    fn check_link(&self, links: &Vec<CoSimulationLink>, i: usize) -> (r: Result<(), EngineError>)
        requires
            self.wf(),
            i < links@.len(),
        ensures
            passes(
                r,
                link_failure(self.keys(), self.all_ports(), joins_of(links@), i as int),
            ),
    {
        let ghost all = joins_of(links@);
        let link = &links[i];
        assert(all[i as int] == link@);
        let source = match self.find_port(&link.source) {
            Err(e) => {
                return Err(e);
            },
            Ok(port) => port,
        };
        let target = match self.find_port(&link.target) {
            Err(e) => {
                return Err(e);
            },
            Ok(port) => port,
        };
        match Self::check_pair(link, source, target) {
            Err(e) => {
                return Err(e);
            },
            Ok(_) => {},
        }
        let mut j: usize = 0;
        while j < i
            invariant
                j <= i < links@.len(),
                all == joins_of(links@),
                all[i as int] == link@,
                link == links@[i as int],
                self.wf(),
                port_at(self.keys(), self.all_ports(), link.source@) == Ok::<
                    CoSimulationPort,
                    Fault,
                >(*source),
                port_at(self.keys(), self.all_ports(), link.target@) == Ok::<
                    CoSimulationPort,
                    Fault,
                >(*target),
                pair_failure(link@, *source, *target) is None,
                forall|k: int| 0 <= k < j ==> (#[trigger] all[k]).target != link@.target,
            decreases i - j,
        {
            let other = &links[j].target;
            assert(all[j as int] == links@[j as int]@);
            if text_eq(other.participant.as_str(), link.target.participant.as_str()) && text_eq(
                other.port.as_str(),
                link.target.port.as_str(),
            ) {
                assert(all[j as int].target == all[i as int].target);
                return Err(
                    fail(
                        "cosim_multiple_drivers",
                        cat5(
                            "target `",
                            link.target.participant.as_str(),
                            ".",
                            link.target.port.as_str(),
                            "` has more than one scheduler link; resolve drivers explicitly inside a participant",
                        ),
                    ),
                );
            }
            j = j + 1;
        }
        Ok(())
    }

    /// What is wrong with the participants and links taken together.
    pub open spec fn graph_failure(&self) -> Option<Fault> {
        if self.participants@.len() == 0 {
            Some(
                fault(
                    "cosim_participant_missing"@,
                    "co-simulation requires at least one participant"@,
                ),
            )
        } else {
            links_failure(
                self.keys(),
                self.all_ports(),
                in_order(self.joins()),
                self.links@.len() as int,
            )
        }
    }

    /// The links in order, if there is nothing wrong with them.
    pub fn validated_links(&self) -> (r: Result<Vec<CoSimulationLink>, EngineError>)
        requires
            self.wf(),
        ensures
            match r {
                Ok(links) => self.graph_failure() is None && joins_of(links@) == in_order(
                    self.joins(),
                ),
                Err(e) => self.graph_failure() == Some(e@),
            },
    {
        if self.participants.len() == 0 {
            return Err(
                EngineError::new(
                    "cosim_participant_missing",
                    "co-simulation requires at least one participant",
                ),
            );
        }
        let links = sort_links(&self.links);
        proof {
            ordering_keeps_links(self.joins());
        }
        let mut i: usize = 0;
        while i < links.len()
            invariant
                i <= links@.len(),
                links@.len() == self.links@.len(),
                self.wf(),
                self.participants@.len() > 0,
                joins_of(links@) == in_order(self.joins()),
                links_failure(
                    self.keys(),
                    self.all_ports(),
                    joins_of(links@),
                    i as int,
                ) is None,
            decreases links@.len() - i,
        {
            match self.check_link(&links, i) {
                Err(e) => {
                    proof {
                        lemma_links_failure_stops(
                            self.keys(),
                            self.all_ports(),
                            joins_of(links@),
                            links@.len() as int,
                            i + 1,
                        );
                    }
                    return Err(e);
                },
                Ok(_) => {},
            }
            i = i + 1;
        }
        Ok(links)
    }

    /// The next time to which all participants go.
    pub fn next_time(&self, now: CoSimulationTime) -> (r: Result<CoSimulationTime, EngineError>)
        requires
            self.wf(),
        ensures
            same(
                r,
                next_target(
                    self.keys(),
                    events_of(self.participants@),
                    self.config,
                    now,
                    self.participants@.len() as int,
                ),
            ),
    {
        let ghost keys = self.keys();
        let ghost events = events_of(self.participants@);
        let step = now.saturating_add(self.config.max_step);
        let mut target = if step.0 < self.config.stop.0 {
            step
        } else {
            self.config.stop
        };
        let mut i: usize = 0;
        while i < self.participants.len()
            invariant
                i <= self.participants@.len(),
                self.wf(),
                keys == self.keys(),
                events == events_of(self.participants@),
                next_target(keys, events, self.config, now, i as int) == Ok::<
                    CoSimulationTime,
                    Fault,
                >(target),
            decreases self.participants@.len() - i,
        {
            assert(events[i as int] == self.participants@[i as int].upcoming());
            assert(keys[i as int] == self.ids@[i as int]@);
            match self.participants[i].next_event_time() {
                Some(event) => {
                    if event.0 <= now.0 {
                        proof {
                            lemma_next_target_stops(
                                keys,
                                events,
                                self.config,
                                now,
                                self.participants@.len() as int,
                                i + 1,
                            );
                        }
                        return Err(
                            fail(
                                "cosim_event_time_invalid",
                                crate::text::cat7(
                                    "participant `",
                                    self.ids[i].as_str(),
                                    "` reported next event ",
                                    decimal_text(event.0).as_str(),
                                    " ps at current time ",
                                    decimal_text(now.0).as_str(),
                                    " ps; next_event_time must be strictly future",
                                ),
                            ),
                        );
                    }
                    if event.0 < target.0 {
                        target = event;
                    }
                },
                None => {},
            }
            i = i + 1;
        }
        Ok(target)
    }
}


/// The time after which a participant has not stayed at a time.
pub open spec fn moved_fault(id: Seq<char>) -> Fault {
    fault(
        "cosim_participant_time_invalid"@,
        "participant `"@ + id + "` changed time while settling same-time inputs"@,
    )
}

/// Inputs that keep changing at one time.
pub open spec fn unsettled_fault(config: CoSimulationConfig, time: CoSimulationTime) -> Fault {
    fault(
        "cosim_delta_cycle_limit"@,
        "co-simulation did not settle within "@ + decimal(config.max_delta_cycles as nat)
            + " same-time delta cycles at "@ + decimal(time.0 as nat) + " ps"@,
    )
}

/// Whether a participant is still at a time.
pub fn check_stayed(id: &str, reached: CoSimulationTime, time: CoSimulationTime) -> (r: Result<
    (),
    EngineError,
>)
    ensures
        passes(
            r,
            if reached == time {
                None
            } else {
                Some(moved_fault(id@))
            },
        ),
{
    if reached.0 != time.0 {
        return Err(
            fail(
                "cosim_participant_time_invalid",
                cat3("participant `", id, "` changed time while settling same-time inputs"),
            ),
        );
    }
    Ok(())
}

fn unsettled_error(config: &CoSimulationConfig, time: CoSimulationTime) -> (r: EngineError)
    ensures
        r@ == unsettled_fault(*config, time),
{
    fail(
        "cosim_delta_cycle_limit",
        cat5(
            "co-simulation did not settle within ",
            decimal_text(config.max_delta_cycles as u64).as_str(),
            " same-time delta cycles at ",
            decimal_text(time.0).as_str(),
            " ps",
        ),
    )
}

pub open spec fn names_of<P: CoSimulationParticipant>(members: Seq<P>) -> Seq<Seq<char>> {
    members.map_values(|p: P| p.name())
}

impl<P: CoSimulationParticipant> CoSimulationScheduler<P> {
    /// Nothing but the states of the participants differs.
    pub open spec fn same_graph(&self, other: &Self) -> bool {
        &&& self.config == other.config
        &&& self.ids == other.ids
        &&& self.links == other.links
        &&& self.participants@.len() == other.participants@.len()
        &&& self.all_ports() == other.all_ports()
        &&& names_of(self.participants@) == names_of(other.participants@)
    }

    /// The links are those of the scheduler, in order, and nothing is wrong
    /// with them.
    pub open spec fn fit_links(&self, links: Seq<CoSimulationLink>) -> bool {
        &&& self.graph_failure() is None
        &&& joins_of(links) == in_order(self.joins())
        &&& links.len() == self.links@.len()
    }

    /// What a run of the scheduler under a control works with.
    pub open spec fn setting(&self, control: ExecutionControl) -> Setting {
        Setting {
            config: self.config,
            control,
            keys: self.keys(),
            ports: self.all_ports(),
            joins: in_order(self.joins()),
        }
    }

    /// Reads what every link carries.
    fn read_links(&self, links: &Vec<CoSimulationLink>, Ghost(control): Ghost<ExecutionControl>) -> (r:
        Result<Vec<CoSimulationValue>, EngineError>)
        requires
            self.wf(),
            self.fit_links(links@),
        ensures
            match (r, self.setting(control).all_loads(self.participants@)) {
                (Ok(values), Ok(loads)) => values@ == loads && values@.len() == links@.len(),
                (Err(e), Err(f)) => e@ == f,
                _ => false,
            },
    {
        let ghost setting = self.setting(control);
        let mut values: Vec<CoSimulationValue> = Vec::new();
        let mut i: usize = 0;
        while i < links.len()
            invariant
                i <= links@.len(),
                self.wf(),
                self.fit_links(links@),
                setting == self.setting(control),
                setting.joins == joins_of(links@),
                values@.len() == i,
                setting.loads(self.participants@, i as int) == Ok::<Seq<CoSimulationValue>, Fault>(
                    values@,
                ),
            decreases links@.len() - i,
        {
            let end = &links[i].source;
            proof {
                accepted_links_are_sound(
                    self.keys(),
                    self.all_ports(),
                    joins_of(links@),
                    links@.len() as int,
                    i as int,
                );
                assert(joins_of(links@)[i as int] == links@[i as int]@);
                lemma_key_at(self.keys(), end.participant@);
            }
            let k: usize = match self.find_key(end.participant.as_str()) {
                Some(k) => k,
                None => 0,
            };
            let port = match self.find_port(end) {
                Err(e) => {
                    return Err(e);
                },
                Ok(port) => port,
            };
            match read_link(&self.participants[k], end, port) {
                Err(e) => {
                    proof {
                        lemma_loads_stop(setting, self.participants@, links@.len() as int, i + 1);
                    }
                    return Err(e);
                },
                Ok(value) => {
                    values.push(value);
                },
            }
            i = i + 1;
        }
        Ok(values)
    }

    /// Writes one value per link to the link's target: whether any input
    /// changed.
    fn write_links(
        &mut self,
        links: &Vec<CoSimulationLink>,
        values: &Vec<CoSimulationValue>,
        time: CoSimulationTime,
        control: &ExecutionControl,
    ) -> (r: Result<bool, EngineError>)
        requires
            old(self).wf(),
            old(self).fit_links(links@),
            values@.len() == links@.len(),
        ensures
            final(self).wf(),
            final(self).same_graph(old(self)),
            final(self).fit_links(links@),
            match r {
                Ok(changed) => old(self).setting(*control).passed(
                    values@,
                    time,
                    old(self).participants@,
                    final(self).participants@,
                    changed,
                ),
                Err(e) => old(self).setting(*control).pass_broken(
                    values@,
                    time,
                    old(self).participants@,
                    final(self).participants@,
                    e@,
                ),
            },
    {
        let ghost start = *self;
        let ghost setting = self.setting(*control);
        let ghost mut chain: Seq<Seq<P>> = seq![self.participants@];
        let ghost mut changes: Seq<bool> = Seq::empty();
        let mut changed: bool = false;
        let mut i: usize = 0;
        while i < links.len()
            invariant
                i <= links@.len(),
                values@.len() == links@.len(),
                start == *old(self),
                self.wf(),
                self.same_graph(&start),
                start.fit_links(links@),
                self.fit_links(links@),
                setting == start.setting(*control),
                setting.joins == joins_of(links@),
                setting.hands_over(values@, time, chain, changes),
                changes.len() == i,
                chain[0] == start.participants@,
                chain.last() == self.participants@,
                changed == changes.contains(true),
            decreases links@.len() - i,
        {
            let end = &links[i].target;
            proof {
                accepted_links_are_sound(
                    self.keys(),
                    self.all_ports(),
                    joins_of(links@),
                    links@.len() as int,
                    i as int,
                );
                assert(joins_of(links@)[i as int] == links@[i as int]@);
                lemma_key_at(self.keys(), end.participant@);
            }
            let k: usize = match self.find_key(end.participant.as_str()) {
                Some(k) => k,
                None => 0,
            };
            let ghost before = *self;
            let outcome = self.participants[k].write_input(
                end.port.as_str(),
                time,
                &values[i],
                control,
            );
            proof {
                assert(self.all_ports() =~= before.all_ports());
                assert(names_of(self.participants@) =~= names_of(before.participants@));
                assert(self.participants@ =~= before.participants@.update(
                    k as int,
                    self.participants@[k as int],
                ));
                assert(setting.handed(
                    i as int,
                    values@[i as int],
                    time,
                    before.participants@,
                    self.participants@,
                    told(outcome),
                ));
            }
            match outcome {
                Err(e) => {
                    return Err(
                        participant_error(self.participants[k].id(), "write input", e),
                    );
                },
                Ok(c) => {
                    changed = changed || c;
                },
            }
            match check_stayed(
                self.participants[k].id(),
                self.participants[k].current_time(),
                time,
            ) {
                Err(e) => {
                    return Err(e);
                },
                Ok(_) => {},
            }
            proof {
                let c = outcome->Ok_0;
                lemma_handed_over(
                    setting,
                    values@,
                    time,
                    chain,
                    changes,
                    self.participants@,
                    c,
                );
                chain = chain.push(self.participants@);
                changes = changes.push(c);
            }
            i = i + 1;
        }
        Ok(changed)
    }

    /// Carries values over the links until no input changes any more: the number
    /// of delta cycles that changed one.
    ///
    /// What the participants do with what they are given is theirs. Each cycle
    /// hands every target what its source gave when the cycle began.
    pub fn settle_links(
        &mut self,
        links: &Vec<CoSimulationLink>,
        time: CoSimulationTime,
        control: &ExecutionControl,
        started: &Instant,
    ) -> (r: Result<usize, EngineError>)
        requires
            old(self).wf(),
            old(self).fit_links(links@),
        ensures
            final(self).wf(),
            final(self).same_graph(old(self)),
            final(self).fit_links(links@),
            match r {
                Ok(cycles) => old(self).setting(*control).settled(
                    time,
                    old(self).participants@,
                    final(self).participants@,
                    cycles as nat,
                ),
                Err(e) => old(self).setting(*control).settling_broken(
                    time,
                    old(self).participants@,
                    final(self).participants@,
                    e@,
                ),
            },
    {
        let ghost start = *self;
        let ghost setting = self.setting(*control);
        let ghost mut states: Seq<Seq<P>> = seq![self.participants@];
        let mut cycles: usize = 0;
        while cycles < self.config.max_delta_cycles
            invariant
                cycles <= self.config.max_delta_cycles,
                start == *old(self),
                self.wf(),
                self.same_graph(&start),
                self.fit_links(links@),
                setting == start.setting(*control),
                setting.unsettled(time, states),
                states.len() == cycles + 1,
                states[0] == start.participants@,
                states.last() == self.participants@,
            decreases self.config.max_delta_cycles - cycles,
        {
            assert(self.setting(*control) == setting);
            match check_control(control, started) {
                Err(e) => {
                    return Err(e);
                },
                Ok(_) => {},
            }
            let values = match self.read_links(links, Ghost(*control)) {
                Err(e) => {
                    return Err(e);
                },
                Ok(values) => values,
            };
            match self.write_links(links, &values, time, control) {
                Err(e) => {
                    return Err(e);
                },
                Ok(changed) => {
                    assert(setting.cycled(time, states.last(), self.participants@, changed));
                    if !changed {
                        return Ok(cycles);
                    }
                },
            }
            proof {
                lemma_unsettled_longer(setting, time, states, self.participants@);
                states = states.push(self.participants@);
            }
            cycles = cycles + 1;
        }
        Err(unsettled_error(&self.config, time))
    }
}

proof fn lemma_loads_stop<P: CoSimulationParticipant>(
    setting: Setting,
    members: Seq<P>,
    n: int,
    m: int,
)
    requires
        0 <= m <= n,
        setting.loads(members, m) is Err,
    ensures
        setting.loads(members, n) == setting.loads(members, m),
    decreases n - m,
{
    if m < n {
        lemma_loads_stop(setting, members, n, m + 1);
    }
}

/// The report of a finished co-simulation.
#[derive(Clone, Debug, PartialEq, Eq)]
pub struct CoSimulationReport {
    pub result: SimulationResult,
    pub scheduler: CoSimulationStats,
}

/// A participant that did not start at time zero.
pub open spec fn late_start_fault(id: Seq<char>, reached: CoSimulationTime) -> Fault {
    fault(
        "cosim_participant_time_invalid"@,
        "participant `"@ + id + "` initialized at "@ + decimal(reached.0 as nat)
            + " ps instead of time zero"@,
    )
}

/// A participant that did not go where it was asked to.
pub open spec fn astray_fault(id: Seq<char>, reached: CoSimulationTime, target: CoSimulationTime) -> Fault {
    fault(
        "cosim_participant_time_invalid"@,
        "participant `"@ + id + "` advanced to "@ + decimal(reached.0 as nat)
            + " ps instead of requested "@ + decimal(target.0 as nat) + " ps"@,
    )
}

/// Whether a participant starts at time zero.
pub fn check_started(id: &str, reached: CoSimulationTime) -> (r: Result<(), EngineError>)
    ensures
        passes(
            r,
            if reached.0 == 0 {
                None
            } else {
                Some(late_start_fault(id@, reached))
            },
        ),
{
    if reached.0 != 0 {
        return Err(
            fail(
                "cosim_participant_time_invalid",
                cat5(
                    "participant `",
                    id,
                    "` initialized at ",
                    decimal_text(reached.0).as_str(),
                    " ps instead of time zero",
                ),
            ),
        );
    }
    Ok(())
}

/// Whether a participant is where it was asked to go.
pub fn check_arrived(id: &str, reached: CoSimulationTime, target: CoSimulationTime) -> (r: Result<
    (),
    EngineError,
>)
    ensures
        passes(
            r,
            if reached == target {
                None
            } else {
                Some(astray_fault(id@, reached, target))
            },
        ),
{
    if reached.0 != target.0 {
        return Err(
            fail(
                "cosim_participant_time_invalid",
                crate::text::cat7(
                    "participant `",
                    id,
                    "` advanced to ",
                    decimal_text(reached.0).as_str(),
                    " ps instead of requested ",
                    decimal_text(target.0).as_str(),
                    " ps",
                ),
            ),
        );
    }
    Ok(())
}

/// The number of steps, cycles and advances of a run, in words.
pub open spec fn summary(stats: CoSimulationStats, participants: nat) -> Seq<char> {
    "co-simulation completed "@ + decimal(stats.macro_steps as nat) + " macro step(s), "@ + decimal(
        stats.delta_cycles as nat,
    ) + " delta cycle(s), and "@ + decimal(stats.participant_advances as nat)
        + " participant advance(s) across "@ + decimal(participants) + " participant(s)"@
}

/// All participants are at a time.
pub open spec fn all_at<P: CoSimulationParticipant>(members: Seq<P>, time: CoSimulationTime) -> bool {
    forall|i: int| 0 <= i < members.len() ==> (#[trigger] members[i]).reached() == time
}

/// A count of steps as a `usize`, the largest where it does not fit.
pub open spec fn tallied(n: int) -> usize {
    if n > usize::MAX {
        usize::MAX
    } else {
        n as usize
    }
}

impl<P: CoSimulationParticipant> CoSimulationScheduler<P> {
    /// Starts every participant.
    fn initialize_all(&mut self, control: &ExecutionControl) -> (r: Result<(), EngineError>)
        requires
            old(self).wf(),
        ensures
            final(self).wf(),
            final(self).same_graph(old(self)),
            match r {
                Ok(_) => old(self).setting(*control).all_started(
                    old(self).participants@,
                    final(self).participants@,
                ),
                Err(e) => old(self).setting(*control).start_broken(
                    old(self).participants@,
                    final(self).participants@,
                    e@,
                ),
            },
    {
        let ghost start = *self;
        let ghost setting = self.setting(*control);
        let mut i: usize = 0;
        while i < self.participants.len()
            invariant
                i <= self.participants@.len(),
                start == *old(self),
                self.wf(),
                self.same_graph(&start),
                setting == start.setting(*control),
                setting.started(start.participants@, self.participants@, i as int),
            decreases self.participants@.len() - i,
        {
            let ghost before = *self;
            let outcome = self.participants[i].initialize(control);
            proof {
                assert(self.all_ports() =~= before.all_ports());
                assert(names_of(self.participants@) =~= names_of(before.participants@));
                assert(before.participants@[i as int] == start.participants@[i as int]);
                assert(self.participants@.update(i as int, start.participants@[i as int])
                    =~= before.participants@);
                assert(start.participants@[i as int].may_start(
                    setting.control,
                    self.participants@[i as int],
                    told(outcome),
                ));
                assert(setting.keys[i as int] == self.ids@[i as int]@);
            }
            match outcome {
                Err(e) => {
                    let error = participant_error(self.ids[i].as_str(), "initialize", e);
                    assert(setting.start_stops_at(
                        start.participants@,
                        self.participants@,
                        i as int,
                        error@,
                    ));
                    return Err(error);
                },
                Ok(_) => {},
            }
            match check_started(self.ids[i].as_str(), self.participants[i].current_time()) {
                Err(e) => {
                    assert(setting.start_stops_at(
                        start.participants@,
                        self.participants@,
                        i as int,
                        e@,
                    ));
                    return Err(e);
                },
                Ok(_) => {},
            }
            proof {
                assert forall|k: int| 0 <= k < i + 1 implies (
                #[trigger] self.participants@[k]).reached() == CoSimulationTime(0)
                    && start.participants@[k].may_start(
                    setting.control,
                    self.participants@[k],
                    Ok(()),
                ) by {
                    if k < i {
                        assert(self.participants@[k] == before.participants@[k]);
                    }
                }
                assert forall|k: int| i + 1 <= k < self.participants@.len() implies
                    #[trigger] self.participants@[k] == start.participants@[k] by {
                    assert(self.participants@[k] == before.participants@[k]);
                }
            }
            i = i + 1;
        }
        Ok(())
    }

    /// Takes every participant to a time.
    fn advance_all(
        &mut self,
        target: CoSimulationTime,
        control: &ExecutionControl,
        started: &Instant,
    ) -> (r: Result<(), EngineError>)
        requires
            old(self).wf(),
        ensures
            final(self).wf(),
            final(self).same_graph(old(self)),
            match r {
                Ok(_) => old(self).setting(*control).all_advanced(
                    old(self).participants@,
                    final(self).participants@,
                    target,
                ),
                Err(e) => old(self).setting(*control).advance_broken(
                    old(self).participants@,
                    final(self).participants@,
                    target,
                    e@,
                ),
            },
    {
        let ghost start = *self;
        let ghost setting = self.setting(*control);
        let mut i: usize = 0;
        while i < self.participants.len()
            invariant
                i <= self.participants@.len(),
                start == *old(self),
                self.wf(),
                self.same_graph(&start),
                setting == start.setting(*control),
                setting.advanced(start.participants@, self.participants@, target, i as int),
            decreases self.participants@.len() - i,
        {
            match check_control(control, started) {
                Err(e) => {
                    proof {
                        assert(self.participants@.update(i as int, start.participants@[i as int])
                            =~= self.participants@);
                        assert(self.participants@[i as int] == start.participants@[i as int]);
                        assert(setting.advance_stops_at(
                            start.participants@,
                            self.participants@,
                            target,
                            i as int,
                            e@,
                        ));
                    }
                    return Err(e);
                },
                Ok(_) => {},
            }
            let ghost before = *self;
            let outcome = self.participants[i].advance_to(target, control);
            proof {
                assert(self.all_ports() =~= before.all_ports());
                assert(names_of(self.participants@) =~= names_of(before.participants@));
                assert(before.participants@[i as int] == start.participants@[i as int]);
                assert(self.participants@.update(i as int, start.participants@[i as int])
                    =~= before.participants@);
                assert(start.participants@[i as int].may_advance(
                    target,
                    setting.control,
                    self.participants@[i as int],
                    told(outcome),
                ));
                assert(setting.keys[i as int] == self.ids@[i as int]@);
            }
            match outcome {
                Err(e) => {
                    let error = participant_error(self.ids[i].as_str(), "advance", e);
                    assert(setting.advance_stops_at(
                        start.participants@,
                        self.participants@,
                        target,
                        i as int,
                        error@,
                    ));
                    return Err(error);
                },
                Ok(_) => {},
            }
            match check_arrived(
                self.ids[i].as_str(),
                self.participants[i].current_time(),
                target,
            ) {
                Err(e) => {
                    assert(setting.advance_stops_at(
                        start.participants@,
                        self.participants@,
                        target,
                        i as int,
                        e@,
                    ));
                    return Err(e);
                },
                Ok(_) => {},
            }
            proof {
                assert forall|k: int| 0 <= k < i + 1 implies (
                #[trigger] self.participants@[k]).reached() == target
                    && start.participants@[k].may_advance(
                    target,
                    setting.control,
                    self.participants@[k],
                    Ok(()),
                ) by {
                    if k < i {
                        assert(self.participants@[k] == before.participants@[k]);
                    }
                }
                assert forall|k: int| i + 1 <= k < self.participants@.len() implies
                    #[trigger] self.participants@[k] == start.participants@[k] by {
                    assert(self.participants@[k] == before.participants@[k]);
                }
            }
            i = i + 1;
        }
        Ok(())
    }

    /// Whether another step may be taken.
    pub open spec fn step_failure(&self, taken: usize) -> Option<Fault> {
        if taken >= self.config.max_steps {
            Some(step_limit_fault(self.config))
        } else {
            None
        }
    }

    fn check_steps(&self, taken: usize) -> (r: Result<(), EngineError>)
        ensures
            passes(r, self.step_failure(taken)),
    {
        if taken >= self.config.max_steps {
            return Err(
                fail(
                    "cosim_step_limit",
                    cat3(
                        "co-simulation exceeded the configured ",
                        decimal_text(self.config.max_steps as u64).as_str(),
                        " macro-step limit",
                    ),
                ),
            );
        }
        Ok(())
    }

    /// What is wrong before anything runs, if anything.
    pub open spec fn setup_failure(&self, control: ExecutionControl) -> Option<Fault> {
        match self.config.failure() {
            Some(f) => Some(f),
            None => control.policy.failure(),
        }
    }

    /// The report of a run.
    pub open spec fn reports(&self, report: CoSimulationReport, participants: nat) -> bool {
        &&& report.result.engine@ == COSIM_SCHEDULER_ID@
        &&& report.result.analysis == AnalysisKind::CoSimulationTransient
        &&& report.result.metadata.is_current(
            CIRCUIT_SCHEMA_VERSION,
            report.result.metadata.engine_version,
        )
        &&& report.result.metadata.engine_version matches Some(version) && version@ == VERSION@
        &&& report.result.diagnostics@.len() == 1
        &&& report.result.diagnostics@[0].level == DiagnosticLevel::Info
        &&& report.result.diagnostics@[0].code@ == "cosim_deterministic_scheduler"@
        &&& report.result.diagnostics@[0].message@ == summary(report.scheduler, participants)
        &&& report.result.stats.waveform_count == report.result.waveforms@.len()
        &&& report.result.stats.point_count == counted(total_points(report.result.waveforms@))
    }

    /// A run that ended well: the course that it took, up to the stop time, and
    /// what it tells of it.
    pub open spec fn finished(
        &self,
        control: ExecutionControl,
        trace: Trace<P>,
        after: Seq<P>,
        report: CoSimulationReport,
    ) -> bool {
        let setting = self.setting(control);
        &&& setting.takes_course(self.participants@, trace)
        &&& setting.scheduled(trace.times)
        &&& trace.times.last() == self.config.stop
        &&& trace.states.last() == after
        &&& report.scheduler.macro_steps == trace.len() - 1
        &&& report.scheduler.delta_cycles == tallied(total(trace.cycles) as int)
        &&& report.scheduler.participant_advances == tallied(
            (trace.len() - 1) * self.participants@.len(),
        )
        &&& report.result.waveforms@.len() == trace.tracks.last().len()
        &&& forall|i: int|
            0 <= i < report.result.waveforms@.len() ==> wave_shows(
                #[trigger] report.result.waveforms@[i],
                trace.tracks.last()[i],
                self.keys(),
            )
    }

    /// Runs all participants up to the stop time.
    ///
    /// What the participants do with what they are asked is theirs, and the
    /// signal or the clock may end a run. A run that ends well has taken every
    /// participant over one sequence of times to the stop time, each of them the
    /// one that `next_time` gives, has carried the values of the links at each of
    /// them until no input changed, and has recorded every port that gives
    /// something. A run that fails has done the same up to the call or the check
    /// that failed.
    #[verifier::rlimit(40)]
    pub fn run(&mut self, control: &ExecutionControl) -> (r: Result<CoSimulationReport, EngineError>)
        requires
            old(self).wf(),
        ensures
            final(self).wf(),
            final(self).same_graph(old(self)),
            old(self).setup_failure(*control) matches Some(f) ==> r matches Err(e) && e@ == f,
            old(self).setup_failure(*control) is None ==> (old(self).graph_failure() matches Some(f)
                ==> r matches Err(e) && (e@ == f || cosim_interrupted(control.policy, e@))),
            match r {
                Ok(report) => {
                    &&& old(self).setup_failure(*control) is None
                    &&& old(self).graph_failure() is None
                    &&& old(self).reports(report, old(self).participants@.len())
                    &&& 0 < report.scheduler.macro_steps <= old(self).config.max_steps
                    &&& all_at(final(self).participants@, old(self).config.stop)
                    &&& exists|trace: Trace<P>| #[trigger]
                        old(self).finished(*control, trace, final(self).participants@, report)
                },
                Err(e) => match old(self).setup_failure(*control) {
                    Some(f) => e@ == f && final(self).participants@ == old(self).participants@,
                    None => {
                        let setting = old(self).setting(*control);
                        let before = old(self).participants@;
                        let after = final(self).participants@;
                        ||| setting.interrupted(e@) && after == before
                        ||| match old(self).graph_failure() {
                            Some(f) => e@ == f && after == before,
                            None => setting.opening_broken(before, after, e@)
                                || setting.course_broken(before, after, e@),
                        }
                    },
                },
            },
    {
        match self.config.validate() {
            Err(e) => {
                return Err(e);
            },
            Ok(_) => {},
        }
        match control.policy.validate() {
            Err(e) => {
                return Err(e);
            },
            Ok(_) => {},
        }
        let ghost start = *self;
        let ghost setting = self.setting(*control);
        let started = clock_now();
        match check_control(control, &started) {
            Err(e) => {
                return Err(e);
            },
            Ok(_) => {},
        }
        let links = match self.validated_links() {
            Err(e) => {
                return Err(e);
            },
            Ok(links) => links,
        };
        proof {
            ordering_keeps_links(self.joins());
            assert(joins_of(links@).len() == links@.len());
            lemma_linked(self, *control);
        }
        match self.initialize_all(control) {
            Err(e) => {
                return Err(e);
            },
            Ok(_) => {},
        }
        let ghost mid = self.participants@;
        assert(self.setting(*control) == setting);
        let mut recorder = match WaveformRecorder::new(&self.ids, &self.participants) {
            Err(e) => {
                return Err(e);
            },
            Ok(recorder) => recorder,
        };
        let mut delta_cycles: usize = match self.settle_links(
            &links,
            CoSimulationTime(0),
            control,
            &started,
        ) {
            Err(e) => {
                return Err(e);
            },
            Ok(cycles) => cycles,
        };
        match recorder.record(CoSimulationTime(0), &self.ids, &self.participants) {
            Err(e) => {
                return Err(e);
            },
            Ok(_) => {},
        }
        let count: usize = self.participants.len();
        let stop: u64 = self.config.stop.0;
        let mut now = CoSimulationTime(0);
        let mut macro_steps: usize = 0;
        let mut advances: usize = 0;
        let ghost mut trace = Trace {
            times: seq![CoSimulationTime(0)],
            states: seq![self.participants@],
            tracks: seq![recorder@],
            cycles: seq![delta_cycles as nat],
        };
        proof {
            assert(0 * count == 0) by (nonlinear_arith);
            assert(setting.opened(
                start.participants@,
                self.participants@,
                recorder@,
                delta_cycles as nat,
            ));
            assert(trace.cycles.drop_last() =~= Seq::<nat>::empty());
            assert(total(trace.cycles.drop_last()) == 0);
            assert(total(trace.cycles) == delta_cycles);
        }
        while now.0 < stop
            invariant
                start == *old(self),
                stop == start.config.stop.0,
                start.config.failure() is None,
                start.setup_failure(*control) is None,
                start.graph_failure() is None,
                count == start.participants@.len(),
                self.wf(),
                self.same_graph(&start),
                self.fit_links(links@),
                setting == start.setting(*control),
                now.0 <= stop,
                macro_steps <= start.config.max_steps,
                advances == tallied(macro_steps * count),
                recorder.within(count as int),
                setting.takes_course(start.participants@, trace),
                trace.len() == macro_steps + 1,
                trace.times.last() == now,
                trace.states.last() == self.participants@,
                trace.tracks.last() == recorder@,
                delta_cycles == tallied(total(trace.cycles) as int),
            decreases stop - now.0,
        {
            assert(self.setting(*control) == setting);
            match check_control(control, &started) {
                Err(e) => {
                    return Err(e);
                },
                Ok(_) => {},
            }
            match self.check_steps(macro_steps) {
                Err(e) => {
                    return Err(e);
                },
                Ok(_) => {},
            }
            proof {
                next_target_is_bounded(
                    self.keys(),
                    events_of(self.participants@),
                    self.config,
                    now,
                    self.participants@.len() as int,
                );
            }
            let ghost before = self.participants@;
            let target = match self.next_time(now) {
                Err(e) => {
                    return Err(e);
                },
                Ok(target) => target,
            };
            match self.advance_all(target, control, &started) {
                Err(e) => {
                    return Err(e);
                },
                Ok(_) => {},
            }
            let ghost moved = self.participants@;
            assert(self.setting(*control) == setting);
            assert(setting.all_advanced(before, moved, target));
            proof {
                assert((macro_steps + 1) * count == macro_steps * count + count)
                    by (nonlinear_arith);
                assert(0 <= macro_steps * count) by (nonlinear_arith);
            }
            advances = advances.saturating_add(count);
            let cycles: usize = match self.settle_links(&links, target, control, &started) {
                Err(e) => {
                    return Err(e);
                },
                Ok(cycles) => cycles,
            };
            delta_cycles = delta_cycles.saturating_add(cycles);
            match recorder.record(target, &self.ids, &self.participants) {
                Err(e) => {
                    return Err(e);
                },
                Ok(_) => {},
            }
            proof {
                lemma_course_longer(
                    setting,
                    start.participants@,
                    trace,
                    target,
                    self.participants@,
                    recorder@,
                    cycles as nat,
                );
                trace = trace.with_step(target, self.participants@, recorder@, cycles as nat);
            }
            macro_steps = macro_steps + 1;
            now = target;
        }
        proof {
            times_keep_the_schedule(setting, start.participants@, trace);
            participants_stand_together(setting, start.participants@, trace, trace.len() - 1);
            assert(macro_steps > 0);
        }
        let stats = CoSimulationStats { macro_steps, delta_cycles, participant_advances: advances };
        let waveforms = recorder.finish(&self.ids);
        let message = cat9(
            "co-simulation completed ",
            decimal_text(macro_steps as u64).as_str(),
            " macro step(s), ",
            decimal_text(delta_cycles as u64).as_str(),
            " delta cycle(s), and ",
            decimal_text(advances as u64).as_str(),
            " participant advance(s) across ",
            decimal_text(count as u64).as_str(),
            " participant(s)",
        );
        let mut diagnostics: Vec<Diagnostic> = Vec::new();
        diagnostics.push(
            Diagnostic::new(
                DiagnosticLevel::Info,
                "cosim_deterministic_scheduler",
                message.as_str(),
            ),
        );
        let result = SimulationResult::new(
            EngineId::new(COSIM_SCHEDULER_ID),
            Some(VERSION.to_owned()),
            AnalysisKind::CoSimulationTransient,
            CIRCUIT_SCHEMA_VERSION,
            waveforms,
            diagnostics,
        );
        let report = CoSimulationReport { result, scheduler: stats };
        assert(start.finished(*control, trace, self.participants@, report));
        Ok(report)
    }
}

proof fn lemma_linked<P: CoSimulationParticipant>(
    scheduler: &CoSimulationScheduler<P>,
    control: ExecutionControl,
)
    requires
        scheduler.graph_failure() is None,
    ensures
        scheduler.setting(control).linked(),
{
    let setting = scheduler.setting(control);
    ordering_keeps_links(scheduler.joins());
    assert forall|i: int| 0 <= i < setting.joins.len() implies 0 <= #[trigger] setting.target_of(i)
        < setting.keys.len() by {
        accepted_links_are_sound(
            setting.keys,
            setting.ports,
            setting.joins,
            setting.joins.len() as int,
            i,
        );
        lemma_key_at(setting.keys, setting.joins[i].target.0);
    }
}

/// The next time is the stop time, a whole step away, or the time of an event: nothing
/// sooner than these.
pub proof fn next_target_is_reached_for_a_reason(
    ids: Seq<Seq<char>>,
    events: Seq<Option<CoSimulationTime>>,
    config: CoSimulationConfig,
    now: CoSimulationTime,
    n: int,
)
    requires
        0 <= n <= events.len(),
    ensures
        next_target(ids, events, config, now, n) matches Ok(target) ==> target.0 == config.stop.0
            || target.0 == now.0 + config.max_step.0 || exists|i: int|
            0 <= i < n && #[trigger] events[i] == Some(target),
        next_target(ids, events, config, now, n) is Err <==> exists|i: int|
            0 <= i < n && ((#[trigger] events[i]) matches Some(event) && event.0 <= now.0),
    decreases n,
{
    if n > 0 {
        next_target_is_reached_for_a_reason(ids, events, config, now, n - 1);
        if next_target(ids, events, config, now, n - 1) is Err {
            let i = choose|i: int|
                0 <= i < n - 1 && ((#[trigger] events[i]) matches Some(event) && event.0 <= now.0);
            assert(events[i] is Some);
        } else {
            match events[n - 1] {
                Some(event) => {
                    assert(events[n - 1] == Some(event));
                },
                None => {},
            }
        }
    }
}

/// Two ports can be linked exactly if the one gives and the other takes values, both of
/// one domain and, for analog values, of one unit.
pub proof fn fitting_ports_can_be_linked(
    join: Join,
    source: CoSimulationPort,
    target: CoSimulationPort,
)
    ensures
        pair_failure(join, source, target) is None <==> {
            &&& source.direction == PinDirection::Output || source.direction
                == PinDirection::Bidirectional
            &&& target.direction == PinDirection::Input || target.direction
                == PinDirection::Bidirectional
            &&& source.domain == target.domain
            &&& source.domain == SignalDomain::Analog ==> source.unit == target.unit
        },
{
}

/// A link hands on the value that its source gives, as it is.
pub proof fn links_hand_values_on<P: CoSimulationParticipant>(
    source: P,
    end: (Seq<char>, Seq<char>),
    port: CoSimulationPort,
    value: CoSimulationValue,
)
    requires
        carried(source, end, port) == Ok::<CoSimulationValue, Fault>(value),
    ensures
        source.output(end.1) == Ok::<CoSimulationValue, Fault>(value),
        value is Digital <==> port.domain == SignalDomain::Digital,
        value matches CoSimulationValue::Analog(x) ==> x.finite() && port.domain
            == SignalDomain::Analog,
{
}

} // verus!
