//! What a component's parameters, pins and connections say, in terms of what is
//! listed in it and in the nets.
use crate::circuit::{parameter_of, Component, Net, ParameterValue, Pin, PinDirection, SignalDomain};
use crate::digital::{edge_of, EdgeKind};
use crate::fault::Fault;
use crate::number::Real;
use crate::reading::{
    delay_seconds, has_pin, logic_of, needed_quantity, pin_failure, positive_seconds,
    quantity_of, seconds_of,
};
use crate::text::{concat_upto, lowercase, trim};
use crate::truth::mark;
use crate::units::Unit;
use crate::validation::pin_at;
use crate::waveform::LogicValue;
use crate::wiring::{net_at, net_wires, wires, Wire};
use vstd::prelude::*;

verus! {

/// A component lists a parameter with a value.
pub open spec fn lists(component: Component, key: Seq<char>, value: ParameterValue) -> bool {
    exists|k: int|
        0 <= k < component.parameters@.len() && #[trigger] component.parameters@[k] == (key, value)
}

/// A component lists a parameter with a value and with no other.
pub open spec fn gives(component: Component, key: Seq<char>, value: ParameterValue) -> bool {
    &&& lists(component, key, value)
    &&& forall|k: int|
        0 <= k < component.parameters@.len() && (#[trigger] component.parameters@[k]).0 == key
            ==> component.parameters@[k].1 == value
}

/// A component lists no such parameter.
pub open spec fn omits(component: Component, key: Seq<char>) -> bool {
    forall|k: int|
        0 <= k < component.parameters@.len() ==> (#[trigger] component.parameters@[k]).0 != key
}

/// A component lists a number in a unit.
pub open spec fn amounts(component: Component, key: Seq<char>, unit: Unit, x: Real) -> bool {
    ||| lists(component, key, ParameterValue::Number(x))
    ||| exists|q: crate::units::Quantity| #[trigger]
        lists(component, key, ParameterValue::Quantity(q)) && q.value == x && q.unit == unit
}

/// Some net has an endpoint at a pin.
pub open spec fn sits(nets: Seq<Net>, component: Seq<char>, pin: Seq<char>, net: Seq<char>) -> bool {
    exists|i: int, j: int|
        0 <= i < nets.len() && 0 <= j < nets[i].endpoints@.len() && (
        #[trigger] nets[i].endpoints@[j]).component@ == component && nets[i].endpoints@[j].pin@
            == pin && nets[i].id@ == net
}

proof fn lemma_parameter(s: Seq<(Seq<char>, ParameterValue)>, key: Seq<char>)
    ensures
        match parameter_of(s, key) {
            Some(value) => exists|k: int| 0 <= k < s.len() && #[trigger] s[k] == (key, value),
            None => forall|k: int| 0 <= k < s.len() ==> (#[trigger] s[k]).0 != key,
        },
    decreases s.len(),
{
    if s.len() > 0 {
        let last = s.len() - 1;
        let rest = s.drop_last();
        if s.last().0 == key {
            assert(s[last] == (key, s.last().1));
        } else {
            lemma_parameter(rest, key);
            match parameter_of(rest, key) {
                Some(value) => {
                    let k = choose|k: int| 0 <= k < rest.len() && #[trigger] rest[k] == (key, value);
                    assert(s[k] == (key, value));
                },
                None => {
                    assert forall|k: int| 0 <= k < s.len() implies (#[trigger] s[k]).0 != key by {
                        if k < last {
                            assert(rest[k] == s[k]);
                        }
                    }
                },
            }
        }
    }
}

/// A parameter that is looked up is one that the component lists, and it is found
/// whenever there is one.
pub proof fn parameters_are_found(component: Component, key: Seq<char>, value: ParameterValue)
    ensures
        parameter_of(component.parameters@, key) == Some(value) ==> lists(component, key, value),
        gives(component, key, value) ==> parameter_of(component.parameters@, key) == Some(value),
        parameter_of(component.parameters@, key) is None <==> omits(component, key),
{
    lemma_parameter(component.parameters@, key);
    if gives(component, key, value) {
        let k = choose|k: int|
            0 <= k < component.parameters@.len() && #[trigger] component.parameters@[k] == (
                key,
                value,
            );
        assert(component.parameters@[k].0 == key);
    }
}

proof fn lemma_pin(pins: Seq<Pin>, name: Seq<char>)
    ensures
        match pin_at(pins, name) {
            Some(i) => 0 <= i < pins.len() && pins[i].id@ == name,
            None => forall|k: int| 0 <= k < pins.len() ==> (#[trigger] pins[k]).id@ != name,
        },
    decreases pins.len(),
{
    if pins.len() > 0 {
        let rest = pins.drop_last();
        lemma_pin(rest, name);
        if pin_at(rest, name) is None {
            assert forall|k: int| 0 <= k < pins.len() - 1 implies (#[trigger] pins[k]).id@
                != name by {
                assert(rest[k] == pins[k]);
            }
        }
    }
}

/// A component has a pin exactly if one of that name is listed.
pub proof fn pins_are_found(component: Component, name: Seq<char>)
    ensures
        has_pin(component, name) <==> exists|k: int|
            0 <= k < component.pins@.len() && (#[trigger] component.pins@[k]).id@ == name,
        pin_at(component.pins@, name) matches Some(i) ==> 0 <= i < component.pins@.len()
            && component.pins@[i].id@ == name,
{
    lemma_pin(component.pins@, name);
}

/// A pin that serves as a digital input is listed as one, and so for an output.
pub proof fn digital_pins_have_their_direction(
    code: Seq<char>,
    component: Component,
    name: Seq<char>,
    direction: PinDirection,
)
    requires
        pin_failure(code, component, name, direction) is None,
    ensures
        exists|k: int|
            0 <= k < component.pins@.len() && (#[trigger] component.pins@[k]).id@ == name
                && component.pins@[k].direction == direction && component.pins@[k].domain
                == SignalDomain::Digital,
{
    lemma_pin(component.pins@, name);
    let i = pin_at(component.pins@, name)->0;
    assert(component.pins@[i].id@ == name);
}

proof fn lemma_wire(ws: Seq<Wire>, component: Seq<char>, pin: Seq<char>)
    ensures
        match net_at(ws, component, pin) {
            Some(net) => exists|k: int|
                0 <= k < ws.len() && #[trigger] ws[k] == (Wire { component, pin, net }),
            None => forall|k: int|
                0 <= k < ws.len() ==> (#[trigger] ws[k]).component != component || ws[k].pin != pin,
        },
    decreases ws.len(),
{
    if ws.len() > 0 {
        let rest = ws.drop_last();
        let last = ws.len() - 1;
        lemma_wire(rest, component, pin);
        match net_at(rest, component, pin) {
            Some(net) => {
                let k = choose|k: int|
                    0 <= k < rest.len() && #[trigger] rest[k] == (Wire { component, pin, net });
                assert(ws[k] == (Wire { component, pin, net }));
            },
            None => {
                assert forall|k: int| 0 <= k < last implies (#[trigger] ws[k]).component
                    != component || ws[k].pin != pin by {
                    assert(rest[k] == ws[k]);
                }
                if net_at(ws, component, pin) is Some {
                    assert(ws[last] == (Wire { component, pin, net: ws.last().net }));
                }
            },
        }
    }
}

proof fn lemma_origin(nets: Seq<Net>, n: int, k: int)
    requires
        0 <= n <= nets.len(),
        0 <= k < concat_upto(n, |i: int| net_wires(nets[i])).len(),
    ensures
        ({
            let w = concat_upto(n, |i: int| net_wires(nets[i]))[k];
            sits(nets, w.component, w.pin, w.net)
        }),
    decreases n,
{
    let f = |i: int| net_wires(nets[i]);
    let short = concat_upto(n - 1, f);
    if k < short.len() {
        lemma_origin(nets, n - 1, k);
    } else {
        let j = k - short.len();
        let w = concat_upto(n, f)[k];
        assert(w == net_wires(nets[n - 1])[j]);
        assert(nets[n - 1].endpoints@[j].component@ == w.component);
    }
}

proof fn lemma_arrival(nets: Seq<Net>, n: int, i: int, j: int)
    requires
        0 <= i < n <= nets.len(),
        0 <= j < nets[i].endpoints@.len(),
    ensures
        concat_upto(n, |i: int| net_wires(nets[i])).contains(
            Wire {
                component: nets[i].endpoints@[j].component@,
                pin: nets[i].endpoints@[j].pin@,
                net: nets[i].id@,
            },
        ),
    decreases n,
{
    let f = |i: int| net_wires(nets[i]);
    let short = concat_upto(n - 1, f);
    let w = Wire {
        component: nets[i].endpoints@[j].component@,
        pin: nets[i].endpoints@[j].pin@,
        net: nets[i].id@,
    };
    if i < n - 1 {
        lemma_arrival(nets, n - 1, i, j);
        let k = choose|k: int| 0 <= k < short.len() && #[trigger] short[k] == w;
        assert(concat_upto(n, f)[k] == w);
    } else {
        assert(net_wires(nets[i])[j] == w);
        assert(concat_upto(n, f)[short.len() + j] == w);
    }
}

/// The net of a pin is one that has an endpoint there, and a pin at which some net
/// has an endpoint has a net.
pub proof fn pins_are_on_the_nets_that_reach_them(
    nets: Seq<Net>,
    component: Seq<char>,
    pin: Seq<char>,
    net: Seq<char>,
)
    ensures
        net_at(wires(nets), component, pin) == Some(net) ==> sits(nets, component, pin, net),
        sits(nets, component, pin, net) ==> net_at(wires(nets), component, pin) is Some,
{
    lemma_wire(wires(nets), component, pin);
    if net_at(wires(nets), component, pin) == Some(net) {
        let k = choose|k: int|
            0 <= k < wires(nets).len() && #[trigger] wires(nets)[k] == (Wire { component, pin, net });
        lemma_origin(nets, nets.len() as int, k);
    }
    if sits(nets, component, pin, net) {
        let (i, j) = choose|i: int, j: int|
            0 <= i < nets.len() && 0 <= j < nets[i].endpoints@.len() && (
            #[trigger] nets[i].endpoints@[j]).component@ == component && nets[i].endpoints@[j].pin@
                == pin && nets[i].id@ == net;
        lemma_arrival(nets, nets.len() as int, i, j);
        let k = choose|k: int|
            0 <= k < wires(nets).len() && #[trigger] wires(nets)[k] == (Wire { component, pin, net });
        assert(wires(nets)[k].component == component);
    }
}

/// A parameter that gives a level: true, one and the words for high give a high one,
/// false, zero and the words for low a low one.
pub proof fn level_parameters_mean_what_they_say(
    code: Seq<char>,
    component: Component,
    key: Seq<char>,
    text: String,
)
    ensures
        omits(component, key) ==> logic_of(code, component, key) == Ok::<
            Option<LogicValue>,
            Fault,
        >(None),
        gives(component, key, ParameterValue::Boolean(true)) || gives(
            component,
            key,
            ParameterValue::Integer(1),
        ) ==> logic_of(code, component, key) == Ok::<Option<LogicValue>, Fault>(
            Some(LogicValue::One),
        ),
        gives(component, key, ParameterValue::Boolean(false)) || gives(
            component,
            key,
            ParameterValue::Integer(0),
        ) ==> logic_of(code, component, key) == Ok::<Option<LogicValue>, Fault>(
            Some(LogicValue::Zero),
        ),
        gives(component, key, ParameterValue::Text(text)) ==> {
            let word = lowercase(trim(text@));
            &&& word == "1"@ || word == "one"@ || word == "high"@ ==> logic_of(code, component, key)
                == Ok::<Option<LogicValue>, Fault>(Some(LogicValue::One))
            &&& word == "0"@ || word == "zero"@ || word == "low"@ ==> logic_of(code, component, key)
                == Ok::<Option<LogicValue>, Fault>(Some(LogicValue::Zero))
            &&& word == "x"@ || word == "unknown"@ ==> logic_of(code, component, key) == Ok::<
                Option<LogicValue>,
                Fault,
            >(Some(LogicValue::X))
            &&& word == "z"@ || word == "high_impedance"@ || word == "high-impedance"@ ==> logic_of(
                code,
                component,
                key,
            ) == Ok::<Option<LogicValue>, Fault>(Some(LogicValue::Z))
        },
{
    parameters_are_found(component, key, ParameterValue::Boolean(true));
    parameters_are_found(component, key, ParameterValue::Boolean(false));
    parameters_are_found(component, key, ParameterValue::Integer(0));
    parameters_are_found(component, key, ParameterValue::Integer(1));
    parameters_are_found(component, key, ParameterValue::Text(text));
    reveal_strlit("0");
    reveal_strlit("zero");
    reveal_strlit("low");
    reveal_strlit("1");
    reveal_strlit("one");
    reveal_strlit("high");
    reveal_strlit("x");
    reveal_strlit("unknown");
    reveal_strlit("z");
    reveal_strlit("high_impedance");
    reveal_strlit("high-impedance");
    assert(mark("0"@) < mark("1"@) < mark("x"@) < mark("z"@) < mark("low"@) < mark("one"@) < mark(
        "high"@,
    ) < mark("zero"@) < mark("unknown"@) < mark("high_impedance"@));
    assert("high_impedance"@.len() == 14 && "high-impedance"@.len() == 14);
}

/// A clock input acts on rising edges unless its component asks for falling ones.
pub proof fn active_edge_is_the_one_asked_for(component: Component, text: String)
    ensures
        omits(component, "edge"@) ==> edge_of(component) == Ok::<EdgeKind, Fault>(EdgeKind::Rising),
        gives(component, "edge"@, ParameterValue::Text(text)) ==> {
            let word = lowercase(trim(text@));
            &&& word == "rising"@ || word == "positive"@ || word == "pos"@ ==> edge_of(component)
                == Ok::<EdgeKind, Fault>(EdgeKind::Rising)
            &&& word == "falling"@ || word == "negative"@ || word == "neg"@ ==> edge_of(component)
                == Ok::<EdgeKind, Fault>(EdgeKind::Falling)
        },
{
    parameters_are_found(component, "edge"@, ParameterValue::Text(text));
    reveal_strlit("rising");
    reveal_strlit("positive");
    reveal_strlit("pos");
    reveal_strlit("falling");
    reveal_strlit("negative");
    reveal_strlit("neg");
    assert(mark("neg"@) < mark("pos"@) < mark("rising"@) < mark("falling"@) < mark("negative"@)
        < mark("positive"@));
}

/// A time is a listed number or a listed quantity in seconds, and a delay is not
/// negative, a period positive.
pub proof fn times_are_listed(code: Seq<char>, component: Component, key: Seq<char>, x: Real)
    ensures
        seconds_of(code, component, key) == Ok::<Option<Real>, Fault>(Some(x)) ==> x.finite() && (
        amounts(component, key, Unit::Second, x) || exists|n: i64| #[trigger]
            lists(component, key, ParameterValue::Integer(n)) && x == Real::of_int(n as int)),
        seconds_of(code, component, key) == Ok::<Option<Real>, Fault>(None) <==> omits(
            component,
            key,
        ),
        delay_seconds(code, component, key) == Ok::<Option<Real>, Fault>(Some(x)) ==> seconds_of(
            code,
            component,
            key,
        ) == Ok::<Option<Real>, Fault>(Some(x)) && x.key() >= 0,
        positive_seconds(code, component, key) == Ok::<Real, Fault>(x) ==> seconds_of(
            code,
            component,
            key,
        ) == Ok::<Option<Real>, Fault>(Some(x)) && x.key() > 0,
{
    match parameter_of(component.parameters@, key) {
        Some(value) => {
            parameters_are_found(component, key, value);
        },
        None => {
            parameters_are_found(component, key, ParameterValue::Integer(0));
        },
    }
}

/// An amount in a unit is a listed number or a listed quantity in that unit.
pub proof fn amounts_are_listed(
    code: Seq<char>,
    component: Component,
    key: Seq<char>,
    unit: Unit,
    x: Real,
)
    ensures
        quantity_of(code, component, key, unit) == Ok::<Option<Real>, Fault>(Some(x)) ==> x.finite()
            && amounts(component, key, unit, x),
        needed_quantity(code, component, key, unit) == Ok::<Real, Fault>(x) ==> x.finite() && amounts(
            component,
            key,
            unit,
            x,
        ),
        quantity_of(code, component, key, unit) == Ok::<Option<Real>, Fault>(None) <==> omits(
            component,
            key,
        ),
{
    match parameter_of(component.parameters@, key) {
        Some(value) => {
            parameters_are_found(component, key, value);
        },
        None => {
            parameters_are_found(component, key, ParameterValue::Integer(0));
        },
    }
}

} // verus!
