//! Which net each pin is connected to.
use crate::circuit::{Circuit, Net};
use crate::fault::{agrees, fail, fault, EngineError, Fault};
use crate::text::{cat5, cat9, concat_upto, text_eq};
use vstd::prelude::*;

verus! {

/// One pin on one net.
#[derive(Clone, Debug, PartialEq, Eq)]
pub struct Connection {
    pub component: String,
    pub pin: String,
    pub net: String,
}

/// What a `Connection` says.
pub struct Wire {
    pub component: Seq<char>,
    pub pin: Seq<char>,
    pub net: Seq<char>,
}

impl View for Connection {
    type V = Wire;

    open spec fn view(&self) -> Wire {
        Wire { component: self.component@, pin: self.pin@, net: self.net@ }
    }
}

/// The connections of a circuit, no pin twice.
#[derive(Clone, Debug, PartialEq, Eq)]
pub struct Wiring {
    pub connections: Vec<Connection>,
}

impl View for Wiring {
    type V = Seq<Wire>;

    open spec fn view(&self) -> Seq<Wire> {
        self.connections@.map_values(|c: Connection| c@)
    }
}

/// The connections of one net.
pub open spec fn net_wires(net: Net) -> Seq<Wire> {
    Seq::new(
        net.endpoints@.len(),
        |j: int|
            Wire {
                component: net.endpoints@[j].component@,
                pin: net.endpoints@[j].pin@,
                net: net.id@,
            },
    )
}

/// The connections of all nets, in order.
pub open spec fn wires(nets: Seq<Net>) -> Seq<Wire> {
    concat_upto(nets.len() as int, |i: int| net_wires(nets[i]))
}

/// The net of a pin, as the first connection of that pin has it.
pub open spec fn net_at(wires: Seq<Wire>, component: Seq<char>, pin: Seq<char>) -> Option<Seq<char>>
    decreases wires.len(),
{
    if wires.len() == 0 {
        None
    } else {
        match net_at(wires.drop_last(), component, pin) {
            Some(net) => Some(net),
            None => if wires.last().component == component && wires.last().pin == pin {
                Some(wires.last().net)
            } else {
                None
            },
        }
    }
}

/// The first connection of a pin that is connected already, and the net that it
/// is on before.
pub open spec fn first_repeat(wires: Seq<Wire>) -> Option<(Wire, Seq<char>)>
    decreases wires.len(),
{
    if wires.len() == 0 {
        None
    } else {
        match first_repeat(wires.drop_last()) {
            Some(repeat) => Some(repeat),
            None => {
                let wire = wires.last();
                match net_at(wires.drop_last(), wire.component, wire.pin) {
                    Some(previous) => Some((wire, previous)),
                    None => None,
                }
            },
        }
    }
}

/// The failure of a circuit that connects a pin twice, with both nets.
pub open spec fn clash(code: Seq<char>, wires: Seq<Wire>) -> Option<Fault> {
    match first_repeat(wires) {
        Some((wire, previous)) => Some(
            fault(
                code,
                "endpoint `"@ + wire.component + "."@ + wire.pin + "` is connected to both `"@
                    + previous + "` and `"@ + wire.net + "`"@,
            ),
        ),
        None => None,
    }
}

/// The failure of a circuit that connects a pin twice.
pub open spec fn overlap(code: Seq<char>, trouble: Seq<char>, wires: Seq<Wire>) -> Option<Fault> {
    match first_repeat(wires) {
        Some((wire, _)) => Some(
            fault(
                code,
                "endpoint `"@ + wire.component + "."@ + wire.pin + trouble,
            ),
        ),
        None => None,
    }
}

proof fn lemma_repeat_stays(wires: Seq<Wire>, n: int)
    requires
        0 <= n <= wires.len(),
        first_repeat(wires.take(n)) is Some,
    ensures
        first_repeat(wires) == first_repeat(wires.take(n)),
    decreases wires.len() - n,
{
    if n < wires.len() {
        assert(wires.take(n + 1).drop_last() =~= wires.take(n));
        lemma_repeat_stays(wires, n + 1);
    } else {
        assert(wires.take(n) =~= wires);
    }
}

proof fn lemma_net_at_stays(wires: Seq<Wire>, component: Seq<char>, pin: Seq<char>, n: int)
    requires
        0 <= n <= wires.len(),
        net_at(wires.take(n), component, pin) is Some,
    ensures
        net_at(wires, component, pin) == net_at(wires.take(n), component, pin),
    decreases wires.len() - n,
{
    if n < wires.len() {
        assert(wires.take(n + 1).drop_last() =~= wires.take(n));
        lemma_net_at_stays(wires, component, pin, n + 1);
    } else {
        assert(wires.take(n) =~= wires);
    }
}

impl Wiring {
    /// The net of a pin.
    pub fn find(&self, component: &str, pin: &str) -> (r: Option<&String>)
        ensures
            match (r, net_at(self@, component@, pin@)) {
                (Some(s), Some(t)) => s@ == t,
                (None, None) => true,
                _ => false,
            },
    {
        let mut i: usize = 0;
        while i < self.connections.len()
            invariant
                i <= self.connections@.len(),
                self@.len() == self.connections@.len(),
                net_at(self@.take(i as int), component@, pin@) is None,
            decreases self.connections@.len() - i,
        {
            let c = &self.connections[i];
            assert(self@.take(i + 1).drop_last() =~= self@.take(i as int));
            assert(self@.take(i + 1).last() == c@);
            if text_eq(c.component.as_str(), component) && text_eq(c.pin.as_str(), pin) {
                proof {
                    lemma_net_at_stays(self@, component@, pin@, i + 1);
                }
                return Some(&c.net);
            }
            i = i + 1;
        }
        assert(self@.take(i as int) =~= self@);
        None
    }
}

/// The connections of a circuit, or the first that connects a pin again with
/// the net that the pin is on before.
fn connect(circuit: &Circuit) -> (r: Result<Wiring, (Connection, String)>)
    ensures
        match r {
            Ok(wiring) => first_repeat(wires(circuit.nets@)) is None && wiring@ == wires(
                circuit.nets@,
            ),
            Err((connection, previous)) => first_repeat(wires(circuit.nets@)) == Some(
                (connection@, previous@),
            ),
        },
{
    let ghost all = wires(circuit.nets@);
    let ghost f = |i: int| net_wires(circuit.nets@[i]);
    let mut wiring = Wiring { connections: Vec::new() };
    assert(wiring@ =~= Seq::<Wire>::empty());
    let mut i: usize = 0;
    while i < circuit.nets.len()
        invariant
            i <= circuit.nets@.len(),
            all == wires(circuit.nets@),
            f == (|i: int| net_wires(circuit.nets@[i])),
            wiring@ == concat_upto(i as int, f),
            first_repeat(wiring@) is None,
        decreases circuit.nets@.len() - i,
    {
        let net = &circuit.nets[i];
        let ghost start = wiring@;
        let ghost piece = net_wires(*net);
        let mut j: usize = 0;
        assert(start + piece.take(0) =~= start);
        while j < net.endpoints.len()
            invariant
                j <= net.endpoints@.len(),
                i < circuit.nets@.len(),
                net == circuit.nets@[i as int],
                all == wires(circuit.nets@),
                f == (|i: int| net_wires(circuit.nets@[i])),
                start == concat_upto(i as int, f),
                piece == net_wires(*net),
                wiring@ == start + piece.take(j as int),
                first_repeat(wiring@) is None,
            decreases net.endpoints@.len() - j,
        {
            let endpoint = &net.endpoints[j];
            let ghost before = wiring@;
            let ghost next = piece[j as int];
            let earlier = match wiring.find(endpoint.component.as_str(), endpoint.pin.as_str()) {
                Some(previous) => Some(previous.clone()),
                None => None,
            };
            wiring.connections.push(
                Connection {
                    component: endpoint.component.0.clone(),
                    pin: endpoint.pin.0.clone(),
                    net: net.id.0.clone(),
                },
            );
            proof {
                assert(wiring@ =~= before.push(next));
                assert(wiring@.drop_last() =~= before);
                assert(start + piece.take(j + 1) =~= wiring@);
            }
            match earlier {
                Some(previous) => {
                    proof {
                        lemma_wires_prefix(circuit.nets@, i as int, j + 1);
                        lemma_repeat_stays(all, wiring@.len() as int);
                    }
                    return Err(
                        (
                            Connection {
                                component: endpoint.component.0.clone(),
                                pin: endpoint.pin.0.clone(),
                                net: net.id.0.clone(),
                            },
                            previous,
                        ),
                    );
                },
                None => {},
            }
            j = j + 1;
        }
        assert(piece.take(j as int) =~= piece);
        i = i + 1;
    }
    Ok(wiring)
}

/// The connections of a circuit; a pin that is connected twice is an error
/// with this code, about both nets.
pub fn endpoint_net_map(circuit: &Circuit, code: &str) -> (r: Result<Wiring, EngineError>)
    ensures
        agrees(
            r,
            match clash(code@, wires(circuit.nets@)) {
                Some(f) => Err(f),
                None => Ok(wires(circuit.nets@)),
            },
        ),
{
    match connect(circuit) {
        Ok(wiring) => Ok(wiring),
        Err((connection, previous)) => Err(
            fail(
                code,
                cat9(
                    "endpoint `",
                    connection.component.as_str(),
                    ".",
                    connection.pin.as_str(),
                    "` is connected to both `",
                    previous.as_str(),
                    "` and `",
                    connection.net.as_str(),
                    "`",
                ),
            ),
        ),
    }
}

/// The connections of a circuit; a pin that is connected twice is an error
/// with this code, about the pin.
pub fn single_net_map(circuit: &Circuit, code: &str, trouble: &str) -> (r: Result<
    Wiring,
    EngineError,
>)
    ensures
        agrees(
            r,
            match overlap(code@, trouble@, wires(circuit.nets@)) {
                Some(f) => Err(f),
                None => Ok(wires(circuit.nets@)),
            },
        ),
{
    match connect(circuit) {
        Ok(wiring) => Ok(wiring),
        Err((connection, _)) => Err(
            fail(
                code,
                cat5(
                    "endpoint `",
                    connection.component.as_str(),
                    ".",
                    connection.pin.as_str(),
                    trouble,
                ),
            ),
        ),
    }
}

/// The connections up to one in the middle of a net come first among all.
proof fn lemma_wires_prefix(nets: Seq<Net>, i: int, j: int)
    requires
        0 <= i < nets.len(),
        0 <= j <= nets[i].endpoints@.len(),
    ensures
        ({
            let f = |i: int| net_wires(nets[i]);
            let part = concat_upto(i, f) + net_wires(nets[i]).take(j);
            part.len() <= wires(nets).len() && wires(nets).take(part.len() as int) == part
        }),
{
    let f = |i: int| net_wires(nets[i]);
    let part = concat_upto(i, f) + net_wires(nets[i]).take(j);
    lemma_concat_prefix(nets.len() as int, f, i + 1);
    let longer = concat_upto(i + 1, f);
    assert(longer == concat_upto(i, f) + f(i));
    assert(longer.take(part.len() as int) =~= part);
    assert(wires(nets).take(part.len() as int) =~= wires(nets).take(longer.len() as int).take(
        part.len() as int,
    ));
}

/// Fewer pieces are a prefix of more.
pub proof fn lemma_concat_prefix<T>(n: int, f: spec_fn(int) -> Seq<T>, m: int)
    requires
        0 <= m <= n,
    ensures
        concat_upto(m, f).len() <= concat_upto(n, f).len(),
        concat_upto(n, f).take(concat_upto(m, f).len() as int) == concat_upto(m, f),
    decreases n,
{
    if m < n {
        lemma_concat_prefix(n - 1, f, m);
        let short = concat_upto(m, f);
        assert(concat_upto(n, f).take(short.len() as int) =~= concat_upto(n - 1, f).take(
            short.len() as int,
        ));
    } else {
        assert(concat_upto(n, f).take(concat_upto(n, f).len() as int) =~= concat_upto(n, f));
    }
}

} // verus!
