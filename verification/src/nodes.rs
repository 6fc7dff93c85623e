//! The nodes of a netlist: which node stands for which net, which nets are
//! ground, and what the sources of a circuit are called.
use crate::circuit::{Circuit, Component, Net};
use crate::fault::{agrees, EngineError, Fault, fault};
use crate::reading::{about, component_error, component_fault, error_about};
use crate::text::{cat2, concat_upto, decimal, decimal_text, text_eq, texts};
use crate::units::Unit;
use crate::wiring::{net_at, overlap, single_net_map, wires, Wire, Wiring};
use vstd::prelude::*;

verus! {

/// A net and the node that stands for it.
#[derive(Clone, Debug, PartialEq, Eq)]
pub struct NodeName {
    pub net: String,
    pub node: String,
}

impl View for NodeName {
    type V = (Seq<char>, Seq<char>);

    open spec fn view(&self) -> (Seq<char>, Seq<char>) {
        (self.net@, self.node@)
    }
}

/// The nodes of the nets of a circuit.
#[derive(Clone, Debug, PartialEq, Eq)]
pub struct NodeMap {
    pub names: Vec<NodeName>,
}

impl View for NodeMap {
    type V = Seq<(Seq<char>, Seq<char>)>;

    open spec fn view(&self) -> Seq<(Seq<char>, Seq<char>)> {
        self.names@.map_values(|n: NodeName| n@)
    }
}

/// The node of a net, as the last net of that name has it.
pub open spec fn node_at(nodes: Seq<(Seq<char>, Seq<char>)>, net: Seq<char>) -> Option<Seq<char>>
    decreases nodes.len(),
{
    if nodes.len() == 0 {
        None
    } else if nodes.last().0 == net {
        Some(nodes.last().1)
    } else {
        node_at(nodes.drop_last(), net)
    }
}

impl NodeMap {
    pub fn find(&self, net: &str) -> (r: Option<&String>)
        ensures
            match (r, node_at(self@, net@)) {
                (Some(s), Some(t)) => s@ == t,
                (None, None) => true,
                _ => false,
            },
    {
        let mut i: usize = self.names.len();
        assert(self@.take(i as int) =~= self@);
        while i > 0
            invariant
                i <= self.names@.len(),
                node_at(self@, net@) == node_at(self@.take(i as int), net@),
            decreases i,
        {
            assert(self@.take(i as int).last() == self.names@[i - 1]@);
            assert(self@.take(i as int).drop_last() =~= self@.take(i - 1));
            i = i - 1;
            if text_eq(self.names[i].net.as_str(), net) {
                return Some(&self.names[i].node);
            }
        }
        None
    }
}

pub open spec fn is_ground(component: Component) -> bool {
    component.kind@ == "ground"@
}

/// The first ground component that has not exactly one pin.
pub open spec fn ground_failure(code: Seq<char>, components: Seq<Component>, n: int) -> Option<
    Fault,
>
    decreases n,
{
    if n <= 0 {
        None
    } else {
        match ground_failure(code, components, n - 1) {
            Some(f) => Some(f),
            None => if is_ground(components[n - 1]) && components[n - 1].pins@.len() != 1 {
                Some(
                    component_fault(
                        code,
                        components[n - 1],
                        "ground must expose exactly one pin"@,
                    ),
                )
            } else {
                None
            },
        }
    }
}

proof fn lemma_ground_failure_stops(code: Seq<char>, components: Seq<Component>, n: int, m: int)
    requires
        0 <= m <= n,
        ground_failure(code, components, m) is Some,
    ensures
        ground_failure(code, components, n) == ground_failure(code, components, m),
    decreases n - m,
{
    if m < n {
        lemma_ground_failure_stops(code, components, n, m + 1);
    }
}

/// Whether a net has a pin of a component.
pub open spec fn touches(net: Net, component: Seq<char>, pin: Seq<char>) -> bool {
    exists|j: int|
        0 <= j < net.endpoints@.len() && (#[trigger] net.endpoints@[j]).component@ == component
            && net.endpoints@[j].pin@ == pin
}

/// The name of a net, if a ground component makes it ground.
pub open spec fn grounded_by(component: Component, net: Net) -> Seq<Seq<char>> {
    if is_ground(component) && component.pins@.len() == 1 && touches(
        net,
        component.id@,
        component.pins@[0].id@,
    ) {
        seq![net.id@]
    } else {
        Seq::empty()
    }
}

/// The nets that one component makes ground.
pub open spec fn grounds_of(component: Component, nets: Seq<Net>) -> Seq<Seq<char>> {
    concat_upto(nets.len() as int, |j: int| grounded_by(component, nets[j]))
}

/// The nets that are ground.
pub open spec fn ground_nets(circuit: Circuit) -> Seq<Seq<char>> {
    concat_upto(
        circuit.components@.len() as int,
        |k: int| grounds_of(circuit.components@[k], circuit.nets@),
    )
}

fn touches_pin(net: &Net, component: &str, pin: &str) -> (r: bool)
    ensures
        r == touches(*net, component@, pin@),
{
    let mut j: usize = 0;
    while j < net.endpoints.len()
        invariant
            j <= net.endpoints@.len(),
            forall|k: int|
                0 <= k < j ==> !((#[trigger] net.endpoints@[k]).component@ == component@
                    && net.endpoints@[k].pin@ == pin@),
        decreases net.endpoints@.len() - j,
    {
        let endpoint = &net.endpoints[j];
        if text_eq(endpoint.component.as_str(), component) && text_eq(endpoint.pin.as_str(), pin) {
            assert(net.endpoints@[j as int].component@ == component@);
            return true;
        }
        j = j + 1;
    }
    false
}

/// The nets that are ground; a ground component that has not exactly one pin is
/// an error.
pub fn find_ground_nets(circuit: &Circuit, code: &str) -> (r: Result<Vec<String>, EngineError>)
    ensures
        match (r, ground_failure(code@, circuit.components@, circuit.components@.len() as int)) {
            (Ok(v), None) => texts(v@) == ground_nets(*circuit),
            (Err(e), Some(f)) => e@ == f,
            _ => false,
        },
{
    let ghost components = circuit.components@;
    let ghost nets = circuit.nets@;
    let ghost f = |k: int| grounds_of(circuit.components@[k], circuit.nets@);
    let mut out: Vec<String> = Vec::new();
    let mut i: usize = 0;
    assert(texts(out@) =~= Seq::<Seq<char>>::empty());
    while i < circuit.components.len()
        invariant
            i <= circuit.components@.len(),
            components == circuit.components@,
            nets == circuit.nets@,
            f == (|k: int| grounds_of(circuit.components@[k], circuit.nets@)),
            ground_failure(code@, components, i as int) is None,
            texts(out@) == concat_upto(i as int, f),
        decreases circuit.components@.len() - i,
    {
        let component = &circuit.components[i];
        let ghost start = texts(out@);
        let ghost c = *component;
        let ghost g = |j: int| grounded_by(c, nets[j]);
        if text_eq(component.kind.as_str(), "ground") {
            if component.pins.len() != 1 {
                proof {
                    lemma_ground_failure_stops(
                        code@,
                        components,
                        components.len() as int,
                        i + 1,
                    );
                }
                return Err(component_error(code, component, "ground must expose exactly one pin"));
            }
            let mut j: usize = 0;
            assert(start + concat_upto(0, g) =~= start);
            while j < circuit.nets.len()
                invariant
                    j <= circuit.nets@.len(),
                    nets == circuit.nets@,
                    c == *component,
                    is_ground(c),
                    c.pins@.len() == 1,
                    g == (|j: int| grounded_by(c, nets[j])),
                    texts(out@) == start + concat_upto(j as int, g),
                decreases circuit.nets@.len() - j,
            {
                let net = &circuit.nets[j];
                let ghost before = texts(out@);
                if touches_pin(net, component.id.as_str(), component.pins[0].id.as_str()) {
                    out.push(net.id.0.clone());
                    assert(texts(out@) =~= before.push(net.id@));
                }
                assert(texts(out@) =~= start + (concat_upto(j as int, g) + g(j as int)));
                j = j + 1;
            }
            assert(grounds_of(c, nets) == concat_upto(j as int, g));
        } else {
            proof {
                lemma_no_grounds(c, nets, nets.len() as int);
            }
            assert(start + f(i as int) =~= start);
        }
        i = i + 1;
    }
    Ok(out)
}

proof fn lemma_no_grounds(component: Component, nets: Seq<Net>, n: int)
    requires
        !is_ground(component),
    ensures
        concat_upto(n, |j: int| grounded_by(component, nets[j])) == Seq::<Seq<char>>::empty(),
    decreases n,
{
    if n > 0 {
        lemma_no_grounds(component, nets, n - 1);
        let g = |j: int| grounded_by(component, nets[j]);
        assert(concat_upto(n, g) =~= concat_upto(n - 1, g) + Seq::<Seq<char>>::empty());
    }
}

pub fn holds_text(v: &Vec<String>, text: &str) -> (r: bool)
    ensures
        r == texts(v@).contains(text@),
{
    let mut i: usize = 0;
    while i < v.len()
        invariant
            i <= v@.len(),
            forall|k: int| 0 <= k < i ==> (#[trigger] texts(v@)[k]) != text@,
        decreases v@.len() - i,
    {
        assert(texts(v@)[i as int] == v@[i as int]@);
        if text_eq(v[i].as_str(), text) {
            return true;
        }
        i = i + 1;
    }
    assert(texts(v@).len() == v@.len());
    false
}

/// A source of a circuit and its name in a netlist.
#[derive(Clone, Debug, PartialEq, Eq)]
pub struct SourceName {
    pub component: String,
    pub name: String,
    pub unit: Unit,
}

/// What a `SourceName` says.
pub struct Source {
    pub component: Seq<char>,
    pub name: Seq<char>,
    pub unit: Unit,
}

impl View for SourceName {
    type V = Source;

    open spec fn view(&self) -> Source {
        Source { component: self.component@, name: self.name@, unit: self.unit }
    }
}

pub open spec fn sources(v: Seq<SourceName>) -> Seq<Source> {
    v.map_values(|s: SourceName| s@)
}

/// How many of the first `n` components are of a kind.
pub open spec fn kind_count(components: Seq<Component>, kind: Seq<char>, n: int) -> nat
    decreases n,
{
    if n <= 0 {
        0
    } else {
        kind_count(components, kind, n - 1) + if components[n - 1].kind@ == kind {
            1nat
        } else {
            0nat
        }
    }
}

/// The sources among the first `n` components: voltage sources and current
/// sources are numbered apart.
pub open spec fn sources_of(components: Seq<Component>, n: int) -> Seq<Source>
    decreases n,
{
    if n <= 0 {
        Seq::empty()
    } else {
        let before = sources_of(components, n - 1);
        let component = components[n - 1];
        if component.kind@ == "voltage_source"@ {
            before.push(
                Source {
                    component: component.id@,
                    name: "V"@ + decimal(kind_count(components, "voltage_source"@, n)),
                    unit: Unit::Volt,
                },
            )
        } else if component.kind@ == "current_source"@ {
            before.push(
                Source {
                    component: component.id@,
                    name: "I"@ + decimal(kind_count(components, "current_source"@, n)),
                    unit: Unit::Ampere,
                },
            )
        } else {
            before
        }
    }
}

/// The name of a source, as the last source of that component has it.
pub open spec fn source_at(sources: Seq<Source>, component: Seq<char>) -> Option<Source>
    decreases sources.len(),
{
    if sources.len() == 0 {
        None
    } else if sources.last().component == component {
        Some(sources.last())
    } else {
        source_at(sources.drop_last(), component)
    }
}

fn name_sources(components: &Vec<Component>) -> (r: Vec<SourceName>)
    ensures
        sources(r@) == sources_of(components@, components@.len() as int),
{
    let mut out: Vec<SourceName> = Vec::new();
    let mut voltages: u64 = 0;
    let mut currents: u64 = 0;
    let mut i: usize = 0;
    proof {
        reveal_strlit("voltage_source");
        reveal_strlit("current_source");
        assert("voltage_source"@[0] == 'v' && "current_source"@[0] == 'c');
    }
    assert(sources(out@) =~= Seq::<Source>::empty());
    while i < components.len()
        invariant
            i <= components@.len(),
            "voltage_source"@ != "current_source"@,
            voltages == kind_count(components@, "voltage_source"@, i as int),
            currents == kind_count(components@, "current_source"@, i as int),
            voltages <= i,
            currents <= i,
            sources(out@) == sources_of(components@, i as int),
        decreases components@.len() - i,
    {
        let component = &components[i];
        let ghost before = sources(out@);
        if text_eq(component.kind.as_str(), "voltage_source") {
            voltages = voltages + 1;
            out.push(
                SourceName {
                    component: component.id.0.clone(),
                    name: cat2("V", decimal_text(voltages).as_str()),
                    unit: Unit::Volt,
                },
            );
            assert(sources(out@) =~= before.push(out@.last()@));
        } else if text_eq(component.kind.as_str(), "current_source") {
            currents = currents + 1;
            out.push(
                SourceName {
                    component: component.id.0.clone(),
                    name: cat2("I", decimal_text(currents).as_str()),
                    unit: Unit::Ampere,
                },
            );
            assert(sources(out@) =~= before.push(out@.last()@));
        }
        i = i + 1;
    }
    out
}

/// The connections, nodes and sources of an analog netlist.
#[derive(Clone, Debug, PartialEq, Eq)]
pub struct Topology {
    pub wiring: Wiring,
    pub nodes: NodeMap,
    pub sources: Vec<SourceName>,
}

/// What a `Topology` says.
pub struct Layout {
    pub wires: Seq<Wire>,
    pub nodes: Seq<(Seq<char>, Seq<char>)>,
    pub sources: Seq<Source>,
}

impl View for Topology {
    type V = Layout;

    open spec fn view(&self) -> Layout {
        Layout { wires: self.wiring@, nodes: self.nodes@, sources: sources(self.sources@) }
    }
}

/// The node of one net of an analog netlist: ground is node zero, other nets are
/// numbered from one.
pub open spec fn analog_node(circuit: Circuit, i: int) -> (Seq<char>, Seq<char>) {
    (
        circuit.nets@[i].id@,
        if ground_nets(circuit).contains(circuit.nets@[i].id@) {
            "0"@
        } else {
            "n"@ + decimal((i + 1) as nat)
        },
    )
}

/// The nodes of an analog netlist.
pub open spec fn analog_nodes(circuit: Circuit) -> Seq<(Seq<char>, Seq<char>)> {
    Seq::new(circuit.nets@.len(), |i: int| analog_node(circuit, i))
}

/// The layout of a circuit whose nets have these nodes.
pub open spec fn layout_on(circuit: Circuit, nodes: Seq<(Seq<char>, Seq<char>)>) -> Result<
    Layout,
    Fault,
> {
    match overlap(
        "ngspice_endpoint_multiple_nets"@,
        "` belongs to more than one net"@,
        wires(circuit.nets@),
    ) {
        Some(f) => Err(f),
        None => Ok(
            Layout {
                wires: wires(circuit.nets@),
                nodes,
                sources: sources_of(circuit.components@, circuit.components@.len() as int),
            },
        ),
    }
}

/// The layout of an analog circuit.
pub open spec fn layout_of(circuit: Circuit) -> Result<Layout, Fault> {
    match ground_failure(
        "ngspice_component_invalid"@,
        circuit.components@,
        circuit.components@.len() as int,
    ) {
        Some(f) => Err(f),
        None => if ground_nets(circuit).len() == 0 {
            Err(
                fault(
                    "ngspice_ground_required"@,
                    "analog ngspice simulation requires at least one ground component connected to a net"@,
                ),
            )
        } else {
            layout_on(circuit, analog_nodes(circuit))
        },
    }
}

impl Layout {
    /// The node of a pin.
    pub open spec fn node(self, component: Component, pin: Seq<char>) -> Result<Seq<char>, Fault> {
        let loose = Err(
            about(
                "ngspice_component_invalid"@,
                component,
                "pin `"@,
                pin,
                "` is not connected to a net"@,
            ),
        );
        match net_at(self.wires, component.id@, pin) {
            None => loose,
            Some(net) => match node_at(self.nodes, net) {
                None => loose,
                Some(node) => Ok(node),
            },
        }
    }
}

/// Text results, seen through their views.
pub open spec fn same_text(r: Result<String, EngineError>, model: Result<Seq<char>, Fault>) -> bool {
    match (r, model) {
        (Ok(s), Ok(t)) => s@ == t,
        (Err(e), Err(f)) => e@ == f,
        _ => false,
    }
}

impl Topology {
    /// The topology of a circuit whose nets have these nodes.
    pub fn build_with_net_nodes(circuit: &Circuit, nodes: NodeMap) -> (r: Result<
        Self,
        EngineError,
    >)
        ensures
            agrees(r, layout_on(*circuit, nodes@)),
    {
        match single_net_map(
            circuit,
            "ngspice_endpoint_multiple_nets",
            "` belongs to more than one net",
        ) {
            Err(e) => Err(e),
            Ok(wiring) => Ok(
                Topology { wiring, nodes, sources: name_sources(&circuit.components) },
            ),
        }
    }

    pub fn build(circuit: &Circuit) -> (r: Result<Self, EngineError>)
        ensures
            agrees(r, layout_of(*circuit)),
    {
        let grounds = match find_ground_nets(circuit, "ngspice_component_invalid") {
            Err(e) => {
                return Err(e);
            },
            Ok(grounds) => grounds,
        };
        if grounds.len() == 0 {
            return Err(
                EngineError::new(
                    "ngspice_ground_required",
                    "analog ngspice simulation requires at least one ground component connected to a net",
                ),
            );
        }
        let ghost all = analog_nodes(*circuit);
        let mut nodes = NodeMap { names: Vec::new() };
        let mut i: usize = 0;
        while i < circuit.nets.len()
            invariant
                i <= circuit.nets@.len(),
                all == analog_nodes(*circuit),
                texts(grounds@) == ground_nets(*circuit),
                nodes@ =~= all.take(i as int),
            decreases circuit.nets@.len() - i,
        {
            let net = &circuit.nets[i];
            let node = if holds_text(&grounds, net.id.as_str()) {
                "0".to_owned()
            } else {
                cat2("n", decimal_text(i as u64 + 1).as_str())
            };
            let ghost before = nodes@;
            nodes.names.push(NodeName { net: net.id.0.clone(), node });
            assert(nodes@ =~= before.push(all[i as int]));
            assert(all.take(i + 1) =~= all.take(i as int).push(all[i as int]));
            i = i + 1;
        }
        assert(nodes@ =~= all);
        Topology::build_with_net_nodes(circuit, nodes)
    }

    fn loose_pin(component: &Component, pin: &str) -> (r: EngineError)
        ensures
            r@ == about(
                "ngspice_component_invalid"@,
                *component,
                "pin `"@,
                pin@,
                "` is not connected to a net"@,
            ),
    {
        error_about(
            "ngspice_component_invalid",
            component,
            "pin `",
            pin,
            "` is not connected to a net",
        )
    }

    pub fn node_for(&self, component: &Component, pin: &str) -> (r: Result<String, EngineError>)
        ensures
            same_text(r, self@.node(*component, pin@)),
    {
        match self.wiring.find(component.id.as_str(), pin) {
            None => Err(Topology::loose_pin(component, pin)),
            Some(net) => match self.nodes.find(net.as_str()) {
                None => Err(Topology::loose_pin(component, pin)),
                Some(node) => Ok(node.clone()),
            },
        }
    }

    pub fn source_for(&self, component: &str) -> (r: Option<&SourceName>)
        ensures
            match (r, source_at(self@.sources, component@)) {
                (Some(s), Some(t)) => s@ == t,
                (None, None) => true,
                _ => false,
            },
    {
        let ghost all = sources(self.sources@);
        let mut i: usize = self.sources.len();
        assert(all.take(i as int) =~= all);
        while i > 0
            invariant
                i <= self.sources@.len(),
                all == sources(self.sources@),
                source_at(all, component@) == source_at(all.take(i as int), component@),
            decreases i,
        {
            assert(all.take(i as int).last() == self.sources@[i - 1]@);
            assert(all.take(i as int).drop_last() =~= all.take(i - 1));
            i = i - 1;
            if text_eq(self.sources[i].component.as_str(), component) {
                return Some(&self.sources[i]);
            }
        }
        None
    }
}

} // verus!
