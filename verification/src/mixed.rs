//! Mixed-signal netlists: analog components, event components and the explicit
//! bridges between them in one netlist.
use crate::analysis::Analysis;
use crate::circuit::{Circuit, Component, Net, PinDirection, SignalDomain};
use crate::digital::{sort_names, sorted_names};
use crate::draft::{
    drafts, figure, letters, push_drafts, push_text, stack, stack_of, Draft, Sign,
};
use crate::engine::{Probe, SimulationRequest};
use crate::fault::{agrees, fail, fault, passes, EngineError, Fault};
use crate::lines::{join_of, join_texts};
use crate::ngspice::{
    compile_component, component_line, expressions, join_expressions, loose_probe,
    loose_probe_error, model_lines, probe_views, push_model_lines, signal_name, signal_text,
    AnalogProbe,
};
use crate::nodes::{
    find_ground_nets, ground_failure, ground_nets, holds_text, layout_on, node_at, same_text,
    Layout, NodeMap, NodeName, Topology,
};
use crate::number::Real;
use crate::reading::{
    about, component_error, component_fault, error_about, needed_quantity, optional_quantity,
    quantity_of, required_quantity, same, HALF_BITS,
};
use crate::spice_models::{compile_models, registry_of, CompiledModelRegistry, Registry};
use crate::stimulus::{compile_stimulus, feeds, started_feeds, stimulus_of, Feed};
use crate::text::{cat2, cat3, cat5, cat7, decimal, decimal_text, text_eq, texts};
use crate::units::Unit;
use crate::validation::{find_pin_at, pin_at};
use crate::wiring::{net_at, overlap, single_net_map, wires};
use crate::xspice::{
    compile_digital, digital_addition, event_probes, floor_delay, floored_delay, merge, merged,
    no_addition, probed_nodes, push_source_lines, sorted_nodes, source_lines, Addition, EventProbe,
    Fragment, Grid, Mesh, XSPICE_MIN_DELAY_BITS,
};
use vstd::prelude::*;

verus! {

pub const MIXED_SIGNAL_ENGINE_ID: &'static str = "mixed-signal-xspice";

/// The domain of a net as a whole.
#[derive(Clone, Copy, Debug, PartialEq, Eq, Structural)]
pub enum NetDomain {
    Analog,
    Digital,
}

pub open spec fn mixed_code() -> Seq<char> {
    "mixed_signal_component_invalid"@
}

/// The domain of a pin among the first `n` pins of a component, as the last pin
/// of that name has it.
pub open spec fn pin_domain(component: Component, pin: Seq<char>, n: int) -> Option<SignalDomain>
    decreases n,
{
    if n <= 0 {
        None
    } else if component.pins@[n - 1].id@ == pin {
        Some(component.pins@[n - 1].domain)
    } else {
        pin_domain(component, pin, n - 1)
    }
}

/// The domain of a pin of the first `n` components, as the last component of that
/// name with such a pin has it.
pub open spec fn endpoint_domain(
    components: Seq<Component>,
    component: Seq<char>,
    pin: Seq<char>,
    n: int,
) -> Option<SignalDomain>
    decreases n,
{
    if n <= 0 {
        None
    } else {
        let last = components[n - 1];
        let found = if last.id@ == component {
            pin_domain(last, pin, last.pins@.len() as int)
        } else {
            None
        };
        match found {
            Some(domain) => Some(domain),
            None => endpoint_domain(components, component, pin, n - 1),
        }
    }
}

fn find_endpoint_domain(components: &Vec<Component>, component: &str, pin: &str) -> (r: Option<
    SignalDomain,
>)
    ensures
        r == endpoint_domain(components@, component@, pin@, components@.len() as int),
{
    let mut n: usize = components.len();
    while n > 0
        invariant
            n <= components@.len(),
            endpoint_domain(components@, component@, pin@, components@.len() as int)
                == endpoint_domain(components@, component@, pin@, n as int),
        decreases n,
    {
        let last = &components[n - 1];
        if text_eq(last.id.as_str(), component) {
            let mut m: usize = last.pins.len();
            while m > 0
                invariant
                    0 < n <= components@.len(),
                    m <= last.pins@.len(),
                    last == components@[n - 1],
                    last.id@ == component@,
                    endpoint_domain(components@, component@, pin@, components@.len() as int)
                        == endpoint_domain(components@, component@, pin@, n as int),
                    pin_domain(*last, pin@, last.pins@.len() as int) == pin_domain(
                        *last,
                        pin@,
                        m as int,
                    ),
                decreases m,
            {
                if text_eq(last.pins[m - 1].id.as_str(), pin) {
                    return Some(last.pins[m - 1].domain);
                }
                m = m - 1;
            }
        }
        n = n - 1;
    }
    None
}

/// Whether the first `n` pins of a net are analog, and whether they are digital.
pub open spec fn net_sides(components: Seq<Component>, net: Net, n: int) -> Result<
    (bool, bool),
    Fault,
>
    decreases n,
{
    if n <= 0 {
        Ok((false, false))
    } else {
        match net_sides(components, net, n - 1) {
            Err(f) => Err(f),
            Ok((analog, digital)) => {
                let endpoint = net.endpoints@[n - 1];
                match endpoint_domain(
                    components,
                    endpoint.component@,
                    endpoint.pin@,
                    components.len() as int,
                ) {
                    None => Err(
                        fault(
                            "mixed_signal_unknown_endpoint"@,
                            "net `"@ + net.id@ + "` contains unknown endpoint `"@
                                + endpoint.component@ + "."@ + endpoint.pin@ + "`"@,
                        ),
                    ),
                    Some(SignalDomain::Analog) => Ok((true, digital)),
                    Some(SignalDomain::Reference) => Ok((true, digital)),
                    Some(SignalDomain::Digital) => Ok((analog, true)),
                    Some(SignalDomain::Mixed) => Err(
                        fault(
                            "mixed_signal_legacy_mixed_pin_unsupported"@,
                            "net `"@ + net.id@
                                + "` uses SignalDomain::Mixed; R4 requires explicit adc_bridge/dac_bridge pins with separate analog and digital nets"@,
                        ),
                    ),
                }
            },
        }
    }
}

proof fn lemma_net_sides_stop(components: Seq<Component>, net: Net, n: int, m: int)
    requires
        0 <= m <= n,
        net_sides(components, net, m) is Err,
    ensures
        net_sides(components, net, n) == net_sides(components, net, m),
    decreases n - m,
{
    if m < n {
        lemma_net_sides_stop(components, net, n, m + 1);
    }
}

/// The domain of a net: no net joins analog and digital pins.
pub open spec fn net_domain(components: Seq<Component>, net: Net) -> Result<NetDomain, Fault> {
    match net_sides(components, net, net.endpoints@.len() as int) {
        Err(f) => Err(f),
        Ok((analog, digital)) => if analog && digital {
            Err(
                fault(
                    "mixed_signal_direct_domain_join"@,
                    "net `"@ + net.id@
                        + "` directly joins analog and digital pins; use an explicit bridge"@,
                ),
            )
        } else if digital {
            Ok(NetDomain::Digital)
        } else {
            Ok(NetDomain::Analog)
        },
    }
}

fn classify_net(components: &Vec<Component>, net: &Net) -> (r: Result<NetDomain, EngineError>)
    ensures
        same(r, net_domain(components@, *net)),
{
    let mut analog: bool = false;
    let mut digital: bool = false;
    let mut i: usize = 0;
    while i < net.endpoints.len()
        invariant
            i <= net.endpoints@.len(),
            net_sides(components@, *net, i as int) == Ok::<(bool, bool), Fault>(
                (analog, digital),
            ),
        decreases net.endpoints@.len() - i,
    {
        let endpoint = &net.endpoints[i];
        let found = find_endpoint_domain(
            components,
            endpoint.component.as_str(),
            endpoint.pin.as_str(),
        );
        match found {
            None => {
                proof {
                    lemma_net_sides_stop(
                        components@,
                        *net,
                        net.endpoints@.len() as int,
                        i + 1,
                    );
                }
                return Err(
                    fail(
                        "mixed_signal_unknown_endpoint",
                        cat7(
                            "net `",
                            net.id.as_str(),
                            "` contains unknown endpoint `",
                            endpoint.component.as_str(),
                            ".",
                            endpoint.pin.as_str(),
                            "`",
                        ),
                    ),
                );
            },
            Some(SignalDomain::Analog) => {
                analog = true;
            },
            Some(SignalDomain::Reference) => {
                analog = true;
            },
            Some(SignalDomain::Digital) => {
                digital = true;
            },
            Some(SignalDomain::Mixed) => {
                proof {
                    lemma_net_sides_stop(
                        components@,
                        *net,
                        net.endpoints@.len() as int,
                        i + 1,
                    );
                }
                return Err(
                    fail(
                        "mixed_signal_legacy_mixed_pin_unsupported",
                        cat3(
                            "net `",
                            net.id.as_str(),
                            "` uses SignalDomain::Mixed; R4 requires explicit adc_bridge/dac_bridge pins with separate analog and digital nets",
                        ),
                    ),
                );
            },
        }
        i = i + 1;
    }
    if analog && digital {
        return Err(
            fail(
                "mixed_signal_direct_domain_join",
                cat3(
                    "net `",
                    net.id.as_str(),
                    "` directly joins analog and digital pins; use an explicit bridge",
                ),
            ),
        );
    }
    if digital {
        Ok(NetDomain::Digital)
    } else {
        Ok(NetDomain::Analog)
    }
}

/// A net and its domain.
#[derive(Clone, Debug, PartialEq, Eq)]
pub struct DomainName {
    pub net: String,
    pub domain: NetDomain,
}

impl View for DomainName {
    type V = (Seq<char>, NetDomain);

    open spec fn view(&self) -> (Seq<char>, NetDomain) {
        (self.net@, self.domain)
    }
}

pub open spec fn domain_views(v: Seq<DomainName>) -> Seq<(Seq<char>, NetDomain)> {
    v.map_values(|d: DomainName| d@)
}

/// The domains of the first `n` nets.
pub open spec fn domains_of(circuit: Circuit, n: int) -> Result<Seq<(Seq<char>, NetDomain)>, Fault>
    decreases n,
{
    if n <= 0 {
        Ok(Seq::empty())
    } else {
        match domains_of(circuit, n - 1) {
            Err(f) => Err(f),
            Ok(before) => match net_domain(circuit.components@, circuit.nets@[n - 1]) {
                Err(f) => Err(f),
                Ok(domain) => Ok(before.push((circuit.nets@[n - 1].id@, domain))),
            },
        }
    }
}

proof fn lemma_domains_stop(circuit: Circuit, n: int, m: int)
    requires
        0 <= m <= n,
        domains_of(circuit, m) is Err,
    ensures
        domains_of(circuit, n) == domains_of(circuit, m),
    decreases n - m,
{
    if m < n {
        lemma_domains_stop(circuit, n, m + 1);
    }
}

/// The domain of a net, as the last net of that name has it.
pub open spec fn domain_at(domains: Seq<(Seq<char>, NetDomain)>, net: Seq<char>) -> Option<NetDomain>
    decreases domains.len(),
{
    if domains.len() == 0 {
        None
    } else if domains.last().0 == net {
        Some(domains.last().1)
    } else {
        domain_at(domains.drop_last(), net)
    }
}

fn find_domain(domains: &Vec<DomainName>, net: &str) -> (r: Option<NetDomain>)
    ensures
        r == domain_at(domain_views(domains@), net@),
{
    let ghost all = domain_views(domains@);
    let mut i: usize = domains.len();
    assert(all.take(i as int) =~= all);
    while i > 0
        invariant
            i <= domains@.len(),
            all == domain_views(domains@),
            domain_at(all, net@) == domain_at(all.take(i as int), net@),
        decreases i,
    {
        assert(all.take(i as int).last() == domains@[i - 1]@);
        assert(all.take(i as int).drop_last() =~= all.take(i - 1));
        i = i - 1;
        if text_eq(domains[i].net.as_str(), net) {
            return Some(domains[i].domain);
        }
    }
    None
}

pub fn classify_nets(circuit: &Circuit) -> (r: Result<Vec<DomainName>, EngineError>)
    ensures
        match (r, domains_of(*circuit, circuit.nets@.len() as int)) {
            (Ok(v), Ok(s)) => domain_views(v@) == s,
            (Err(e), Err(f)) => e@ == f,
            _ => false,
        },
{
    let mut out: Vec<DomainName> = Vec::new();
    let mut i: usize = 0;
    assert(domain_views(out@) =~= Seq::<(Seq<char>, NetDomain)>::empty());
    while i < circuit.nets.len()
        invariant
            i <= circuit.nets@.len(),
            domains_of(*circuit, i as int) == Ok::<Seq<(Seq<char>, NetDomain)>, Fault>(
                domain_views(out@),
            ),
        decreases circuit.nets@.len() - i,
    {
        match classify_net(&circuit.components, &circuit.nets[i]) {
            Err(e) => {
                proof {
                    lemma_domains_stop(*circuit, circuit.nets@.len() as int, i + 1);
                }
                return Err(e);
            },
            Ok(domain) => {
                let ghost before = domain_views(out@);
                out.push(DomainName { net: circuit.nets[i].id.0.clone(), domain });
                assert(domain_views(out@) =~= before.push(out@.last()@));
            },
        }
        i = i + 1;
    }
    Ok(out)
}

/// The first of the first `n` nets that is digital.
pub open spec fn digital_net(
    names: Seq<Seq<char>>,
    domains: Seq<(Seq<char>, NetDomain)>,
    n: int,
) -> Option<Seq<char>>
    decreases n,
{
    if n <= 0 {
        None
    } else {
        match digital_net(names, domains, n - 1) {
            Some(name) => Some(name),
            None => if domain_at(domains, names[n - 1]) == Some(NetDomain::Digital) {
                Some(names[n - 1])
            } else {
                None
            },
        }
    }
}

proof fn lemma_digital_net_stays(
    names: Seq<Seq<char>>,
    domains: Seq<(Seq<char>, NetDomain)>,
    n: int,
    m: int,
)
    requires
        0 <= m <= n,
        digital_net(names, domains, m) is Some,
    ensures
        digital_net(names, domains, n) == digital_net(names, domains, m),
    decreases n - m,
{
    if m < n {
        lemma_digital_net_stays(names, domains, n, m + 1);
    }
}

/// What keeps the ground nets from being analog.
pub open spec fn ground_domain_failure(
    grounds: Seq<Seq<char>>,
    domains: Seq<(Seq<char>, NetDomain)>,
) -> Option<Fault> {
    let names = sorted_names(grounds, grounds.len() as int);
    match digital_net(names, domains, names.len() as int) {
        Some(name) => Some(
            fault(
                "mixed_signal_digital_ground_invalid"@,
                "ground component is connected to digital net `"@ + name + "`"@,
            ),
        ),
        None => None,
    }
}

fn check_ground_domains(grounds: &Vec<String>, domains: &Vec<DomainName>) -> (r: Result<
    (),
    EngineError,
>)
    ensures
        passes(r, ground_domain_failure(texts(grounds@), domain_views(domains@))),
{
    let names = sort_names(grounds);
    let ghost all = texts(names@);
    let ghost known = domain_views(domains@);
    let mut k: usize = 0;
    while k < names.len()
        invariant
            k <= names@.len(),
            all == texts(names@),
            all == sorted_names(texts(grounds@), grounds@.len() as int),
            known == domain_views(domains@),
            digital_net(all, known, k as int) is None,
        decreases names@.len() - k,
    {
        assert(all[k as int] == names@[k as int]@);
        match find_domain(domains, names[k].as_str()) {
            Some(NetDomain::Digital) => {
                proof {
                    lemma_digital_net_stays(all, known, all.len() as int, k + 1);
                }
                return Err(
                    fail(
                        "mixed_signal_digital_ground_invalid",
                        cat3(
                            "ground component is connected to digital net `",
                            names[k].as_str(),
                            "`",
                        ),
                    ),
                );
            },
            _ => {},
        }
        k = k + 1;
    }
    Ok(())
}

/// The node of one net: ground is node zero, analog and digital nets are told
/// apart by their letter.
pub open spec fn mixed_node(
    circuit: Circuit,
    domains: Seq<(Seq<char>, NetDomain)>,
    i: int,
) -> (Seq<char>, Seq<char>) {
    let net = circuit.nets@[i].id@;
    (
        net,
        if ground_nets(circuit).contains(net) {
            "0"@
        } else if domain_at(domains, net) == Some(NetDomain::Digital) {
            "d"@ + decimal((i + 1) as nat)
        } else {
            "n"@ + decimal((i + 1) as nat)
        },
    )
}

pub open spec fn mixed_nodes(circuit: Circuit, domains: Seq<(Seq<char>, NetDomain)>) -> Seq<
    (Seq<char>, Seq<char>),
> {
    Seq::new(circuit.nets@.len(), |i: int| mixed_node(circuit, domains, i))
}

/// The connections of a circuit and the nodes of its nets.
pub open spec fn mixed_mesh(circuit: Circuit, domains: Seq<(Seq<char>, NetDomain)>) -> Result<
    Mesh,
    Fault,
> {
    match ground_failure(mixed_code(), circuit.components@, circuit.components@.len() as int) {
        Some(f) => Err(f),
        None => if ground_nets(circuit).len() == 0 {
            Err(
                fault(
                    "mixed_signal_ground_required"@,
                    "mixed-signal simulation requires an analog ground component connected to a net"@,
                ),
            )
        } else {
            match ground_domain_failure(ground_nets(circuit), domains) {
                Some(f) => Err(f),
                None => match overlap(
                    "mixed_signal_endpoint_multiple_nets"@,
                    "` belongs to more than one net"@,
                    wires(circuit.nets@),
                ) {
                    Some(f) => Err(f),
                    None => Ok(
                        Mesh {
                            wires: wires(circuit.nets@),
                            nodes: mixed_nodes(circuit, domains),
                        },
                    ),
                },
            }
        },
    }
}

fn name_mixed_nodes(circuit: &Circuit, domains: &Vec<DomainName>, grounds: &Vec<String>) -> (r:
    NodeMap)
    requires
        texts(grounds@) == ground_nets(*circuit),
    ensures
        r@ == mixed_nodes(*circuit, domain_views(domains@)),
{
    let ghost all = mixed_nodes(*circuit, domain_views(domains@));
    let mut nodes = NodeMap { names: Vec::new() };
    let mut i: usize = 0;
    while i < circuit.nets.len()
        invariant
            i <= circuit.nets@.len(),
            texts(grounds@) == ground_nets(*circuit),
            all == mixed_nodes(*circuit, domain_views(domains@)),
            nodes@ =~= all.take(i as int),
        decreases circuit.nets@.len() - i,
    {
        let net = &circuit.nets[i];
        let number = decimal_text(i as u64 + 1);
        let node = if holds_text(grounds, net.id.as_str()) {
            "0".to_owned()
        } else {
            match find_domain(domains, net.id.as_str()) {
                Some(NetDomain::Digital) => cat2("d", number.as_str()),
                _ => cat2("n", number.as_str()),
            }
        };
        let ghost before = nodes@;
        nodes.names.push(NodeName { net: net.id.0.clone(), node });
        assert(nodes@ =~= before.push(all[i as int]));
        assert(all.take(i + 1) =~= all.take(i as int).push(all[i as int]));
        i = i + 1;
    }
    assert(nodes@ =~= all);
    nodes
}

pub fn build_nodes(circuit: &Circuit, domains: &Vec<DomainName>) -> (r: Result<Grid, EngineError>)
    ensures
        agrees(r, mixed_mesh(*circuit, domain_views(domains@))),
{
    let grounds = match find_ground_nets(circuit, "mixed_signal_component_invalid") {
        Err(e) => {
            return Err(e);
        },
        Ok(grounds) => grounds,
    };
    assert(texts(grounds@).len() == grounds@.len());
    if grounds.len() == 0 {
        return Err(
            EngineError::new(
                "mixed_signal_ground_required",
                "mixed-signal simulation requires an analog ground component connected to a net",
            ),
        );
    }
    match check_ground_domains(&grounds, domains) {
        Err(e) => {
            return Err(e);
        },
        Ok(_) => {},
    }
    let nodes = name_mixed_nodes(circuit, domains, &grounds);
    match single_net_map(
        circuit,
        "mixed_signal_endpoint_multiple_nets",
        "` belongs to more than one net",
    ) {
        Err(e) => Err(e),
        Ok(wiring) => Ok(Grid { wiring, nodes }),
    }
}

/// What keeps a pin from being a bridge pin of this domain and direction.
pub open spec fn bridge_pin_failure(
    component: Component,
    pin: Seq<char>,
    domain: SignalDomain,
    direction: PinDirection,
) -> Option<Fault> {
    match pin_at(component.pins@, pin) {
        None => Some(
            about(mixed_code(), component, "required bridge pin `"@, pin, "` is missing"@),
        ),
        Some(i) => if component.pins@[i].domain != domain {
            Some(
                about(
                    mixed_code(),
                    component,
                    "bridge pin `"@,
                    pin,
                    "` must use the "@ + domain.spec_name() + " signal domain"@,
                ),
            )
        } else if component.pins@[i].direction != direction {
            Some(
                about(
                    mixed_code(),
                    component,
                    "bridge pin `"@,
                    pin,
                    "` must have direction "@ + direction.spec_name(),
                ),
            )
        } else {
            None
        },
    }
}

pub fn require_bridge_pin(
    component: &Component,
    pin: &str,
    domain: SignalDomain,
    direction: PinDirection,
) -> (r: Result<(), EngineError>)
    ensures
        passes(r, bridge_pin_failure(*component, pin@, domain, direction)),
{
    let code = "mixed_signal_component_invalid";
    match find_pin_at(&component.pins, pin) {
        None => Err(error_about(code, component, "required bridge pin `", pin, "` is missing")),
        Some(i) => {
            let found = &component.pins[i];
            if found.domain != domain {
                return Err(
                    error_about(
                        code,
                        component,
                        "bridge pin `",
                        pin,
                        cat3("` must use the ", domain.name(), " signal domain").as_str(),
                    ),
                );
            }
            if found.direction != direction {
                return Err(
                    error_about(
                        code,
                        component,
                        "bridge pin `",
                        pin,
                        cat2("` must have direction ", direction.name()).as_str(),
                    ),
                );
            }
            Ok(())
        },
    }
}

/// The node of a bridge pin.
pub open spec fn bridge_node(mesh: Mesh, component: Component, pin: Seq<char>) -> Result<
    Seq<char>,
    Fault,
> {
    match net_at(mesh.wires, component.id@, pin) {
        None => Err(
            about(
                mixed_code(),
                component,
                "required bridge pin `"@,
                pin,
                "` is not connected to a net"@,
            ),
        ),
        Some(net) => match node_at(mesh.nodes, net) {
            None => Err(
                about(
                    mixed_code(),
                    component,
                    "bridge pin `"@,
                    pin,
                    "` references unknown net `"@ + net + "`"@,
                ),
            ),
            Some(node) => Ok(node),
        },
    }
}

pub fn connected_bridge_node(component: &Component, pin: &str, grid: &Grid) -> (r: Result<
    String,
    EngineError,
>)
    ensures
        same_text(r, bridge_node(grid@, *component, pin@)),
{
    let code = "mixed_signal_component_invalid";
    let net = match grid.wiring.find(component.id.as_str(), pin) {
        None => {
            return Err(
                error_about(
                    code,
                    component,
                    "required bridge pin `",
                    pin,
                    "` is not connected to a net",
                ),
            );
        },
        Some(net) => net,
    };
    match grid.nodes.find(net.as_str()) {
        None => Err(
            error_about(
                code,
                component,
                "bridge pin `",
                pin,
                cat3("` references unknown net `", net.as_str(), "`").as_str(),
            ),
        ),
        Some(node) => Ok(node.clone()),
    }
}

/// The number of an optional parameter in a unit, or another.
pub open spec fn quantity_or(component: Component, key: Seq<char>, unit: Unit, other: Real) -> Result<
    Real,
    Fault,
> {
    match quantity_of(mixed_code(), component, key, unit) {
        Err(f) => Err(f),
        Ok(Some(x)) => Ok(x),
        Ok(None) => Ok(other),
    }
}

fn optional_quantity_or(component: &Component, key: &str, unit: Unit, other: Real) -> (r: Result<
    Real,
    EngineError,
>)
    ensures
        same(r, quantity_or(*component, key@, unit, other)),
{
    match optional_quantity("mixed_signal_component_invalid", component, key, unit) {
        Err(e) => Err(e),
        Ok(Some(x)) => Ok(x),
        Ok(None) => Ok(other),
    }
}

/// What keeps a number from being finite and not negative.
pub open spec fn negative_failure(component: Component, key: Seq<char>, value: Real) -> Option<Fault> {
    if !value.finite() || value.less(Real { bits: 0 }) {
        Some(
            about(
                mixed_code(),
                component,
                "parameter `"@,
                key,
                "` must be finite and non-negative"@,
            ),
        )
    } else {
        None
    }
}

fn non_negative_finite(component: &Component, key: &str, value: Real) -> (r: Result<(), EngineError>)
    ensures
        passes(r, negative_failure(*component, key@, value)),
{
    if !value.is_finite() || value.lt(Real { bits: 0 }) {
        return Err(
            error_about(
                "mixed_signal_component_invalid",
                component,
                "parameter `",
                key,
                "` must be finite and non-negative",
            ),
        );
    }
    Ok(())
}

/// Two pins of a bridge and their nodes.
pub open spec fn bridge_nodes(
    component: Component,
    mesh: Mesh,
    input: Seq<char>,
    input_domain: SignalDomain,
    output: Seq<char>,
    output_domain: SignalDomain,
) -> Result<(Seq<char>, Seq<char>), Fault> {
    match bridge_pin_failure(component, input, input_domain, PinDirection::Input) {
        Some(f) => Err(f),
        None => match bridge_pin_failure(component, output, output_domain, PinDirection::Output) {
            Some(f) => Err(f),
            None => match bridge_node(mesh, component, input) {
                Err(f) => Err(f),
                Ok(from) => match bridge_node(mesh, component, output) {
                    Err(f) => Err(f),
                    Ok(to) => Ok((from, to)),
                },
            },
        },
    }
}

fn require_bridge_nodes(
    component: &Component,
    grid: &Grid,
    input: &str,
    input_domain: SignalDomain,
    output: &str,
    output_domain: SignalDomain,
) -> (r: Result<(String, String), EngineError>)
    ensures
        match (
            r,
            bridge_nodes(*component, grid@, input@, input_domain, output@, output_domain),
        ) {
            (Ok((a, b)), Ok((x, y))) => a@ == x && b@ == y,
            (Err(e), Err(f)) => e@ == f,
            _ => false,
        },
{
    match require_bridge_pin(component, input, input_domain, PinDirection::Input) {
        Err(e) => {
            return Err(e);
        },
        Ok(_) => {},
    }
    match require_bridge_pin(component, output, output_domain, PinDirection::Output) {
        Err(e) => {
            return Err(e);
        },
        Ok(_) => {},
    }
    match connected_bridge_node(component, input, grid) {
        Err(e) => Err(e),
        Ok(from) => match connected_bridge_node(component, output, grid) {
            Err(e) => Err(e),
            Ok(to) => Ok((from, to)),
        },
    }
}

/// Two levels of a bridge, the lower first.
pub open spec fn bridge_levels(component: Component, low_key: Seq<char>, high_key: Seq<char>) -> Result<
    (Real, Real),
    Fault,
> {
    match needed_quantity(mixed_code(), component, low_key, Unit::Volt) {
        Err(f) => Err(f),
        Ok(low) => match needed_quantity(mixed_code(), component, high_key, Unit::Volt) {
            Err(f) => Err(f),
            Ok(high) => if high.at_most(low) {
                Err(
                    component_fault(
                        mixed_code(),
                        component,
                        low_key + " must be strictly below "@ + high_key,
                    ),
                )
            } else {
                Ok((low, high))
            },
        },
    }
}

fn require_levels(component: &Component, low_key: &str, high_key: &str) -> (r: Result<
    (Real, Real),
    EngineError,
>)
    ensures
        same(r, bridge_levels(*component, low_key@, high_key@)),
        r matches Ok(levels) ==> levels.0.finite() && levels.1.finite(),
{
    let code = "mixed_signal_component_invalid";
    let low = match required_quantity(code, component, low_key, Unit::Volt) {
        Err(e) => {
            return Err(e);
        },
        Ok(low) => low,
    };
    let high = match required_quantity(code, component, high_key, Unit::Volt) {
        Err(e) => {
            return Err(e);
        },
        Ok(high) => high,
    };
    if high.le(low) {
        return Err(
            component_error(
                code,
                component,
                cat3(low_key, " must be strictly below ", high_key).as_str(),
            ),
        );
    }
    Ok((low, high))
}

/// What a bridge adds: its line, its model, and whether a time was raised to the
/// least one.
pub struct BridgePart {
    pub line: Seq<Sign>,
    pub model: Seq<Sign>,
    pub floored: bool,
}

/// What a bridge adds.
#[derive(Clone, Debug, PartialEq, Eq)]
pub struct BridgeFragment {
    pub line: Draft,
    pub model: Draft,
    pub floored: bool,
}

impl View for BridgeFragment {
    type V = BridgePart;

    open spec fn view(&self) -> BridgePart {
        BridgePart { line: self.line@, model: self.model@, floored: self.floored }
    }
}

pub open spec fn too_short(x: Real) -> bool {
    x.less(Real { bits: XSPICE_MIN_DELAY_BITS })
}

/// What an ADC bridge adds.
pub open spec fn adc_part(component: Component, index: int, mesh: Mesh) -> Result<BridgePart, Fault> {
    let zero = Real { bits: 0 };
    match bridge_nodes(
        component,
        mesh,
        "analog_in"@,
        SignalDomain::Analog,
        "digital_out"@,
        SignalDomain::Digital,
    ) {
        Err(f) => Err(f),
        Ok((analog, digital)) => match bridge_levels(
            component,
            "low_threshold"@,
            "high_threshold"@,
        ) {
            Err(f) => Err(f),
            Ok((low, high)) => match quantity_or(component, "rise_delay"@, Unit::Second, zero) {
                Err(f) => Err(f),
                Ok(rise) => match quantity_or(component, "fall_delay"@, Unit::Second, zero) {
                    Err(f) => Err(f),
                    Ok(fall) => match negative_failure(component, "rise_delay"@, rise) {
                        Some(f) => Err(f),
                        None => match negative_failure(component, "fall_delay"@, fall) {
                            Some(f) => Err(f),
                            None => {
                                let model = "madc"@ + decimal(index as nat);
                                Ok(
                                    BridgePart {
                                        line: letters(
                                            "aadc"@ + decimal(index as nat) + " ["@ + analog
                                                + "] ["@ + digital + "] "@ + model,
                                        ),
                                        model: letters(".model "@ + model + " adc_bridge(in_low="@)
                                            + figure(low) + letters(" in_high="@) + figure(high)
                                            + letters(" rise_delay="@) + figure(
                                            floored_delay(rise),
                                        ) + letters(" fall_delay="@) + figure(
                                            floored_delay(fall),
                                        ) + letters(")"@),
                                        floored: too_short(rise) || too_short(fall),
                                    },
                                )
                            },
                        },
                    },
                },
            },
        },
    }
}

pub fn compile_adc_bridge(component: &Component, index: usize, grid: &Grid) -> (r: Result<
    BridgeFragment,
    EngineError,
>)
    ensures
        agrees(r, adc_part(*component, index as int, grid@)),
{
    let zero = Real { bits: 0 };
    let (analog, digital) = match require_bridge_nodes(
        component,
        grid,
        "analog_in",
        SignalDomain::Analog,
        "digital_out",
        SignalDomain::Digital,
    ) {
        Err(e) => {
            return Err(e);
        },
        Ok(nodes) => nodes,
    };
    let (low, high) = match require_levels(component, "low_threshold", "high_threshold") {
        Err(e) => {
            return Err(e);
        },
        Ok(levels) => levels,
    };
    let asked_rise = match optional_quantity_or(component, "rise_delay", Unit::Second, zero) {
        Err(e) => {
            return Err(e);
        },
        Ok(x) => x,
    };
    let asked_fall = match optional_quantity_or(component, "fall_delay", Unit::Second, zero) {
        Err(e) => {
            return Err(e);
        },
        Ok(x) => x,
    };
    match non_negative_finite(component, "rise_delay", asked_rise) {
        Err(e) => {
            return Err(e);
        },
        Ok(_) => {},
    }
    match non_negative_finite(component, "fall_delay", asked_fall) {
        Err(e) => {
            return Err(e);
        },
        Ok(_) => {},
    }
    let (rise, rise_floored) = floor_delay(asked_rise);
    let (fall, fall_floored) = floor_delay(asked_fall);
    let number = decimal_text(index as u64);
    let model = cat2("madc", number.as_str());
    let line = Draft::of(
        cat7(
            "aadc",
            number.as_str(),
            " [",
            analog.as_str(),
            "] [",
            digital.as_str(),
            "] ",
        ).concat(model.as_str()).as_str(),
    );
    let mut text = Draft::of(cat3(".model ", model.as_str(), " adc_bridge(in_low=").as_str());
    text.number(low);
    text.text(" in_high=");
    text.number(high);
    text.text(" rise_delay=");
    text.number(rise);
    text.text(" fall_delay=");
    text.number(fall);
    text.text(")");
    Ok(BridgeFragment { line, model: text, floored: rise_floored || fall_floored })
}

/// The middle of two levels.
pub open spec fn middle(low: Real, high: Real) -> Real {
    low.sum(high).scaled(Real { bits: HALF_BITS })
}

/// What a DAC bridge adds.
pub open spec fn dac_part(component: Component, index: int, mesh: Mesh) -> Result<BridgePart, Fault> {
    let zero = Real { bits: 0 };
    match bridge_nodes(
        component,
        mesh,
        "digital_in"@,
        SignalDomain::Digital,
        "analog_out"@,
        SignalDomain::Analog,
    ) {
        Err(f) => Err(f),
        Ok((digital, analog)) => match bridge_levels(component, "low_voltage"@, "high_voltage"@) {
            Err(f) => Err(f),
            Ok((low, high)) => match quantity_or(
                component,
                "unknown_voltage"@,
                Unit::Volt,
                middle(low, high),
            ) {
                Err(f) => Err(f),
                Ok(unknown) => match quantity_or(component, "rise_time"@, Unit::Second, zero) {
                    Err(f) => Err(f),
                    Ok(rise) => match quantity_or(component, "fall_time"@, Unit::Second, zero) {
                        Err(f) => Err(f),
                        Ok(fall) => match quantity_or(
                            component,
                            "input_load"@,
                            Unit::Farad,
                            zero,
                        ) {
                            Err(f) => Err(f),
                            Ok(load) => match dac_failure(component, rise, fall, load) {
                                Some(f) => Err(f),
                                None => Ok(
                                    dac_text(
                                        index,
                                        digital,
                                        analog,
                                        low,
                                        high,
                                        unknown,
                                        load,
                                        rise,
                                        fall,
                                    ),
                                ),
                            },
                        },
                    },
                },
            },
        },
    }
}

/// What keeps the times and the load of a DAC bridge from being used.
pub open spec fn dac_failure(component: Component, rise: Real, fall: Real, load: Real) -> Option<
    Fault,
> {
    match negative_failure(component, "rise_time"@, rise) {
        Some(f) => Some(f),
        None => match negative_failure(component, "fall_time"@, fall) {
            Some(f) => Some(f),
            None => negative_failure(component, "input_load"@, load),
        },
    }
}

/// The line and the model of a DAC bridge.
pub open spec fn dac_text(
    index: int,
    digital: Seq<char>,
    analog: Seq<char>,
    low: Real,
    high: Real,
    unknown: Real,
    load: Real,
    rise: Real,
    fall: Real,
) -> BridgePart {
    let model = "mdac"@ + decimal(index as nat);
    BridgePart {
        line: letters(
            "adac"@ + decimal(index as nat) + " ["@ + digital + "] ["@ + analog + "] "@ + model,
        ),
        model: letters(".model "@ + model + " dac_bridge(out_low="@) + figure(low) + letters(
            " out_high="@,
        ) + figure(high) + letters(" out_undef="@) + figure(unknown) + letters(" input_load="@)
            + figure(load) + letters(" t_rise="@) + figure(floored_delay(rise)) + letters(
            " t_fall="@,
        ) + figure(floored_delay(fall)) + letters(")"@),
        floored: too_short(rise) || too_short(fall),
    }
}

fn write_dac(
    index: usize,
    digital: &str,
    analog: &str,
    low: Real,
    high: Real,
    unknown: Real,
    load: Real,
    asked_rise: Real,
    asked_fall: Real,
) -> (r: BridgeFragment)
    ensures
        r@ == dac_text(
            index as int,
            digital@,
            analog@,
            low,
            high,
            unknown,
            load,
            asked_rise,
            asked_fall,
        ),
{
    let (rise, rise_floored) = floor_delay(asked_rise);
    let (fall, fall_floored) = floor_delay(asked_fall);
    let number = decimal_text(index as u64);
    let model = cat2("mdac", number.as_str());
    let line = Draft::of(
        cat7("adac", number.as_str(), " [", digital, "] [", analog, "] ").concat(
            model.as_str(),
        ).as_str(),
    );
    let mut text = Draft::of(cat3(".model ", model.as_str(), " dac_bridge(out_low=").as_str());
    text.number(low);
    text.text(" out_high=");
    text.number(high);
    text.text(" out_undef=");
    text.number(unknown);
    text.text(" input_load=");
    text.number(load);
    text.text(" t_rise=");
    text.number(rise);
    text.text(" t_fall=");
    text.number(fall);
    text.text(")");
    BridgeFragment { line, model: text, floored: rise_floored || fall_floored }
}

pub fn compile_dac_bridge(component: &Component, index: usize, grid: &Grid) -> (r: Result<
    BridgeFragment,
    EngineError,
>)
    ensures
        agrees(r, dac_part(*component, index as int, grid@)),
{
    let zero = Real { bits: 0 };
    let (digital, analog) = match require_bridge_nodes(
        component,
        grid,
        "digital_in",
        SignalDomain::Digital,
        "analog_out",
        SignalDomain::Analog,
    ) {
        Err(e) => {
            return Err(e);
        },
        Ok(nodes) => nodes,
    };
    let (low, high) = match require_levels(component, "low_voltage", "high_voltage") {
        Err(e) => {
            return Err(e);
        },
        Ok(levels) => levels,
    };
    let between = low.plus(high).scale(Real { bits: HALF_BITS });
    let unknown = match optional_quantity_or(component, "unknown_voltage", Unit::Volt, between) {
        Err(e) => {
            return Err(e);
        },
        Ok(x) => x,
    };
    let rise = match optional_quantity_or(component, "rise_time", Unit::Second, zero) {
        Err(e) => {
            return Err(e);
        },
        Ok(x) => x,
    };
    let fall = match optional_quantity_or(component, "fall_time", Unit::Second, zero) {
        Err(e) => {
            return Err(e);
        },
        Ok(x) => x,
    };
    let load = match optional_quantity_or(component, "input_load", Unit::Farad, zero) {
        Err(e) => {
            return Err(e);
        },
        Ok(x) => x,
    };
    match non_negative_finite(component, "rise_time", rise) {
        Err(e) => {
            return Err(e);
        },
        Ok(_) => {},
    }
    match non_negative_finite(component, "fall_time", fall) {
        Err(e) => {
            return Err(e);
        },
        Ok(_) => {},
    }
    match non_negative_finite(component, "input_load", load) {
        Err(e) => {
            return Err(e);
        },
        Ok(_) => {},
    }
    Ok(
        write_dac(
            index,
            digital.as_str(),
            analog.as_str(),
            low,
            high,
            unknown,
            load,
            rise,
            fall,
        ),
    )
}

/// A component that the analog netlist has.
pub open spec fn is_analog_kind(kind: Seq<char>) -> bool {
    ||| kind == "resistor"@
    ||| kind == "capacitor"@
    ||| kind == "inductor"@
    ||| kind == "voltage_source"@
    ||| kind == "current_source"@
    ||| kind == "diode"@
    ||| kind == "bjt"@
    ||| kind == "mosfet"@
    ||| kind == "op_amp"@
    ||| kind == "subcircuit"@
}

fn analog_kind(kind: &str) -> (r: bool)
    ensures
        r == is_analog_kind(kind@),
{
    text_eq(kind, "resistor") || text_eq(kind, "capacitor") || text_eq(kind, "inductor")
        || text_eq(kind, "voltage_source") || text_eq(kind, "current_source") || text_eq(
        kind,
        "diode",
    ) || text_eq(kind, "bjt") || text_eq(kind, "mosfet") || text_eq(kind, "op_amp") || text_eq(
        kind,
        "subcircuit",
    )
}

/// What components have added to a mixed netlist.
pub struct Assembly {
    pub analog: Seq<Seq<Sign>>,
    pub digital: Addition,
    pub bridges: Seq<Seq<Sign>>,
}

/// What components have added to a mixed netlist.
#[derive(Clone, Debug, PartialEq, Eq)]
pub struct MixedParts {
    pub analog: Vec<Draft>,
    pub digital: Fragment,
    pub bridges: Vec<Draft>,
}

impl View for MixedParts {
    type V = Assembly;

    open spec fn view(&self) -> Assembly {
        Assembly {
            analog: drafts(self.analog@),
            digital: self.digital@,
            bridges: drafts(self.bridges@),
        }
    }
}

/// An assembly with one more bridge.
pub open spec fn with_bridge(before: Assembly, part: BridgePart) -> Assembly {
    Assembly {
        bridges: before.bridges.push(part.line),
        digital: Addition {
            models: before.digital.models.push(part.model),
            floored: before.digital.floored || part.floored,
            ..before.digital
        },
        ..before
    }
}

/// An assembly with one more component.
pub open spec fn component_added(
    before: Assembly,
    component: Component,
    index: int,
    stop: Real,
    mesh: Mesh,
    layout: Layout,
    models: Registry,
) -> Result<Assembly, Fault> {
    let kind = component.kind@;
    if kind == "ground"@ {
        Ok(before)
    } else if is_analog_kind(kind) {
        match component_line(index, component, layout, models) {
            Err(f) => Err(f),
            Ok(line) => Ok(Assembly { analog: before.analog.push(line), ..before }),
        }
    } else {
        match digital_addition(component, index, stop, mesh, true) {
            Some(Err(f)) => Err(f),
            Some(Ok(addition)) => Ok(
                Assembly { digital: merged(before.digital, addition), ..before },
            ),
            None => if kind == "adc_bridge"@ {
                match adc_part(component, index, mesh) {
                    Err(f) => Err(f),
                    Ok(part) => Ok(with_bridge(before, part)),
                }
            } else if kind == "dac_bridge"@ {
                match dac_part(component, index, mesh) {
                    Err(f) => Err(f),
                    Ok(part) => Ok(with_bridge(before, part)),
                }
            } else {
                Err(
                    fault(
                        "mixed_signal_unsupported_component"@,
                        "component `"@ + component.id@
                            + "` has unsupported mixed-signal kind `"@ + kind + "`"@,
                    ),
                )
            },
        }
    }
}

fn add_bridge(parts: &mut MixedParts, bridge: BridgeFragment)
    requires
        started_feeds(old(parts)@.digital.sources),
    ensures
        final(parts)@ == with_bridge(old(parts)@, bridge@),
        started_feeds(final(parts)@.digital.sources),
{
    let ghost before = parts@;
    parts.bridges.push(bridge.line);
    parts.digital.models.push(bridge.model);
    parts.digital.delay_floor_applied = parts.digital.delay_floor_applied || bridge.floored;
    assert(drafts(parts.bridges@) =~= before.bridges.push(bridge.line@));
    assert(drafts(parts.digital.models@) =~= before.digital.models.push(bridge.model@));
}

fn add_component(
    parts: &mut MixedParts,
    component: &Component,
    index: usize,
    stop: Real,
    grid: &Grid,
    topology: &Topology,
    models: &CompiledModelRegistry,
) -> (r: Result<(), EngineError>)
    requires
        index + 10_000 <= usize::MAX,
        started_feeds(old(parts)@.digital.sources),
    ensures
        match (
            r,
            component_added(
                old(parts)@,
                *component,
                index as int,
                stop,
                grid@,
                topology@,
                models@,
            ),
        ) {
            (Ok(_), Ok(after)) => final(parts)@ == after && started_feeds(after.digital.sources),
            (Err(e), Err(f)) => e@ == f,
            _ => false,
        },
{
    let kind = component.kind.as_str();
    if text_eq(kind, "ground") {
        return Ok(());
    }
    if analog_kind(kind) {
        match compile_component(index, component, topology, models) {
            Err(e) => {
                return Err(e);
            },
            Ok(line) => {
                let ghost before = parts@;
                parts.analog.push(line);
                assert(drafts(parts.analog@) =~= before.analog.push(line@));
                return Ok(());
            },
        }
    }
    match compile_digital(component, index, stop, grid, true) {
        Some(Err(e)) => {
            return Err(e);
        },
        Some(Ok(fragment)) => {
            merge(&mut parts.digital, fragment);
            return Ok(());
        },
        None => {},
    }
    if text_eq(kind, "adc_bridge") {
        match compile_adc_bridge(component, index, grid) {
            Err(e) => {
                return Err(e);
            },
            Ok(bridge) => {
                add_bridge(parts, bridge);
                return Ok(());
            },
        }
    }
    if text_eq(kind, "dac_bridge") {
        match compile_dac_bridge(component, index, grid) {
            Err(e) => {
                return Err(e);
            },
            Ok(bridge) => {
                add_bridge(parts, bridge);
                return Ok(());
            },
        }
    }
    Err(
        fail(
            "mixed_signal_unsupported_component",
            cat5(
                "component `",
                component.id.as_str(),
                "` has unsupported mixed-signal kind `",
                kind,
                "`",
            ),
        ),
    )
}

/// What the first `n` components add.
pub open spec fn assembled(
    components: Seq<Component>,
    stop: Real,
    mesh: Mesh,
    layout: Layout,
    models: Registry,
    n: int,
) -> Result<Assembly, Fault>
    decreases n,
{
    if n <= 0 {
        Ok(Assembly { analog: Seq::empty(), digital: no_addition(), bridges: Seq::empty() })
    } else {
        match assembled(components, stop, mesh, layout, models, n - 1) {
            Err(f) => Err(f),
            Ok(before) => component_added(
                before,
                components[n - 1],
                n - 1,
                stop,
                mesh,
                layout,
                models,
            ),
        }
    }
}

proof fn lemma_assembled_stops(
    components: Seq<Component>,
    stop: Real,
    mesh: Mesh,
    layout: Layout,
    models: Registry,
    n: int,
    m: int,
)
    requires
        0 <= m <= n,
        assembled(components, stop, mesh, layout, models, m) is Err,
    ensures
        assembled(components, stop, mesh, layout, models, n) == assembled(
            components,
            stop,
            mesh,
            layout,
            models,
            m,
        ),
    decreases n - m,
{
    if m < n {
        lemma_assembled_stops(components, stop, mesh, layout, models, n, m + 1);
    }
}

fn assemble(
    components: &Vec<Component>,
    stop: Real,
    grid: &Grid,
    topology: &Topology,
    models: &CompiledModelRegistry,
) -> (r: Result<MixedParts, EngineError>)
    requires
        components@.len() + 10_000 <= usize::MAX,
    ensures
        agrees(
            r,
            assembled(
                components@,
                stop,
                grid@,
                topology@,
                models@,
                components@.len() as int,
            ),
        ),
        r matches Ok(parts) ==> started_feeds(parts@.digital.sources),
{
    let mut parts = MixedParts {
        analog: Vec::new(),
        digital: Fragment {
            sources: Vec::new(),
            instances: Vec::new(),
            models: Vec::new(),
            delay_floor_applied: false,
        },
        bridges: Vec::new(),
    };
    assert(drafts(parts.analog@) =~= Seq::<Seq<Sign>>::empty());
    assert(drafts(parts.bridges@) =~= Seq::<Seq<Sign>>::empty());
    assert(drafts(parts.digital.instances@) =~= Seq::<Seq<Sign>>::empty());
    assert(drafts(parts.digital.models@) =~= Seq::<Seq<Sign>>::empty());
    assert(feeds(parts.digital.sources@) =~= Seq::<Feed>::empty());
    let mut i: usize = 0;
    while i < components.len()
        invariant
            i <= components@.len(),
            components@.len() + 10_000 <= usize::MAX,
            assembled(components@, stop, grid@, topology@, models@, i as int) == Ok::<
                Assembly,
                Fault,
            >(parts@),
            started_feeds(parts@.digital.sources),
        decreases components@.len() - i,
    {
        match add_component(&mut parts, &components[i], i, stop, grid, topology, models) {
            Err(e) => {
                proof {
                    lemma_assembled_stops(
                        components@,
                        stop,
                        grid@,
                        topology@,
                        models@,
                        components@.len() as int,
                        i + 1,
                    );
                }
                return Err(e);
            },
            Ok(_) => {},
        }
        i = i + 1;
    }
    Ok(parts)
}

/// The probes of a mixed netlist: analog ones and digital ones.
pub struct MixedProbes {
    pub analog: Seq<(Seq<char>, Seq<char>)>,
    pub digital: Seq<(Seq<char>, Seq<char>)>,
}

/// Probes with one more on a node of a domain.
pub open spec fn with_probe(
    before: MixedProbes,
    signal: Seq<char>,
    node: Seq<char>,
    domain: Option<NetDomain>,
) -> MixedProbes {
    if domain == Some(NetDomain::Digital) {
        MixedProbes { digital: before.digital.push((signal, node)), ..before }
    } else {
        MixedProbes { analog: before.analog.push((signal, "v("@ + node + ")"@)), ..before }
    }
}

/// The probes of the first `n` nets where none are asked for: every net but
/// ground.
pub open spec fn mixed_default_probes(
    nets: Seq<Net>,
    nodes: Seq<(Seq<char>, Seq<char>)>,
    domains: Seq<(Seq<char>, NetDomain)>,
    n: int,
) -> MixedProbes
    decreases n,
{
    if n <= 0 {
        MixedProbes { analog: Seq::empty(), digital: Seq::empty() }
    } else {
        let before = mixed_default_probes(nets, nodes, domains, n - 1);
        let net = nets[n - 1].id@;
        match node_at(nodes, net) {
            None => before,
            Some(node) => if domain_at(domains, net) != Some(NetDomain::Digital) && node == "0"@ {
                before
            } else {
                with_probe(before, "net:"@ + net, node, domain_at(domains, net))
            },
        }
    }
}

/// The first `n` probes that are asked for.
pub open spec fn mixed_asked_probes(
    probes: Seq<Probe>,
    mesh: Mesh,
    domains: Seq<(Seq<char>, NetDomain)>,
    n: int,
) -> Result<MixedProbes, Fault>
    decreases n,
{
    if n <= 0 {
        Ok(MixedProbes { analog: Seq::empty(), digital: Seq::empty() })
    } else {
        match mixed_asked_probes(probes, mesh, domains, n - 1) {
            Err(f) => Err(f),
            Ok(before) => {
                let probe = probes[n - 1];
                match net_at(mesh.wires, probe.endpoint.component@, probe.endpoint.pin@) {
                    None => Err(loose_probe("mixed_signal_unknown_probe"@, probe)),
                    Some(net) => match node_at(mesh.nodes, net) {
                        None => Err(
                            fault(
                                "mixed_signal_unknown_probe_net"@,
                                "probe references unknown net `"@ + net + "`"@,
                            ),
                        ),
                        Some(node) => Ok(
                            with_probe(
                                before,
                                signal_name(probe, net),
                                node,
                                domain_at(domains, net),
                            ),
                        ),
                    },
                }
            },
        }
    }
}

proof fn lemma_asked_probes_stop(
    probes: Seq<Probe>,
    mesh: Mesh,
    domains: Seq<(Seq<char>, NetDomain)>,
    n: int,
    m: int,
)
    requires
        0 <= m <= n,
        mixed_asked_probes(probes, mesh, domains, m) is Err,
    ensures
        mixed_asked_probes(probes, mesh, domains, n) == mixed_asked_probes(
            probes,
            mesh,
            domains,
            m,
        ),
    decreases n - m,
{
    if m < n {
        lemma_asked_probes_stop(probes, mesh, domains, n, m + 1);
    }
}

/// The probes of a request.
pub open spec fn mixed_probes_of(
    request: SimulationRequest,
    mesh: Mesh,
    domains: Seq<(Seq<char>, NetDomain)>,
) -> Result<MixedProbes, Fault> {
    if request.probes@.len() == 0 {
        Ok(
            mixed_default_probes(
                request.circuit.nets@,
                mesh.nodes,
                domains,
                request.circuit.nets@.len() as int,
            ),
        )
    } else {
        mixed_asked_probes(request.probes@, mesh, domains, request.probes@.len() as int)
    }
}

/// Both lists of probes.
pub open spec fn both_probes(analog: Seq<AnalogProbe>, digital: Seq<EventProbe>) -> MixedProbes {
    MixedProbes { analog: probe_views(analog), digital: event_probes(digital) }
}

fn add_probe(
    analog: &mut Vec<AnalogProbe>,
    digital: &mut Vec<EventProbe>,
    signal: String,
    node: &String,
    domain: Option<NetDomain>,
)
    ensures
        both_probes(final(analog)@, final(digital)@) == with_probe(
            both_probes(old(analog)@, old(digital)@),
            signal@,
            node@,
            domain,
        ),
{
    let ghost before = both_probes(analog@, digital@);
    match domain {
        Some(NetDomain::Digital) => {
            digital.push(EventProbe { signal, node: node.clone() });
            assert(event_probes(digital@) =~= before.digital.push(digital@.last()@));
        },
        _ => {
            analog.push(AnalogProbe { signal, expression: cat3("v(", node.as_str(), ")") });
            assert(probe_views(analog@) =~= before.analog.push(analog@.last()@));
        },
    }
}

pub fn compile_probes(request: &SimulationRequest, domains: &Vec<DomainName>, grid: &Grid) -> (r:
    Result<(Vec<AnalogProbe>, Vec<EventProbe>), EngineError>)
    ensures
        match (r, mixed_probes_of(*request, grid@, domain_views(domains@))) {
            (Ok((a, d)), Ok(s)) => both_probes(a@, d@) == s,
            (Err(e), Err(f)) => e@ == f,
            _ => false,
        },
{
    let ghost known = domain_views(domains@);
    let ghost mesh = grid@;
    let mut analog: Vec<AnalogProbe> = Vec::new();
    let mut digital: Vec<EventProbe> = Vec::new();
    assert(probe_views(analog@) =~= Seq::<(Seq<char>, Seq<char>)>::empty());
    assert(event_probes(digital@) =~= Seq::<(Seq<char>, Seq<char>)>::empty());
    let mut i: usize = 0;
    if request.probes.len() == 0 {
        let nets = &request.circuit.nets;
        while i < nets.len()
            invariant
                i <= nets@.len(),
                known == domain_views(domains@),
                mesh == grid@,
                both_probes(analog@, digital@) == mixed_default_probes(
                    nets@,
                    mesh.nodes,
                    known,
                    i as int,
                ),
            decreases nets@.len() - i,
        {
            let net = nets[i].id.as_str();
            match grid.nodes.find(net) {
                None => {},
                Some(node) => {
                    let domain = find_domain(domains, net);
                    let shown: bool = match domain {
                        Some(NetDomain::Digital) => true,
                        _ => !text_eq(node.as_str(), "0"),
                    };
                    if shown {
                        add_probe(&mut analog, &mut digital, cat2("net:", net), node, domain);
                    }
                },
            }
            i = i + 1;
        }
        return Ok((analog, digital));
    }
    while i < request.probes.len()
        invariant
            i <= request.probes@.len(),
            request.probes@.len() > 0,
            known == domain_views(domains@),
            mesh == grid@,
            mixed_asked_probes(request.probes@, mesh, known, i as int) == Ok::<
                MixedProbes,
                Fault,
            >(both_probes(analog@, digital@)),
        decreases request.probes@.len() - i,
    {
        let probe = &request.probes[i];
        let net = match grid.wiring.find(
            probe.endpoint.component.as_str(),
            probe.endpoint.pin.as_str(),
        ) {
            None => {
                proof {
                    lemma_asked_probes_stop(
                        request.probes@,
                        mesh,
                        known,
                        request.probes@.len() as int,
                        i + 1,
                    );
                }
                return Err(loose_probe_error("mixed_signal_unknown_probe", probe));
            },
            Some(net) => net,
        };
        match grid.nodes.find(net.as_str()) {
            None => {
                proof {
                    lemma_asked_probes_stop(
                        request.probes@,
                        mesh,
                        known,
                        request.probes@.len() as int,
                        i + 1,
                    );
                }
                return Err(
                    fail(
                        "mixed_signal_unknown_probe_net",
                        cat3("probe references unknown net `", net.as_str(), "`"),
                    ),
                );
            },
            Some(node) => {
                let domain = find_domain(domains, net.as_str());
                add_probe(
                    &mut analog,
                    &mut digital,
                    signal_text(probe, net.as_str()),
                    node,
                    domain,
                );
            },
        }
        i = i + 1;
    }
    Ok((analog, digital))
}

/// A mixed netlist, its stimulus and its probes.
#[derive(Clone, Debug, PartialEq, Eq)]
pub struct CompiledMixedRequest {
    pub netlist: Draft,
    pub stimulus: Draft,
    pub analog_probes: Vec<AnalogProbe>,
    pub digital_probes: Vec<EventProbe>,
    pub delay_floor_applied: bool,
}

/// What a `CompiledMixedRequest` says.
pub struct MixedNetlist {
    pub netlist: Seq<Sign>,
    pub stimulus: Seq<Sign>,
    pub probes: MixedProbes,
    pub floored: bool,
}

impl View for CompiledMixedRequest {
    type V = MixedNetlist;

    open spec fn view(&self) -> MixedNetlist {
        MixedNetlist {
            netlist: self.netlist@,
            stimulus: self.stimulus@,
            probes: both_probes(self.analog_probes@, self.digital_probes@),
            floored: self.delay_floor_applied,
        }
    }
}

/// The line that writes the analog results, if there are any.
pub open spec fn analog_result_lines(probes: Seq<(Seq<char>, Seq<char>)>) -> Seq<Seq<Sign>> {
    if probes.len() == 0 {
        Seq::empty()
    } else {
        seq![letters("wrdata analog.txt "@ + join_of(expressions(probes), " "@))]
    }
}

/// The line that writes the digital results, if there are any.
pub open spec fn digital_result_lines(probes: Seq<(Seq<char>, Seq<char>)>) -> Seq<Seq<Sign>> {
    if probes.len() == 0 {
        Seq::empty()
    } else {
        seq![
            letters(
                "eprvcd -t 1e-15 "@ + join_of(probed_nodes(probes, probes.len() as int), " "@)
                    + " > digital.vcd"@,
            ),
        ]
    }
}

/// The lines that set up a mixed transient.
pub open spec fn mixed_setup_lines(step: Real, stop: Real) -> Seq<Seq<Sign>> {
    seq![
        letters(".control"@),
        letters("set noaskquit"@),
        letters("set noacct"@),
        letters("set digital_delay_type=2"@),
        letters("set wr_singlescale"@),
        letters("set wr_vecnames"@),
        letters("option numdgt=17"@),
        letters("esave all"@),
        letters("tran "@) + figure(step) + letters(" "@) + figure(stop),
    ]
}

/// The lines that end a netlist.
pub open spec fn closing_lines() -> Seq<Seq<Sign>> {
    seq![letters("quit"@), letters(".endc"@), letters(".end"@), letters(""@)]
}

/// The netlist of an assembly with its models and probes.
pub open spec fn mixed_netlist(
    models: Registry,
    assembly: Assembly,
    probes: MixedProbes,
    step: Real,
    stop: Real,
) -> Seq<Sign> {
    stack_of(
        seq![letters("* OntologyX Sim Core generated mixed-signal netlist"@)] + model_lines(models)
            + assembly.analog + source_lines(assembly.digital.sources) + assembly.digital.instances
            + assembly.bridges + assembly.digital.models + mixed_setup_lines(step, stop)
            + analog_result_lines(probes.analog) + digital_result_lines(probes.digital)
            + closing_lines(),
    )
}

fn push_mixed_setup_lines(lines: &mut Vec<Draft>, step: Real, stop: Real)
    ensures
        drafts(final(lines)@) == drafts(old(lines)@) + mixed_setup_lines(step, stop),
{
    let ghost start = drafts(lines@);
    push_text(lines, ".control");
    push_text(lines, "set noaskquit");
    push_text(lines, "set noacct");
    push_text(lines, "set digital_delay_type=2");
    push_text(lines, "set wr_singlescale");
    push_text(lines, "set wr_vecnames");
    push_text(lines, "option numdgt=17");
    push_text(lines, "esave all");
    let mut command = Draft::of("tran ");
    command.number(step);
    command.text(" ");
    command.number(stop);
    let ghost before = drafts(lines@);
    lines.push(command);
    assert(drafts(lines@) =~= before.push(command@));
    assert(drafts(lines@) =~= start + mixed_setup_lines(step, stop));
}

fn push_result_lines(lines: &mut Vec<Draft>, analog: &Vec<AnalogProbe>, digital: &Vec<EventProbe>)
    ensures
        drafts(final(lines)@) == drafts(old(lines)@) + analog_result_lines(probe_views(analog@))
            + digital_result_lines(event_probes(digital@)) + closing_lines(),
{
    let ghost start = drafts(lines@);
    assert(probe_views(analog@).len() == analog@.len());
    assert(event_probes(digital@).len() == digital@.len());
    if analog.len() > 0 {
        push_text(lines, cat2("wrdata analog.txt ", join_expressions(analog).as_str()).as_str());
    }
    let ghost middle = drafts(lines@);
    assert(middle =~= start + analog_result_lines(probe_views(analog@)));
    if digital.len() > 0 {
        push_text(
            lines,
            cat3(
                "eprvcd -t 1e-15 ",
                join_texts(&sorted_nodes(digital), " ").as_str(),
                " > digital.vcd",
            ).as_str(),
        );
    }
    let ghost late = drafts(lines@);
    assert(late =~= middle + digital_result_lines(event_probes(digital@)));
    push_text(lines, "quit");
    push_text(lines, ".endc");
    push_text(lines, ".end");
    push_text(lines, "");
    assert(drafts(lines@) =~= late + closing_lines());
}

/// What keeps a time of a mixed transient from being used.
pub open spec fn mixed_time_failure(label: Seq<char>, value: Real) -> Option<Fault> {
    if !value.finite() || value.at_most(Real { bits: 0 }) {
        Some(
            fault(
                "mixed_signal_invalid_analysis"@,
                label + " must be finite and greater than zero"@,
            ),
        )
    } else {
        None
    }
}

fn positive_finite(label: &str, value: Real) -> (r: Result<(), EngineError>)
    ensures
        passes(r, mixed_time_failure(label@, value)),
{
    if !value.is_finite() || value.le(Real { bits: 0 }) {
        return Err(
            fail(
                "mixed_signal_invalid_analysis",
                cat2(label, " must be finite and greater than zero"),
            ),
        );
    }
    Ok(())
}

/// The step and the stop time of a mixed transient.
pub open spec fn mixed_times(analysis: Analysis) -> Result<(Real, Real), Fault> {
    match analysis {
        Analysis::MixedSignalTransient { step, stop } => match mixed_time_failure(
            "mixed transient step"@,
            step,
        ) {
            Some(f) => Err(f),
            None => match mixed_time_failure("mixed transient stop"@, stop) {
                Some(f) => Err(f),
                None => if stop.less(step) {
                    Err(
                        fault(
                            "mixed_signal_invalid_analysis"@,
                            "mixed transient step must not exceed stop time"@,
                        ),
                    )
                } else {
                    Ok((step, stop))
                },
            },
        },
        _ => Err(
            fault(
                "mixed_signal_unsupported_analysis"@,
                "mixed-signal engine only supports mixed_signal_transient analysis"@,
            ),
        ),
    }
}

fn read_times(analysis: &Analysis) -> (r: Result<(Real, Real), EngineError>)
    ensures
        same(r, mixed_times(*analysis)),
{
    match analysis {
        Analysis::MixedSignalTransient { step, stop } => {
            match positive_finite("mixed transient step", *step) {
                Err(e) => {
                    return Err(e);
                },
                Ok(_) => {},
            }
            match positive_finite("mixed transient stop", *stop) {
                Err(e) => {
                    return Err(e);
                },
                Ok(_) => {},
            }
            if stop.lt(*step) {
                return Err(
                    EngineError::new(
                        "mixed_signal_invalid_analysis",
                        "mixed transient step must not exceed stop time",
                    ),
                );
            }
            Ok((*step, *stop))
        },
        _ => Err(
            EngineError::new(
                "mixed_signal_unsupported_analysis",
                "mixed-signal engine only supports mixed_signal_transient analysis",
            ),
        ),
    }
}

/// What a request adds once its nets are classified.
pub open spec fn mixed_assembly(
    request: SimulationRequest,
    domains: Seq<(Seq<char>, NetDomain)>,
    stop: Real,
) -> Result<(Mesh, Registry, Assembly), Fault> {
    match mixed_mesh(request.circuit, domains) {
        Err(f) => Err(f),
        Ok(mesh) => match layout_on(request.circuit, mesh.nodes) {
            Err(f) => Err(f),
            Ok(layout) => match registry_of(request.circuit.models@) {
                Err(f) => Err(f),
                Ok(models) => match assembled(
                    request.circuit.components@,
                    stop,
                    mesh,
                    layout,
                    models,
                    request.circuit.components@.len() as int,
                ) {
                    Err(f) => Err(f),
                    Ok(assembly) => if assembly.bridges.len() == 0 {
                        Err(
                            fault(
                                "mixed_signal_bridge_required"@,
                                "mixed-signal transient requires at least one explicit adc_bridge or dac_bridge"@,
                            ),
                        )
                    } else {
                        Ok((mesh, models, assembly))
                    },
                },
            },
        },
    }
}

/// The netlist of a request, its stimulus and its probes.
pub open spec fn mixed_compiled(request: SimulationRequest) -> Result<MixedNetlist, Fault> {
    match mixed_times(request.analysis) {
        Err(f) => Err(f),
        Ok((step, stop)) => match domains_of(
            request.circuit,
            request.circuit.nets@.len() as int,
        ) {
            Err(f) => Err(f),
            Ok(domains) => match mixed_assembly(request, domains, stop) {
                Err(f) => Err(f),
                Ok((mesh, models, assembly)) => match mixed_probes_of(request, mesh, domains) {
                    Err(f) => Err(f),
                    Ok(probes) => if probes.analog.len() == 0 && probes.digital.len() == 0 {
                        Err(
                            fault(
                                "mixed_signal_no_probes"@,
                                "mixed-signal transient has no observable analog or digital net"@,
                            ),
                        )
                    } else {
                        match stimulus_of(assembly.digital.sources) {
                            Err(f) => Err(f),
                            Ok(stimulus) => Ok(
                                MixedNetlist {
                                    netlist: mixed_netlist(models, assembly, probes, step, stop),
                                    stimulus,
                                    probes,
                                    floored: assembly.digital.floored,
                                },
                            ),
                        }
                    },
                },
            },
        },
    }
}

fn assemble_request(request: &SimulationRequest, domains: &Vec<DomainName>, stop: Real) -> (r: Result<
    (Grid, CompiledModelRegistry, MixedParts),
    EngineError,
>)
    requires
        request.circuit.components@.len() + 10_000 <= usize::MAX,
    ensures
        match (r, mixed_assembly(*request, domain_views(domains@), stop)) {
            (Ok((g, c, p)), Ok((mesh, models, assembly))) => g@ == mesh && c@ == models && p@
                == assembly && started_feeds(assembly.digital.sources),
            (Err(e), Err(f)) => e@ == f,
            _ => false,
        },
{
    let grid = match build_nodes(&request.circuit, domains) {
        Err(e) => {
            return Err(e);
        },
        Ok(grid) => grid,
    };
    let topology = match Topology::build_with_net_nodes(&request.circuit, copy_nodes(&grid.nodes)) {
        Err(e) => {
            return Err(e);
        },
        Ok(topology) => topology,
    };
    let models = match compile_models(&request.circuit.models) {
        Err(e) => {
            return Err(e);
        },
        Ok(models) => models,
    };
    let parts = match assemble(&request.circuit.components, stop, &grid, &topology, &models) {
        Err(e) => {
            return Err(e);
        },
        Ok(parts) => parts,
    };
    assert(drafts(parts.bridges@).len() == parts.bridges@.len());
    if parts.bridges.len() == 0 {
        return Err(
            EngineError::new(
                "mixed_signal_bridge_required",
                "mixed-signal transient requires at least one explicit adc_bridge or dac_bridge",
            ),
        );
    }
    Ok((grid, models, parts))
}

fn copy_nodes(nodes: &NodeMap) -> (r: NodeMap)
    ensures
        r@ == nodes@,
{
    let mut out = NodeMap { names: Vec::new() };
    let mut i: usize = 0;
    while i < nodes.names.len()
        invariant
            i <= nodes.names@.len(),
            out@ =~= nodes@.take(i as int),
        decreases nodes.names@.len() - i,
    {
        let name = &nodes.names[i];
        let ghost before = out@;
        out.names.push(NodeName { net: name.net.clone(), node: name.node.clone() });
        assert(out@ =~= before.push(nodes@[i as int]));
        assert(nodes@.take(i + 1) =~= nodes@.take(i as int).push(nodes@[i as int]));
        i = i + 1;
    }
    assert(out@ =~= nodes@);
    out
}

pub fn compile_request(request: &SimulationRequest) -> (r: Result<
    CompiledMixedRequest,
    EngineError,
>)
    requires
        request.circuit.components@.len() + 10_000 <= usize::MAX,
    ensures
        agrees(r, mixed_compiled(*request)),
{
    let (step, stop) = match read_times(&request.analysis) {
        Err(e) => {
            return Err(e);
        },
        Ok(times) => times,
    };
    let domains = match classify_nets(&request.circuit) {
        Err(e) => {
            return Err(e);
        },
        Ok(domains) => domains,
    };
    let (grid, models, parts) = match assemble_request(request, &domains, stop) {
        Err(e) => {
            return Err(e);
        },
        Ok(found) => found,
    };
    let (analog_probes, digital_probes) = match compile_probes(request, &domains, &grid) {
        Err(e) => {
            return Err(e);
        },
        Ok(probes) => probes,
    };
    assert(probe_views(analog_probes@).len() == analog_probes@.len());
    assert(event_probes(digital_probes@).len() == digital_probes@.len());
    if analog_probes.len() == 0 && digital_probes.len() == 0 {
        return Err(
            EngineError::new(
                "mixed_signal_no_probes",
                "mixed-signal transient has no observable analog or digital net",
            ),
        );
    }
    let stimulus = match compile_stimulus(&parts.digital.sources) {
        Err(e) => {
            return Err(e);
        },
        Ok(stimulus) => stimulus,
    };
    let mut lines: Vec<Draft> = Vec::new();
    assert(drafts(lines@) =~= Seq::<Seq<Sign>>::empty());
    push_text(&mut lines, "* OntologyX Sim Core generated mixed-signal netlist");
    assert(drafts(lines@) =~= seq![
        letters("* OntologyX Sim Core generated mixed-signal netlist"@),
    ]);
    push_model_lines(&mut lines, &models);
    push_drafts(&mut lines, &parts.analog);
    push_source_lines(&mut lines, &parts.digital.sources);
    push_drafts(&mut lines, &parts.digital.instances);
    push_drafts(&mut lines, &parts.bridges);
    push_drafts(&mut lines, &parts.digital.models);
    push_mixed_setup_lines(&mut lines, step, stop);
    push_result_lines(&mut lines, &analog_probes, &digital_probes);
    Ok(
        CompiledMixedRequest {
            netlist: stack(&lines),
            stimulus,
            analog_probes,
            digital_probes,
            delay_floor_applied: parts.digital.delay_floor_applied,
        },
    )
}

/// No net of a classified circuit joins analog and digital pins.
pub proof fn classified_nets_keep_domains_apart(circuit: Circuit, n: int, i: int)
    requires
        0 <= i < n <= circuit.nets@.len(),
        domains_of(circuit, n) is Ok,
    ensures
        net_sides(
            circuit.components@,
            circuit.nets@[i],
            circuit.nets@[i].endpoints@.len() as int,
        ) matches Ok((analog, digital)) && !(analog && digital),
    decreases n,
{
    if i < n - 1 {
        classified_nets_keep_domains_apart(circuit, n - 1, i);
    }
}

/// Every line that one component adds to a mixed netlist stays in it.
pub proof fn mixed_netlists_keep_every_line(
    components: Seq<Component>,
    stop: Real,
    mesh: Mesh,
    layout: Layout,
    models: Registry,
    m: int,
    n: int,
    before: Assembly,
    after: Assembly,
)
    requires
        0 <= m <= n <= components.len(),
        assembled(components, stop, mesh, layout, models, m) == Ok::<Assembly, Fault>(before),
        assembled(components, stop, mesh, layout, models, n) == Ok::<Assembly, Fault>(after),
    ensures
        before.analog.is_prefix_of(after.analog),
        before.bridges.is_prefix_of(after.bridges),
        before.digital.instances.is_prefix_of(after.digital.instances),
        before.digital.models.is_prefix_of(after.digital.models),
        before.digital.sources.is_prefix_of(after.digital.sources),
    decreases n,
{
    if m < n {
        let middle = assembled(components, stop, mesh, layout, models, n - 1)->Ok_0;
        mixed_netlists_keep_every_line(
            components,
            stop,
            mesh,
            layout,
            models,
            m,
            n - 1,
            before,
            middle,
        );
        let component = components[n - 1];
        assert(component_added(middle, component, n - 1, stop, mesh, layout, models) == Ok::<
            Assembly,
            Fault,
        >(after));
        lemma_prefix_grows(before.analog, middle.analog, after.analog);
        lemma_prefix_grows(before.bridges, middle.bridges, after.bridges);
        lemma_prefix_grows(
            before.digital.instances,
            middle.digital.instances,
            after.digital.instances,
        );
        lemma_prefix_grows(before.digital.models, middle.digital.models, after.digital.models);
        lemma_prefix_grows(before.digital.sources, middle.digital.sources, after.digital.sources);
    }
}

proof fn lemma_prefix_grows<T>(a: Seq<T>, b: Seq<T>, c: Seq<T>)
    requires
        a.is_prefix_of(b),
        b.len() <= c.len(),
        forall|i: int| 0 <= i < b.len() ==> #[trigger] c[i] == b[i],
    ensures
        a.is_prefix_of(c),
{
    assert(c.subrange(0, a.len() as int) =~= b.subrange(0, a.len() as int));
}

} // verus!
