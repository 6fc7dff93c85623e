//! Which pins share a node of a netlist, and how the nodes are named.
use crate::analog_terms::{decimals_tell_numbers_apart, sources_have_names_of_their_own, tidy};
use crate::circuit::{Circuit, Component, Net};
use crate::deck::{lemma_decimal_unspaced, lemma_unspaced_add, unspaced};
use crate::fault::Fault;
use crate::lookup::{pins_are_on_the_nets_that_reach_them, sits};
use crate::mixed::{domain_at, mixed_mesh, mixed_node, mixed_nodes, NetDomain};
use crate::nodes::{
    analog_node, ground_nets, grounded_by, grounds_of, layout_of, layout_on, node_at,
    touches, Layout,
};
use crate::text::{concat_upto, decimal};
use crate::wiring::{net_at, wires};
use crate::xspice::{event_nodes, joined_node, Mesh};
use vstd::prelude::*;

verus! {

/// Some ground component has its pin on a net of this name.
pub open spec fn earthed(circuit: Circuit, net: Seq<char>) -> bool {
    exists|k: int, j: int|
        #![trigger circuit.components@[k], circuit.nets@[j]]
        0 <= k < circuit.components@.len() && 0 <= j < circuit.nets@.len()
            && circuit.components@[k].kind@ == "ground"@ && circuit.components@[k].pins@.len() == 1
            && circuit.nets@[j].id@ == net && touches(
            circuit.nets@[j],
            circuit.components@[k].id@,
            circuit.components@[k].pins@[0].id@,
        )
}

pub proof fn lemma_concat_contains<T>(n: int, f: spec_fn(int) -> Seq<T>, x: T)
    ensures
        concat_upto(n, f).contains(x) <==> exists|k: int|
            0 <= k < n && (#[trigger] f(k)).contains(x),
    decreases n,
{
    if n > 0 {
        lemma_concat_contains(n - 1, f, x);
        let before = concat_upto(n - 1, f);
        let all = concat_upto(n, f);
        if before.contains(x) {
            let i = choose|i: int| 0 <= i < before.len() && before[i] == x;
            assert(all[i] == x);
        }
        if f(n - 1).contains(x) {
            let more = f(n - 1);
            let i = choose|i: int| 0 <= i < more.len() && more[i] == x;
            assert(all[before.len() + i] == x);
        }
        if all.contains(x) {
            let i = choose|i: int| 0 <= i < all.len() && all[i] == x;
            if i < before.len() {
                assert(before[i] == x);
                assert(before.contains(x));
            } else {
                assert(f(n - 1)[i - before.len()] == x);
                assert(f(n - 1).contains(x));
            }
        }
    }
}

/// The ground nets are those that a ground component is on.
pub proof fn ground_is_where_a_ground_component_is(circuit: Circuit, net: Seq<char>)
    ensures
        ground_nets(circuit).contains(net) <==> earthed(circuit, net),
{
    let f = |k: int| grounds_of(circuit.components@[k], circuit.nets@);
    lemma_concat_contains(circuit.components@.len() as int, f, net);
    if ground_nets(circuit).contains(net) {
        let k = choose|k: int|
            0 <= k < circuit.components@.len() && (#[trigger] f(k)).contains(net);
        let g = |j: int| grounded_by(circuit.components@[k], circuit.nets@[j]);
        lemma_concat_contains(circuit.nets@.len() as int, g, net);
        let j = choose|j: int| 0 <= j < circuit.nets@.len() && (#[trigger] g(j)).contains(net);
        assert(grounded_by(circuit.components@[k], circuit.nets@[j]).contains(net));
        assert(circuit.nets@[j].id@ == net);
    }
    if earthed(circuit, net) {
        let (k, j) = choose|k: int, j: int|
            #![trigger circuit.components@[k], circuit.nets@[j]]
            0 <= k < circuit.components@.len() && 0 <= j < circuit.nets@.len()
                && circuit.components@[k].kind@ == "ground"@ && circuit.components@[k].pins@.len()
                == 1 && circuit.nets@[j].id@ == net && touches(
                circuit.nets@[j],
                circuit.components@[k].id@,
                circuit.components@[k].pins@[0].id@,
            );
        let g = |j: int| grounded_by(circuit.components@[k], circuit.nets@[j]);
        lemma_concat_contains(circuit.nets@.len() as int, g, net);
        assert(g(j) =~= seq![net]);
        assert(g(j)[0] == net);
        assert(f(k).contains(net));
    }
}

/// A node that is looked up is the one listed for a net of that name, in last place.
proof fn lemma_node(nodes: Seq<(Seq<char>, Seq<char>)>, net: Seq<char>)
    ensures
        match node_at(nodes, net) {
            Some(node) => exists|i: int| 0 <= i < nodes.len() && #[trigger] nodes[i] == (net, node),
            None => forall|i: int| 0 <= i < nodes.len() ==> (#[trigger] nodes[i]).0 != net,
        },
    decreases nodes.len(),
{
    if nodes.len() > 0 {
        let rest = nodes.drop_last();
        let last = nodes.len() - 1;
        if nodes.last().0 == net {
            assert(nodes[last] == (net, nodes.last().1));
        } else {
            lemma_node(rest, net);
            match node_at(rest, net) {
                Some(node) => {
                    let i = choose|i: int|
                        0 <= i < rest.len() && #[trigger] rest[i] == (net, node);
                    assert(nodes[i] == (net, node));
                },
                None => {
                    assert forall|i: int| 0 <= i < nodes.len() implies (#[trigger] nodes[i]).0
                        != net by {
                        if i < last {
                            assert(rest[i] == nodes[i]);
                        }
                    }
                },
            }
        }
    }
}

/// The name of a node: the zero of ground, or a letter and the number of a net.
pub open spec fn numbered_node(letter: char, number: nat) -> Seq<char> {
    seq![letter] + decimal(number)
}

proof fn lemma_numbered_node(a: char, m: nat, b: char, n: nat)
    requires
        numbered_node(a, m) == numbered_node(b, n),
    ensures
        a == b,
        m == n,
{
    assert(numbered_node(a, m)[0] == a);
    assert(numbered_node(b, n)[0] == b);
    assert(numbered_node(a, m).skip(1) =~= decimal(m));
    assert(numbered_node(b, n).skip(1) =~= decimal(n));
    decimals_tell_numbers_apart(m, n);
}

/// The node of a pin in an analog netlist is zero exactly if its net is ground, and
/// otherwise carries the number of its net.
pub proof fn analog_pins_have_the_node_of_their_net(
    circuit: Circuit,
    layout: Layout,
    component: Component,
    pin: Seq<char>,
    node: Seq<char>,
)
    requires
        layout_of(circuit) == Ok::<Layout, Fault>(layout),
        layout.node(component, pin) == Ok::<Seq<char>, Fault>(node),
    ensures
        exists|net: Seq<char>, i: int|
            #![trigger sits(circuit.nets@, component.id@, pin, net), circuit.nets@[i]]
            sits(circuit.nets@, component.id@, pin, net) && 0 <= i < circuit.nets@.len()
                && circuit.nets@[i].id@ == net && node == if earthed(circuit, net) {
                seq!['0']
            } else {
                numbered_node('n', (i + 1) as nat)
            },
{
    let net = net_at(layout.wires, component.id@, pin)->0;
    pins_are_on_the_nets_that_reach_them(circuit.nets@, component.id@, pin, net);
    ground_is_where_a_ground_component_is(circuit, net);
    lemma_node(layout.nodes, net);
    let i = choose|i: int| 0 <= i < layout.nodes.len() && #[trigger] layout.nodes[i] == (net, node);
    reveal_strlit("0");
    reveal_strlit("n");
    assert("0"@ =~= seq!['0']);
    assert("n"@ =~= seq!['n']);
    assert(layout.nodes[i] == analog_node(circuit, i));
    assert(sits(circuit.nets@, component.id@, pin, net));
    assert(circuit.nets@[i].id@ == net);
}

/// Two pins are on one node of an analog netlist exactly if they are on one net, or
/// both on ground.
pub proof fn analog_pins_share_a_node_when_joined(
    circuit: Circuit,
    layout: Layout,
    a: Component,
    p: Seq<char>,
    b: Component,
    q: Seq<char>,
)
    requires
        layout_of(circuit) == Ok::<Layout, Fault>(layout),
        layout.node(a, p) is Ok,
        layout.node(b, q) is Ok,
    ensures
        ({
            let x = net_at(wires(circuit.nets@), a.id@, p)->0;
            let y = net_at(wires(circuit.nets@), b.id@, q)->0;
            layout.node(a, p) == layout.node(b, q) <==> x == y || (earthed(circuit, x) && earthed(
                circuit,
                y,
            ))
        }),
{
    let x = net_at(wires(circuit.nets@), a.id@, p)->0;
    let y = net_at(wires(circuit.nets@), b.id@, q)->0;
    ground_is_where_a_ground_component_is(circuit, x);
    ground_is_where_a_ground_component_is(circuit, y);
    lemma_node(layout.nodes, x);
    lemma_node(layout.nodes, y);
    let m = layout.node(a, p)->Ok_0;
    let n = layout.node(b, q)->Ok_0;
    let i = choose|i: int| 0 <= i < layout.nodes.len() && #[trigger] layout.nodes[i] == (x, m);
    let j = choose|j: int| 0 <= j < layout.nodes.len() && #[trigger] layout.nodes[j] == (y, n);
    reveal_strlit("0");
    reveal_strlit("n");
    assert("n"@ =~= seq!['n']);
    assert(layout.nodes[i] == analog_node(circuit, i));
    assert(layout.nodes[j] == analog_node(circuit, j));
    assert(("n"@ + decimal((i + 1) as nat))[0] == 'n');
    assert(("n"@ + decimal((j + 1) as nat))[0] == 'n');
    assert("0"@[0] == '0');
    if m == n && !earthed(circuit, x) && !earthed(circuit, y) {
        lemma_numbered_node('n', (i + 1) as nat, 'n', (j + 1) as nat);
    }
}

/// No name in the layout of an analog netlist holds a blank.
pub proof fn analog_layouts_are_tidy(circuit: Circuit, layout: Layout)
    requires
        layout_of(circuit) == Ok::<Layout, Fault>(layout),
    ensures
        tidy(layout),
{
    sources_have_names_of_their_own(circuit.components@, circuit.components@.len() as int);
    reveal_strlit("0");
    reveal_strlit("n");
    assert forall|i: int| 0 <= i < layout.nodes.len() implies unspaced(
        (#[trigger] layout.nodes[i]).1,
    ) by {
        lemma_decimal_unspaced((i + 1) as nat);
        lemma_unspaced_add("n"@, decimal((i + 1) as nat));
        assert(layout.nodes[i] == analog_node(circuit, i));
    }
}

/// No name of a node of a mesh holds a blank.
pub open spec fn tidy_mesh(mesh: Mesh) -> bool {
    forall|i: int| 0 <= i < mesh.nodes.len() ==> unspaced((#[trigger] mesh.nodes[i]).1)
}

/// No name in a mixed netlist holds a blank.
pub proof fn mixed_nodes_are_tidy(
    circuit: Circuit,
    domains: Seq<(Seq<char>, NetDomain)>,
    layout: Layout,
)
    requires
        layout_on(circuit, mixed_nodes(circuit, domains)) == Ok::<Layout, Fault>(layout),
    ensures
        tidy(layout),
        mixed_mesh(circuit, domains) matches Ok(mesh) ==> tidy_mesh(mesh),
{
    sources_have_names_of_their_own(circuit.components@, circuit.components@.len() as int);
    reveal_strlit("0");
    reveal_strlit("n");
    reveal_strlit("d");
    let nodes = mixed_nodes(circuit, domains);
    assert forall|i: int| 0 <= i < nodes.len() implies unspaced((#[trigger] nodes[i]).1) by {
        lemma_decimal_unspaced((i + 1) as nat);
        lemma_unspaced_add("n"@, decimal((i + 1) as nat));
        lemma_unspaced_add("d"@, decimal((i + 1) as nat));
        assert(nodes[i] == mixed_node(circuit, domains, i));
    }
}

/// In a mixed netlist the node of a pin is zero on ground, begins with a `d` on a
/// digital net and with an `n` on an analog one, and carries the number of its net.
pub proof fn mixed_pins_have_the_node_of_their_net(
    circuit: Circuit,
    domains: Seq<(Seq<char>, NetDomain)>,
    mesh: Mesh,
    component: Component,
    pin: Seq<char>,
    node: Seq<char>,
)
    requires
        mixed_mesh(circuit, domains) == Ok::<Mesh, Fault>(mesh),
        joined_node(mesh, component, pin) == Ok::<Seq<char>, Fault>(node)
            || crate::mixed::bridge_node(mesh, component, pin) == Ok::<Seq<char>, Fault>(node),
    ensures
        exists|net: Seq<char>, i: int|
            #![trigger sits(circuit.nets@, component.id@, pin, net), circuit.nets@[i]]
            sits(circuit.nets@, component.id@, pin, net) && 0 <= i < circuit.nets@.len()
                && circuit.nets@[i].id@ == net && node == if earthed(circuit, net) {
                seq!['0']
            } else if domain_at(domains, net) == Some(NetDomain::Digital) {
                numbered_node('d', (i + 1) as nat)
            } else {
                numbered_node('n', (i + 1) as nat)
            },
{
    let net = net_at(mesh.wires, component.id@, pin)->0;
    pins_are_on_the_nets_that_reach_them(circuit.nets@, component.id@, pin, net);
    ground_is_where_a_ground_component_is(circuit, net);
    lemma_node(mesh.nodes, net);
    let i = choose|i: int| 0 <= i < mesh.nodes.len() && #[trigger] mesh.nodes[i] == (net, node);
    reveal_strlit("0");
    reveal_strlit("n");
    reveal_strlit("d");
    assert("0"@ =~= seq!['0']);
    assert("n"@ =~= seq!['n']);
    assert("d"@ =~= seq!['d']);
    assert(mesh.nodes[i] == mixed_node(circuit, domains, i));
    assert(sits(circuit.nets@, component.id@, pin, net));
    assert(circuit.nets@[i].id@ == net);
}

/// The mesh of an event netlist.
pub open spec fn event_mesh(nets: Seq<Net>) -> Mesh {
    Mesh { wires: wires(nets), nodes: event_nodes(nets) }
}

/// In an event netlist the node of a pin carries the number of its net, and no name
/// holds a blank.
pub proof fn event_pins_have_the_node_of_their_net(
    nets: Seq<Net>,
    component: Component,
    pin: Seq<char>,
    node: Seq<char>,
)
    ensures
        tidy_mesh(event_mesh(nets)),
        joined_node(event_mesh(nets), component, pin) == Ok::<Seq<char>, Fault>(node)
            ==> exists|net: Seq<char>, i: int|
            #![trigger sits(nets, component.id@, pin, net), nets[i]]
            sits(nets, component.id@, pin, net) && 0 <= i < nets.len() && nets[i].id@ == net && node
                == numbered_node('d', i as nat),
{
    let mesh = event_mesh(nets);
    reveal_strlit("d");
    assert("d"@ =~= seq!['d']);
    assert forall|i: int| 0 <= i < mesh.nodes.len() implies unspaced((#[trigger] mesh.nodes[i]).1) by {
        lemma_decimal_unspaced(i as nat);
        lemma_unspaced_add("d"@, decimal(i as nat));
    }
    if joined_node(mesh, component, pin) == Ok::<Seq<char>, Fault>(node) {
        let net = net_at(mesh.wires, component.id@, pin)->0;
        pins_are_on_the_nets_that_reach_them(nets, component.id@, pin, net);
        lemma_node(mesh.nodes, net);
        let i = choose|i: int| 0 <= i < mesh.nodes.len() && #[trigger] mesh.nodes[i] == (net, node);
        assert(sits(nets, component.id@, pin, net));
        assert(nets[i].id@ == net);
    }
}

/// Two pins are on one node of an event netlist exactly if they are on one net.
pub proof fn event_pins_share_a_node_when_joined(
    nets: Seq<Net>,
    a: Component,
    p: Seq<char>,
    b: Component,
    q: Seq<char>,
)
    requires
        joined_node(event_mesh(nets), a, p) is Ok,
        joined_node(event_mesh(nets), b, q) is Ok,
    ensures
        joined_node(event_mesh(nets), a, p) == joined_node(event_mesh(nets), b, q) <==> net_at(
            wires(nets),
            a.id@,
            p,
        ) == net_at(wires(nets), b.id@, q),
{
    let mesh = event_mesh(nets);
    let x = net_at(wires(nets), a.id@, p)->0;
    let y = net_at(wires(nets), b.id@, q)->0;
    let m = joined_node(mesh, a, p)->Ok_0;
    let n = joined_node(mesh, b, q)->Ok_0;
    lemma_node(mesh.nodes, x);
    lemma_node(mesh.nodes, y);
    let i = choose|i: int| 0 <= i < mesh.nodes.len() && #[trigger] mesh.nodes[i] == (x, m);
    let j = choose|j: int| 0 <= j < mesh.nodes.len() && #[trigger] mesh.nodes[j] == (y, n);
    reveal_strlit("d");
    assert("d"@ =~= seq!['d']);
    if m == n {
        lemma_numbered_node('d', i as nat, 'd', j as nat);
    }
}

} // verus!
