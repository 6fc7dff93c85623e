//! What the lines of an analog netlist say, field by field.
use crate::analysis::{AcScale, Analysis};
use crate::circuit::{Circuit, Component, ParameterValue};
use crate::deck::{
    fields, lemma_decimal_unspaced, lemma_fields_after_blank, lemma_fields_of_join,
    lemma_fields_of_word, lemma_letters_add, lemma_solid_add, lemma_solid_letters,
    lemma_unspaced_add, solid, spelled, unspaced,
};
use crate::draft::{figure, letters, Sign};
use crate::engine::{Probe, SimulationRequest};
use crate::fault::{collected, lemma_collected_at, Fault};
use crate::lines::join_of;
use crate::lookup::{amounts, lists, omits, parameters_are_found};
use crate::model::ModelKind;
use crate::ngspice::{
    all_nodes, asked_probe, compiled_of, component_line, component_lines, default_probes,
    device_line, device_model, instance_line, number_of, number_or,
    pin_node, pin_nodes, plan_of, positive_of, referenced, subcircuit_model, Compiled, Plan,
    PICOSECOND_BITS,
};
use crate::nodes::{kind_count, layout_of, node_at, source_at, sources_of, Layout, Source};
use crate::number::Real;
use crate::spice_models::{Entry, Registry};
use crate::text::{decimal, digit_char, lowercase, trim};
use crate::truth::mark;
use crate::units::Unit;
use crate::waveform::AxisKind;
use vstd::prelude::*;

verus! {

/// A field of a line names the node of a pin.
pub open spec fn is_node(
    layout: Layout,
    component: Component,
    pin: Seq<char>,
    field: Seq<Sign>,
) -> bool {
    exists|node: Seq<char>|
        layout.node(component, pin) == Ok::<Seq<char>, Fault>(node) && field == #[trigger] letters(
            node,
        )
}

/// No name of a node or of a source holds a blank.
pub open spec fn tidy(layout: Layout) -> bool {
    &&& forall|i: int| 0 <= i < layout.nodes.len() ==> unspaced((#[trigger] layout.nodes[i]).1)
    &&& forall|i: int| 0 <= i < layout.sources.len() ==> unspaced((#[trigger] layout.sources[i]).name)
}

/// Fields that name the model of a kind that a component asks for.
pub open spec fn names_model(
    component: Component,
    models: Registry,
    kind: ModelKind,
    rest: Seq<Seq<Sign>>,
) -> bool {
    exists|value: String, k: int|
        #![trigger lists(component, "model"@, ParameterValue::Text(value)), models.entries[k]]
        lists(component, "model"@, ParameterValue::Text(value)) && 0 <= k < models.entries.len()
            && models.entries[k].id == trim(value@) && models.entries[k].kind == kind && rest
            == fields(letters(models.entries[k].entry))
}

/// A component lists a number: as such, as a quantity in the unit, or as an integer.
pub open spec fn counts(component: Component, key: Seq<char>, unit: Unit, x: Real) -> bool {
    ||| amounts(component, key, unit, x)
    ||| exists|n: i64| #[trigger]
        lists(component, key, ParameterValue::Integer(n)) && x == Real::of_int(n as int)
}

/// A component lists a number, or none and another stands for it.
pub open spec fn counts_or(
    component: Component,
    key: Seq<char>,
    unit: Unit,
    other: Real,
    x: Real,
) -> bool {
    counts(component, key, unit, x) || (omits(component, key) && x == other)
}

/// The words for kinds of analog components all differ.
proof fn lemma_analog_words()
    ensures
        mark("resistor"@) == 141714803,
        mark("capacitor"@) == 157507952,
        mark("inductor"@) == 141127268,
        mark("diode"@) == 90466671,
        mark("bjt"@) == 56781428,
        mark("mosfet"@) == 107835251,
        mark("op_amp"@) == 107966559,
        mark("subcircuit"@) == 175338850,
        mark("voltage_source"@) == 242642796,
        mark("current_source"@) == 241399154,
{
    reveal_strlit("resistor");
    reveal_strlit("capacitor");
    reveal_strlit("inductor");
    reveal_strlit("diode");
    reveal_strlit("bjt");
    reveal_strlit("mosfet");
    reveal_strlit("op_amp");
    reveal_strlit("subcircuit");
    reveal_strlit("voltage_source");
    reveal_strlit("current_source");
}

/// A number that is read from a parameter is the one that the component lists, and
/// is finite.
pub proof fn numbers_are_listed(
    component: Component,
    key: Seq<char>,
    unit: Unit,
    other: Real,
    x: Real,
)
    ensures
        number_of(component, key, unit) == Ok::<Option<Real>, Fault>(Some(x)) ==> x.finite()
            && counts(component, key, unit, x),
        number_of(component, key, unit) == Ok::<Option<Real>, Fault>(None) <==> omits(
            component,
            key,
        ),
        number_or(component, key, unit, other) == Ok::<Real, Fault>(x) ==> counts_or(
            component,
            key,
            unit,
            other,
            x,
        ),
        positive_of(component, key, unit) == Ok::<Real, Fault>(x) ==> x.finite() && counts(
            component,
            key,
            unit,
            x,
        ) && 0 < x.key(),
{
    match crate::circuit::parameter_of(component.parameters@, key) {
        Some(value) => {
            parameters_are_found(component, key, value);
        },
        None => {
            parameters_are_found(component, key, ParameterValue::Integer(0));
        },
    }
}

proof fn lemma_tidy_node(nodes: Seq<(Seq<char>, Seq<char>)>, net: Seq<char>)
    requires
        forall|i: int| 0 <= i < nodes.len() ==> unspaced((#[trigger] nodes[i]).1),
    ensures
        node_at(nodes, net) matches Some(node) ==> unspaced(node),
    decreases nodes.len(),
{
    if nodes.len() > 0 {
        let rest = nodes.drop_last();
        let last = nodes.len() - 1;
        assert(unspaced(nodes[last].1));
        assert forall|i: int| 0 <= i < rest.len() implies unspaced((#[trigger] rest[i]).1) by {
            assert(unspaced(nodes[i].1));
        }
        lemma_tidy_node(rest, net);
    }
}

proof fn lemma_tidy_source(sources: Seq<Source>, component: Seq<char>)
    requires
        forall|i: int| 0 <= i < sources.len() ==> unspaced((#[trigger] sources[i]).name),
    ensures
        source_at(sources, component) matches Some(source) ==> unspaced(source.name)
            && sources.contains(source) && source.component == component,
    decreases sources.len(),
{
    if sources.len() > 0 {
        let rest = sources.drop_last();
        let last = sources.len() - 1;
        assert(unspaced(sources[last].name));
        assert forall|i: int| 0 <= i < rest.len() implies unspaced((#[trigger] rest[i]).name) by {
            assert(unspaced(sources[i].name));
        }
        lemma_tidy_source(rest, component);
        if sources.last().component != component {
            if let Some(source) = source_at(rest, component) {
                let k = choose|k: int| 0 <= k < rest.len() && rest[k] == source;
                assert(sources[k] == source);
            }
        } else {
            assert(sources[last] == sources.last());
        }
    }
}

/// The fields of a line that names a device, its nodes and its model.
proof fn lemma_instance(prefix: Seq<char>, index: int, nodes: Seq<Seq<char>>, entry: Seq<char>)
    requires
        unspaced(prefix),
        nodes.len() > 0,
        forall|i: int| 0 <= i < nodes.len() ==> unspaced(#[trigger] nodes[i]),
    ensures
        fields(instance_line(prefix, index, nodes, entry)) == seq![
            letters(prefix + decimal((index + 1) as nat)),
        ] + spelled(nodes) + fields(letters(entry)),
{
    let number = decimal((index + 1) as nat);
    let name = prefix + number;
    let list = join_of(nodes, " "@);
    lemma_decimal_unspaced((index + 1) as nat);
    lemma_unspaced_add(prefix, number);
    lemma_solid_letters(name);
    lemma_letters_add(name, " "@);
    lemma_letters_add(name + " "@, list);
    lemma_letters_add(name + " "@ + list, " "@);
    lemma_letters_add(name + " "@ + list + " "@, entry);
    lemma_fields_of_word(letters(name));
    lemma_fields_of_join(nodes, nodes.len() as int);
    assert(nodes.take(nodes.len() as int) =~= nodes);
    lemma_fields_after_blank(letters(name), letters(list));
    lemma_fields_after_blank(letters(name + " "@ + list), letters(entry));
}

proof fn lemma_pin_nodes(
    layout: Layout,
    component: Component,
    pins: Seq<Seq<char>>,
    nodes: Seq<Seq<char>>,
)
    requires
        pin_nodes(layout, component, pins) == Ok::<Seq<Seq<char>>, Fault>(nodes),
        tidy(layout),
    ensures
        nodes.len() == pins.len(),
        forall|i: int|
            0 <= i < nodes.len() ==> unspaced(#[trigger] nodes[i]) && layout.node(
                component,
                pins[i],
            ) == Ok::<Seq<char>, Fault>(nodes[i]),
{
    let f = |i: int| pin_node(layout, component, pins[i]);
    lemma_collected_at(pins.len() as int, f);
    assert forall|i: int| 0 <= i < nodes.len() implies unspaced(#[trigger] nodes[i]) && layout.node(
        component,
        pins[i],
    ) == Ok::<Seq<char>, Fault>(nodes[i]) by {
        assert(f(i) == Ok::<Seq<char>, Fault>(collected(pins.len() as int, f)->Ok_0[i]));
        lemma_node_unspaced(layout, component, pins[i]);
    }
}

proof fn lemma_node_unspaced(layout: Layout, component: Component, pin: Seq<char>)
    requires
        tidy(layout),
    ensures
        layout.node(component, pin) matches Ok(node) ==> unspaced(node),
{
    match crate::wiring::net_at(layout.wires, component.id@, pin) {
        Some(net) => {
            lemma_tidy_node(layout.nodes, net);
        },
        None => {},
    }
}

proof fn lemma_model_at(entries: Seq<Entry>, id: Seq<char>)
    ensures
        crate::ngspice::model_at(entries, id) matches Some(entry) ==> exists|k: int|
            0 <= k < entries.len() && #[trigger] entries[k] == entry && entry.id == id,
    decreases entries.len(),
{
    if entries.len() > 0 {
        let rest = entries.drop_last();
        if entries.last().id == id {
            assert(entries[entries.len() - 1] == entries.last());
        } else {
            lemma_model_at(rest, id);
            if let Some(entry) = crate::ngspice::model_at(rest, id) {
                let k = choose|k: int| 0 <= k < rest.len() && #[trigger] rest[k] == entry;
                assert(entries[k] == entry);
            }
        }
    }
}

proof fn lemma_named(component: Component, models: Registry, entry: Entry, id: Seq<char>, kind: ModelKind)
    requires
        referenced(component, models) == Ok::<(Entry, Seq<char>), Fault>((entry, id)),
        entry.kind == kind,
    ensures
        names_model(component, models, kind, fields(letters(entry.entry))),
{
    let value = crate::circuit::parameter_of(component.parameters@, "model"@)->0;
    parameters_are_found(component, "model"@, value);
    let text = value->Text_0;
    lemma_model_at(models.entries, trim(text@));
    let k = choose|k: int|
        0 <= k < models.entries.len() && #[trigger] models.entries[k] == entry && entry.id == trim(
            text@,
        );
    assert(lists(component, "model"@, ParameterValue::Text(text)));
    assert(models.entries[k] == entry);
}

/// The fields of the line of a semiconductor: its name, the nodes of its pins in
/// order, and its model.
proof fn lemma_device(
    prefix: Seq<char>,
    index: int,
    component: Component,
    layout: Layout,
    models: Registry,
    pins: Seq<Seq<char>>,
    accepted: Seq<Seq<char>>,
    line: Seq<Sign>,
)
    requires
        tidy(layout),
        unspaced(prefix),
        pins.len() > 0,
        device_line(prefix, index, component, layout, models, pins, accepted) == Ok::<
            Seq<Sign>,
            Fault,
        >(line),
    ensures
        fields(line).len() > pins.len(),
        fields(line)[0] == letters(prefix + decimal((index + 1) as nat)),
        forall|i: int|
            0 <= i < pins.len() ==> is_node(layout, component, #[trigger] pins[i], fields(line)[i + 1]),
        names_model(
            component,
            models,
            ModelKind::Device,
            fields(line).skip(pins.len() as int + 1),
        ),
{
    let nodes = pin_nodes(layout, component, pins)->Ok_0;
    lemma_pin_nodes(layout, component, pins, nodes);
    let entry = device_model(component, models, accepted)->Ok_0;
    let (found, id) = referenced(component, models)->Ok_0;
    lemma_named(component, models, entry, id, ModelKind::Device);
    lemma_instance(prefix, index, nodes, entry.entry);
    assert(fields(line).skip(pins.len() as int + 1) =~= fields(letters(entry.entry)));
    assert forall|i: int| 0 <= i < pins.len() implies is_node(
        layout,
        component,
        #[trigger] pins[i],
        fields(line)[i + 1],
    ) by {
        assert(fields(line)[i + 1] == spelled(nodes)[i]);
        assert(spelled(nodes)[i] == letters(nodes[i]));
    }
}

/// The line of a transistor names, behind its own name, the nodes of the collector,
/// the base and the emitter in this order, and then its model.
pub proof fn transistor_lines_name_collector_base_emitter(
    index: int,
    component: Component,
    layout: Layout,
    models: Registry,
    line: Seq<Sign>,
)
    requires
        tidy(layout),
        component.kind@ == "bjt"@,
        component_line(index, component, layout, models) == Ok::<Seq<Sign>, Fault>(line),
    ensures
        fields(line).len() > 3,
        fields(line)[0] == letters("Q"@ + decimal((index + 1) as nat)),
        is_node(layout, component, "collector"@, fields(line)[1]),
        is_node(layout, component, "base"@, fields(line)[2]),
        is_node(layout, component, "emitter"@, fields(line)[3]),
        names_model(component, models, ModelKind::Device, fields(line).skip(4)),
{
    lemma_analog_words();
    reveal_strlit("Q");
    let pins = seq!["collector"@, "base"@, "emitter"@];
    lemma_device(
        "Q"@,
        index,
        component,
        layout,
        models,
        pins,
        seq!["npn"@, "pnp"@],
        line,
    );
    assert(pins[0] == "collector"@ && pins[1] == "base"@ && pins[2] == "emitter"@);
}

/// The line of a field-effect transistor names the nodes of drain, gate, source and
/// bulk, in this order.
pub proof fn mosfet_lines_name_drain_gate_source_bulk(
    index: int,
    component: Component,
    layout: Layout,
    models: Registry,
    line: Seq<Sign>,
)
    requires
        tidy(layout),
        component.kind@ == "mosfet"@,
        component_line(index, component, layout, models) == Ok::<Seq<Sign>, Fault>(line),
    ensures
        fields(line).len() > 4,
        fields(line)[0] == letters("M"@ + decimal((index + 1) as nat)),
        is_node(layout, component, "drain"@, fields(line)[1]),
        is_node(layout, component, "gate"@, fields(line)[2]),
        is_node(layout, component, "source"@, fields(line)[3]),
        is_node(layout, component, "bulk"@, fields(line)[4]),
        names_model(component, models, ModelKind::Device, fields(line).skip(5)),
{
    lemma_analog_words();
    reveal_strlit("M");
    let pins = seq!["drain"@, "gate"@, "source"@, "bulk"@];
    lemma_device(
        "M"@,
        index,
        component,
        layout,
        models,
        pins,
        seq!["nmos"@, "pmos"@],
        line,
    );
    assert(pins[0] == "drain"@ && pins[1] == "gate"@ && pins[2] == "source"@ && pins[3]
        == "bulk"@);
}

/// The line of a diode names the nodes of the anode and the cathode in this order.
pub proof fn diode_lines_name_anode_cathode(
    index: int,
    component: Component,
    layout: Layout,
    models: Registry,
    line: Seq<Sign>,
)
    requires
        tidy(layout),
        component.kind@ == "diode"@,
        component_line(index, component, layout, models) == Ok::<Seq<Sign>, Fault>(line),
    ensures
        fields(line).len() > 2,
        fields(line)[0] == letters("D"@ + decimal((index + 1) as nat)),
        is_node(layout, component, "anode"@, fields(line)[1]),
        is_node(layout, component, "cathode"@, fields(line)[2]),
        names_model(component, models, ModelKind::Device, fields(line).skip(3)),
{
    lemma_analog_words();
    reveal_strlit("D");
    let pins = seq!["anode"@, "cathode"@];
    lemma_device("D"@, index, component, layout, models, pins, seq!["d"@], line);
    assert(pins[0] == "anode"@ && pins[1] == "cathode"@);
}

/// The device model of a semiconductor is of a type that it can be.
pub proof fn device_models_have_a_fitting_type(
    index: int,
    component: Component,
    layout: Layout,
    models: Registry,
)
    requires
        component_line(index, component, layout, models) is Ok,
        component.kind@ == "bjt"@ || component.kind@ == "mosfet"@ || component.kind@ == "diode"@,
    ensures
        referenced(component, models) matches Ok((entry, id)) && entry.kind == ModelKind::Device && {
            let device = match entry.declared.device_type {
                Some(device) => lowercase(device),
                None => lowercase(""@),
            };
            &&& component.kind@ == "bjt"@ ==> device == lowercase("npn"@) || device == lowercase(
                "pnp"@,
            )
            &&& component.kind@ == "mosfet"@ ==> device == lowercase("nmos"@) || device
                == lowercase("pmos"@)
            &&& component.kind@ == "diode"@ ==> device == lowercase("d"@)
        },
{
    lemma_analog_words();
}

/// The line of an operational amplifier names the nodes of the two inputs, the two
/// supplies and the output, in the order of the ports of its subcircuit.
pub proof fn amplifier_lines_name_inputs_supplies_output(
    index: int,
    component: Component,
    layout: Layout,
    models: Registry,
    line: Seq<Sign>,
)
    requires
        tidy(layout),
        component.kind@ == "op_amp"@,
        component_line(index, component, layout, models) == Ok::<Seq<Sign>, Fault>(line),
    ensures
        fields(line).len() > 5,
        fields(line)[0] == letters("X"@ + decimal((index + 1) as nat)),
        is_node(layout, component, "non_inverting"@, fields(line)[1]),
        is_node(layout, component, "inverting"@, fields(line)[2]),
        is_node(layout, component, "positive_supply"@, fields(line)[3]),
        is_node(layout, component, "negative_supply"@, fields(line)[4]),
        is_node(layout, component, "output"@, fields(line)[5]),
        names_model(component, models, ModelKind::Subcircuit, fields(line).skip(6)),
{
    lemma_analog_words();
    reveal_strlit("X");
    let pins = crate::ngspice::op_amp_pins();
    let nodes = pin_nodes(layout, component, pins)->Ok_0;
    lemma_pin_nodes(layout, component, pins, nodes);
    let entry = subcircuit_model(component, models, Some(5))->Ok_0;
    let (found, id) = referenced(component, models)->Ok_0;
    lemma_named(component, models, entry, id, ModelKind::Subcircuit);
    lemma_instance("X"@, index, nodes, entry.entry);
    assert(fields(line).skip(6) =~= fields(letters(entry.entry)));
    let spelt = spelled(nodes);
    assert(fields(line)[1] == spelt[0] && spelt[0] == letters(nodes[0]));
    assert(fields(line)[2] == spelt[1] && spelt[1] == letters(nodes[1]));
    assert(fields(line)[3] == spelt[2] && spelt[2] == letters(nodes[2]));
    assert(fields(line)[4] == spelt[3] && spelt[3] == letters(nodes[3]));
    assert(fields(line)[5] == spelt[4] && spelt[4] == letters(nodes[4]));
}

/// The line of a subcircuit names the nodes of all pins in the order in which the
/// component lists them.
pub proof fn subcircuit_lines_name_all_pins(
    index: int,
    component: Component,
    layout: Layout,
    models: Registry,
    line: Seq<Sign>,
    i: int,
)
    requires
        tidy(layout),
        component.kind@ == "subcircuit"@,
        component_line(index, component, layout, models) == Ok::<Seq<Sign>, Fault>(line),
        0 <= i < component.pins@.len(),
    ensures
        fields(line).len() > component.pins@.len(),
        fields(line)[0] == letters("X"@ + decimal((index + 1) as nat)),
        is_node(layout, component, component.pins@[i].id@, fields(line)[i + 1]),
        names_model(
            component,
            models,
            ModelKind::Subcircuit,
            fields(line).skip(component.pins@.len() as int + 1),
        ),
{
    lemma_analog_words();
    reveal_strlit("X");
    let f = |i: int| layout.node(component, component.pins@[i].id@);
    let count = component.pins@.len() as int;
    lemma_collected_at(count, f);
    let nodes = all_nodes(layout, component)->Ok_0;
    assert forall|k: int| 0 <= k < nodes.len() implies unspaced(#[trigger] nodes[k]) && layout.node(
        component,
        component.pins@[k].id@,
    ) == Ok::<Seq<char>, Fault>(nodes[k]) by {
        assert(f(k) == Ok::<Seq<char>, Fault>(collected(count, f)->Ok_0[k]));
        lemma_node_unspaced(layout, component, component.pins@[k].id@);
    }
    let entry = subcircuit_model(component, models, None)->Ok_0;
    let (found, id) = referenced(component, models)->Ok_0;
    lemma_named(component, models, entry, id, ModelKind::Subcircuit);
    lemma_instance("X"@, index, nodes, entry.entry);
    assert(fields(line).skip(count + 1) =~= fields(letters(entry.entry)));
    assert(fields(line)[i + 1] == spelled(nodes)[i]);
    assert(spelled(nodes)[i] == letters(nodes[i]));
}

/// The unit and the parameter that the value of a passive component is in.
pub open spec fn passive(kind: Seq<char>) -> Option<(Seq<char>, Seq<char>, Unit)> {
    if kind == "resistor"@ {
        Some(("R"@, "resistance"@, Unit::Ohm))
    } else if kind == "capacitor"@ {
        Some(("C"@, "capacitance"@, Unit::Farad))
    } else if kind == "inductor"@ {
        Some(("L"@, "inductance"@, Unit::Henry))
    } else {
        None
    }
}

proof fn lemma_figure(x: Real)
    ensures
        solid(figure(x)),
        fields(figure(x)) == seq![figure(x)],
{
    lemma_fields_of_word(figure(x));
}

/// Two names behind a first one.
proof fn lemma_three(name: Seq<char>, a: Seq<char>, b: Seq<char>, tail: Seq<Sign>)
    requires
        unspaced(name),
        unspaced(a),
        unspaced(b),
    ensures
        fields(letters(name + " "@ + a + " "@ + b + " "@) + tail) == seq![
            letters(name),
            letters(a),
            letters(b),
        ] + fields(tail),
{
    lemma_letters_add(name, " "@);
    lemma_letters_add(name + " "@, a);
    lemma_letters_add(name + " "@ + a, " "@);
    lemma_letters_add(name + " "@ + a + " "@, b);
    lemma_letters_add(name + " "@ + a + " "@ + b, " "@);
    lemma_solid_letters(name);
    lemma_solid_letters(a);
    lemma_solid_letters(b);
    lemma_fields_of_word(letters(name));
    lemma_fields_of_word(letters(a));
    lemma_fields_of_word(letters(b));
    lemma_fields_after_blank(letters(name), letters(a));
    lemma_fields_after_blank(letters(name + " "@ + a), letters(b));
    lemma_fields_after_blank(letters(name + " "@ + a + " "@ + b), tail);
    assert(seq![letters(name)] + seq![letters(a)] + seq![letters(b)] + fields(tail) =~= seq![
        letters(name),
        letters(a),
        letters(b),
    ] + fields(tail));
}

/// The line of a passive component names the nodes of its first and its second pin
/// and gives its value, which is listed in its own unit and positive.
pub proof fn passive_lines_give_nodes_and_value(
    index: int,
    component: Component,
    layout: Layout,
    models: Registry,
    line: Seq<Sign>,
)
    requires
        tidy(layout),
        passive(component.kind@) is Some,
        component_line(index, component, layout, models) == Ok::<Seq<Sign>, Fault>(line),
    ensures
        ({
            let (letter, key, unit) = passive(component.kind@)->0;
            &&& component.pins@.len() == 2
            &&& fields(line).len() == 4
            &&& fields(line)[0] == letters(letter + decimal((index + 1) as nat))
            &&& is_node(layout, component, component.pins@[0].id@, fields(line)[1])
            &&& is_node(layout, component, component.pins@[1].id@, fields(line)[2])
            &&& exists|x: Real|
                fields(line)[3] == #[trigger] figure(x) && counts(component, key, unit, x) && x.finite()
                    && 0 < x.key()
        }),
{
    lemma_analog_words();
    reveal_strlit("R");
    reveal_strlit("C");
    reveal_strlit("L");
    let (letter, key, unit) = passive(component.kind@)->0;
    let (a, b) = crate::ngspice::two_nodes(component, layout)->Ok_0;
    let x = positive_of(component, key, unit)->Ok_0;
    numbers_are_listed(component, key, unit, x, x);
    lemma_node_unspaced(layout, component, component.pins@[0].id@);
    lemma_node_unspaced(layout, component, component.pins@[1].id@);
    lemma_decimal_unspaced((index + 1) as nat);
    lemma_unspaced_add(letter, decimal((index + 1) as nat));
    lemma_three(letter + decimal((index + 1) as nat), a, b, figure(x));
    lemma_figure(x);
    assert(fields(line)[3] == figure(x));
    assert(fields(line)[1] == letters(a) && fields(line)[2] == letters(b));
}

/// The terms of a pulse: from `low` to `high`, after a delay, with a rising and a
/// falling time, a width and a period.
pub open spec fn pulse_of(
    component: Component,
    unit: Unit,
    dc: Real,
    low: Real,
    high: Real,
    delay: Real,
    rise: Real,
    fall: Real,
    width: Real,
    period: Real,
) -> bool {
    &&& counts_or(component, "pulse_low"@, unit, dc, low)
    &&& counts(component, "pulse_high"@, unit, high)
    &&& counts_or(component, "pulse_delay"@, Unit::Second, Real { bits: 0 }, delay)
    &&& counts_or(component, "pulse_rise"@, Unit::Second, Real { bits: PICOSECOND_BITS }, rise)
    &&& counts_or(component, "pulse_fall"@, Unit::Second, Real { bits: PICOSECOND_BITS }, fall)
    &&& counts(component, "pulse_width"@, Unit::Second, width)
    &&& counts(component, "pulse_period"@, Unit::Second, period)
    &&& 0 < width.key()
    &&& 0 < period.key()
}

/// The fields for the pulse of a source: none where it lists no high level.
pub open spec fn pulse_fields(
    component: Component,
    unit: Unit,
    dc: Real,
    terms: Seq<Seq<Sign>>,
) -> bool {
    ||| omits(component, "pulse_high"@) && terms.len() == 0
    ||| exists|low: Real, high: Real, delay: Real, rise: Real, fall: Real, width: Real, period: Real|
        #[trigger]
        pulse_of(component, unit, dc, low, high, delay, rise, fall, width, period) && terms == seq![
            letters("PULSE("@) + figure(low),
            figure(high),
            figure(delay),
            figure(rise),
            figure(fall),
            figure(width),
            figure(period) + letters(")"@),
        ]
}

/// The fields for the small signal of a source: none where it lists no magnitude.
pub open spec fn small_signal_fields(component: Component, unit: Unit, terms: Seq<Seq<Sign>>) -> bool {
    ||| omits(component, "ac_magnitude"@) && terms.len() == 0
    ||| exists|magnitude: Real, phase: Real|
        #![trigger figure(magnitude), figure(phase)]
        counts(component, "ac_magnitude"@, unit, magnitude) && 0 <= magnitude.key() && counts_or(
            component,
            "ac_phase_degrees"@,
            Unit::Dimensionless,
            Real { bits: 0 },
            phase,
        ) && terms == seq![letters("AC"@), figure(magnitude), figure(phase)]
}

proof fn lemma_pulse(component: Component, unit: Unit, dc: Real, line: Seq<Sign>, part: Seq<Sign>)
    requires
        crate::ngspice::pulse_part(component, unit, dc) == Ok::<Seq<Sign>, Fault>(part),
    ensures
        exists|terms: Seq<Seq<Sign>>| #[trigger]
            pulse_fields(component, unit, dc, terms) && fields(line + part) == fields(line) + terms,
{
    let zero = Real { bits: 0 };
    let pico = Real { bits: PICOSECOND_BITS };
    match number_of(component, "pulse_high"@, unit) {
        Ok(Some(high)) => {
            let low = number_or(component, "pulse_low"@, unit, dc)->Ok_0;
            let delay = number_or(component, "pulse_delay"@, Unit::Second, zero)->Ok_0;
            let rise = number_or(component, "pulse_rise"@, Unit::Second, pico)->Ok_0;
            let fall = number_or(component, "pulse_fall"@, Unit::Second, pico)->Ok_0;
            let width = positive_of(component, "pulse_width"@, Unit::Second)->Ok_0;
            let period = positive_of(component, "pulse_period"@, Unit::Second)->Ok_0;
            numbers_are_listed(component, "pulse_high"@, unit, zero, high);
            numbers_are_listed(component, "pulse_low"@, unit, dc, low);
            numbers_are_listed(component, "pulse_delay"@, Unit::Second, zero, delay);
            numbers_are_listed(component, "pulse_rise"@, Unit::Second, pico, rise);
            numbers_are_listed(component, "pulse_fall"@, Unit::Second, pico, fall);
            numbers_are_listed(component, "pulse_width"@, Unit::Second, zero, width);
            numbers_are_listed(component, "pulse_period"@, Unit::Second, zero, period);
            assert(pulse_of(component, unit, dc, low, high, delay, rise, fall, width, period));
            let blank = letters(" "@);
            let first = letters("PULSE("@) + figure(low);
            let last = figure(period) + letters(")"@);
            let terms = seq![
                first,
                figure(high),
                figure(delay),
                figure(rise),
                figure(fall),
                figure(width),
                last,
            ];
            reveal_strlit("PULSE(");
            reveal_strlit(" PULSE(");
            reveal_strlit(" ");
            reveal_strlit(")");
            assert(" PULSE("@ =~= " "@ + "PULSE("@);
            lemma_letters_add(" "@, "PULSE("@);
            lemma_solid_letters("PULSE("@);
            lemma_solid_letters(")"@);
            lemma_figure(low);
            lemma_figure(high);
            lemma_figure(delay);
            lemma_figure(rise);
            lemma_figure(fall);
            lemma_figure(width);
            lemma_figure(period);
            lemma_solid_add(letters("PULSE("@), figure(low));
            lemma_solid_add(figure(period), letters(")"@));
            lemma_fields_of_word(first);
            lemma_fields_of_word(last);
            let s1 = line + blank + first;
            lemma_fields_after_blank(line, first);
            let s2 = s1 + blank + figure(high);
            lemma_fields_after_blank(s1, figure(high));
            let s3 = s2 + blank + figure(delay);
            lemma_fields_after_blank(s2, figure(delay));
            let s4 = s3 + blank + figure(rise);
            lemma_fields_after_blank(s3, figure(rise));
            let s5 = s4 + blank + figure(fall);
            lemma_fields_after_blank(s4, figure(fall));
            let s6 = s5 + blank + figure(width);
            lemma_fields_after_blank(s5, figure(width));
            let s7 = s6 + blank + last;
            lemma_fields_after_blank(s6, last);
            assert(line + part =~= s7);
            assert(fields(s7) =~= fields(line) + terms);
            assert(pulse_fields(component, unit, dc, terms));
        },
        _ => {
            numbers_are_listed(component, "pulse_high"@, unit, zero, zero);
            let terms = Seq::<Seq<Sign>>::empty();
            assert(line + part =~= line);
            assert(fields(line) + terms =~= fields(line));
            assert(pulse_fields(component, unit, dc, terms));
        },
    }
}

proof fn lemma_small_signal(component: Component, unit: Unit, line: Seq<Sign>, part: Seq<Sign>)
    requires
        crate::ngspice::ac_part(component, unit) == Ok::<Seq<Sign>, Fault>(part),
    ensures
        exists|terms: Seq<Seq<Sign>>| #[trigger]
            small_signal_fields(component, unit, terms) && fields(line + part) == fields(line)
                + terms,
{
    let zero = Real { bits: 0 };
    match number_of(component, "ac_magnitude"@, unit) {
        Ok(Some(magnitude)) => {
            let phase = number_or(component, "ac_phase_degrees"@, Unit::Dimensionless, zero)->Ok_0;
            numbers_are_listed(component, "ac_magnitude"@, unit, zero, magnitude);
            numbers_are_listed(
                component,
                "ac_phase_degrees"@,
                Unit::Dimensionless,
                zero,
                phase,
            );
            let blank = letters(" "@);
            let word = letters("AC"@);
            let terms = seq![word, figure(magnitude), figure(phase)];
            reveal_strlit(" AC ");
            reveal_strlit("AC");
            reveal_strlit(" ");
            assert(" AC "@ =~= " "@ + "AC"@ + " "@);
            lemma_letters_add(" "@, "AC"@);
            lemma_letters_add(" "@ + "AC"@, " "@);
            lemma_solid_letters("AC"@);
            lemma_fields_of_word(word);
            lemma_figure(magnitude);
            lemma_figure(phase);
            let s1 = line + blank + word;
            lemma_fields_after_blank(line, word);
            let s2 = s1 + blank + figure(magnitude);
            lemma_fields_after_blank(s1, figure(magnitude));
            let s3 = s2 + blank + figure(phase);
            lemma_fields_after_blank(s2, figure(phase));
            assert(line + part =~= s3);
            assert(fields(s3) =~= fields(line) + terms);
            assert(small_signal_fields(component, unit, terms));
        },
        _ => {
            numbers_are_listed(component, "ac_magnitude"@, unit, zero, zero);
            let terms = Seq::<Seq<Sign>>::empty();
            assert(line + part =~= line);
            assert(fields(line) + terms =~= fields(line));
            assert(small_signal_fields(component, unit, terms));
        },
    }
}

/// The line of a source gives its name, the nodes of its first and its second pin,
/// and its constant, pulsed and small-signal value in the unit of the source.
pub proof fn source_lines_give_their_values(
    index: int,
    component: Component,
    layout: Layout,
    models: Registry,
    line: Seq<Sign>,
)
    requires
        tidy(layout),
        component.kind@ == "voltage_source"@ || component.kind@ == "current_source"@,
        component_line(index, component, layout, models) == Ok::<Seq<Sign>, Fault>(line),
    ensures
        component.pins@.len() == 2,
        fields(line).len() >= 5,
        exists|source: Source, dc: Real, pulse: Seq<Seq<Sign>>, small: Seq<Seq<Sign>>|
            #![trigger layout.sources.contains(source), pulse_fields(component, source.unit, dc, pulse), small_signal_fields(component, source.unit, small)]
            {
                &&& layout.sources.contains(source)
                &&& source.component == component.id@
                &&& counts_or(component, "dc"@, source.unit, Real { bits: 0 }, dc)
                &&& pulse_fields(component, source.unit, dc, pulse)
                &&& small_signal_fields(component, source.unit, small)
                &&& is_node(layout, component, component.pins@[0].id@, fields(line)[1])
                &&& is_node(layout, component, component.pins@[1].id@, fields(line)[2])
                &&& fields(line) == seq![
                    letters(source.name),
                    fields(line)[1],
                    fields(line)[2],
                    letters("DC"@),
                    figure(dc),
                ] + pulse + small
            },
{
    lemma_analog_words();
    let (a, b) = crate::ngspice::two_nodes(component, layout)->Ok_0;
    lemma_node_unspaced(layout, component, component.pins@[0].id@);
    lemma_node_unspaced(layout, component, component.pins@[1].id@);
    let source = source_at(layout.sources, component.id@)->0;
    lemma_tidy_source(layout.sources, component.id@);
    let zero = Real { bits: 0 };
    let dc = number_or(component, "dc"@, source.unit, zero)->Ok_0;
    numbers_are_listed(component, "dc"@, source.unit, zero, dc);
    let part = crate::ngspice::pulse_part(component, source.unit, dc)->Ok_0;
    let other = crate::ngspice::ac_part(component, source.unit)->Ok_0;
    let word = letters("DC"@);
    let blank = letters(" "@);
    reveal_strlit(" DC ");
    reveal_strlit("DC");
    reveal_strlit(" ");
    assert(" DC "@ =~= " "@ + "DC"@ + " "@);
    let front = source.name + " "@ + a + " "@ + b;
    lemma_letters_add(" "@, "DC"@);
    lemma_letters_add(" "@ + "DC"@, " "@);
    lemma_letters_add(front, " DC "@);
    lemma_letters_add(front, " "@);
    lemma_solid_letters("DC"@);
    lemma_fields_of_word(word);
    lemma_figure(dc);
    let tail = word + blank + figure(dc);
    lemma_fields_after_blank(word, figure(dc));
    lemma_three(source.name, a, b, tail);
    let base = letters(front + " DC "@) + figure(dc);
    assert(base =~= letters(front + " "@) + tail);
    lemma_pulse(component, source.unit, dc, base, part);
    let pulse = choose|terms: Seq<Seq<Sign>>| #[trigger]
        pulse_fields(component, source.unit, dc, terms) && fields(base + part) == fields(base)
            + terms;
    lemma_small_signal(component, source.unit, base + part, other);
    let small = choose|terms: Seq<Seq<Sign>>| #[trigger]
        small_signal_fields(component, source.unit, terms) && fields(base + part + other) == fields(
            base + part,
        ) + terms;
    assert(line == base + part + other);
    assert(fields(base) =~= seq![letters(source.name), letters(a), letters(b), word, figure(dc)]);
    assert(fields(line) =~= seq![letters(source.name), letters(a), letters(b), word, figure(dc)]
        + pulse + small);
    assert(fields(line)[1] == letters(a) && fields(line)[2] == letters(b));
    assert(layout.sources.contains(source));
}

/// The command of an analysis names it and gives its numbers in the order in which
/// the simulator reads them, and the axis of the results is what is swept.
pub proof fn commands_ask_for_the_analysis(
    analysis: Analysis,
    circuit: Circuit,
    layout: Layout,
    plan: Plan,
)
    requires
        tidy(layout),
        plan_of(analysis, circuit, layout) == Ok::<Plan, Fault>(plan),
    ensures
        match analysis {
            Analysis::OperatingPoint => fields(plan.command) == seq![letters("op"@)]
                && plan.axis_kind == AxisKind::Scalar && plan.axis_unit == Unit::Dimensionless
                && !plan.complex,
            Analysis::Transient { step, stop } => fields(plan.command) == seq![
                letters("tran"@),
                figure(step),
                figure(stop),
            ] && plan.axis_kind == AxisKind::Time && plan.axis_unit == Unit::Second && !plan.complex
                && step.finite() && stop.finite() && 0 < step.key() <= stop.key(),
            Analysis::DcSweep { source, start, stop, step } => exists|found: Source| #[trigger]
                layout.sources.contains(found) && found.component == source@ && fields(plan.command)
                    == seq![
                    letters("dc"@),
                    letters(found.name),
                    figure(start),
                    figure(stop),
                    figure(step),
                ] && plan.axis_kind == AxisKind::DcSweep && plan.axis_unit == found.unit
                    && !plan.complex,
            Analysis::AcSweep { scale, points, start_hz, stop_hz } => fields(plan.command) == seq![
                letters("ac"@),
                letters(
                    match scale {
                        AcScale::Linear => "lin"@,
                        AcScale::Decade => "dec"@,
                        AcScale::Octave => "oct"@,
                    },
                ),
                letters(decimal(points as nat)),
                figure(start_hz),
                figure(stop_hz),
            ] && plan.axis_kind == AxisKind::Frequency && plan.axis_unit == Unit::Hertz
                && plan.complex && points > 0 && 0 < start_hz.key() < stop_hz.key(),
            _ => false,
        },
{
    let blank = letters(" "@);
    reveal_strlit(" ");
    match analysis {
        Analysis::OperatingPoint => {
            reveal_strlit("op");
            lemma_solid_letters("op"@);
            lemma_fields_of_word(letters("op"@));
        },
        Analysis::Transient { step, stop } => {
            reveal_strlit("tran");
            reveal_strlit("tran ");
            assert("tran "@ =~= "tran"@ + " "@);
            lemma_letters_add("tran"@, " "@);
            lemma_solid_letters("tran"@);
            let word = letters("tran"@);
            lemma_fields_of_word(word);
            lemma_figure(step);
            lemma_figure(stop);
            lemma_fields_after_blank(word, figure(step));
            lemma_fields_after_blank(word + blank + figure(step), figure(stop));
            assert(fields(plan.command) =~= seq![word, figure(step), figure(stop)]);
        },
        Analysis::DcSweep { source, start, stop, step } => {
            let found = source_at(layout.sources, source@)->0;
            lemma_tidy_source(layout.sources, source@);
            reveal_strlit("dc");
            reveal_strlit("dc ");
            assert("dc "@ =~= "dc"@ + " "@);
            lemma_letters_add("dc"@, " "@);
            lemma_letters_add("dc "@, found.name);
            lemma_letters_add("dc "@ + found.name, " "@);
            lemma_solid_letters("dc"@);
            lemma_solid_letters(found.name);
            let word = letters("dc"@);
            let name = letters(found.name);
            lemma_fields_of_word(word);
            lemma_fields_of_word(name);
            lemma_figure(start);
            lemma_figure(stop);
            lemma_figure(step);
            let s1 = word + blank + name;
            lemma_fields_after_blank(word, name);
            let s2 = s1 + blank + figure(start);
            lemma_fields_after_blank(s1, figure(start));
            let s3 = s2 + blank + figure(stop);
            lemma_fields_after_blank(s2, figure(stop));
            let s4 = s3 + blank + figure(step);
            lemma_fields_after_blank(s3, figure(step));
            assert(plan.command =~= s4);
            assert(fields(plan.command) =~= seq![
                word,
                name,
                figure(start),
                figure(stop),
                figure(step),
            ]);
            assert(layout.sources.contains(found));
        },
        Analysis::AcSweep { scale, points, start_hz, stop_hz } => {
            reveal_strlit("ac");
            reveal_strlit("ac ");
            reveal_strlit("lin");
            reveal_strlit("dec");
            reveal_strlit("oct");
            assert("ac "@ =~= "ac"@ + " "@);
            let kind = crate::ngspice::scale_word(scale);
            let count = decimal(points as nat);
            lemma_decimal_unspaced(points as nat);
            lemma_solid_letters("ac"@);
            lemma_three("ac"@, kind, count, figure(start_hz) + blank + figure(stop_hz));
            lemma_figure(start_hz);
            lemma_figure(stop_hz);
            lemma_fields_after_blank(figure(start_hz), figure(stop_hz));
            assert(plan.command =~= letters("ac"@ + " "@ + kind + " "@ + count + " "@) + (figure(
                start_hz,
            ) + blank + figure(stop_hz)));
            assert(fields(plan.command) =~= seq![
                letters("ac"@),
                letters(kind),
                letters(count),
                figure(start_hz),
                figure(stop_hz),
            ]);
        },
        _ => {},
    }
}

/// Two numbers with the same decimal digits are the same.
pub proof fn decimals_tell_numbers_apart(a: nat, b: nat)
    requires
        decimal(a) == decimal(b),
    ensures
        a == b,
    decreases a,
{
    let x = decimal(a);
    assert(x.last() == digit_char(a % 10));
    assert(x.last() == digit_char(b % 10));
    lemma_decimal_len(a);
    lemma_decimal_len(b);
    if a >= 10 && b >= 10 {
        assert(x.drop_last() =~= decimal(a / 10));
        assert(decimal(b).drop_last() =~= decimal(b / 10));
        decimals_tell_numbers_apart(a / 10, b / 10);
    }
}

proof fn lemma_decimal_len(n: nat)
    ensures
        decimal(n).len() >= 1,
        n >= 10 ==> decimal(n).len() >= 2,
    decreases n,
{
    if n >= 10 {
        lemma_decimal_len(n / 10);
    }
}

/// A source among the components: voltage sources are named with a V and measured in
/// volts, current sources with an I and in amperes.
pub open spec fn is_source(components: Seq<Component>, i: int, source: Source) -> bool {
    &&& 0 <= i < components.len()
    &&& source.component == components[i].id@
    &&& components[i].kind@ == "voltage_source"@ || components[i].kind@ == "current_source"@
    &&& components[i].kind@ == "voltage_source"@ ==> source.unit == Unit::Volt && source.name.len()
        > 0 && source.name[0] == 'V'
    &&& components[i].kind@ == "current_source"@ ==> source.unit == Unit::Ampere && source.name.len()
        > 0 && source.name[0] == 'I'
}

/// A source among the first `n` components.
pub open spec fn is_some_source(components: Seq<Component>, n: int, source: Source) -> bool {
    exists|i: int| is_source(components, i, source) && i < n
}

/// Each name of a source belongs to a source of the circuit, each source has a name,
/// and no two have the same.
pub proof fn sources_have_names_of_their_own(components: Seq<Component>, n: int)
    requires
        0 <= n <= components.len(),
    ensures
        forall|k: int|
            0 <= k < sources_of(components, n).len() ==> is_some_source(
                components,
                n,
                #[trigger] sources_of(components, n)[k],
            ),
        forall|i: int|
            0 <= i < n && (#[trigger] components[i]).kind@ == "voltage_source"@ || 0 <= i < n
                && components[i].kind@ == "current_source"@ ==> exists|k: int|
                0 <= k < sources_of(components, n).len() && is_source(
                    components,
                    i,
                    #[trigger] sources_of(components, n)[k],
                ),
        forall|j: int, k: int|
            0 <= j < k < sources_of(components, n).len() ==> (#[trigger] sources_of(
                components,
                n,
            )[j]).name != (#[trigger] sources_of(components, n)[k]).name,
        forall|k: int|
            0 <= k < sources_of(components, n).len() ==> unspaced(
                (#[trigger] sources_of(components, n)[k]).name,
            ),
{
    lemma_sources(components, n);
    let list = sources_of(components, n);
    assert forall|j: int, k: int| 0 <= j < k < list.len() implies (#[trigger] list[j]).name != (
    #[trigger] list[k]).name by {
        let a = list[j].name;
        let b = list[k].name;
        reveal_strlit("V");
        reveal_strlit("I");
        if a == b {
            let x = number_in(list[j]);
            let y = number_in(list[k]);
            assert(a.skip(1) =~= decimal(x));
            assert(b.skip(1) =~= decimal(y));
            decimals_tell_numbers_apart(x, y);
        }
    }
}

/// The number in the name of a source.
spec fn number_in(source: Source) -> nat {
    choose|n: nat| source.name == (if source.unit == Unit::Volt {
        "V"@
    } else {
        "I"@
    }) + #[trigger] decimal(n)
}

spec fn numbered_to(source: Source, volts: nat, amperes: nat) -> bool {
    &&& source.unit == Unit::Volt || source.unit == Unit::Ampere
    &&& source.name == (if source.unit == Unit::Volt {
        "V"@
    } else {
        "I"@
    }) + decimal(number_in(source))
    &&& source.unit == Unit::Volt ==> number_in(source) <= volts
    &&& source.unit == Unit::Ampere ==> number_in(source) <= amperes
}

proof fn lemma_sources(components: Seq<Component>, n: int)
    requires
        0 <= n <= components.len(),
    ensures
        forall|k: int|
            0 <= k < sources_of(components, n).len() ==> is_some_source(
                components,
                n,
                #[trigger] sources_of(components, n)[k],
            ),
        forall|i: int|
            0 <= i < n && (#[trigger] components[i]).kind@ == "voltage_source"@ || 0 <= i < n
                && components[i].kind@ == "current_source"@ ==> exists|k: int|
                0 <= k < sources_of(components, n).len() && is_source(
                    components,
                    i,
                    #[trigger] sources_of(components, n)[k],
                ),
        forall|k: int|
            0 <= k < sources_of(components, n).len() ==> numbered_to(
                #[trigger] sources_of(components, n)[k],
                kind_count(components, "voltage_source"@, n),
                kind_count(components, "current_source"@, n),
            ) && unspaced(sources_of(components, n)[k].name),
        forall|j: int, k: int|
            0 <= j < k < sources_of(components, n).len() && (#[trigger] sources_of(components, n)[j]).unit
                == (#[trigger] sources_of(components, n)[k]).unit ==> number_in(
                sources_of(components, n)[j],
            ) < number_in(sources_of(components, n)[k]),
    decreases n,
{
    lemma_analog_words();
    reveal_strlit("V");
    reveal_strlit("I");
    if n > 0 {
        lemma_sources(components, n - 1);
        let before = sources_of(components, n - 1);
        let list = sources_of(components, n);
        let component = components[n - 1];
        let volts = kind_count(components, "voltage_source"@, n);
        let amperes = kind_count(components, "current_source"@, n);
        let grown = component.kind@ == "voltage_source"@ || component.kind@ == "current_source"@;
        assert(list.len() == before.len() + if grown { 1int } else { 0int });
        assert(forall|k: int| 0 <= k < before.len() ==> #[trigger] list[k] == before[k]);
        if grown {
            let last = list[before.len() as int];
            let number = if component.kind@ == "voltage_source"@ { volts } else { amperes };
            let letter = if component.kind@ == "voltage_source"@ { "V"@ } else { "I"@ };
            assert(last.name == letter + decimal(number));
            assert(number_in(last) == number) by {
                let m = number_in(last);
                assert(last.name == letter + decimal(m));
                assert((letter + decimal(m)).skip(1) =~= decimal(m));
                assert((letter + decimal(number)).skip(1) =~= decimal(number));
                decimals_tell_numbers_apart(m, number);
            }
            lemma_decimal_unspaced(number);
            lemma_unspaced_add(letter, decimal(number));
            assert(last.name[0] == letter[0]);
            assert(is_source(components, n - 1, last));
        }
        assert forall|k: int| 0 <= k < list.len() implies is_some_source(
            components,
            n,
            #[trigger] list[k],
        ) by {
            if k < before.len() {
                assert(list[k] == before[k]);
                let i = choose|i: int| is_source(components, i, before[k]) && i < n - 1;
                assert(is_source(components, i, list[k]) && i < n);
            } else {
                assert(is_source(components, n - 1, list[k]));
            }
        }
        assert forall|i: int|
            0 <= i < n && (#[trigger] components[i]).kind@ == "voltage_source"@ || 0 <= i < n
                && components[i].kind@ == "current_source"@ implies exists|k: int|
            0 <= k < list.len() && is_source(components, i, #[trigger] list[k]) by {
            if i < n - 1 {
                let k = choose|k: int|
                    0 <= k < before.len() && is_source(components, i, #[trigger] before[k]);
                assert(list[k] == before[k]);
            } else {
                assert(is_source(components, i, list[before.len() as int]));
            }
        }
        assert forall|k: int| 0 <= k < list.len() implies numbered_to(
            #[trigger] list[k],
            volts,
            amperes,
        ) && unspaced(list[k].name) by {
            if k < before.len() {
                assert(list[k] == before[k]);
            }
        }
        assert forall|j: int, k: int|
            0 <= j < k < list.len() && (#[trigger] list[j]).unit == (#[trigger] list[k]).unit implies number_in(
            list[j],
        ) < number_in(list[k]) by {
            assert(list[j] == before[j]);
            if k < before.len() {
                assert(list[k] == before[k]);
            }
        }
    }
}

/// How many of the first `n` components are no ground.
pub open spec fn lined(components: Seq<Component>, n: int) -> nat
    decreases n,
{
    if n <= 0 {
        0
    } else {
        lined(components, n - 1) + if components[n - 1].kind@ == "ground"@ {
            0nat
        } else {
            1nat
        }
    }
}

/// Every component but ground has its line in a netlist, and the lines stand in the
/// order of the components.
pub proof fn netlists_hold_a_line_for_each_component(
    components: Seq<Component>,
    layout: Layout,
    models: Registry,
    n: int,
    lines: Seq<Seq<Sign>>,
)
    requires
        0 <= n <= components.len(),
        component_lines(components, layout, models, n) == Ok::<Seq<Seq<Sign>>, Fault>(lines),
    ensures
        lines.len() == lined(components, n),
        forall|i: int|
            0 <= i < n && (#[trigger] components[i]).kind@ != "ground"@ ==> lined(components, i)
                < lines.len() && component_line(i, components[i], layout, models) == Ok::<
                Seq<Sign>,
                Fault,
            >(lines[lined(components, i) as int]),
    decreases n,
{
    if n > 0 {
        let before = component_lines(components, layout, models, n - 1)->Ok_0;
        netlists_hold_a_line_for_each_component(components, layout, models, n - 1, before);
        assert forall|i: int| 0 <= i < n && (#[trigger] components[i]).kind@ != "ground"@ implies lined(
            components,
            i,
        ) < lines.len() && component_line(i, components[i], layout, models) == Ok::<
            Seq<Sign>,
            Fault,
        >(lines[lined(components, i) as int]) by {
            if i < n - 1 {
                assert(lines[lined(components, i) as int] == before[lined(components, i) as int]);
            }
        }
    }
}

/// A probe of a request shows the voltage of the node of its pin, under its alias or
/// the name of its net.
pub proof fn probes_show_the_node_of_their_pin(
    layout: Layout,
    probe: Probe,
    component: Component,
    signal: Seq<char>,
    expression: Seq<char>,
)
    requires
        component.id@ == probe.endpoint.component@,
        asked_probe(layout, probe) == Ok::<(Seq<char>, Seq<char>), Fault>((signal, expression)),
    ensures
        layout.node(component, probe.endpoint.pin@) matches Ok(node) && expression == seq!['v', '(']
            + node + seq![')'],
        match probe.alias {
            Some(alias) => signal == alias@,
            None => exists|net: Seq<char>| #[trigger]
                crate::wiring::net_at(layout.wires, component.id@, probe.endpoint.pin@) == Some(net)
                    && signal == "net:"@ + net,
        },
{
    reveal_strlit("v(");
    reveal_strlit(")");
    assert("v("@ =~= seq!['v', '(']);
    assert(")"@ =~= seq![')']);
    let net = crate::wiring::net_at(layout.wires, component.id@, probe.endpoint.pin@)->0;
    assert(crate::wiring::net_at(layout.wires, component.id@, probe.endpoint.pin@) == Some(net));
}

/// The netlist of an analog request is made of lines: among them are those of all
/// components but ground, in order, and behind them the command of the analysis and the
/// one that writes the probed values.
pub proof fn analog_netlists_hold_their_lines(request: SimulationRequest, compiled: Compiled)
    requires
        compiled_of(request) == Ok::<Compiled, Fault>(compiled),
    ensures
        exists|layout: Layout, models: Registry, plan: Plan, front: Seq<Seq<Sign>>, lines: Seq<Seq<Sign>>, back: Seq<Seq<Sign>>|
            #![trigger component_lines(request.circuit.components@, layout, models, request.circuit.components@.len() as int), plan_of(request.analysis, request.circuit, layout), crate::draft::stack_of(front + lines + back), plan.command]
            {
                &&& layout_of(request.circuit) == Ok::<Layout, Fault>(layout)
                &&& plan_of(request.analysis, request.circuit, layout) == Ok::<Plan, Fault>(plan)
                &&& component_lines(
                    request.circuit.components@,
                    layout,
                    models,
                    request.circuit.components@.len() as int,
                ) == Ok::<Seq<Seq<Sign>>, Fault>(lines)
                &&& compiled.netlist == crate::draft::stack_of(front + lines + back)
                &&& back.len() == 11
                &&& back[0] == letters(".control"@)
                &&& back[5] == plan.command
                &&& back[6] == letters(
                    "wrdata result.txt "@ + join_of(crate::ngspice::expressions(compiled.probes), " "@),
                )
                &&& back[9] == letters(".end"@)
                &&& compiled.axis_kind == plan.axis_kind
                &&& compiled.axis_unit == plan.axis_unit
                &&& compiled.complex == plan.complex
            },
{
    let layout = layout_of(request.circuit)->Ok_0;
    let models = crate::spice_models::registry_of(request.circuit.models@)->Ok_0;
    let probes = crate::ngspice::probes_of(request, layout)->Ok_0;
    let plan = plan_of(request.analysis, request.circuit, layout)->Ok_0;
    let lines = component_lines(
        request.circuit.components@,
        layout,
        models,
        request.circuit.components@.len() as int,
    )->Ok_0;
    let front = seq![letters("* OntologyX Sim generated ngspice netlist"@)]
        + crate::ngspice::model_lines(models);
    let back = crate::ngspice::control_lines(
        plan.command,
        join_of(crate::ngspice::expressions(probes), " "@),
    );
    assert(compiled.netlist == crate::draft::stack_of(front + lines + back));
    assert(plan.command == back[5]);
}

/// Where no probes are asked for, every net that is not ground is shown by the voltage
/// of its node, under the name of a net on that node, and nothing else is shown.
pub proof fn default_probes_show_every_net(
    nets: Seq<crate::circuit::Net>,
    nodes: Seq<(Seq<char>, Seq<char>)>,
    n: int,
)
    requires
        0 <= n <= nets.len(),
    ensures
        forall|j: int|
            0 <= j < n && (node_at(nodes, (#[trigger] nets[j]).id@) matches Some(node) && node
                != "0"@) ==> exists|k: int|
                0 <= k < default_probes(nets, nodes, n).len() && (#[trigger] default_probes(
                    nets,
                    nodes,
                    n,
                )[k]).1 == "v("@ + node_at(nodes, nets[j].id@)->0 + ")"@,
        forall|k: int|
            0 <= k < default_probes(nets, nodes, n).len() ==> shows_net(
                nets,
                nodes,
                n,
                #[trigger] default_probes(nets, nodes, n)[k],
            ),
    decreases n,
{
    if n > 0 {
        default_probes_show_every_net(nets, nodes, n - 1);
        let before = default_probes(nets, nodes, n - 1);
        let all = default_probes(nets, nodes, n);
        assert(forall|k: int| 0 <= k < before.len() ==> #[trigger] all[k] == before[k]);
        assert forall|j: int|
            0 <= j < n && (node_at(nodes, (#[trigger] nets[j]).id@) matches Some(node) && node
                != "0"@) implies exists|k: int|
            0 <= k < all.len() && (#[trigger] all[k]).1 == "v("@ + node_at(nodes, nets[j].id@)->0
                + ")"@ by {
            let node = node_at(nodes, nets[j].id@)->0;
            if j == n - 1 && !crate::ngspice::node_used(nets, nodes, node, n - 1) {
                assert(all[before.len() as int].1 == "v("@ + node + ")"@);
            } else {
                let i = if j < n - 1 {
                    j
                } else {
                    choose|i: int|
                        0 <= i < n - 1 && node_at(nodes, (#[trigger] nets[i]).id@) == Some(node)
                };
                assert(0 <= i < n - 1 && node_at(nodes, nets[i].id@) == Some(node));
                let k = choose|k: int|
                    0 <= k < before.len() && (#[trigger] before[k]).1 == "v("@ + node + ")"@;
                assert(all[k] == before[k]);
            }
        }
        assert forall|k: int| 0 <= k < all.len() implies shows_net(
            nets,
            nodes,
            n,
            #[trigger] all[k],
        ) by {
            if k < before.len() {
                assert(all[k] == before[k]);
                assert(shows_net(nets, nodes, n - 1, before[k]));
                let j = choose|j: int|
                    0 <= j < n - 1 && (node_at(nodes, (#[trigger] nets[j]).id@) matches Some(node)
                        && node != "0"@ && before[k].0 == "net:"@ + nets[j].id@ && before[k].1
                        == "v("@ + node + ")"@);
                assert(nets[j].id@ == nets[j].id@);
            } else {
                assert(nets[n - 1].id@ == nets[n - 1].id@);
            }
        }
    }
}

/// A probe shows one of the first `n` nets, which is not ground.
pub open spec fn shows_net(
    nets: Seq<crate::circuit::Net>,
    nodes: Seq<(Seq<char>, Seq<char>)>,
    n: int,
    probe: (Seq<char>, Seq<char>),
) -> bool {
    exists|j: int|
        0 <= j < n && (node_at(nodes, (#[trigger] nets[j]).id@) matches Some(node) && node != "0"@
            && probe.0 == "net:"@ + nets[j].id@ && probe.1 == "v("@ + node + ")"@)
}

} // verus!
