//! What the lines for bridges and logic elements say, field by field, and what the
//! models that they name compute.
use crate::analysis::Analysis;
use crate::circuit::{Component, Net, PinDirection};
use crate::deck::{
    fields, lemma_decimal_unspaced, lemma_fields_after_blank, lemma_fields_of_join,
    lemma_fields_of_word, lemma_letters_add, lemma_solid_add, lemma_solid_letters,
    lemma_unspaced_add, solid, spelled, unspaced,
};
use crate::digital::{part_of, Part};
use crate::draft::{figure, letters, Sign};
use crate::engine::SimulationRequest;
use crate::events::Held;
use crate::fault::{collected, lemma_collected_at, Fault};
use crate::lines::join_of;
use crate::lookup::{amounts, amounts_are_listed, omits, times_are_listed};
use crate::mixed::{
    adc_part, bridge_levels, bridge_node, component_added, dac_part, mixed_code, quantity_or,
    Assembly, BridgePart,
};
use crate::node_terms::{event_mesh, tidy_mesh};
use crate::nodes::{node_at, Layout};
use crate::number::Real;
use crate::reading::logic_of;
use crate::scales::{fixed_numbers_are_roundings, one_in};
use crate::spice_models::Registry;
use crate::text::decimal;
use crate::truth::{
    acts, drives, gates_compute_their_table, is_bit, level_of_bit, mark, reads, truth, unary,
};
use crate::units::Unit;
use crate::waveform::LogicValue;
use crate::wiring::net_at;
use crate::xspice::{
    asked_delay, circuit_addition, control_nodes, digital_addition, digital_node, event_compiled, gate_terms,
    input_nodes,
    joined_node, leading_nodes, sequential_addition, sequential_terms, xspice_code, Addition,
    EventNetlist, Mesh,
};
use vstd::prelude::*;

verus! {

/// The table of a code model of the event simulator, on zeros and ones.
pub open spec fn model_truth(code: Seq<char>, x: int, y: int) -> Option<int> {
    if code == "d_buffer"@ {
        Some(x)
    } else if code == "d_inverter"@ {
        Some(1 - x)
    } else if code == "d_and"@ {
        Some(x * y)
    } else if code == "d_nand"@ {
        Some(1 - x * y)
    } else if code == "d_or"@ {
        Some(x + y - x * y)
    } else if code == "d_nor"@ {
        Some(1 - (x + y - x * y))
    } else if code == "d_xor"@ {
        Some((x + y) % 2)
    } else if code == "d_xnor"@ {
        Some((x + y + 1) % 2)
    } else {
        None
    }
}

/// A field names the node of a pin.
pub open spec fn is_joined(mesh: Mesh, component: Component, pin: Seq<char>, field: Seq<Sign>) -> bool {
    exists|node: Seq<char>|
        joined_node(mesh, component, pin) == Ok::<Seq<char>, Fault>(node) && field
            == #[trigger] letters(node)
}

/// A field names the node of a pin of a bridge, in brackets.
pub open spec fn is_bracketed(
    mesh: Mesh,
    component: Component,
    pin: Seq<char>,
    field: Seq<Sign>,
) -> bool {
    exists|node: Seq<char>|
        bridge_node(mesh, component, pin) == Ok::<Seq<char>, Fault>(node) && field == letters("["@)
            + #[trigger] letters(node) + letters("]"@)
}

/// A named number of a model.
pub open spec fn term(key: Seq<char>, x: Real) -> Seq<Sign> {
    letters(key) + figure(x)
}

/// A time that is listed, or zero, but no shorter than a picosecond.
pub open spec fn floored_time(component: Component, key: Seq<char>, x: Real) -> bool {
    exists|asked: Real|
        (amounts(component, key, Unit::Second, asked) || (omits(component, key) && asked == Real {
            bits: 0,
        })) && 0 <= #[trigger] asked.key() && x == if asked.key() < one_in(1_000_000_000_000).key() {
            one_in(1_000_000_000_000)
        } else {
            asked
        }
}

/// A level that is listed, or another that stands for it.
pub open spec fn amounts_or(
    component: Component,
    key: Seq<char>,
    unit: Unit,
    other: Real,
    x: Real,
) -> bool {
    amounts(component, key, unit, x) || (omits(component, key) && x == other)
}

/// The words for kinds of components in a mixed netlist all differ.
proof fn lemma_mixed_words()
    ensures
        mark("ground"@) == 107442799,
        mark("resistor"@) == 141714803,
        mark("capacitor"@) == 157507952,
        mark("inductor"@) == 141127268,
        mark("voltage_source"@) == 242642796,
        mark("current_source"@) == 241399154,
        mark("diode"@) == 90466671,
        mark("bjt"@) == 56781428,
        mark("mosfet"@) == 107835251,
        mark("op_amp"@) == 107966559,
        mark("subcircuit"@) == 175338850,
        mark("adc_bridge"@) == 174154851,
        mark("dac_bridge"@) == 174350691,
        mark("logic_input"@) == 191655783,
        mark("digital_clock"@) == 224684391,
        mark("logic_output"@) == 208432999,
        mark("buffer"@) == 107115878,
        mark("not_gate"@) == 141455220,
        mark("and_gate"@) == 140602980,
        mark("or_gate"@) == 124744287,
        mark("xor_gate"@) == 142110578,
        mark("nand_gate"@) == 158228846,
        mark("nor_gate"@) == 141455218,
        mark("xnor_gate"@) == 158887535,
        mark("tri_state_buffer"@) == 276066921,
        mark("d_flip_flop"@) == 191127398,
        mark("jk_flip_flop"@) == 208300895,
        mark("t_flip_flop"@) == 192175974,
        mark("sr_flip_flop"@) == 208892511,
        mark("d_latch"@) == 124018540,
{
    reveal_strlit("ground");
    reveal_strlit("resistor");
    reveal_strlit("capacitor");
    reveal_strlit("inductor");
    reveal_strlit("voltage_source");
    reveal_strlit("current_source");
    reveal_strlit("diode");
    reveal_strlit("bjt");
    reveal_strlit("mosfet");
    reveal_strlit("op_amp");
    reveal_strlit("subcircuit");
    reveal_strlit("adc_bridge");
    reveal_strlit("dac_bridge");
    reveal_strlit("logic_input");
    reveal_strlit("digital_clock");
    reveal_strlit("logic_output");
    reveal_strlit("buffer");
    reveal_strlit("not_gate");
    reveal_strlit("and_gate");
    reveal_strlit("or_gate");
    reveal_strlit("xor_gate");
    reveal_strlit("nand_gate");
    reveal_strlit("nor_gate");
    reveal_strlit("xnor_gate");
    reveal_strlit("tri_state_buffer");
    reveal_strlit("d_flip_flop");
    reveal_strlit("jk_flip_flop");
    reveal_strlit("t_flip_flop");
    reveal_strlit("sr_flip_flop");
    reveal_strlit("d_latch");
}

proof fn lemma_tidy_node(nodes: Seq<(Seq<char>, Seq<char>)>, net: Seq<char>)
    requires
        forall|i: int| 0 <= i < nodes.len() ==> unspaced((#[trigger] nodes[i]).1),
    ensures
        node_at(nodes, net) matches Some(node) ==> unspaced(node),
    decreases nodes.len(),
{
    if nodes.len() > 0 {
        let rest = nodes.drop_last();
        let last = nodes.len() - 1;
        assert(unspaced(nodes[last].1));
        assert forall|i: int| 0 <= i < rest.len() implies unspaced((#[trigger] rest[i]).1) by {
            assert(unspaced(nodes[i].1));
        }
        lemma_tidy_node(rest, net);
    }
}

proof fn lemma_tidy_pin(mesh: Mesh, component: Component, pin: Seq<char>)
    requires
        tidy_mesh(mesh),
    ensures
        joined_node(mesh, component, pin) matches Ok(node) ==> unspaced(node),
        bridge_node(mesh, component, pin) matches Ok(node) ==> unspaced(node),
{
    match net_at(mesh.wires, component.id@, pin) {
        Some(net) => {
            lemma_tidy_node(mesh.nodes, net);
        },
        None => {},
    }
}

/// One more word in a line.
proof fn lemma_word_more(line: Seq<Sign>, word: Seq<Sign>)
    requires
        solid(word),
    ensures
        fields(line + letters(" "@) + word) == fields(line).push(word),
{
    lemma_fields_after_blank(line, word);
    lemma_fields_of_word(word);
    assert(fields(line) + seq![word] =~= fields(line).push(word));
}

/// One more named number in a line.
proof fn lemma_term_more(line: Seq<Sign>, key: Seq<char>, spaced: Seq<char>, x: Real)
    requires
        unspaced(key),
        spaced == " "@ + key,
    ensures
        fields(line + letters(spaced) + figure(x)) == fields(line).push(term(key, x)),
        solid(term(key, x)),
{
    lemma_letters_add(" "@, key);
    lemma_solid_letters(key);
    lemma_solid_add(letters(key), figure(x));
    lemma_word_more(line, term(key, x));
    assert(line + letters(spaced) + figure(x) =~= line + letters(" "@) + term(key, x));
}

/// The first fields of a model line.
proof fn lemma_model_head(name: Seq<char>, key: Seq<char>, x: Real)
    requires
        unspaced(name),
        unspaced(key),
    ensures
        fields(letters(".model "@ + name + " "@ + key) + figure(x)) == seq![
            letters(".model"@),
            letters(name),
            term(key, x),
        ],
{
    reveal_strlit(".model ");
    reveal_strlit(".model");
    reveal_strlit(" ");
    assert(".model "@ =~= ".model"@ + " "@);
    lemma_letters_add(".model"@, " "@);
    lemma_letters_add(".model "@, name);
    lemma_letters_add(".model "@ + name, " "@);
    lemma_letters_add(".model "@ + name + " "@, key);
    lemma_solid_letters(".model"@);
    lemma_solid_letters(name);
    lemma_solid_letters(key);
    lemma_solid_add(letters(key), figure(x));
    lemma_fields_of_word(letters(".model"@));
    lemma_word_more(letters(".model"@), letters(name));
    let line = letters(".model"@) + letters(" "@) + letters(name);
    lemma_word_more(line, term(key, x));
    assert(letters(".model "@ + name + " "@ + key) + figure(x) =~= line + letters(" "@) + term(
        key,
        x,
    ));
    assert(fields(line) =~= seq![letters(".model"@), letters(name)]);
    assert(fields(line).push(term(key, x)) =~= seq![
        letters(".model"@),
        letters(name),
        term(key, x),
    ]);
}

/// A bracket behind the last named number of a model line.
proof fn lemma_model_tail(line: Seq<Sign>, key: Seq<char>, spaced: Seq<char>, x: Real)
    requires
        unspaced(key),
        spaced == " "@ + key,
    ensures
        fields(line + letters(spaced) + figure(x) + letters(")"@)) == fields(line).push(
            term(key, x) + letters(")"@),
        ),
{
    reveal_strlit(")");
    lemma_letters_add(" "@, key);
    lemma_solid_letters(key);
    lemma_solid_letters(")"@);
    lemma_solid_add(letters(key), figure(x));
    lemma_solid_add(term(key, x), letters(")"@));
    lemma_word_more(line, term(key, x) + letters(")"@));
    assert(line + letters(spaced) + figure(x) + letters(")"@) =~= line + letters(" "@) + (term(
        key,
        x,
    ) + letters(")"@)));
}

proof fn lemma_bracketed(node: Seq<char>)
    requires
        unspaced(node),
    ensures
        solid(letters("["@) + letters(node) + letters("]"@)),
{
    reveal_strlit("[");
    reveal_strlit("]");
    lemma_solid_letters("["@);
    lemma_solid_letters("]"@);
    lemma_solid_letters(node);
    lemma_solid_add(letters("["@), letters(node));
    lemma_solid_add(letters("["@) + letters(node), letters("]"@));
}

/// The fields of the line of a bridge.
proof fn lemma_bridge_line(name: Seq<char>, from: Seq<char>, to: Seq<char>, model: Seq<char>)
    requires
        unspaced(name),
        unspaced(from),
        unspaced(to),
        unspaced(model),
    ensures
        fields(letters(name + " ["@ + from + "] ["@ + to + "] "@ + model)) == seq![
            letters(name),
            letters("["@) + letters(from) + letters("]"@),
            letters("["@) + letters(to) + letters("]"@),
            letters(model),
        ],
{
    reveal_strlit(" [");
    reveal_strlit("] [");
    reveal_strlit("] ");
    reveal_strlit("[");
    reveal_strlit("]");
    reveal_strlit(" ");
    assert(" ["@ =~= " "@ + "["@);
    assert("] ["@ =~= "]"@ + " "@ + "["@);
    assert("] "@ =~= "]"@ + " "@);
    lemma_letters_add(" "@, "["@);
    lemma_letters_add("]"@, " "@);
    lemma_letters_add("]"@ + " "@, "["@);
    lemma_letters_add(name, " ["@);
    lemma_letters_add(name + " ["@, from);
    lemma_letters_add(name + " ["@ + from, "] ["@);
    lemma_letters_add(name + " ["@ + from + "] ["@, to);
    lemma_letters_add(name + " ["@ + from + "] ["@ + to, "] "@);
    lemma_letters_add(name + " ["@ + from + "] ["@ + to + "] "@, model);
    let blank = letters(" "@);
    let a = letters("["@) + letters(from) + letters("]"@);
    let b = letters("["@) + letters(to) + letters("]"@);
    lemma_bracketed(from);
    lemma_bracketed(to);
    lemma_solid_letters(name);
    lemma_solid_letters(model);
    lemma_fields_of_word(letters(name));
    let s1 = letters(name) + blank + a;
    lemma_word_more(letters(name), a);
    let s2 = s1 + blank + b;
    lemma_word_more(s1, b);
    let s3 = s2 + blank + letters(model);
    lemma_word_more(s2, letters(model));
    assert(letters(name + " ["@ + from + "] ["@ + to + "] "@ + model) =~= s3);
    assert(fields(s3) =~= seq![letters(name), a, b, letters(model)]);
}

/// The bridge component adds one line and one model to a mixed netlist, and changes
/// nothing else in it.
pub open spec fn adds_bridge(
    before: Assembly,
    after: Assembly,
    line: Seq<Sign>,
    model: Seq<Sign>,
) -> bool {
    &&& after.analog == before.analog
    &&& after.bridges == before.bridges.push(line)
    &&& after.digital.models == before.digital.models.push(model)
    &&& after.digital.instances == before.digital.instances
    &&& after.digital.sources == before.digital.sources
}

/// The numbers of a digital-to-analog bridge, as its component lists them.
pub open spec fn dac_numbers(
    component: Component,
    low: Real,
    high: Real,
    unknown: Real,
    load: Real,
    rise: Real,
    fall: Real,
) -> bool {
    &&& amounts(component, "low_voltage"@, Unit::Volt, low)
    &&& amounts(component, "high_voltage"@, Unit::Volt, high)
    &&& low.less(high)
    &&& amounts_or(
        component,
        "unknown_voltage"@,
        Unit::Volt,
        low.sum(high).scaled(one_in(2)),
        unknown,
    )
    &&& amounts_or(component, "input_load"@, Unit::Farad, Real { bits: 0 }, load)
    &&& floored_time(component, "rise_time"@, rise)
    &&& floored_time(component, "fall_time"@, fall)
}

/// Where a digital-to-analog bridge is compiled, the figure behind `out_low=` is the
/// component's low voltage and the one behind `out_high=` its high voltage, the first
/// strictly below the second; its input is the digital and its output the analog pin.
pub proof fn dac_bridges_put_out_their_voltages(
    before: Assembly,
    component: Component,
    index: int,
    stop: Real,
    mesh: Mesh,
    layout: Layout,
    models: Registry,
    after: Assembly,
)
    requires
        tidy_mesh(mesh),
        component.kind@ == "dac_bridge"@,
        component_added(before, component, index, stop, mesh, layout, models) == Ok::<
            Assembly,
            Fault,
        >(after),
    ensures
        exists|line: Seq<Sign>, model: Seq<Sign>, low: Real, high: Real, unknown: Real, load: Real, rise: Real, fall: Real|
            #![trigger adds_bridge(before, after, line, model), dac_numbers(component, low, high, unknown, load, rise, fall)]
            {
                &&& adds_bridge(before, after, line, model)
                &&& dac_numbers(component, low, high, unknown, load, rise, fall)
                &&& fields(line).len() == 4
                &&& is_bracketed(mesh, component, "digital_in"@, fields(line)[1])
                &&& is_bracketed(mesh, component, "analog_out"@, fields(line)[2])
                &&& fields(model) == seq![
                    letters(".model"@),
                    fields(line)[3],
                    letters("dac_bridge(out_low="@) + figure(low),
                    letters("out_high="@) + figure(high),
                    letters("out_undef="@) + figure(unknown),
                    letters("input_load="@) + figure(load),
                    letters("t_rise="@) + figure(rise),
                    letters("t_fall="@) + figure(fall) + letters(")"@),
                ]
            },
{
    lemma_bridge_kind(component, index, stop, mesh);
    let part = dac_part(component, index, mesh)->Ok_0;
    let (digital, analog, low, high, unknown, load, rise, fall) = lemma_dac(
        component,
        index,
        mesh,
        part,
    );
    assert(adds_bridge(before, after, part.line, part.model));
    assert(dac_numbers(component, low, high, unknown, load, rise, fall));
}

/// A bridge is no logic element, and the one kind of it is not the other.
proof fn lemma_bridge_kind(component: Component, index: int, stop: Real, mesh: Mesh)
    requires
        component.kind@ == "dac_bridge"@ || component.kind@ == "adc_bridge"@,
    ensures
        digital_addition(component, index, stop, mesh, true) is None,
        component.kind@ != "ground"@,
        !crate::mixed::is_analog_kind(component.kind@),
        "dac_bridge"@ != "adc_bridge"@,
{
    lemma_mixed_words();
}

proof fn lemma_dac(component: Component, index: int, mesh: Mesh, part: BridgePart) -> (r: (
    Seq<char>,
    Seq<char>,
    Real,
    Real,
    Real,
    Real,
    Real,
    Real,
))
    requires
        tidy_mesh(mesh),
        dac_part(component, index, mesh) == Ok::<BridgePart, Fault>(part),
    ensures
        ({
            let (digital, analog, low, high, unknown, load, rise, fall) = r;
            &&& dac_numbers(component, low, high, unknown, load, rise, fall)
            &&& fields(part.line).len() == 4
            &&& is_bracketed(mesh, component, "digital_in"@, fields(part.line)[1])
            &&& is_bracketed(mesh, component, "analog_out"@, fields(part.line)[2])
            &&& fields(part.model) == seq![
                letters(".model"@),
                fields(part.line)[3],
                term("dac_bridge(out_low="@, low),
                term("out_high="@, high),
                term("out_undef="@, unknown),
                term("input_load="@, load),
                term("t_rise="@, rise),
                term("t_fall="@, fall) + letters(")"@),
            ]
        }),
{
    let zero = Real { bits: 0 };
    let (digital, analog) = crate::mixed::bridge_nodes(
        component,
        mesh,
        "digital_in"@,
        crate::circuit::SignalDomain::Digital,
        "analog_out"@,
        crate::circuit::SignalDomain::Analog,
    )->Ok_0;
    let (low, high) = bridge_levels(component, "low_voltage"@, "high_voltage"@)->Ok_0;
    let unknown = quantity_or(
        component,
        "unknown_voltage"@,
        Unit::Volt,
        crate::mixed::middle(low, high),
    )->Ok_0;
    let rise = quantity_or(component, "rise_time"@, Unit::Second, zero)->Ok_0;
    let fall = quantity_or(component, "fall_time"@, Unit::Second, zero)->Ok_0;
    let load = quantity_or(component, "input_load"@, Unit::Farad, zero)->Ok_0;
    let up = crate::xspice::floored_delay(rise);
    let down = crate::xspice::floored_delay(fall);
    assert(part == crate::mixed::dac_text(
        index,
        digital,
        analog,
        low,
        high,
        unknown,
        load,
        rise,
        fall,
    ));
    fixed_numbers_are_roundings();
    amounts_are_listed(mixed_code(), component, "low_voltage"@, Unit::Volt, low);
    amounts_are_listed(mixed_code(), component, "high_voltage"@, Unit::Volt, high);
    amounts_are_listed(mixed_code(), component, "unknown_voltage"@, Unit::Volt, unknown);
    amounts_are_listed(mixed_code(), component, "input_load"@, Unit::Farad, load);
    lemma_floored(component, "rise_time"@, rise);
    lemma_floored(component, "fall_time"@, fall);
    lemma_tidy_pin(mesh, component, "digital_in"@);
    lemma_tidy_pin(mesh, component, "analog_out"@);
    lemma_dac_text(index, digital, analog, low, high, unknown, load, rise, fall);
    (digital, analog, low, high, unknown, load, up, down)
}

/// A time that is listed or zero, held above the least delay.
proof fn lemma_floored(component: Component, key: Seq<char>, asked: Real)
    requires
        quantity_or(component, key, Unit::Second, Real { bits: 0 }) == Ok::<Real, Fault>(asked),
        crate::mixed::negative_failure(component, key, asked) is None,
    ensures
        floored_time(component, key, crate::xspice::floored_delay(asked)),
{
    fixed_numbers_are_roundings();
    amounts_are_listed(mixed_code(), component, key, Unit::Second, asked);
    assert(0 <= asked.key());
}

proof fn lemma_dac_text(
    index: int,
    digital: Seq<char>,
    analog: Seq<char>,
    low: Real,
    high: Real,
    unknown: Real,
    load: Real,
    rise: Real,
    fall: Real,
)
    requires
        unspaced(digital),
        unspaced(analog),
    ensures
        ({
            let part = crate::mixed::dac_text(
                index,
                digital,
                analog,
                low,
                high,
                unknown,
                load,
                rise,
                fall,
            );
            &&& fields(part.line) == seq![
                letters("adac"@ + decimal(index as nat)),
                letters("["@) + letters(digital) + letters("]"@),
                letters("["@) + letters(analog) + letters("]"@),
                letters("mdac"@ + decimal(index as nat)),
            ]
            &&& fields(part.model) == seq![
                letters(".model"@),
                letters("mdac"@ + decimal(index as nat)),
                term("dac_bridge(out_low="@, low),
                term("out_high="@, high),
                term("out_undef="@, unknown),
                term("input_load="@, load),
                term("t_rise="@, crate::xspice::floored_delay(rise)),
                term("t_fall="@, crate::xspice::floored_delay(fall)) + letters(")"@),
            ]
        }),
{
    let up = crate::xspice::floored_delay(rise);
    let down = crate::xspice::floored_delay(fall);
    let name = "adac"@ + decimal(index as nat);
    let model = "mdac"@ + decimal(index as nat);
    lemma_decimal_unspaced(index as nat);
    reveal_strlit("adac");
    reveal_strlit("mdac");
    lemma_unspaced_add("adac"@, decimal(index as nat));
    lemma_unspaced_add("mdac"@, decimal(index as nat));
    lemma_bridge_line(name, digital, analog, model);
    reveal_strlit(" ");
    reveal_strlit(" dac_bridge(out_low=");
    reveal_strlit("dac_bridge(out_low=");
    reveal_strlit(" out_high=");
    reveal_strlit("out_high=");
    reveal_strlit(" out_undef=");
    reveal_strlit("out_undef=");
    reveal_strlit(" input_load=");
    reveal_strlit("input_load=");
    reveal_strlit(" t_rise=");
    reveal_strlit("t_rise=");
    reveal_strlit(" t_fall=");
    reveal_strlit("t_fall=");
    assert(" dac_bridge(out_low="@ =~= " "@ + "dac_bridge(out_low="@);
    assert(" out_high="@ =~= " "@ + "out_high="@);
    assert(" out_undef="@ =~= " "@ + "out_undef="@);
    assert(" input_load="@ =~= " "@ + "input_load="@);
    assert(" t_rise="@ =~= " "@ + "t_rise="@);
    assert(" t_fall="@ =~= " "@ + "t_fall="@);
    let head = ".model "@ + model + " dac_bridge(out_low="@;
    assert(head =~= ".model "@ + model + " "@ + "dac_bridge(out_low="@);
    lemma_model_head(model, "dac_bridge(out_low="@, low);
    let m1 = letters(head) + figure(low);
    lemma_term_more(m1, "out_high="@, " out_high="@, high);
    let m2 = m1 + letters(" out_high="@) + figure(high);
    lemma_term_more(m2, "out_undef="@, " out_undef="@, unknown);
    let m3 = m2 + letters(" out_undef="@) + figure(unknown);
    lemma_term_more(m3, "input_load="@, " input_load="@, load);
    let m4 = m3 + letters(" input_load="@) + figure(load);
    lemma_term_more(m4, "t_rise="@, " t_rise="@, up);
    let m5 = m4 + letters(" t_rise="@) + figure(up);
    lemma_model_tail(m5, "t_fall="@, " t_fall="@, down);
    let m6 = m5 + letters(" t_fall="@) + figure(down) + letters(")"@);
    let six = seq![
        letters(".model"@),
        letters(model),
        term("dac_bridge(out_low="@, low),
        term("out_high="@, high),
        term("out_undef="@, unknown),
        term("input_load="@, load),
    ];
    assert(fields(m4) =~= six);
    assert(fields(m6) =~= six.push(term("t_rise="@, up)).push(
        term("t_fall="@, down) + letters(")"@),
    ));
    assert(six.push(term("t_rise="@, up)).push(term("t_fall="@, down) + letters(")"@)) =~= seq![
        letters(".model"@),
        letters(model),
        term("dac_bridge(out_low="@, low),
        term("out_high="@, high),
        term("out_undef="@, unknown),
        term("input_load="@, load),
        term("t_rise="@, up),
        term("t_fall="@, down) + letters(")"@),
    ]);
}

/// The numbers of an analog-to-digital bridge, as its component lists them.
pub open spec fn adc_numbers(component: Component, low: Real, high: Real, rise: Real, fall: Real) -> bool {
    &&& amounts(component, "low_threshold"@, Unit::Volt, low)
    &&& amounts(component, "high_threshold"@, Unit::Volt, high)
    &&& low.less(high)
    &&& floored_time(component, "rise_delay"@, rise)
    &&& floored_time(component, "fall_delay"@, fall)
}

/// Where an analog-to-digital bridge is compiled, the figure behind `in_low=` is the
/// component's low threshold and the one behind `in_high=` its high one, the first
/// strictly below the second; its input is the analog and its output the digital pin.
pub proof fn adc_bridges_read_by_their_thresholds(
    before: Assembly,
    component: Component,
    index: int,
    stop: Real,
    mesh: Mesh,
    layout: Layout,
    models: Registry,
    after: Assembly,
)
    requires
        tidy_mesh(mesh),
        component.kind@ == "adc_bridge"@,
        component_added(before, component, index, stop, mesh, layout, models) == Ok::<
            Assembly,
            Fault,
        >(after),
    ensures
        exists|line: Seq<Sign>, model: Seq<Sign>, low: Real, high: Real, rise: Real, fall: Real|
            #![trigger adds_bridge(before, after, line, model), adc_numbers(component, low, high, rise, fall)]
            {
                &&& adds_bridge(before, after, line, model)
                &&& adc_numbers(component, low, high, rise, fall)
                &&& fields(line).len() == 4
                &&& is_bracketed(mesh, component, "analog_in"@, fields(line)[1])
                &&& is_bracketed(mesh, component, "digital_out"@, fields(line)[2])
                &&& fields(model) == seq![
                    letters(".model"@),
                    fields(line)[3],
                    letters("adc_bridge(in_low="@) + figure(low),
                    letters("in_high="@) + figure(high),
                    letters("rise_delay="@) + figure(rise),
                    letters("fall_delay="@) + figure(fall) + letters(")"@),
                ]
            },
{
    lemma_bridge_kind(component, index, stop, mesh);
    let part = adc_part(component, index, mesh)->Ok_0;
    let (low, high, rise, fall) = lemma_adc(component, index, mesh, part);
    assert(adds_bridge(before, after, part.line, part.model));
    assert(adc_numbers(component, low, high, rise, fall));
}

proof fn lemma_adc(component: Component, index: int, mesh: Mesh, part: BridgePart) -> (r: (
    Real,
    Real,
    Real,
    Real,
))
    requires
        tidy_mesh(mesh),
        adc_part(component, index, mesh) == Ok::<BridgePart, Fault>(part),
    ensures
        ({
            let (low, high, rise, fall) = r;
            &&& adc_numbers(component, low, high, rise, fall)
            &&& fields(part.line).len() == 4
            &&& is_bracketed(mesh, component, "analog_in"@, fields(part.line)[1])
            &&& is_bracketed(mesh, component, "digital_out"@, fields(part.line)[2])
            &&& fields(part.model) == seq![
                letters(".model"@),
                fields(part.line)[3],
                term("adc_bridge(in_low="@, low),
                term("in_high="@, high),
                term("rise_delay="@, rise),
                term("fall_delay="@, fall) + letters(")"@),
            ]
        }),
{
    let zero = Real { bits: 0 };
    let (analog, digital) = crate::mixed::bridge_nodes(
        component,
        mesh,
        "analog_in"@,
        crate::circuit::SignalDomain::Analog,
        "digital_out"@,
        crate::circuit::SignalDomain::Digital,
    )->Ok_0;
    let (low, high) = bridge_levels(component, "low_threshold"@, "high_threshold"@)->Ok_0;
    let rise = quantity_or(component, "rise_delay"@, Unit::Second, zero)->Ok_0;
    let fall = quantity_or(component, "fall_delay"@, Unit::Second, zero)->Ok_0;
    let up = crate::xspice::floored_delay(rise);
    let down = crate::xspice::floored_delay(fall);
    amounts_are_listed(mixed_code(), component, "low_threshold"@, Unit::Volt, low);
    amounts_are_listed(mixed_code(), component, "high_threshold"@, Unit::Volt, high);
    lemma_floored(component, "rise_delay"@, rise);
    lemma_floored(component, "fall_delay"@, fall);
    lemma_tidy_pin(mesh, component, "analog_in"@);
    lemma_tidy_pin(mesh, component, "digital_out"@);
    let name = "aadc"@ + decimal(index as nat);
    let model = "madc"@ + decimal(index as nat);
    lemma_decimal_unspaced(index as nat);
    reveal_strlit("aadc");
    reveal_strlit("madc");
    lemma_unspaced_add("aadc"@, decimal(index as nat));
    lemma_unspaced_add("madc"@, decimal(index as nat));
    lemma_bridge_line(name, analog, digital, model);
    lemma_adc_model(model, low, high, up, down);
    assert(fields(part.line)[1] == letters("["@) + letters(analog) + letters("]"@));
    assert(fields(part.line)[2] == letters("["@) + letters(digital) + letters("]"@));
    (low, high, up, down)
}

proof fn lemma_adc_model(model: Seq<char>, low: Real, high: Real, up: Real, down: Real)
    requires
        unspaced(model),
    ensures
        fields(
            letters(".model "@ + model + " adc_bridge(in_low="@) + figure(low) + letters(
                " in_high="@,
            ) + figure(high) + letters(" rise_delay="@) + figure(up) + letters(" fall_delay="@)
                + figure(down) + letters(")"@),
        ) == seq![
            letters(".model"@),
            letters(model),
            term("adc_bridge(in_low="@, low),
            term("in_high="@, high),
            term("rise_delay="@, up),
            term("fall_delay="@, down) + letters(")"@),
        ],
{
    reveal_strlit(" ");
    reveal_strlit(" adc_bridge(in_low=");
    reveal_strlit("adc_bridge(in_low=");
    reveal_strlit(" in_high=");
    reveal_strlit("in_high=");
    reveal_strlit(" rise_delay=");
    reveal_strlit("rise_delay=");
    reveal_strlit(" fall_delay=");
    reveal_strlit("fall_delay=");
    assert(" adc_bridge(in_low="@ =~= " "@ + "adc_bridge(in_low="@);
    assert(" in_high="@ =~= " "@ + "in_high="@);
    assert(" rise_delay="@ =~= " "@ + "rise_delay="@);
    assert(" fall_delay="@ =~= " "@ + "fall_delay="@);
    let head = ".model "@ + model + " adc_bridge(in_low="@;
    assert(head =~= ".model "@ + model + " "@ + "adc_bridge(in_low="@);
    lemma_model_head(model, "adc_bridge(in_low="@, low);
    let m1 = letters(head) + figure(low);
    lemma_term_more(m1, "in_high="@, " in_high="@, high);
    let m2 = m1 + letters(" in_high="@) + figure(high);
    lemma_term_more(m2, "rise_delay="@, " rise_delay="@, up);
    let m3 = m2 + letters(" rise_delay="@) + figure(up);
    lemma_model_tail(m3, "fall_delay="@, " fall_delay="@, down);
    let m4 = m3 + letters(" fall_delay="@) + figure(down) + letters(")"@);
    assert(fields(m4) =~= seq![
        letters(".model"@),
        letters(model),
        term("adc_bridge(in_low="@, low),
        term("in_high="@, high),
        term("rise_delay="@, up),
        term("fall_delay="@, down) + letters(")"@),
    ]);
}

/// A delay that a component lists, or zero, but no shorter than a picosecond.
pub open spec fn floored_wait(component: Component, x: Real) -> bool {
    exists|asked: Real|
        (omits(component, "delay"@) && asked == Real { bits: 0 } || amounts(
            component,
            "delay"@,
            Unit::Second,
            asked,
        ) || exists|n: i64| #[trigger]
            crate::lookup::lists(
                component,
                "delay"@,
                crate::circuit::ParameterValue::Integer(n),
            ) && asked == Real::of_int(n as int)) && 0 <= #[trigger] asked.key() && x
            == if asked.key() < one_in(1_000_000_000_000).key() {
            one_in(1_000_000_000_000)
        } else {
            asked
        }
}

proof fn lemma_wait(component: Component)
    requires
        asked_delay(component) is Ok,
    ensures
        floored_wait(component, crate::xspice::floored_delay(asked_delay(component)->Ok_0)),
{
    fixed_numbers_are_roundings();
    let asked = asked_delay(component)->Ok_0;
    times_are_listed(xspice_code(), component, "delay"@, asked);
    assert(0 <= asked.key());
}

/// A code model of which the table is that of a kind of gate.
pub open spec fn computes(code: Seq<char>, kind: Seq<char>) -> bool {
    forall|x: int, y: int|
        is_bit(x) && is_bit(y) ==> #[trigger] model_truth(code, x, y) == truth(kind, x, y)
}

/// The fields for the inputs of a gate: the node of its one input, or the nodes of its
/// two inputs in brackets.
pub open spec fn gate_inputs(mesh: Mesh, component: Component, terms: Seq<Seq<Sign>>) -> bool {
    if unary(component.kind@) {
        terms.len() == 1 && is_joined(mesh, component, "in"@, terms[0])
    } else {
        terms.len() == 2 && exists|a: Seq<char>, b: Seq<char>|
            #![trigger letters(a), letters(b)]
            joined_node(mesh, component, "a"@) == Ok::<Seq<char>, Fault>(a) && joined_node(
                mesh,
                component,
                "b"@,
            ) == Ok::<Seq<char>, Fault>(b) && terms[0] == letters("["@) + letters(a) && terms[1]
                == letters(b) + letters("]"@)
    }
}

/// The names of the code models all differ.
proof fn lemma_code_words()
    ensures
        mark("d_buffer"@.skip(2)) == 107115878,
        mark("d_inverter"@.skip(2)) == 141127286,
        mark("d_and"@.skip(2)) == 56716900,
        mark("d_nand"@.skip(2)) == 74342766,
        mark("d_or"@.skip(2)) == 40858112,
        mark("d_nor"@.skip(2)) == 57569138,
        mark("d_xor"@.skip(2)) == 58224498,
        mark("d_xnor"@.skip(2)) == 75001455,
        mark("d_dff"@.skip(2)) == 56911462,
        mark("d_jkff"@.skip(2)) == 74083174,
        mark("d_srff"@.skip(2)) == 74674790,
        mark("d_dlatch"@.skip(2)) == 107244641,
        mark("d_tristate"@.skip(2)) == 141849193,
{
    reveal_strlit("d_buffer");
    reveal_strlit("d_inverter");
    reveal_strlit("d_and");
    reveal_strlit("d_nand");
    reveal_strlit("d_or");
    reveal_strlit("d_nor");
    reveal_strlit("d_xor");
    reveal_strlit("d_xnor");
    reveal_strlit("d_dff");
    reveal_strlit("d_jkff");
    reveal_strlit("d_srff");
    reveal_strlit("d_dlatch");
    reveal_strlit("d_tristate");
}

proof fn lemma_computes(kind: Seq<char>, pins: Seq<Seq<char>>, code: Seq<char>)
    requires
        gate_terms(kind) == Some((pins, code)),
    ensures
        computes(code, kind),
        truth(kind, 0, 0) is Some,
        unspaced(code),
        pins == if unary(kind) {
            seq!["in"@]
        } else {
            seq!["a"@, "b"@]
        },
{
    lemma_mixed_words();
    lemma_code_words();
    reveal_strlit("d_buffer");
    reveal_strlit("d_inverter");
    reveal_strlit("d_and");
    reveal_strlit("d_nand");
    reveal_strlit("d_or");
    reveal_strlit("d_nor");
    reveal_strlit("d_xor");
    reveal_strlit("d_xnor");
}

proof fn lemma_inputs(mesh: Mesh, component: Component, pins: Seq<Seq<char>>, nodes: Seq<Seq<char>>)
    requires
        tidy_mesh(mesh),
        input_nodes(mesh, component, pins) == Ok::<Seq<Seq<char>>, Fault>(nodes),
    ensures
        nodes.len() == pins.len(),
        forall|i: int|
            0 <= i < nodes.len() ==> unspaced(#[trigger] nodes[i]) && joined_node(
                mesh,
                component,
                pins[i],
            ) == Ok::<Seq<char>, Fault>(nodes[i]),
{
    let f = |i: int| digital_node(mesh, component, pins[i], PinDirection::Input);
    lemma_collected_at(pins.len() as int, f);
    assert forall|i: int| 0 <= i < nodes.len() implies unspaced(#[trigger] nodes[i]) && joined_node(
        mesh,
        component,
        pins[i],
    ) == Ok::<Seq<char>, Fault>(nodes[i]) by {
        assert(f(i) == Ok::<Seq<char>, Fault>(collected(pins.len() as int, f)->Ok_0[i]));
        lemma_tidy_pin(mesh, component, pins[i]);
    }
}

/// The fields of the inputs of a gate in its line.
proof fn lemma_input_expression(nodes: Seq<Seq<char>>)
    requires
        nodes.len() == 1 || nodes.len() == 2,
        forall|i: int| 0 <= i < nodes.len() ==> unspaced(#[trigger] nodes[i]),
    ensures
        fields(letters(crate::xspice::input_expression(nodes))) == if nodes.len() == 1 {
            seq![letters(nodes[0])]
        } else {
            seq![letters("["@) + letters(nodes[0]), letters(nodes[1]) + letters("]"@)]
        },
{
    assert(unspaced(nodes[0]));
    lemma_solid_letters(nodes[0]);
    if nodes.len() == 1 {
        lemma_fields_of_word(letters(nodes[0]));
    } else {
        assert(unspaced(nodes[1]));
        reveal_strlit("[");
        reveal_strlit("]");
        let list = nodes[0] + " "@ + nodes[1];
        assert(crate::lines::joined(nodes, " "@, 1) == nodes[0]);
        assert(join_of(nodes, " "@) == list);
        lemma_letters_add(nodes[0], " "@);
        lemma_letters_add(nodes[0] + " "@, nodes[1]);
        lemma_letters_add("["@, list);
        lemma_letters_add("["@ + list, "]"@);
        lemma_solid_letters(nodes[1]);
        lemma_solid_letters("["@);
        lemma_solid_letters("]"@);
        let a = letters("["@) + letters(nodes[0]);
        let b = letters(nodes[1]) + letters("]"@);
        lemma_solid_add(letters("["@), letters(nodes[0]));
        lemma_solid_add(letters(nodes[1]), letters("]"@));
        lemma_fields_of_word(a);
        lemma_fields_of_word(b);
        lemma_fields_after_blank(a, b);
        assert(letters("["@ + list + "]"@) =~= a + letters(" "@) + b);
        assert(seq![a] + seq![b] =~= seq![a, b]);
    }
}

/// What is added for a gate: one line and one model.
pub open spec fn adds_device(addition: Addition, line: Seq<Sign>, model: Seq<Sign>) -> bool {
    &&& addition.instances == seq![line]
    &&& addition.models == seq![model]
    &&& addition.sources.len() == 0
}

/// The line of a gate names its inputs and its output, and its model is the code
/// model that has the table of this kind of gate; both its edges are delayed as the
/// component asks.
pub proof fn gate_models_compute_their_kind(
    component: Component,
    index: int,
    stop: Real,
    mesh: Mesh,
    mixed: bool,
    addition: Addition,
)
    requires
        tidy_mesh(mesh),
        truth(component.kind@, 0, 0) is Some,
        digital_addition(component, index, stop, mesh, mixed) == Some(
            Ok::<Addition, Fault>(addition),
        ),
    ensures
        exists|line: Seq<Sign>, model: Seq<Sign>, code: Seq<char>, delay: Real|
            #![trigger adds_device(addition, line, model), computes(code, component.kind@), floored_wait(component, delay)]
            {
                let count = fields(line).len() as int;
                &&& adds_device(addition, line, model)
                &&& computes(code, component.kind@)
                &&& floored_wait(component, delay)
                &&& count >= 4
                &&& gate_inputs(mesh, component, fields(line).subrange(1, count - 2))
                &&& is_joined(mesh, component, "out"@, fields(line)[count - 2])
                &&& fields(model) == seq![
                    letters(".model"@),
                    fields(line)[count - 1],
                    letters(code + "(rise_delay="@) + figure(delay),
                    letters("fall_delay="@) + figure(delay) + letters(")"@),
                ]
            },
{
    lemma_mixed_words();
    let (pins, code) = gate_terms(component.kind@)->0;
    lemma_computes(component.kind@, pins, code);
    let tag = if mixed {
        "m"@
    } else {
        ""@
    };
    reveal_strlit("m");
    reveal_strlit("");
    let inputs = input_nodes(mesh, component, pins)->Ok_0;
    let output = digital_node(mesh, component, "out"@, PinDirection::Output)->Ok_0;
    let delay = crate::xspice::floored_delay(asked_delay(component)->Ok_0);
    lemma_wait(component);
    lemma_inputs(mesh, component, pins, inputs);
    lemma_tidy_pin(mesh, component, "out"@);
    let expression = crate::xspice::input_expression(inputs);
    lemma_input_expression(inputs);
    let first = "a"@ + tag + "g"@ + decimal(index as nat);
    let name = "x"@ + tag + "g"@ + decimal(index as nat);
    let line = letters(first + " "@ + expression + " "@ + output + " "@ + name);
    lemma_label("a"@, tag, "g"@, index);
    lemma_label("x"@, tag, "g"@, index);
    lemma_device_line(first, expression, output, name);
    let inner = fields(letters(expression));
    let count = fields(line).len() as int;
    assert(fields(line).subrange(1, count - 2) =~= inner);
    assert(fields(line)[count - 2] == letters(output));
    assert(fields(line)[count - 1] == letters(name));
    if !unary(component.kind@) {
        assert(pins[0] == "a"@ && pins[1] == "b"@);
        assert(inner[0] == letters("["@) + letters(inputs[0]));
        assert(inner[1] == letters(inputs[1]) + letters("]"@));
    } else {
        assert(pins[0] == "in"@);
        assert(inner[0] == letters(inputs[0]));
    }
    assert(gate_inputs(mesh, component, inner));
    lemma_gate_model(name, code, delay);
    let model = letters(".model "@ + name + " "@ + code + "(rise_delay="@) + figure(delay) + letters(
        " fall_delay="@,
    ) + figure(delay) + letters(")"@);
    assert(adds_device(addition, line, model));
    assert(floored_wait(component, delay));
}

proof fn lemma_label(first: Seq<char>, tag: Seq<char>, second: Seq<char>, index: int)
    requires
        first == "a"@ || first == "x"@,
        unspaced(tag),
        second == "g"@ || second == "t"@,
    ensures
        unspaced(first + tag + second + decimal(index as nat)),
{
    reveal_strlit("a");
    reveal_strlit("x");
    reveal_strlit("g");
    reveal_strlit("t");
    lemma_decimal_unspaced(index as nat);
    lemma_unspaced_add(first, tag);
    lemma_unspaced_add(first + tag, second);
    lemma_unspaced_add(first + tag + second, decimal(index as nat));
}

proof fn lemma_device_line(
    first: Seq<char>,
    expression: Seq<char>,
    output: Seq<char>,
    name: Seq<char>,
)
    requires
        unspaced(first),
        unspaced(output),
        unspaced(name),
    ensures
        fields(letters(first + " "@ + expression + " "@ + output + " "@ + name)) == seq![
            letters(first),
        ] + fields(letters(expression)) + seq![letters(output), letters(name)],
{
    lemma_letters_add(first, " "@);
    lemma_letters_add(first + " "@, expression);
    lemma_letters_add(first + " "@ + expression, " "@);
    lemma_letters_add(first + " "@ + expression + " "@, output);
    lemma_letters_add(first + " "@ + expression + " "@ + output, " "@);
    lemma_letters_add(first + " "@ + expression + " "@ + output + " "@, name);
    lemma_solid_letters(first);
    lemma_solid_letters(output);
    lemma_solid_letters(name);
    lemma_fields_of_word(letters(first));
    lemma_fields_after_blank(letters(first), letters(expression));
    lemma_word_more(letters(first + " "@ + expression), letters(output));
    lemma_word_more(letters(first + " "@ + expression + " "@ + output), letters(name));
    assert((seq![letters(first)] + fields(letters(expression))).push(letters(output)).push(
        letters(name),
    ) =~= seq![letters(first)] + fields(letters(expression)) + seq![letters(output), letters(name)]);
}

proof fn lemma_gate_model(name: Seq<char>, code: Seq<char>, delay: Real)
    requires
        unspaced(name),
        unspaced(code),
    ensures
        fields(
            letters(".model "@ + name + " "@ + code + "(rise_delay="@) + figure(delay) + letters(
                " fall_delay="@,
            ) + figure(delay) + letters(")"@),
        ) == seq![
            letters(".model"@),
            letters(name),
            term(code + "(rise_delay="@, delay),
            term("fall_delay="@, delay) + letters(")"@),
        ],
{
    reveal_strlit(" ");
    reveal_strlit("(rise_delay=");
    reveal_strlit(" fall_delay=");
    reveal_strlit("fall_delay=");
    assert(" fall_delay="@ =~= " "@ + "fall_delay="@);
    let key = code + "(rise_delay="@;
    lemma_unspaced_add(code, "(rise_delay="@);
    assert(".model "@ + name + " "@ + code + "(rise_delay="@ =~= ".model "@ + name + " "@ + key);
    lemma_model_head(name, key, delay);
    let m1 = letters(".model "@ + name + " "@ + code + "(rise_delay="@) + figure(delay);
    lemma_model_tail(m1, "fall_delay="@, " fall_delay="@, delay);
    assert(fields(m1).push(term("fall_delay="@, delay) + letters(")"@)) =~= seq![
        letters(".model"@),
        letters(name),
        term(key, delay),
        term("fall_delay="@, delay) + letters(")"@),
    ]);
}

/// On known levels the engine of this library drives the output of a gate to what the
/// code model computes that is named for it in an event netlist.
pub proof fn gate_models_agree_with_the_engine(
    component: Component,
    index: int,
    stop: Real,
    mesh: Mesh,
    mixed: bool,
    addition: Addition,
    wiring: Seq<Net>,
    part: Part,
    nets: Seq<LogicValue>,
    held: Held,
    x: int,
    y: int,
)
    requires
        tidy_mesh(mesh),
        truth(component.kind@, 0, 0) is Some,
        digital_addition(component, index, stop, mesh, mixed) == Some(
            Ok::<Addition, Fault>(addition),
        ),
        part_of(component, wiring) == Ok::<Part, Fault>(part),
        is_bit(x),
        is_bit(y),
        unary(component.kind@) ==> reads(part, "in"@, nets, level_of_bit(x)),
        !unary(component.kind@) ==> reads(part, "a"@, nets, level_of_bit(x)) && reads(
            part,
            "b"@,
            nets,
            level_of_bit(y),
        ),
    ensures
        exists|line: Seq<Sign>, model: Seq<Sign>, code: Seq<char>, levels: Seq<LogicValue>, delay: Real|
            #![trigger adds_device(addition, line, model), model_truth(code, x, y), acts(part, nets, held, levels, held), figure(delay)]
            adds_device(addition, line, model) && fields(model)[2] == letters(
                code + "(rise_delay="@,
            ) + figure(delay) && model_truth(code, x, y) is Some && acts(
                part,
                nets,
                held,
                levels,
                held,
            ) && drives(part, levels, "out"@, level_of_bit(model_truth(code, x, y)->0)),
{
    gate_models_compute_their_kind(component, index, stop, mesh, mixed, addition);
    let (line, model, code, delay) = choose|
        line: Seq<Sign>,
        model: Seq<Sign>,
        code: Seq<char>,
        delay: Real,
    |
        #![trigger adds_device(addition, line, model), computes(code, component.kind@), floored_wait(component, delay)]
        {
            &&& adds_device(addition, line, model)
            &&& computes(code, component.kind@)
            &&& floored_wait(component, delay)
            &&& fields(model) == seq![
                letters(".model"@),
                fields(line)[fields(line).len() - 1],
                letters(code + "(rise_delay="@) + figure(delay),
                letters("fall_delay="@) + figure(delay) + letters(")"@),
            ]
        };
    lemma_mixed_words();
    gates_compute_their_table(
        component,
        wiring,
        part,
        nets,
        held,
        level_of_bit(x),
        level_of_bit(y),
        x,
        y,
    );
    let levels = choose|levels: Seq<LogicValue>| #[trigger]
        acts(part, nets, held, levels, held) && levels.len() == 1 && drives(
            part,
            levels,
            "out"@,
            levels[0],
        ) && levels[0] == level_of_bit(truth(component.kind@, x, y)->0);
    assert(model_truth(code, x, y) == truth(component.kind@, x, y));
    assert(fields(model)[2] == letters(code + "(rise_delay="@) + figure(delay));
    assert(acts(part, nets, held, levels, held));
}

/// The line of a tri-state buffer names its input, its enabling input and its output
/// in this order, and its model is the tri-state buffer with the delay that the
/// component asks for.
pub proof fn tri_state_lines_name_input_enable_output(
    component: Component,
    index: int,
    stop: Real,
    mesh: Mesh,
    mixed: bool,
    addition: Addition,
)
    requires
        tidy_mesh(mesh),
        component.kind@ == "tri_state_buffer"@,
        digital_addition(component, index, stop, mesh, mixed) == Some(
            Ok::<Addition, Fault>(addition),
        ),
    ensures
        exists|line: Seq<Sign>, model: Seq<Sign>, delay: Real|
            #![trigger adds_device(addition, line, model), floored_wait(component, delay)]
            {
                &&& adds_device(addition, line, model)
                &&& floored_wait(component, delay)
                &&& fields(line).len() == 5
                &&& is_joined(mesh, component, "in"@, fields(line)[1])
                &&& is_joined(mesh, component, "enable"@, fields(line)[2])
                &&& is_joined(mesh, component, "out"@, fields(line)[3])
                &&& fields(model) == seq![
                    letters(".model"@),
                    fields(line)[4],
                    letters("d_tristate(delay="@) + figure(delay) + letters(")"@),
                ]
            },
{
    lemma_mixed_words();
    assert(gate_terms(component.kind@) is None);
    let tag = if mixed {
        "m"@
    } else {
        ""@
    };
    reveal_strlit("m");
    reveal_strlit("");
    let input = joined_node(mesh, component, "in"@)->Ok_0;
    let enable = joined_node(mesh, component, "enable"@)->Ok_0;
    let output = joined_node(mesh, component, "out"@)->Ok_0;
    lemma_tidy_pin(mesh, component, "in"@);
    lemma_tidy_pin(mesh, component, "enable"@);
    lemma_tidy_pin(mesh, component, "out"@);
    let delay = crate::xspice::floored_delay(asked_delay(component)->Ok_0);
    lemma_wait(component);
    let first = "a"@ + tag + "t"@ + decimal(index as nat);
    let name = "x"@ + tag + "t"@ + decimal(index as nat);
    lemma_label("a"@, tag, "t"@, index);
    lemma_label("x"@, tag, "t"@, index);
    let pair = input + " "@ + enable;
    lemma_letters_add(input, " "@);
    lemma_letters_add(input + " "@, enable);
    lemma_solid_letters(input);
    lemma_solid_letters(enable);
    lemma_fields_of_word(letters(input));
    lemma_word_more(letters(input), letters(enable));
    lemma_device_line(first, pair, output, name);
    let text = first + " "@ + input + " "@ + enable + " "@ + output + " "@ + name;
    assert(text =~= first + " "@ + pair + " "@ + output + " "@ + name);
    let line = letters(text);
    assert(fields(line) =~= seq![
        letters(first),
        letters(input),
        letters(enable),
        letters(output),
        letters(name),
    ]);
    let model = letters(".model "@ + name + " d_tristate(delay="@) + figure(delay) + letters(")"@);
    lemma_tri_state_model(name, delay);
    assert(adds_device(addition, line, model));
    assert(floored_wait(component, delay));
}

proof fn lemma_tri_state_model(name: Seq<char>, delay: Real)
    requires
        unspaced(name),
    ensures
        fields(
            letters(".model "@ + name + " d_tristate(delay="@) + figure(delay) + letters(")"@),
        ) == seq![
            letters(".model"@),
            letters(name),
            letters("d_tristate(delay="@) + figure(delay) + letters(")"@),
        ],
{
    reveal_strlit(" ");
    reveal_strlit(" d_tristate(delay=");
    reveal_strlit("d_tristate(delay=");
    reveal_strlit(".model");
    reveal_strlit(".model ");
    assert(" d_tristate(delay="@ =~= " "@ + "d_tristate(delay="@);
    assert(".model "@ =~= ".model"@ + " "@);
    lemma_letters_add(".model"@, " "@);
    lemma_letters_add(".model "@, name);
    lemma_letters_add(".model "@ + name, " d_tristate(delay="@);
    lemma_solid_letters(".model"@);
    lemma_solid_letters(name);
    lemma_fields_of_word(letters(".model"@));
    lemma_word_more(letters(".model"@), letters(name));
    let line = letters(".model"@) + letters(" "@) + letters(name);
    lemma_model_tail(line, "d_tristate(delay="@, " d_tristate(delay="@, delay);
    assert(letters(".model "@ + name) =~= line);
    assert(fields(line).push(term("d_tristate(delay="@, delay) + letters(")"@)) =~= seq![
        letters(".model"@),
        letters(name),
        letters("d_tristate(delay="@) + figure(delay) + letters(")"@),
    ]);
}

/// The fields for the inputs of an element that holds a level, in the order in which
/// its code model takes them, and that model.
pub open spec fn leads(
    mesh: Mesh,
    component: Component,
    terms: Seq<Seq<Sign>>,
    code: Seq<char>,
) -> bool {
    let kind = component.kind@;
    ||| kind == "d_flip_flop"@ && code == "d_dff"@ && terms.len() == 2 && is_joined(
        mesh,
        component,
        "d"@,
        terms[0],
    ) && is_joined(mesh, component, "clk"@, terms[1])
    ||| kind == "jk_flip_flop"@ && code == "d_jkff"@ && terms.len() == 3 && is_joined(
        mesh,
        component,
        "j"@,
        terms[0],
    ) && is_joined(mesh, component, "k"@, terms[1]) && is_joined(mesh, component, "clk"@, terms[2])
    ||| kind == "t_flip_flop"@ && code == "d_jkff"@ && terms.len() == 3 && is_joined(
        mesh,
        component,
        "t"@,
        terms[0],
    ) && is_joined(mesh, component, "t"@, terms[1]) && is_joined(mesh, component, "clk"@, terms[2])
    ||| kind == "sr_flip_flop"@ && code == "d_srff"@ && terms.len() == 3 && is_joined(
        mesh,
        component,
        "s"@,
        terms[0],
    ) && is_joined(mesh, component, "r"@, terms[1]) && is_joined(mesh, component, "clk"@, terms[2])
    ||| kind == "d_latch"@ && code == "d_dlatch"@ && terms.len() == 2 && is_joined(
        mesh,
        component,
        "d"@,
        terms[0],
    ) && is_joined(mesh, component, "enable"@, terms[1])
}

/// A kind of element that holds a level, of those that the event simulator has.
pub open spec fn storing(kind: Seq<char>) -> bool {
    kind == "d_flip_flop"@ || kind == "jk_flip_flop"@ || kind == "t_flip_flop"@ || kind
        == "sr_flip_flop"@ || kind == "d_latch"@
}

/// The digit for the level with which an element starts.
pub open spec fn starts_with(component: Component, digit: Seq<char>) -> bool {
    match logic_of(xspice_code(), component, "initial"@) {
        Ok(Some(LogicValue::Zero)) => digit == seq!['0'],
        Ok(Some(LogicValue::One)) => digit == seq!['1'],
        Ok(_) => digit == seq!['2'],
        Err(_) => false,
    }
}

/// A line and a model of an element that holds a level: the line names its inputs,
/// set, reset, the output and the inverted output in this order.
pub open spec fn stores(
    mesh: Mesh,
    component: Component,
    line: Seq<Sign>,
    model: Seq<Sign>,
    code: Seq<char>,
    name: Seq<char>,
    delay: Real,
    digit: Seq<char>,
) -> bool {
    let count = fields(line).len() as int;
    &&& floored_wait(component, delay)
    &&& starts_with(component, digit)
    &&& count >= 8
    &&& leads(mesh, component, fields(line).subrange(1, count - 5), code)
    &&& is_joined(mesh, component, "set"@, fields(line)[count - 5])
    &&& is_joined(mesh, component, "reset"@, fields(line)[count - 4])
    &&& is_joined(mesh, component, "q"@, fields(line)[count - 3])
    &&& is_joined(mesh, component, "nq"@, fields(line)[count - 2])
    &&& fields(line)[count - 1] == letters(name)
    &&& fields(model) == stored_model(component.kind@, name, code, delay, digit)
}

/// The line of an element that holds a level names its pins in the order in which its
/// code model takes them, and its model starts with the level that the component asks
/// for.
pub proof fn storing_lines_name_their_pins(
    component: Component,
    index: int,
    stop: Real,
    mesh: Mesh,
    mixed: bool,
    addition: Addition,
)
    requires
        tidy_mesh(mesh),
        storing(component.kind@),
        digital_addition(component, index, stop, mesh, mixed) == Some(
            Ok::<Addition, Fault>(addition),
        ),
    ensures
        exists|line: Seq<Sign>, model: Seq<Sign>, code: Seq<char>, name: Seq<char>, delay: Real, digit: Seq<char>|
            adds_device(addition, line, model) && #[trigger] stores(
                mesh,
                component,
                line,
                model,
                code,
                name,
                delay,
                digit,
            ),
{
    lemma_mixed_words();
    lemma_code_words();
    assert(gate_terms(component.kind@) is None);
    let (pins, code) = sequential_terms(component.kind@)->0;
    let number = (if mixed {
        index + 10_000
    } else {
        index
    }) as nat;
    assert(sequential_addition(component, number, mesh, pins, code) == Ok::<Addition, Fault>(
        addition,
    ));
    lemma_storing(component, number, mesh, pins, code, addition);
}

/// The fields of the model of an element that holds a level.
pub open spec fn stored_model(
    kind: Seq<char>,
    name: Seq<char>,
    code: Seq<char>,
    delay: Real,
    digit: Seq<char>,
) -> Seq<Seq<Sign>> {
    let least = one_in(1_000_000_000_000);
    (if kind == "d_latch"@ {
        seq![
            letters(".model"@),
            letters(name),
            letters(code + "(data_delay="@) + figure(delay),
            letters("enable_delay="@) + figure(delay),
        ]
    } else {
        seq![
            letters(".model"@),
            letters(name),
            letters(code + "(clk_delay="@) + figure(delay),
        ]
    }) + seq![
        letters("set_delay="@) + figure(delay),
        letters("reset_delay="@) + figure(delay),
        letters("ic="@ + digit),
        letters("rise_delay="@) + figure(least),
        letters("fall_delay="@) + figure(least) + letters(")"@),
    ]
}

proof fn lemma_storing(
    component: Component,
    number: nat,
    mesh: Mesh,
    pins: Seq<Seq<char>>,
    code: Seq<char>,
    addition: Addition,
)
    requires
        tidy_mesh(mesh),
        storing(component.kind@),
        sequential_terms(component.kind@) == Some((pins, code)),
        sequential_addition(component, number, mesh, pins, code) == Ok::<Addition, Fault>(addition),
    ensures
        exists|line: Seq<Sign>, model: Seq<Sign>, code: Seq<char>, name: Seq<char>, delay: Real, digit: Seq<char>|
            adds_device(addition, line, model) && #[trigger] stores(
                mesh,
                component,
                line,
                model,
                code,
                name,
                delay,
                digit,
            ),
{
    let inputs = input_nodes(mesh, component, pins)->Ok_0;
    lemma_inputs(mesh, component, pins, inputs);
    let (q, set, reset, nq) = control_nodes(mesh, component)->Ok_0;
    lemma_tidy_pin(mesh, component, "q"@);
    lemma_tidy_pin(mesh, component, "set"@);
    lemma_tidy_pin(mesh, component, "reset"@);
    lemma_tidy_pin(mesh, component, "nq"@);
    let delay = crate::xspice::floored_delay(asked_delay(component)->Ok_0);
    lemma_wait(component);
    let list = leading_nodes(component.kind@, inputs);
    lemma_leads(mesh, component, pins, code, inputs);
    let first = "as"@ + decimal(number);
    let name = "xs"@ + decimal(number);
    reveal_strlit("as");
    reveal_strlit("xs");
    lemma_decimal_unspaced(number);
    lemma_unspaced_add("as"@, decimal(number));
    lemma_unspaced_add("xs"@, decimal(number));
    lemma_storing_line(first, list, set, reset, q, nq, name);
    let line = letters(
        first + " "@ + join_of(list, " "@) + " "@ + set + " "@ + reset + " "@ + q + " "@ + nq + " "@
            + name,
    );
    let count = fields(line).len() as int;
    assert(fields(line).subrange(1, count - 5) =~= spelled(list));
    let level = match logic_of(xspice_code(), component, "initial"@)->Ok_0 {
        Some(level) => level,
        None => LogicValue::X,
    };
    let digit = decimal(crate::xspice::initial_digit(level));
    assert(starts_with(component, digit)) by {
        assert(decimal(0) =~= seq!['0']);
        assert(decimal(1) =~= seq!['1']);
        assert(decimal(2) =~= seq!['2']);
    }
    lemma_decimal_unspaced(crate::xspice::initial_digit(level));
    lemma_storing_model(component.kind@, name, code, delay, level);
    let model = crate::xspice::sequential_model(component.kind@, name, code, delay, level);
    assert(adds_device(addition, line, model));
    assert(fields(line)[count - 5] == letters(set));
    assert(fields(line)[count - 4] == letters(reset));
    assert(fields(line)[count - 3] == letters(q));
    assert(fields(line)[count - 2] == letters(nq));
    assert(fields(line)[count - 1] == letters(name));
    assert(stores(mesh, component, line, model, code, name, delay, digit));
}

proof fn lemma_leads(
    mesh: Mesh,
    component: Component,
    pins: Seq<Seq<char>>,
    code: Seq<char>,
    inputs: Seq<Seq<char>>,
)
    requires
        tidy_mesh(mesh),
        storing(component.kind@),
        sequential_terms(component.kind@) == Some((pins, code)),
        input_nodes(mesh, component, pins) == Ok::<Seq<Seq<char>>, Fault>(inputs),
    ensures
        leads(mesh, component, spelled(leading_nodes(component.kind@, inputs)), code),
        unspaced(code),
        2 <= leading_nodes(component.kind@, inputs).len() <= 3,
        forall|i: int|
            0 <= i < leading_nodes(component.kind@, inputs).len() ==> unspaced(
                #[trigger] leading_nodes(component.kind@, inputs)[i],
            ),
{
    lemma_mixed_words();
    lemma_inputs(mesh, component, pins, inputs);
    reveal_strlit("d_dff");
    reveal_strlit("d_jkff");
    reveal_strlit("d_srff");
    reveal_strlit("d_dlatch");
    let list = leading_nodes(component.kind@, inputs);
    let terms = spelled(list);
    assert(unspaced(inputs[0]));
    assert(unspaced(inputs[1]));
    if pins.len() == 3 {
        assert(unspaced(inputs[2]));
        assert(terms[2] == letters(list[2]));
    }
    assert(terms[0] == letters(list[0]));
    assert(terms[1] == letters(list[1]));
    if component.kind@ == "t_flip_flop"@ {
        assert(terms[2] == letters(list[2]));
        assert(list[0] == inputs[0] && list[1] == inputs[0] && list[2] == inputs[1]);
    }
}

proof fn lemma_storing_line(
    first: Seq<char>,
    list: Seq<Seq<char>>,
    set: Seq<char>,
    reset: Seq<char>,
    q: Seq<char>,
    nq: Seq<char>,
    name: Seq<char>,
)
    requires
        unspaced(first),
        list.len() > 0,
        forall|i: int| 0 <= i < list.len() ==> unspaced(#[trigger] list[i]),
        unspaced(set),
        unspaced(reset),
        unspaced(q),
        unspaced(nq),
        unspaced(name),
    ensures
        fields(
            letters(
                first + " "@ + join_of(list, " "@) + " "@ + set + " "@ + reset + " "@ + q + " "@
                    + nq + " "@ + name,
            ),
        ) == seq![letters(first)] + spelled(list) + seq![
            letters(set),
            letters(reset),
            letters(q),
            letters(nq),
            letters(name),
        ],
{
    let middle = join_of(list, " "@);
    lemma_fields_of_join(list, list.len() as int);
    assert(list.take(list.len() as int) =~= list);
    lemma_device_line(first, middle, set, reset);
    let s2 = first + " "@ + middle + " "@ + set + " "@ + reset;
    lemma_letters_add(s2, " "@);
    lemma_letters_add(s2 + " "@, q);
    lemma_solid_letters(q);
    lemma_word_more(letters(s2), letters(q));
    let s3 = s2 + " "@ + q;
    lemma_letters_add(s3, " "@);
    lemma_letters_add(s3 + " "@, nq);
    lemma_solid_letters(nq);
    lemma_word_more(letters(s3), letters(nq));
    let s4 = s3 + " "@ + nq;
    lemma_letters_add(s4, " "@);
    lemma_letters_add(s4 + " "@, name);
    lemma_solid_letters(name);
    lemma_word_more(letters(s4), letters(name));
    assert(fields(letters(s4 + " "@ + name)) =~= seq![letters(first)] + spelled(list) + seq![
        letters(set),
        letters(reset),
        letters(q),
        letters(nq),
        letters(name),
    ]);
}

proof fn lemma_storing_model(
    kind: Seq<char>,
    name: Seq<char>,
    code: Seq<char>,
    delay: Real,
    level: LogicValue,
)
    requires
        unspaced(name),
        unspaced(code),
    ensures
        fields(crate::xspice::sequential_model(kind, name, code, delay, level)) == stored_model(
            kind,
            name,
            code,
            delay,
            decimal(crate::xspice::initial_digit(level)),
        ),
{
    fixed_numbers_are_roundings();
    let least = one_in(1_000_000_000_000);
    let digit = decimal(crate::xspice::initial_digit(level));
    lemma_decimal_unspaced(crate::xspice::initial_digit(level));
    reveal_strlit(" ");
    reveal_strlit("(clk_delay=");
    reveal_strlit("(data_delay=");
    reveal_strlit(" enable_delay=");
    reveal_strlit("enable_delay=");
    reveal_strlit(" set_delay=");
    reveal_strlit("set_delay=");
    reveal_strlit(" reset_delay=");
    reveal_strlit("reset_delay=");
    reveal_strlit(" ic=");
    reveal_strlit("ic=");
    reveal_strlit(" rise_delay=");
    reveal_strlit("rise_delay=");
    reveal_strlit(" fall_delay=");
    reveal_strlit("fall_delay=");
    assert(" enable_delay="@ =~= " "@ + "enable_delay="@);
    assert(" set_delay="@ =~= " "@ + "set_delay="@);
    assert(" reset_delay="@ =~= " "@ + "reset_delay="@);
    assert(" ic="@ =~= " "@ + "ic="@);
    assert(" rise_delay="@ =~= " "@ + "rise_delay="@);
    assert(" fall_delay="@ =~= " "@ + "fall_delay="@);
    let opening = if kind == "d_latch"@ {
        "(data_delay="@
    } else {
        "(clk_delay="@
    };
    let key = code + opening;
    lemma_unspaced_add(code, opening);
    assert(".model "@ + name + " "@ + code + opening =~= ".model "@ + name + " "@ + key);
    lemma_model_head(name, key, delay);
    let m0 = letters(".model "@ + name + " "@ + code + opening) + figure(delay);
    let m1 = if kind == "d_latch"@ {
        m0 + letters(" enable_delay="@) + figure(delay)
    } else {
        m0
    };
    lemma_term_more(m0, "enable_delay="@, " enable_delay="@, delay);
    lemma_term_more(m1, "set_delay="@, " set_delay="@, delay);
    let m2 = m1 + letters(" set_delay="@) + figure(delay);
    lemma_term_more(m2, "reset_delay="@, " reset_delay="@, delay);
    let m3 = m2 + letters(" reset_delay="@) + figure(delay);
    let ic = "ic="@ + digit;
    lemma_unspaced_add("ic="@, digit);
    lemma_solid_letters(ic);
    lemma_word_more(m3, letters(ic));
    let m4 = m3 + letters(" "@) + letters(ic);
    lemma_term_more(m4, "rise_delay="@, " rise_delay="@, least);
    let m5 = m4 + letters(" rise_delay="@) + figure(least);
    lemma_model_tail(m5, "fall_delay="@, " fall_delay="@, least);
    let m6 = m5 + letters(" fall_delay="@) + figure(least) + letters(")"@);
    let text = " ic="@ + digit + " rise_delay="@;
    lemma_letters_add(" "@, ic);
    assert(" ic="@ + digit =~= " "@ + ic);
    lemma_letters_add(" "@ + ic, " rise_delay="@);
    assert(m3 + letters(text) + figure(least) =~= m5);
    assert(crate::xspice::sequential_model(kind, name, code, delay, level) =~= m6);
    assert(fields(m6) =~= stored_model(kind, name, code, delay, digit));
}

/// Whatever one component adds is in what all components add.
pub proof fn netlists_hold_what_each_component_adds(
    components: Seq<Component>,
    stop: Real,
    mesh: Mesh,
    n: int,
    all: Addition,
    i: int,
    addition: Addition,
)
    requires
        0 <= i < n <= components.len(),
        circuit_addition(components, stop, mesh, n) == Ok::<Addition, Fault>(all),
        digital_addition(components[i], i, stop, mesh, false) == Some(
            Ok::<Addition, Fault>(addition),
        ),
    ensures
        forall|x: Seq<Sign>| #[trigger]
            addition.instances.contains(x) ==> all.instances.contains(x),
        forall|x: Seq<Sign>| #[trigger] addition.models.contains(x) ==> all.models.contains(x),
        forall|x: crate::stimulus::Feed| #[trigger]
            addition.sources.contains(x) ==> all.sources.contains(x),
        addition.floored ==> all.floored,
    decreases n,
{
    let before = circuit_addition(components, stop, mesh, n - 1)->Ok_0;
    let last = digital_addition(components[n - 1], n - 1, stop, mesh, false)->0->Ok_0;
    if i < n - 1 {
        netlists_hold_what_each_component_adds(
            components,
            stop,
            mesh,
            n - 1,
            before,
            i,
            addition,
        );
    }
    lemma_joined_holds(before.instances, last.instances);
    lemma_joined_holds(before.models, last.models);
    lemma_joined_holds(before.sources, last.sources);
}

proof fn lemma_joined_holds<T>(a: Seq<T>, b: Seq<T>)
    ensures
        forall|x: T| #[trigger] a.contains(x) ==> (a + b).contains(x),
        forall|x: T| #[trigger] b.contains(x) ==> (a + b).contains(x),
{
    assert forall|x: T| #[trigger] a.contains(x) implies (a + b).contains(x) by {
        let k = choose|k: int| 0 <= k < a.len() && a[k] == x;
        assert((a + b)[k] == x);
    }
    assert forall|x: T| #[trigger] b.contains(x) implies (a + b).contains(x) by {
        let k = choose|k: int| 0 <= k < b.len() && b[k] == x;
        assert((a + b)[a.len() + k] == x);
    }
}

/// A constant input feeds the node of its output with its level from the start on.
pub proof fn constant_inputs_feed_their_level(
    component: Component,
    index: int,
    stop: Real,
    mesh: Mesh,
    mixed: bool,
    addition: Addition,
)
    requires
        component.kind@ == "logic_input"@,
        digital_addition(component, index, stop, mesh, mixed) == Some(
            Ok::<Addition, Fault>(addition),
        ),
    ensures
        addition.sources.len() == 1,
        addition.instances.len() == 0,
        joined_node(mesh, component, "out"@) == Ok::<Seq<char>, Fault>(addition.sources[0].node),
        addition.sources[0].events.len() == 1,
        logic_of(xspice_code(), component, "value"@) == Ok::<Option<LogicValue>, Fault>(
            Some(addition.sources[0].events[0].1),
        ),
        addition.sources[0].events[0].0 == (Real { bits: 0 }),
{
}

/// The step of a digital transient is positive and no longer than the run, and the
/// fallback of a femtosecond is one part in ten to the power 15 of a second.
pub proof fn event_steps_fit_the_run(stop: Real)
    requires
        stop.finite(),
        0 < stop.key(),
    ensures
        crate::xspice::step_of(stop).at_most(stop),
        !crate::xspice::step_of(stop).less(one_in(1_000_000_000_000_000)) || crate::xspice::step_of(
            stop,
        ) == stop,
{
    fixed_numbers_are_roundings();
    let thousandth = stop.quotient(Real { bits: crate::xspice::THOUSAND_BITS });
    assert(!thousandth.nan()) by {
        assert(thousandth.bits <= crate::number::INFINITY);
    }
}

/// The netlist of an event request is made of lines: those that connect the sources,
/// the lines and the models that the components add, and behind them the run up to the
/// stop time and the command that writes the levels of the probed nodes.
pub proof fn event_netlists_hold_their_lines(
    request: SimulationRequest,
    compiled: EventNetlist,
    stop: Real,
)
    requires
        request.analysis == (Analysis::DigitalTransient { stop }),
        event_compiled(request) == Ok::<EventNetlist, Fault>(compiled),
    ensures
        0 < stop.key(),
        exists|all: Addition, front: Seq<Seq<Sign>>, back: Seq<Seq<Sign>>|
            #![trigger crate::draft::stack_of(front + all.instances + all.models + back)]
            {
                &&& circuit_addition(
                    request.circuit.components@,
                    stop,
                    event_mesh(request.circuit.nets@),
                    request.circuit.components@.len() as int,
                ) == Ok::<Addition, Fault>(all)
                &&& compiled.netlist == crate::draft::stack_of(
                    front + all.instances + all.models + back,
                )
                &&& compiled.floored == all.floored
                &&& crate::stimulus::stimulus_of(all.sources) == Ok::<Seq<Sign>, Fault>(
                    compiled.stimulus,
                )
                &&& back.len() == 11
                &&& back[5] == letters("tran "@) + figure(crate::xspice::step_of(stop)) + letters(
                    " "@,
                ) + figure(stop)
                &&& back[6] == letters(
                    "eprvcd -t 1e-15 "@ + join_of(
                        crate::xspice::probed_nodes(
                            compiled.probes,
                            compiled.probes.len() as int,
                        ),
                        " "@,
                    ) + " > result.vcd"@,
                )
            },
{
    let mesh = event_mesh(request.circuit.nets@);
    let all = circuit_addition(
        request.circuit.components@,
        stop,
        mesh,
        request.circuit.components@.len() as int,
    )->Ok_0;
    let front = seq![
        letters("* OntologyX Sim Core generated XSPICE digital netlist"@),
        letters("Vdummy dummy 0 DC=0"@),
    ] + crate::xspice::source_lines(all.sources);
    let back = crate::xspice::event_control_lines(
        stop,
        join_of(
            crate::xspice::probed_nodes(compiled.probes, compiled.probes.len() as int),
            " "@,
        ),
    );
    assert(compiled.netlist == crate::draft::stack_of(front + all.instances + all.models + back));
    assert(crate::stimulus::stimulus_of(all.sources) == Ok::<Seq<Sign>, Fault>(compiled.stimulus));
    assert(back[5] == letters("tran "@) + figure(crate::xspice::step_of(stop)) + letters(" "@)
        + figure(stop));
    assert(back.len() == 11);
}

/// The nodes whose levels are written stand in dictionary order, each once, and are
/// those of the probes.
pub proof fn probed_nodes_are_those_of_the_probes(
    probes: Seq<(Seq<char>, Seq<char>)>,
    n: int,
    node: Seq<char>,
)
    requires
        0 <= n <= probes.len(),
    ensures
        crate::xspice::probed_nodes(probes, n).contains(node) <==> exists|i: int|
            0 <= i < n && (#[trigger] probes[i]).1 == node,
        crate::digital::in_order(crate::xspice::probed_nodes(probes, n)),
    decreases n,
{
    if n > 0 {
        probed_nodes_are_those_of_the_probes(probes, n - 1, node);
        crate::digital::lemma_with_name_order(
            crate::xspice::probed_nodes(probes, n - 1),
            probes[n - 1].1,
        );
    }
}

} // verus!
