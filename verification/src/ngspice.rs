//! Analog netlists for ngspice.
use crate::analysis::{AcScale, Analysis};
use crate::circuit::{parameter_of, Circuit, Component, ParameterValue};
use crate::draft::{
    drafts, figure, letters, plain_lines, push_drafts, push_text, push_texts, stack, stack_of,
    Draft, Sign,
};
use crate::engine::{Probe, SimulationRequest};
use crate::fault::{
    agrees, collected, fail, fault, lemma_collected_stops, passes, EngineError, Fault,
};
use crate::lines::{
    join_of, join_texts, text_list1, text_list2, text_list3, text_list4, text_list5,
};
use crate::model::ModelKind;
use crate::nodes::{
    is_ground, layout_of, node_at, same_text, source_at, Layout, Topology,
};
use crate::number::Real;
use crate::reading::{
    about, component_error, component_fault, error_about, has_pin, pin_present, same,
};
use crate::spice_models::{
    compile_models, entries_of, registry_of, CompiledModel, CompiledModelRegistry, Entry, Registry,
};
use crate::text::{
    cat2, cat3, cat4, cat5, cat6, cat7, decimal, decimal_text, is_blank, lowercase, lowercase_text,
    text_eq, texts, trim, trim_text,
};
use crate::units::Unit;
use crate::waveform::AxisKind;
use crate::wiring::net_at;
use vstd::prelude::*;

verus! {

pub const NGSPICE_ENGINE_ID: &'static str = "ngspice";

/// A picosecond.
pub const PICOSECOND_BITS: u64 = 0x3d71_9799_812d_ea11;

/// The code of a component that cannot be compiled.
pub open spec fn unfit(component: Component, message: Seq<char>) -> Fault {
    component_fault("ngspice_component_invalid"@, component, message)
}

/// A component that cannot be compiled for a named part of it.
pub open spec fn unfit_for(
    component: Component,
    before: Seq<char>,
    name: Seq<char>,
    after: Seq<char>,
) -> Fault {
    about("ngspice_component_invalid"@, component, before, name, after)
}

fn unfit_error(component: &Component, message: &str) -> (r: EngineError)
    ensures
        r@ == unfit(*component, message@),
{
    component_error("ngspice_component_invalid", component, message)
}

fn unfit_for_error(component: &Component, before: &str, name: &str, after: &str) -> (r: EngineError)
    ensures
        r@ == unfit_for(*component, before@, name@, after@),
{
    error_about("ngspice_component_invalid", component, before, name, after)
}

/// The node of a pin that the component must have.
pub open spec fn pin_node(layout: Layout, component: Component, pin: Seq<char>) -> Result<
    Seq<char>,
    Fault,
> {
    if !has_pin(component, pin) {
        Err(unfit_for(component, "required pin `"@, pin, "` is missing"@))
    } else {
        layout.node(component, pin)
    }
}

pub fn named_node(component: &Component, topology: &Topology, pin: &str) -> (r: Result<
    String,
    EngineError,
>)
    ensures
        same_text(r, pin_node(topology@, *component, pin@)),
{
    if !pin_present(component, pin) {
        return Err(unfit_for_error(component, "required pin `", pin, "` is missing"));
    }
    topology.node_for(component, pin)
}

/// The model of the registry with this name.
pub open spec fn model_at(entries: Seq<Entry>, id: Seq<char>) -> Option<Entry>
    decreases entries.len(),
{
    if entries.len() == 0 {
        None
    } else if entries.last().id == id {
        Some(entries.last())
    } else {
        model_at(entries.drop_last(), id)
    }
}

fn find_model<'a>(models: &'a CompiledModelRegistry, id: &str) -> (r: Option<&'a CompiledModel>)
    ensures
        match (r, model_at(models@.entries, id@)) {
            (Some(m), Some(e)) => m@ == e,
            (None, None) => true,
            _ => false,
        },
{
    let ghost all = entries_of(models.entries@);
    let mut i: usize = models.entries.len();
    assert(all.take(i as int) =~= all);
    while i > 0
        invariant
            i <= models.entries@.len(),
            all == entries_of(models.entries@),
            model_at(all, id@) == model_at(all.take(i as int), id@),
        decreases i,
    {
        assert(all.take(i as int).last() == models.entries@[i - 1]@);
        assert(all.take(i as int).drop_last() =~= all.take(i - 1));
        i = i - 1;
        if text_eq(models.entries[i].id.as_str(), id) {
            return Some(&models.entries[i]);
        }
    }
    None
}

/// The model that a component names.
pub open spec fn referenced(component: Component, models: Registry) -> Result<
    (Entry, Seq<char>),
    Fault,
> {
    match parameter_of(component.parameters@, "model"@) {
        None => Err(unfit(component, "required parameter `model` is missing"@)),
        Some(ParameterValue::Text(value)) => if is_blank(value@) {
            Err(unfit(component, "parameter `model` must be a non-empty string"@))
        } else {
            match model_at(models.entries, trim(value@)) {
                Some(entry) => Ok((entry, trim(value@))),
                None => Err(
                    unfit_for(
                        component,
                        "model `"@,
                        trim(value@),
                        "` is not present in the circuit model registry"@,
                    ),
                ),
            }
        },
        Some(_) => Err(unfit(component, "parameter `model` must be a non-empty string"@)),
    }
}

pub fn model_reference<'a>(component: &Component, models: &'a CompiledModelRegistry) -> (r: Result<
    (&'a CompiledModel, String),
    EngineError,
>)
    ensures
        match (r, referenced(*component, models@)) {
            (Ok((m, id)), Ok((entry, name))) => m@ == entry && id@ == name,
            (Err(e), Err(f)) => e@ == f,
            _ => false,
        },
{
    let id = match component.parameters.get("model") {
        None => {
            return Err(unfit_error(component, "required parameter `model` is missing"));
        },
        Some(ParameterValue::Text(value)) => {
            if crate::text::blank(value.as_str()) {
                return Err(
                    unfit_error(component, "parameter `model` must be a non-empty string"),
                );
            }
            trim_text(value.as_str())
        },
        Some(_) => {
            return Err(unfit_error(component, "parameter `model` must be a non-empty string"));
        },
    };
    match find_model(models, id.as_str()) {
        Some(model) => Ok((model, id)),
        None => Err(
            unfit_for_error(
                component,
                "model `",
                id.as_str(),
                "` is not present in the circuit model registry",
            ),
        ),
    }
}

/// Whether a device type is one of the accepted ones.
pub open spec fn accepts(accepted: Seq<Seq<char>>, device: Seq<char>) -> bool {
    exists|i: int| 0 <= i < accepted.len() && lowercase(device) == lowercase(#[trigger] accepted[i])
}

/// The device model that a component names.
pub open spec fn device_model(
    component: Component,
    models: Registry,
    accepted: Seq<Seq<char>>,
) -> Result<Entry, Fault> {
    match referenced(component, models) {
        Err(f) => Err(f),
        Ok((entry, id)) => {
            let device = match entry.declared.device_type {
                Some(device) => device,
                None => ""@,
            };
            if entry.kind != ModelKind::Device {
                Err(unfit_for(component, "model `"@, id, "` is not a device model"@))
            } else if !accepts(accepted, device) {
                Err(
                    unfit(
                        component,
                        "model `"@ + id + "` declares SPICE type `"@ + device
                            + "`, expected one of "@ + join_of(accepted, ", "@),
                    ),
                )
            } else {
                Ok(entry)
            }
        },
    }
}

pub fn required_device_model(
    component: &Component,
    models: &CompiledModelRegistry,
    accepted_device_types: &Vec<String>,
) -> (r: Result<String, EngineError>)
    ensures
        match (r, device_model(*component, models@, texts(accepted_device_types@))) {
            (Ok(s), Ok(entry)) => s@ == entry.entry,
            (Err(e), Err(f)) => e@ == f,
            _ => false,
        },
{
    let (model, id) = match model_reference(component, models) {
        Err(e) => {
            return Err(e);
        },
        Ok(found) => found,
    };
    match model.kind {
        ModelKind::Device => {},
        _ => {
            return Err(
                unfit_for_error(component, "model `", id.as_str(), "` is not a device model"),
            );
        },
    }
    let device = match &model.device_type {
        Some(device) => device.clone(),
        None => "".to_owned(),
    };
    let ghost all = texts(accepted_device_types@);
    let lowered = lowercase_text(device.as_str());
    let mut i: usize = 0;
    while i < accepted_device_types.len()
        invariant
            i <= accepted_device_types@.len(),
            all == texts(accepted_device_types@),
            lowered@ == lowercase(device@),
            device_model(*component, models@, all) == (if accepts(all, device@) {
                Ok::<Entry, Fault>(model@)
            } else {
                Err::<Entry, Fault>(
                    unfit(
                        *component,
                        "model `"@ + id@ + "` declares SPICE type `"@ + device@
                            + "`, expected one of "@ + join_of(all, ", "@),
                    ),
                )
            }),
            forall|k: int|
                0 <= k < i ==> lowercase(device@) != lowercase(#[trigger] all[k]),
        decreases accepted_device_types@.len() - i,
    {
        assert(all[i as int] == accepted_device_types@[i as int]@);
        if text_eq(
            lowered.as_str(),
            lowercase_text(accepted_device_types[i].as_str()).as_str(),
        ) {
            assert(accepts(all, device@));
            return Ok(model.entry.clone());
        }
        i = i + 1;
    }
    assert(!accepts(all, device@));
    Err(
        unfit_error(
            component,
            cat6(
                "model `",
                id.as_str(),
                "` declares SPICE type `",
                device.as_str(),
                "`, expected one of ",
                join_texts(accepted_device_types, ", ").as_str(),
            ).as_str(),
        ),
    )
}

/// The subcircuit model that a component names.
pub open spec fn subcircuit_model(
    component: Component,
    models: Registry,
    expected_ports: Option<nat>,
) -> Result<Entry, Fault> {
    match referenced(component, models) {
        Err(f) => Err(f),
        Ok((entry, id)) => if entry.kind != ModelKind::Subcircuit {
            Err(unfit_for(component, "model `"@, id, "` is not a subcircuit model"@))
        } else {
            match expected_ports {
                Some(expected) => if entry.declared.port_count != Some(expected) {
                    Err(
                        unfit(
                            component,
                            "subcircuit model `"@ + id + "` exposes "@ + decimal(
                                match entry.declared.port_count {
                                    Some(count) => count,
                                    None => 0,
                                },
                            ) + " port(s); component requires "@ + decimal(expected),
                        ),
                    )
                } else {
                    Ok(entry)
                },
                None => Ok(entry),
            }
        },
    }
}

pub fn required_subcircuit_model(
    component: &Component,
    models: &CompiledModelRegistry,
    expected_ports: Option<usize>,
) -> (r: Result<String, EngineError>)
    ensures
        match (
            r,
            subcircuit_model(*component, models@, crate::spice_models::count_of(expected_ports)),
        ) {
            (Ok(s), Ok(entry)) => s@ == entry.entry,
            (Err(e), Err(f)) => e@ == f,
            _ => false,
        },
{
    let (model, id) = match model_reference(component, models) {
        Err(e) => {
            return Err(e);
        },
        Ok(found) => found,
    };
    match model.kind {
        ModelKind::Subcircuit => {},
        _ => {
            return Err(
                unfit_for_error(component, "model `", id.as_str(), "` is not a subcircuit model"),
            );
        },
    }
    match expected_ports {
        None => {},
        Some(expected) => {
            let (count, fits): (usize, bool) = match model.subcircuit_port_count {
                Some(count) => (count, count == expected),
                None => (0, false),
            };
            if !fits {
                return Err(
                    unfit_error(
                        component,
                        cat6(
                            "subcircuit model `",
                            id.as_str(),
                            "` exposes ",
                            decimal_text(count as u64).as_str(),
                            " port(s); component requires ",
                            decimal_text(expected as u64).as_str(),
                        ).as_str(),
                    ),
                );
            }
        },
    }
    Ok(model.entry.clone())
}

/// The number that an optional parameter gives in a unit.
pub open spec fn number_of(component: Component, key: Seq<char>, unit: Unit) -> Result<
    Option<Real>,
    Fault,
> {
    let checked = |x: Real|
        if x.finite() {
            Ok(Some(x))
        } else {
            Err(unfit_for(component, "parameter `"@, key, "` must be finite"@))
        };
    match parameter_of(component.parameters@, key) {
        None => Ok(None),
        Some(ParameterValue::Integer(n)) => checked(Real::of_int(n as int)),
        Some(ParameterValue::Number(x)) => checked(x),
        Some(ParameterValue::Quantity(q)) => if q.unit == unit {
            checked(q.value)
        } else {
            Err(
                unfit_for(
                    component,
                    "parameter `"@,
                    key,
                    "` expects "@ + unit.spec_name() + ", got "@ + q.unit.spec_name(),
                ),
            )
        },
        Some(_) => Err(unfit_for(component, "parameter `"@, key, "` must be numeric"@)),
    }
}

pub fn optional_number(component: &Component, key: &str, unit: Unit) -> (r: Result<
    Option<Real>,
    EngineError,
>)
    ensures
        same(r, number_of(*component, key@, unit)),
{
    let x: Real = match component.parameters.get(key) {
        None => {
            return Ok(None);
        },
        Some(ParameterValue::Integer(n)) => Real::from_i64(*n),
        Some(ParameterValue::Number(x)) => *x,
        Some(ParameterValue::Quantity(q)) => {
            if q.unit == unit {
                q.value
            } else {
                return Err(
                    unfit_for_error(
                        component,
                        "parameter `",
                        key,
                        cat4("` expects ", unit.name(), ", got ", q.unit.name()).as_str(),
                    ),
                );
            }
        },
        Some(ParameterValue::Boolean(_)) | Some(ParameterValue::Text(_)) => {
            return Err(unfit_for_error(component, "parameter `", key, "` must be numeric"));
        },
    };
    if !x.is_finite() {
        return Err(unfit_for_error(component, "parameter `", key, "` must be finite"));
    }
    Ok(Some(x))
}

/// The number of an optional parameter, or another where it is missing.
pub open spec fn number_or(component: Component, key: Seq<char>, unit: Unit, other: Real) -> Result<
    Real,
    Fault,
> {
    match number_of(component, key, unit) {
        Err(f) => Err(f),
        Ok(Some(x)) => Ok(x),
        Ok(None) => Ok(other),
    }
}

fn optional_number_or(component: &Component, key: &str, unit: Unit, other: Real) -> (r: Result<
    Real,
    EngineError,
>)
    ensures
        same(r, number_or(*component, key@, unit, other)),
{
    match optional_number(component, key, unit) {
        Err(e) => Err(e),
        Ok(Some(x)) => Ok(x),
        Ok(None) => Ok(other),
    }
}

/// The number of a parameter that must be given and greater than zero.
pub open spec fn positive_of(component: Component, key: Seq<char>, unit: Unit) -> Result<
    Real,
    Fault,
> {
    match number_of(component, key, unit) {
        Err(f) => Err(f),
        Ok(None) => Err(unfit_for(component, "required parameter `"@, key, "` is missing"@)),
        Ok(Some(x)) => if x.at_most(Real { bits: 0 }) {
            Err(unfit_for(component, "parameter `"@, key, "` must be greater than zero"@))
        } else {
            Ok(x)
        },
    }
}

pub fn required_positive(component: &Component, key: &str, unit: Unit) -> (r: Result<
    Real,
    EngineError,
>)
    ensures
        same(r, positive_of(*component, key@, unit)),
{
    match optional_number(component, key, unit) {
        Err(e) => Err(e),
        Ok(None) => Err(
            unfit_for_error(component, "required parameter `", key, "` is missing"),
        ),
        Ok(Some(x)) => {
            if x.le(Real { bits: 0 }) {
                Err(
                    unfit_for_error(component, "parameter `", key, "` must be greater than zero"),
                )
            } else {
                Ok(x)
            }
        },
    }
}

/// The nodes of a component that has exactly two pins.
pub open spec fn two_nodes(component: Component, layout: Layout) -> Result<
    (Seq<char>, Seq<char>),
    Fault,
> {
    if component.pins@.len() != 2 {
        Err(unfit(component, "component must expose exactly two pins"@))
    } else {
        match layout.node(component, component.pins@[0].id@) {
            Err(f) => Err(f),
            Ok(a) => match layout.node(component, component.pins@[1].id@) {
                Err(f) => Err(f),
                Ok(b) => Ok((a, b)),
            },
        }
    }
}

fn two_pin(component: &Component, topology: &Topology) -> (r: Result<(String, String), EngineError>)
    ensures
        match (r, two_nodes(*component, topology@)) {
            (Ok((a, b)), Ok((x, y))) => a@ == x && b@ == y,
            (Err(e), Err(f)) => e@ == f,
            _ => false,
        },
{
    if component.pins.len() != 2 {
        return Err(unfit_error(component, "component must expose exactly two pins"));
    }
    match topology.node_for(component, component.pins[0].id.as_str()) {
        Err(e) => Err(e),
        Ok(a) => match topology.node_for(component, component.pins[1].id.as_str()) {
            Err(e) => Err(e),
            Ok(b) => Ok((a, b)),
        },
    }
}

/// The line of a resistor, a capacitor or an inductor.
pub open spec fn passive_line(
    prefix: Seq<char>,
    index: int,
    component: Component,
    layout: Layout,
    key: Seq<char>,
    unit: Unit,
) -> Result<Seq<Sign>, Fault> {
    match two_nodes(component, layout) {
        Err(f) => Err(f),
        Ok((a, b)) => match positive_of(component, key, unit) {
            Err(f) => Err(f),
            Ok(value) => Ok(
                letters(prefix + decimal((index + 1) as nat) + " "@ + a + " "@ + b + " "@)
                    + figure(value),
            ),
        },
    }
}

fn compile_passive(
    prefix: &str,
    index: usize,
    component: &Component,
    topology: &Topology,
    key: &str,
    unit: Unit,
) -> (r: Result<Draft, EngineError>)
    requires
        index < usize::MAX,
    ensures
        agrees(r, passive_line(prefix@, index as int, *component, topology@, key@, unit)),
{
    let (a, b) = match two_pin(component, topology) {
        Err(e) => {
            return Err(e);
        },
        Ok(nodes) => nodes,
    };
    let value = match required_positive(component, key, unit) {
        Err(e) => {
            return Err(e);
        },
        Ok(value) => value,
    };
    let mut line = Draft::of(
        cat7(
            prefix,
            decimal_text(index as u64 + 1).as_str(),
            " ",
            a.as_str(),
            " ",
            b.as_str(),
            " ",
        ).as_str(),
    );
    line.number(value);
    Ok(line)
}

/// The nodes of pins that the component must have.
pub open spec fn pin_nodes(layout: Layout, component: Component, pins: Seq<Seq<char>>) -> Result<
    Seq<Seq<char>>,
    Fault,
> {
    collected(pins.len() as int, |i: int| pin_node(layout, component, pins[i]))
}

fn named_nodes(component: &Component, topology: &Topology, pins: &Vec<String>) -> (r: Result<
    Vec<String>,
    EngineError,
>)
    ensures
        match (r, pin_nodes(topology@, *component, texts(pins@))) {
            (Ok(v), Ok(s)) => texts(v@) == s,
            (Err(e), Err(f)) => e@ == f,
            _ => false,
        },
{
    let ghost names = texts(pins@);
    let ghost f = |i: int| pin_node(topology@, *component, names[i]);
    let mut out: Vec<String> = Vec::new();
    let mut i: usize = 0;
    assert(texts(out@) =~= Seq::<Seq<char>>::empty());
    while i < pins.len()
        invariant
            i <= pins@.len(),
            names == texts(pins@),
            f == (|i: int| pin_node(topology@, *component, names[i])),
            collected(i as int, f) == Ok::<Seq<Seq<char>>, Fault>(texts(out@)),
        decreases pins@.len() - i,
    {
        assert(names[i as int] == pins@[i as int]@);
        match named_node(component, topology, pins[i].as_str()) {
            Err(e) => {
                assert(f(i as int) == Err::<Seq<char>, Fault>(e@));
                assert(collected(i + 1, f) == Err::<Seq<Seq<char>>, Fault>(e@));
                proof {
                    lemma_collected_stops(pins@.len() as int, f, i + 1);
                }
                return Err(e);
            },
            Ok(node) => {
                let ghost before = texts(out@);
                assert(f(i as int) == Ok::<Seq<char>, Fault>(node@));
                out.push(node);
                assert(texts(out@) =~= before.push(node@));
            },
        }
        i = i + 1;
    }
    Ok(out)
}

/// A line with nodes and a model.
pub open spec fn instance_line(
    prefix: Seq<char>,
    index: int,
    nodes: Seq<Seq<char>>,
    entry: Seq<char>,
) -> Seq<Sign> {
    letters(
        prefix + decimal((index + 1) as nat) + " "@ + join_of(nodes, " "@) + " "@ + entry,
    )
}

fn compile_instance(prefix: &str, index: usize, nodes: &Vec<String>, entry: &str) -> (r: Draft)
    requires
        index < usize::MAX,
    ensures
        r@ == instance_line(prefix@, index as int, texts(nodes@), entry@),
{
    Draft::of(
        cat6(
            prefix,
            decimal_text(index as u64 + 1).as_str(),
            " ",
            join_texts(nodes, " ").as_str(),
            " ",
            entry,
        ).as_str(),
    )
}

/// The line of a semiconductor device.
pub open spec fn device_line(
    prefix: Seq<char>,
    index: int,
    component: Component,
    layout: Layout,
    models: Registry,
    pins: Seq<Seq<char>>,
    accepted: Seq<Seq<char>>,
) -> Result<Seq<Sign>, Fault> {
    match pin_nodes(layout, component, pins) {
        Err(f) => Err(f),
        Ok(nodes) => match device_model(component, models, accepted) {
            Err(f) => Err(f),
            Ok(entry) => Ok(instance_line(prefix, index, nodes, entry.entry)),
        },
    }
}

fn compile_device(
    prefix: &str,
    index: usize,
    component: &Component,
    topology: &Topology,
    models: &CompiledModelRegistry,
    pins: &Vec<String>,
    accepted: &Vec<String>,
) -> (r: Result<Draft, EngineError>)
    requires
        index < usize::MAX,
    ensures
        agrees(
            r,
            device_line(
                prefix@,
                index as int,
                *component,
                topology@,
                models@,
                texts(pins@),
                texts(accepted@),
            ),
        ),
{
    let nodes = match named_nodes(component, topology, pins) {
        Err(e) => {
            return Err(e);
        },
        Ok(nodes) => nodes,
    };
    match required_device_model(component, models, accepted) {
        Err(e) => Err(e),
        Ok(entry) => Ok(compile_instance(prefix, index, &nodes, entry.as_str())),
    }
}

/// The line of an operational amplifier.
pub open spec fn op_amp_line(
    index: int,
    component: Component,
    layout: Layout,
    models: Registry,
) -> Result<Seq<Sign>, Fault> {
    match pin_nodes(layout, component, op_amp_pins()) {
        Err(f) => Err(f),
        Ok(nodes) => match subcircuit_model(component, models, Some(5)) {
            Err(f) => Err(f),
            Ok(entry) => Ok(instance_line("X"@, index, nodes, entry.entry)),
        },
    }
}

pub open spec fn op_amp_pins() -> Seq<Seq<char>> {
    seq![
        "non_inverting"@,
        "inverting"@,
        "positive_supply"@,
        "negative_supply"@,
        "output"@,
    ]
}

fn compile_op_amp(
    index: usize,
    component: &Component,
    topology: &Topology,
    models: &CompiledModelRegistry,
) -> (r: Result<Draft, EngineError>)
    requires
        index < usize::MAX,
    ensures
        agrees(r, op_amp_line(index as int, *component, topology@, models@)),
{
    let pins = text_list5(
        "non_inverting",
        "inverting",
        "positive_supply",
        "negative_supply",
        "output",
    );
    let nodes = match named_nodes(component, topology, &pins) {
        Err(e) => {
            return Err(e);
        },
        Ok(nodes) => nodes,
    };
    match required_subcircuit_model(component, models, Some(5)) {
        Err(e) => Err(e),
        Ok(entry) => Ok(compile_instance("X", index, &nodes, entry.as_str())),
    }
}

/// The nodes of all pins of a component.
pub open spec fn all_nodes(layout: Layout, component: Component) -> Result<Seq<Seq<char>>, Fault> {
    collected(
        component.pins@.len() as int,
        |i: int| layout.node(component, component.pins@[i].id@),
    )
}

fn nodes_of_pins(component: &Component, topology: &Topology) -> (r: Result<
    Vec<String>,
    EngineError,
>)
    ensures
        match (r, all_nodes(topology@, *component)) {
            (Ok(v), Ok(s)) => texts(v@) == s,
            (Err(e), Err(f)) => e@ == f,
            _ => false,
        },
{
    let ghost f = |i: int| topology@.node(*component, component.pins@[i].id@);
    let mut out: Vec<String> = Vec::new();
    let mut i: usize = 0;
    assert(texts(out@) =~= Seq::<Seq<char>>::empty());
    while i < component.pins.len()
        invariant
            i <= component.pins@.len(),
            f == (|i: int| topology@.node(*component, component.pins@[i].id@)),
            collected(i as int, f) == Ok::<Seq<Seq<char>>, Fault>(texts(out@)),
        decreases component.pins@.len() - i,
    {
        match topology.node_for(component, component.pins[i].id.as_str()) {
            Err(e) => {
                assert(f(i as int) == Err::<Seq<char>, Fault>(e@));
                assert(collected(i + 1, f) == Err::<Seq<Seq<char>>, Fault>(e@));
                proof {
                    lemma_collected_stops(component.pins@.len() as int, f, i + 1);
                }
                return Err(e);
            },
            Ok(node) => {
                let ghost before = texts(out@);
                assert(f(i as int) == Ok::<Seq<char>, Fault>(node@));
                out.push(node);
                assert(texts(out@) =~= before.push(node@));
            },
        }
        i = i + 1;
    }
    Ok(out)
}

/// The line of a subcircuit.
pub open spec fn subcircuit_line(
    index: int,
    component: Component,
    layout: Layout,
    models: Registry,
) -> Result<Seq<Sign>, Fault> {
    if component.pins@.len() == 0 {
        Err(unfit(component, "subcircuit component must expose at least one pin"@))
    } else {
        match subcircuit_model(component, models, None) {
            Err(f) => Err(f),
            Ok(entry) => match all_nodes(layout, component) {
                Err(f) => Err(f),
                Ok(nodes) => Ok(instance_line("X"@, index, nodes, entry.entry)),
            },
        }
    }
}

fn compile_subcircuit(
    index: usize,
    component: &Component,
    topology: &Topology,
    models: &CompiledModelRegistry,
) -> (r: Result<Draft, EngineError>)
    requires
        index < usize::MAX,
    ensures
        agrees(r, subcircuit_line(index as int, *component, topology@, models@)),
{
    if component.pins.len() == 0 {
        return Err(unfit_error(component, "subcircuit component must expose at least one pin"));
    }
    let entry = match required_subcircuit_model(component, models, None) {
        Err(e) => {
            return Err(e);
        },
        Ok(entry) => entry,
    };
    match nodes_of_pins(component, topology) {
        Err(e) => Err(e),
        Ok(nodes) => Ok(compile_instance("X", index, &nodes, entry.as_str())),
    }
}

/// The pulse of a source, if it has one.
pub open spec fn pulse_part(component: Component, unit: Unit, dc: Real) -> Result<Seq<Sign>, Fault> {
    match number_of(component, "pulse_high"@, unit) {
        Err(f) => Err(f),
        Ok(None) => Ok(Seq::empty()),
        Ok(Some(high)) => match number_or(component, "pulse_low"@, unit, dc) {
            Err(f) => Err(f),
            Ok(low) => match number_or(
                component,
                "pulse_delay"@,
                Unit::Second,
                Real { bits: 0 },
            ) {
                Err(f) => Err(f),
                Ok(delay) => match number_or(
                    component,
                    "pulse_rise"@,
                    Unit::Second,
                    Real { bits: PICOSECOND_BITS },
                ) {
                    Err(f) => Err(f),
                    Ok(rise) => match number_or(
                        component,
                        "pulse_fall"@,
                        Unit::Second,
                        Real { bits: PICOSECOND_BITS },
                    ) {
                        Err(f) => Err(f),
                        Ok(fall) => match positive_of(component, "pulse_width"@, Unit::Second) {
                            Err(f) => Err(f),
                            Ok(width) => match positive_of(
                                component,
                                "pulse_period"@,
                                Unit::Second,
                            ) {
                                Err(f) => Err(f),
                                Ok(period) => Ok(
                                    letters(" PULSE("@) + figure(low) + letters(" "@) + figure(
                                        high,
                                    ) + letters(" "@) + figure(delay) + letters(" "@) + figure(
                                        rise,
                                    ) + letters(" "@) + figure(fall) + letters(" "@) + figure(
                                        width,
                                    ) + letters(" "@) + figure(period) + letters(")"@),
                                ),
                            },
                        },
                    },
                },
            },
        },
    }
}

fn compile_pulse(component: &Component, unit: Unit, dc: Real) -> (r: Result<Draft, EngineError>)
    ensures
        agrees(r, pulse_part(*component, unit, dc)),
{
    let mut part = Draft::new();
    let high = match optional_number(component, "pulse_high", unit) {
        Err(e) => {
            return Err(e);
        },
        Ok(None) => {
            return Ok(part);
        },
        Ok(Some(high)) => high,
    };
    let low = match optional_number_or(component, "pulse_low", unit, dc) {
        Err(e) => {
            return Err(e);
        },
        Ok(x) => x,
    };
    let delay = match optional_number_or(component, "pulse_delay", Unit::Second, Real { bits: 0 }) {
        Err(e) => {
            return Err(e);
        },
        Ok(x) => x,
    };
    let rise = match optional_number_or(
        component,
        "pulse_rise",
        Unit::Second,
        Real { bits: PICOSECOND_BITS },
    ) {
        Err(e) => {
            return Err(e);
        },
        Ok(x) => x,
    };
    let fall = match optional_number_or(
        component,
        "pulse_fall",
        Unit::Second,
        Real { bits: PICOSECOND_BITS },
    ) {
        Err(e) => {
            return Err(e);
        },
        Ok(x) => x,
    };
    let width = match required_positive(component, "pulse_width", Unit::Second) {
        Err(e) => {
            return Err(e);
        },
        Ok(x) => x,
    };
    let period = match required_positive(component, "pulse_period", Unit::Second) {
        Err(e) => {
            return Err(e);
        },
        Ok(x) => x,
    };
    part.text(" PULSE(");
    assert(part@ =~= letters(" PULSE("@));
    part.number(low);
    part.text(" ");
    part.number(high);
    part.text(" ");
    part.number(delay);
    part.text(" ");
    part.number(rise);
    part.text(" ");
    part.number(fall);
    part.text(" ");
    part.number(width);
    part.text(" ");
    part.number(period);
    part.text(")");
    Ok(part)
}

/// The small-signal part of a source, if it has one.
pub open spec fn ac_part(component: Component, unit: Unit) -> Result<Seq<Sign>, Fault> {
    match number_of(component, "ac_magnitude"@, unit) {
        Err(f) => Err(f),
        Ok(None) => Ok(Seq::empty()),
        Ok(Some(magnitude)) => if magnitude.less(Real { bits: 0 }) {
            Err(unfit(component, "parameter `ac_magnitude` must be non-negative"@))
        } else {
            match number_or(
                component,
                "ac_phase_degrees"@,
                Unit::Dimensionless,
                Real { bits: 0 },
            ) {
                Err(f) => Err(f),
                Ok(phase) => Ok(
                    letters(" AC "@) + figure(magnitude) + letters(" "@) + figure(phase),
                ),
            }
        },
    }
}

fn compile_ac(component: &Component, unit: Unit) -> (r: Result<Draft, EngineError>)
    ensures
        agrees(r, ac_part(*component, unit)),
{
    let mut part = Draft::new();
    let magnitude = match optional_number(component, "ac_magnitude", unit) {
        Err(e) => {
            return Err(e);
        },
        Ok(None) => {
            return Ok(part);
        },
        Ok(Some(magnitude)) => magnitude,
    };
    if magnitude.lt(Real { bits: 0 }) {
        return Err(unfit_error(component, "parameter `ac_magnitude` must be non-negative"));
    }
    let phase = match optional_number_or(
        component,
        "ac_phase_degrees",
        Unit::Dimensionless,
        Real { bits: 0 },
    ) {
        Err(e) => {
            return Err(e);
        },
        Ok(x) => x,
    };
    part.text(" AC ");
    assert(part@ =~= letters(" AC "@));
    part.number(magnitude);
    part.text(" ");
    part.number(phase);
    Ok(part)
}

/// The line of a voltage or current source.
pub open spec fn source_line(component: Component, layout: Layout) -> Result<Seq<Sign>, Fault> {
    match two_nodes(component, layout) {
        Err(f) => Err(f),
        Ok((positive, negative)) => match source_at(layout.sources, component.id@) {
            None => Err(unfit(component, "source name was not allocated"@)),
            Some(source) => match number_or(component, "dc"@, source.unit, Real { bits: 0 }) {
                Err(f) => Err(f),
                Ok(dc) => match pulse_part(component, source.unit, dc) {
                    Err(f) => Err(f),
                    Ok(pulse) => match ac_part(component, source.unit) {
                        Err(f) => Err(f),
                        Ok(ac) => Ok(
                            letters(
                                source.name + " "@ + positive + " "@ + negative + " DC "@,
                            ) + figure(dc) + pulse + ac,
                        ),
                    },
                },
            },
        },
    }
}

fn compile_source(component: &Component, topology: &Topology) -> (r: Result<Draft, EngineError>)
    ensures
        agrees(r, source_line(*component, topology@)),
{
    let (positive, negative) = match two_pin(component, topology) {
        Err(e) => {
            return Err(e);
        },
        Ok(nodes) => nodes,
    };
    let source = match topology.source_for(component.id.as_str()) {
        None => {
            return Err(unfit_error(component, "source name was not allocated"));
        },
        Some(source) => source,
    };
    let dc = match optional_number_or(component, "dc", source.unit, Real { bits: 0 }) {
        Err(e) => {
            return Err(e);
        },
        Ok(dc) => dc,
    };
    let pulse = match compile_pulse(component, source.unit, dc) {
        Err(e) => {
            return Err(e);
        },
        Ok(pulse) => pulse,
    };
    let ac = match compile_ac(component, source.unit) {
        Err(e) => {
            return Err(e);
        },
        Ok(ac) => ac,
    };
    let mut line = Draft::of(
        cat6(
            source.name.as_str(),
            " ",
            positive.as_str(),
            " ",
            negative.as_str(),
            " DC ",
        ).as_str(),
    );
    line.number(dc);
    line.append(&pulse);
    line.append(&ac);
    Ok(line)
}

/// The line of one component.
pub open spec fn component_line(
    index: int,
    component: Component,
    layout: Layout,
    models: Registry,
) -> Result<Seq<Sign>, Fault> {
    let kind = component.kind@;
    if kind == "resistor"@ {
        passive_line("R"@, index, component, layout, "resistance"@, Unit::Ohm)
    } else if kind == "capacitor"@ {
        passive_line("C"@, index, component, layout, "capacitance"@, Unit::Farad)
    } else if kind == "inductor"@ {
        passive_line("L"@, index, component, layout, "inductance"@, Unit::Henry)
    } else if kind == "diode"@ {
        device_line(
            "D"@,
            index,
            component,
            layout,
            models,
            seq!["anode"@, "cathode"@],
            seq!["d"@],
        )
    } else if kind == "bjt"@ {
        device_line(
            "Q"@,
            index,
            component,
            layout,
            models,
            seq!["collector"@, "base"@, "emitter"@],
            seq!["npn"@, "pnp"@],
        )
    } else if kind == "mosfet"@ {
        device_line(
            "M"@,
            index,
            component,
            layout,
            models,
            seq!["drain"@, "gate"@, "source"@, "bulk"@],
            seq!["nmos"@, "pmos"@],
        )
    } else if kind == "op_amp"@ {
        op_amp_line(index, component, layout, models)
    } else if kind == "subcircuit"@ {
        subcircuit_line(index, component, layout, models)
    } else if kind == "voltage_source"@ || kind == "current_source"@ {
        source_line(component, layout)
    } else {
        Err(
            unfit_for(
                component,
                "component kind `"@,
                kind,
                "` is not supported by the R2 ngspice engine"@,
            ),
        )
    }
}

pub fn compile_component(
    index: usize,
    component: &Component,
    topology: &Topology,
    models: &CompiledModelRegistry,
) -> (r: Result<Draft, EngineError>)
    requires
        index < usize::MAX,
    ensures
        agrees(r, component_line(index as int, *component, topology@, models@)),
{
    let kind = component.kind.as_str();
    if text_eq(kind, "resistor") {
        return compile_passive("R", index, component, topology, "resistance", Unit::Ohm);
    }
    if text_eq(kind, "capacitor") {
        return compile_passive("C", index, component, topology, "capacitance", Unit::Farad);
    }
    if text_eq(kind, "inductor") {
        return compile_passive("L", index, component, topology, "inductance", Unit::Henry);
    }
    if text_eq(kind, "diode") {
        return compile_device(
            "D",
            index,
            component,
            topology,
            models,
            &text_list2("anode", "cathode"),
            &text_list1("d"),
        );
    }
    if text_eq(kind, "bjt") {
        return compile_device(
            "Q",
            index,
            component,
            topology,
            models,
            &text_list3("collector", "base", "emitter"),
            &text_list2("npn", "pnp"),
        );
    }
    if text_eq(kind, "mosfet") {
        return compile_device(
            "M",
            index,
            component,
            topology,
            models,
            &text_list4("drain", "gate", "source", "bulk"),
            &text_list2("nmos", "pmos"),
        );
    }
    if text_eq(kind, "op_amp") {
        return compile_op_amp(index, component, topology, models);
    }
    if text_eq(kind, "subcircuit") {
        return compile_subcircuit(index, component, topology, models);
    }
    if text_eq(kind, "voltage_source") || text_eq(kind, "current_source") {
        return compile_source(component, topology);
    }
    Err(
        unfit_for_error(
            component,
            "component kind `",
            kind,
            "` is not supported by the R2 ngspice engine",
        ),
    )
}

/// What keeps a number of an analysis from being finite.
pub open spec fn finite_failure(label: Seq<char>, value: Real) -> Option<Fault> {
    if value.finite() {
        None
    } else {
        Some(fault("ngspice_invalid_analysis"@, label + " must be finite"@))
    }
}

fn finite(label: &str, value: Real) -> (r: Result<(), EngineError>)
    ensures
        passes(r, finite_failure(label@, value)),
{
    if value.is_finite() {
        Ok(())
    } else {
        Err(fail("ngspice_invalid_analysis", cat2(label, " must be finite")))
    }
}

/// What keeps a number of an analysis from being finite and positive.
pub open spec fn positive_failure(label: Seq<char>, value: Real) -> Option<Fault> {
    match finite_failure(label, value) {
        Some(f) => Some(f),
        None => if value.at_most(Real { bits: 0 }) {
            Some(fault("ngspice_invalid_analysis"@, label + " must be greater than zero"@))
        } else {
            None
        },
    }
}

fn positive_finite(label: &str, value: Real) -> (r: Result<(), EngineError>)
    ensures
        passes(r, positive_failure(label@, value)),
{
    match finite(label, value) {
        Err(e) => Err(e),
        Ok(_) => {
            if value.le(Real { bits: 0 }) {
                Err(fail("ngspice_invalid_analysis", cat2(label, " must be greater than zero")))
            } else {
                Ok(())
            }
        },
    }
}

/// The command of an analysis and the shape of its results.
#[derive(Clone, Debug, PartialEq, Eq)]
pub struct CompiledAnalysis {
    pub command: Draft,
    pub axis_kind: AxisKind,
    pub axis_unit: Unit,
    pub complex: bool,
}

/// What a `CompiledAnalysis` says.
pub struct Plan {
    pub command: Seq<Sign>,
    pub axis_kind: AxisKind,
    pub axis_unit: Unit,
    pub complex: bool,
}

impl View for CompiledAnalysis {
    type V = Plan;

    open spec fn view(&self) -> Plan {
        Plan {
            command: self.command@,
            axis_kind: self.axis_kind,
            axis_unit: self.axis_unit,
            complex: self.complex,
        }
    }
}

pub open spec fn invalid_analysis(message: Seq<char>) -> Fault {
    fault("ngspice_invalid_analysis"@, message)
}

/// The plan of a transient analysis.
pub open spec fn transient_plan(step: Real, stop: Real) -> Result<Plan, Fault> {
    match positive_failure("transient step"@, step) {
        Some(f) => Err(f),
        None => match positive_failure("transient stop"@, stop) {
            Some(f) => Err(f),
            None => if stop.less(step) {
                Err(invalid_analysis("transient step must not exceed stop time"@))
            } else {
                Ok(
                    Plan {
                        command: letters("tran "@) + figure(step) + letters(" "@) + figure(stop),
                        axis_kind: AxisKind::Time,
                        axis_unit: Unit::Second,
                        complex: false,
                    },
                )
            },
        },
    }
}

fn compile_transient(step: Real, stop: Real) -> (r: Result<CompiledAnalysis, EngineError>)
    ensures
        agrees(r, transient_plan(step, stop)),
{
    match positive_finite("transient step", step) {
        Err(e) => {
            return Err(e);
        },
        Ok(_) => {},
    }
    match positive_finite("transient stop", stop) {
        Err(e) => {
            return Err(e);
        },
        Ok(_) => {},
    }
    if stop.lt(step) {
        return Err(
            EngineError::new(
                "ngspice_invalid_analysis",
                "transient step must not exceed stop time",
            ),
        );
    }
    let mut command = Draft::of("tran ");
    command.number(step);
    command.text(" ");
    command.number(stop);
    Ok(
        CompiledAnalysis {
            command,
            axis_kind: AxisKind::Time,
            axis_unit: Unit::Second,
            complex: false,
        },
    )
}

/// Whether a component of this name is in the circuit.
pub open spec fn has_component(components: Seq<Component>, id: Seq<char>) -> bool {
    exists|i: int| 0 <= i < components.len() && (#[trigger] components[i]).id@ == id
}

fn contains_component(components: &Vec<Component>, id: &str) -> (r: bool)
    ensures
        r == has_component(components@, id@),
{
    let mut i: usize = 0;
    while i < components.len()
        invariant
            i <= components@.len(),
            forall|k: int| 0 <= k < i ==> (#[trigger] components@[k]).id@ != id@,
        decreases components@.len() - i,
    {
        if text_eq(components[i].id.as_str(), id) {
            assert(components@[i as int].id@ == id@);
            return true;
        }
        i = i + 1;
    }
    false
}

/// The plan of a DC sweep: the step must lead from the start toward the stop.
pub open spec fn sweep_plan(
    source: Seq<char>,
    start: Real,
    stop: Real,
    step: Real,
    circuit: Circuit,
    layout: Layout,
) -> Result<Plan, Fault> {
    match finite_failure("DC sweep start"@, start) {
        Some(f) => Err(f),
        None => match finite_failure("DC sweep stop"@, stop) {
            Some(f) => Err(f),
            None => match finite_failure("DC sweep step"@, step) {
                Some(f) => Err(f),
                None => if step.key() == 0 || stop.difference(start).negative()
                    != step.negative() {
                    Err(
                        invalid_analysis(
                            "DC sweep step must be non-zero and move from start toward stop"@,
                        ),
                    )
                } else {
                    match source_at(layout.sources, source) {
                        None => Err(
                            fault(
                                "ngspice_unknown_sweep_source"@,
                                "DC sweep source `"@ + source
                                    + "` is not a voltage/current source in the circuit"@,
                            ),
                        ),
                        Some(found) => if !has_component(circuit.components@, source) {
                            Err(
                                fault(
                                    "ngspice_unknown_sweep_source"@,
                                    "unknown source `"@ + source + "`"@,
                                ),
                            )
                        } else {
                            Ok(
                                Plan {
                                    command: letters("dc "@ + found.name + " "@) + figure(start)
                                        + letters(" "@) + figure(stop) + letters(" "@) + figure(
                                        step,
                                    ),
                                    axis_kind: AxisKind::DcSweep,
                                    axis_unit: found.unit,
                                    complex: false,
                                },
                            )
                        },
                    }
                },
            },
        },
    }
}

fn compile_sweep(
    source: &str,
    start: Real,
    stop: Real,
    step: Real,
    circuit: &Circuit,
    topology: &Topology,
) -> (r: Result<CompiledAnalysis, EngineError>)
    ensures
        agrees(r, sweep_plan(source@, start, stop, step, *circuit, topology@)),
{
    match finite("DC sweep start", start) {
        Err(e) => {
            return Err(e);
        },
        Ok(_) => {},
    }
    match finite("DC sweep stop", stop) {
        Err(e) => {
            return Err(e);
        },
        Ok(_) => {},
    }
    match finite("DC sweep step", step) {
        Err(e) => {
            return Err(e);
        },
        Ok(_) => {},
    }
    if step.is_zero() || stop.minus(start).is_negative() != step.is_negative() {
        return Err(
            EngineError::new(
                "ngspice_invalid_analysis",
                "DC sweep step must be non-zero and move from start toward stop",
            ),
        );
    }
    let found = match topology.source_for(source) {
        None => {
            return Err(
                fail(
                    "ngspice_unknown_sweep_source",
                    cat3(
                        "DC sweep source `",
                        source,
                        "` is not a voltage/current source in the circuit",
                    ),
                ),
            );
        },
        Some(found) => found,
    };
    if !contains_component(&circuit.components, source) {
        return Err(
            fail("ngspice_unknown_sweep_source", cat3("unknown source `", source, "`")),
        );
    }
    let mut command = Draft::of(cat3("dc ", found.name.as_str(), " ").as_str());
    command.number(start);
    command.text(" ");
    command.number(stop);
    command.text(" ");
    command.number(step);
    Ok(
        CompiledAnalysis {
            command,
            axis_kind: AxisKind::DcSweep,
            axis_unit: found.unit,
            complex: false,
        },
    )
}

/// The word of a frequency scale.
pub open spec fn scale_word(scale: AcScale) -> Seq<char> {
    match scale {
        AcScale::Linear => "lin"@,
        AcScale::Decade => "dec"@,
        AcScale::Octave => "oct"@,
    }
}

/// The plan of a frequency sweep.
pub open spec fn ac_plan(scale: AcScale, points: u32, start: Real, stop: Real) -> Result<
    Plan,
    Fault,
> {
    if points == 0 {
        Err(invalid_analysis("AC sweep points must be greater than zero"@))
    } else {
        match positive_failure("AC start frequency"@, start) {
            Some(f) => Err(f),
            None => match positive_failure("AC stop frequency"@, stop) {
                Some(f) => Err(f),
                None => if stop.at_most(start) {
                    Err(invalid_analysis("AC start frequency must be below stop frequency"@))
                } else {
                    Ok(
                        Plan {
                            command: letters(
                                "ac "@ + scale_word(scale) + " "@ + decimal(points as nat) + " "@,
                            ) + figure(start) + letters(" "@) + figure(stop),
                            axis_kind: AxisKind::Frequency,
                            axis_unit: Unit::Hertz,
                            complex: true,
                        },
                    )
                },
            },
        }
    }
}

fn compile_frequency_sweep(scale: AcScale, points: u32, start: Real, stop: Real) -> (r: Result<
    CompiledAnalysis,
    EngineError,
>)
    ensures
        agrees(r, ac_plan(scale, points, start, stop)),
{
    if points == 0 {
        return Err(
            EngineError::new(
                "ngspice_invalid_analysis",
                "AC sweep points must be greater than zero",
            ),
        );
    }
    match positive_finite("AC start frequency", start) {
        Err(e) => {
            return Err(e);
        },
        Ok(_) => {},
    }
    match positive_finite("AC stop frequency", stop) {
        Err(e) => {
            return Err(e);
        },
        Ok(_) => {},
    }
    if stop.le(start) {
        return Err(
            EngineError::new(
                "ngspice_invalid_analysis",
                "AC start frequency must be below stop frequency",
            ),
        );
    }
    let word = match scale {
        AcScale::Linear => "lin",
        AcScale::Decade => "dec",
        AcScale::Octave => "oct",
    };
    let mut command = Draft::of(
        cat5("ac ", word, " ", decimal_text(points as u64).as_str(), " ").as_str(),
    );
    command.number(start);
    command.text(" ");
    command.number(stop);
    Ok(
        CompiledAnalysis {
            command,
            axis_kind: AxisKind::Frequency,
            axis_unit: Unit::Hertz,
            complex: true,
        },
    )
}

/// The plan of an analysis.
pub open spec fn plan_of(analysis: Analysis, circuit: Circuit, layout: Layout) -> Result<
    Plan,
    Fault,
> {
    match analysis {
        Analysis::OperatingPoint => Ok(
            Plan {
                command: letters("op"@),
                axis_kind: AxisKind::Scalar,
                axis_unit: Unit::Dimensionless,
                complex: false,
            },
        ),
        Analysis::Transient { step, stop } => transient_plan(step, stop),
        Analysis::DcSweep { source, start, stop, step } => sweep_plan(
            source@,
            start,
            stop,
            step,
            circuit,
            layout,
        ),
        Analysis::AcSweep { scale, points, start_hz, stop_hz } => ac_plan(
            scale,
            points,
            start_hz,
            stop_hz,
        ),
        _ => Err(
            fault(
                "ngspice_analysis_unsupported"@,
                "R2 ngspice engine supports analog analyses only; digital/mixed-signal lands in the next engine slice"@,
            ),
        ),
    }
}

pub fn compile_analysis(analysis: &Analysis, circuit: &Circuit, topology: &Topology) -> (r: Result<
    CompiledAnalysis,
    EngineError,
>)
    ensures
        agrees(r, plan_of(*analysis, *circuit, topology@)),
{
    match analysis {
        Analysis::OperatingPoint => Ok(
            CompiledAnalysis {
                command: Draft::of("op"),
                axis_kind: AxisKind::Scalar,
                axis_unit: Unit::Dimensionless,
                complex: false,
            },
        ),
        Analysis::Transient { step, stop } => compile_transient(*step, *stop),
        Analysis::DcSweep { source, start, stop, step } => compile_sweep(
            source.as_str(),
            *start,
            *stop,
            *step,
            circuit,
            topology,
        ),
        Analysis::AcSweep { scale, points, start_hz, stop_hz } => compile_frequency_sweep(
            *scale,
            *points,
            *start_hz,
            *stop_hz,
        ),
        _ => Err(
            EngineError::new(
                "ngspice_analysis_unsupported",
                "R2 ngspice engine supports analog analyses only; digital/mixed-signal lands in the next engine slice",
            ),
        ),
    }
}

/// A signal and the expression that gives it.
#[derive(Clone, Debug, PartialEq, Eq)]
pub struct AnalogProbe {
    pub signal: String,
    pub expression: String,
}

impl View for AnalogProbe {
    type V = (Seq<char>, Seq<char>);

    open spec fn view(&self) -> (Seq<char>, Seq<char>) {
        (self.signal@, self.expression@)
    }
}

pub open spec fn probe_views(v: Seq<AnalogProbe>) -> Seq<(Seq<char>, Seq<char>)> {
    v.map_values(|p: AnalogProbe| p@)
}

/// The expressions of probes.
pub open spec fn expressions(probes: Seq<(Seq<char>, Seq<char>)>) -> Seq<Seq<char>> {
    probes.map_values(|p: (Seq<char>, Seq<char>)| p.1)
}

/// The voltage of a node under the name of its net.
pub open spec fn net_probe(net: Seq<char>, node: Seq<char>) -> (Seq<char>, Seq<char>) {
    ("net:"@ + net, "v("@ + node + ")"@)
}

/// Whether one of the first `n` nets is on a node.
pub open spec fn node_used(
    nets: Seq<crate::circuit::Net>,
    nodes: Seq<(Seq<char>, Seq<char>)>,
    node: Seq<char>,
    n: int,
) -> bool {
    exists|j: int| 0 <= j < n && node_at(nodes, (#[trigger] nets[j]).id@) == Some(node)
}

/// The probes of the first `n` nets where none are asked for: each node but
/// ground, once.
pub open spec fn default_probes(
    nets: Seq<crate::circuit::Net>,
    nodes: Seq<(Seq<char>, Seq<char>)>,
    n: int,
) -> Seq<(Seq<char>, Seq<char>)>
    decreases n,
{
    if n <= 0 {
        Seq::empty()
    } else {
        let before = default_probes(nets, nodes, n - 1);
        match node_at(nodes, nets[n - 1].id@) {
            None => before,
            Some(node) => if node == "0"@ || node_used(nets, nodes, node, n - 1) {
                before
            } else {
                before.push(net_probe(nets[n - 1].id@, node))
            },
        }
    }
}

/// The failure of a probe on a pin that is not connected.
pub open spec fn loose_probe(code: Seq<char>, probe: Probe) -> Fault {
    fault(
        code,
        "probe endpoint `"@ + probe.endpoint.component@ + "."@ + probe.endpoint.pin@
            + "` is not connected"@,
    )
}

pub fn loose_probe_error(code: &str, probe: &Probe) -> (r: EngineError)
    ensures
        r@ == loose_probe(code@, *probe),
{
    fail(
        code,
        cat5(
            "probe endpoint `",
            probe.endpoint.component.as_str(),
            ".",
            probe.endpoint.pin.as_str(),
            "` is not connected",
        ),
    )
}

/// The name of the signal of a probe.
pub open spec fn signal_name(probe: Probe, net: Seq<char>) -> Seq<char> {
    match probe.alias {
        Some(alias) => alias@,
        None => "net:"@ + net,
    }
}

pub fn signal_text(probe: &Probe, net: &str) -> (r: String)
    ensures
        r@ == signal_name(*probe, net@),
{
    match &probe.alias {
        Some(alias) => alias.clone(),
        None => cat2("net:", net),
    }
}

/// One probe that is asked for.
pub open spec fn asked_probe(layout: Layout, probe: Probe) -> Result<(Seq<char>, Seq<char>), Fault> {
    match net_at(layout.wires, probe.endpoint.component@, probe.endpoint.pin@) {
        None => Err(loose_probe("ngspice_unknown_probe"@, probe)),
        Some(net) => match node_at(layout.nodes, net) {
            None => Err(loose_probe("ngspice_unknown_probe"@, probe)),
            Some(node) => Ok((signal_name(probe, net), "v("@ + node + ")"@)),
        },
    }
}

/// The probes of a request.
pub open spec fn probes_of(request: SimulationRequest, layout: Layout) -> Result<
    Seq<(Seq<char>, Seq<char>)>,
    Fault,
> {
    let probes = if request.probes@.len() == 0 {
        Ok(
            default_probes(
                request.circuit.nets@,
                layout.nodes,
                request.circuit.nets@.len() as int,
            ),
        )
    } else {
        collected(
            request.probes@.len() as int,
            |i: int| asked_probe(layout, request.probes@[i]),
        )
    };
    match probes {
        Err(f) => Err(f),
        Ok(list) => if list.len() == 0 {
            Err(
                fault(
                    "ngspice_no_probes"@,
                    "simulation has no non-ground analog node to observe; add a probe or a non-ground net"@,
                ),
            )
        } else {
            Ok(list)
        },
    }
}

fn compile_default_probes(request: &SimulationRequest, topology: &Topology) -> (r: Vec<AnalogProbe>)
    ensures
        probe_views(r@) == default_probes(
            request.circuit.nets@,
            topology@.nodes,
            request.circuit.nets@.len() as int,
        ),
{
    let nets = &request.circuit.nets;
    let ghost nodes = topology@.nodes;
    let mut out: Vec<AnalogProbe> = Vec::new();
    let mut i: usize = 0;
    assert(probe_views(out@) =~= Seq::<(Seq<char>, Seq<char>)>::empty());
    while i < nets.len()
        invariant
            i <= nets@.len(),
            nodes == topology@.nodes,
            probe_views(out@) == default_probes(nets@, nodes, i as int),
        decreases nets@.len() - i,
    {
        match topology.nodes.find(nets[i].id.as_str()) {
            None => {},
            Some(node) => {
                let mut used: bool = false;
                let mut j: usize = 0;
                while j < i
                    invariant
                        j <= i < nets@.len(),
                        nodes == topology@.nodes,
                        used == node_used(nets@, nodes, node@, j as int),
                    decreases i - j,
                {
                    assert(node_used(nets@, nodes, node@, j + 1) == (node_used(
                        nets@,
                        nodes,
                        node@,
                        j as int,
                    ) || node_at(nodes, nets@[j as int].id@) == Some(node@)));
                    match topology.nodes.find(nets[j].id.as_str()) {
                        None => {},
                        Some(other) => {
                            if text_eq(other.as_str(), node.as_str()) {
                                used = true;
                            }
                        },
                    }
                    j = j + 1;
                }
                if !text_eq(node.as_str(), "0") && !used {
                    let ghost before = probe_views(out@);
                    out.push(
                        AnalogProbe {
                            signal: cat2("net:", nets[i].id.as_str()),
                            expression: cat3("v(", node.as_str(), ")"),
                        },
                    );
                    assert(probe_views(out@) =~= before.push(out@.last()@));
                }
            },
        }
        i = i + 1;
    }
    out
}

fn compile_asked_probe(probe: &Probe, topology: &Topology) -> (r: Result<AnalogProbe, EngineError>)
    ensures
        agrees(r, asked_probe(topology@, *probe)),
{
    let net = match topology.wiring.find(
        probe.endpoint.component.as_str(),
        probe.endpoint.pin.as_str(),
    ) {
        None => {
            return Err(loose_probe_error("ngspice_unknown_probe", probe));
        },
        Some(net) => net,
    };
    match topology.nodes.find(net.as_str()) {
        None => Err(loose_probe_error("ngspice_unknown_probe", probe)),
        Some(node) => Ok(
            AnalogProbe {
                signal: signal_text(probe, net.as_str()),
                expression: cat3("v(", node.as_str(), ")"),
            },
        ),
    }
}

pub fn compile_probes(request: &SimulationRequest, topology: &Topology) -> (r: Result<
    Vec<AnalogProbe>,
    EngineError,
>)
    ensures
        match (r, probes_of(*request, topology@)) {
            (Ok(v), Ok(s)) => probe_views(v@) == s,
            (Err(e), Err(f)) => e@ == f,
            _ => false,
        },
{
    let mut out: Vec<AnalogProbe> = Vec::new();
    if request.probes.len() == 0 {
        out = compile_default_probes(request, topology);
    } else {
        let ghost f = |i: int| asked_probe(topology@, request.probes@[i]);
        let mut i: usize = 0;
        assert(probe_views(out@) =~= Seq::<(Seq<char>, Seq<char>)>::empty());
        while i < request.probes.len()
            invariant
                i <= request.probes@.len(),
                request.probes@.len() > 0,
                f == (|i: int| asked_probe(topology@, request.probes@[i])),
                collected(i as int, f) == Ok::<Seq<(Seq<char>, Seq<char>)>, Fault>(
                    probe_views(out@),
                ),
            decreases request.probes@.len() - i,
        {
            match compile_asked_probe(&request.probes[i], topology) {
                Err(e) => {
                    assert(f(i as int) == Err::<(Seq<char>, Seq<char>), Fault>(e@));
                    assert(collected(i + 1, f) == Err::<Seq<(Seq<char>, Seq<char>)>, Fault>(e@));
                    proof {
                        lemma_collected_stops(request.probes@.len() as int, f, i + 1);
                    }
                    return Err(e);
                },
                Ok(probe) => {
                    let ghost before = probe_views(out@);
                    assert(f(i as int) == Ok::<(Seq<char>, Seq<char>), Fault>(probe@));
                    out.push(probe);
                    assert(probe_views(out@) =~= before.push(probe@));
                },
            }
            i = i + 1;
        }
    }
    assert(probe_views(out@).len() == out@.len());
    if out.len() == 0 {
        return Err(
            EngineError::new(
                "ngspice_no_probes",
                "simulation has no non-ground analog node to observe; add a probe or a non-ground net",
            ),
        );
    }
    Ok(out)
}

/// The expressions of probes, apart by blanks.
pub fn join_expressions(probes: &Vec<AnalogProbe>) -> (r: String)
    ensures
        r@ == join_of(expressions(probe_views(probes@)), " "@),
{
    let ghost all = expressions(probe_views(probes@));
    let mut list: Vec<String> = Vec::new();
    let mut i: usize = 0;
    while i < probes.len()
        invariant
            i <= probes@.len(),
            all == expressions(probe_views(probes@)),
            texts(list@) =~= all.take(i as int),
        decreases probes@.len() - i,
    {
        let ghost before = texts(list@);
        list.push(probes[i].expression.clone());
        assert(all[i as int] == probes@[i as int].expression@);
        assert(texts(list@) =~= before.push(all[i as int]));
        assert(all.take(i + 1) =~= all.take(i as int).push(all[i as int]));
        i = i + 1;
    }
    assert(texts(list@) =~= all);
    join_texts(&list, " ")
}

/// The lines of the first `n` components; ground has none.
pub open spec fn component_lines(
    components: Seq<Component>,
    layout: Layout,
    models: Registry,
    n: int,
) -> Result<Seq<Seq<Sign>>, Fault>
    decreases n,
{
    if n <= 0 {
        Ok(Seq::empty())
    } else {
        match component_lines(components, layout, models, n - 1) {
            Err(f) => Err(f),
            Ok(before) => if is_ground(components[n - 1]) {
                Ok(before)
            } else {
                match component_line(n - 1, components[n - 1], layout, models) {
                    Err(f) => Err(f),
                    Ok(line) => Ok(before.push(line)),
                }
            },
        }
    }
}

proof fn lemma_component_lines_stop(
    components: Seq<Component>,
    layout: Layout,
    models: Registry,
    n: int,
    m: int,
)
    requires
        0 <= m <= n,
        component_lines(components, layout, models, m) is Err,
    ensures
        component_lines(components, layout, models, n) == component_lines(
            components,
            layout,
            models,
            m,
        ),
    decreases n - m,
{
    if m < n {
        lemma_component_lines_stop(components, layout, models, n, m + 1);
    }
}

fn compile_components(
    components: &Vec<Component>,
    topology: &Topology,
    models: &CompiledModelRegistry,
) -> (r: Result<Vec<Draft>, EngineError>)
    ensures
        match (
            r,
            component_lines(components@, topology@, models@, components@.len() as int),
        ) {
            (Ok(v), Ok(s)) => drafts(v@) == s,
            (Err(e), Err(f)) => e@ == f,
            _ => false,
        },
{
    let mut out: Vec<Draft> = Vec::new();
    let mut i: usize = 0;
    assert(drafts(out@) =~= Seq::<Seq<Sign>>::empty());
    while i < components.len()
        invariant
            i <= components@.len(),
            component_lines(components@, topology@, models@, i as int) == Ok::<
                Seq<Seq<Sign>>,
                Fault,
            >(drafts(out@)),
        decreases components@.len() - i,
    {
        if !text_eq(components[i].kind.as_str(), "ground") {
            match compile_component(i, &components[i], topology, models) {
                Err(e) => {
                    proof {
                        lemma_component_lines_stop(
                            components@,
                            topology@,
                            models@,
                            components@.len() as int,
                            i + 1,
                        );
                    }
                    return Err(e);
                },
                Ok(line) => {
                    let ghost before = drafts(out@);
                    out.push(line);
                    assert(drafts(out@) =~= before.push(line@));
                },
            }
        }
        i = i + 1;
    }
    Ok(out)
}

/// The lines of the model registry, if it is not empty.
pub open spec fn model_lines(models: Registry) -> Seq<Seq<Sign>> {
    if models.netlist.len() == 0 {
        Seq::empty()
    } else {
        seq![letters("* OntologyX Sim inline model registry"@)] + plain_lines(models.netlist)
    }
}

pub fn push_model_lines(lines: &mut Vec<Draft>, models: &CompiledModelRegistry)
    ensures
        drafts(final(lines)@) == drafts(old(lines)@) + model_lines(models@),
{
    assert(texts(models.netlist@).len() == models.netlist@.len());
    if models.netlist.len() > 0 {
        push_text(lines, "* OntologyX Sim inline model registry");
        push_texts(lines, &models.netlist);
    }
    assert(drafts(lines@) =~= drafts(old(lines)@) + model_lines(models@));
}

/// A netlist and the shape of its results.
#[derive(Clone, Debug, PartialEq, Eq)]
pub struct CompiledRequest {
    pub netlist: Draft,
    pub probes: Vec<AnalogProbe>,
    pub axis_kind: AxisKind,
    pub axis_unit: Unit,
    pub complex: bool,
}

/// What a `CompiledRequest` says.
pub struct Compiled {
    pub netlist: Seq<Sign>,
    pub probes: Seq<(Seq<char>, Seq<char>)>,
    pub axis_kind: AxisKind,
    pub axis_unit: Unit,
    pub complex: bool,
}

impl View for CompiledRequest {
    type V = Compiled;

    open spec fn view(&self) -> Compiled {
        Compiled {
            netlist: self.netlist@,
            probes: probe_views(self.probes@),
            axis_kind: self.axis_kind,
            axis_unit: self.axis_unit,
            complex: self.complex,
        }
    }
}

/// The lines that run an analysis and write its results.
pub open spec fn control_lines(command: Seq<Sign>, expressions: Seq<char>) -> Seq<Seq<Sign>> {
    seq![
        letters(".control"@),
        letters("set noaskquit"@),
        letters("set wr_singlescale"@),
        letters("set wr_vecnames"@),
        letters("option numdgt=17"@),
        command,
        letters("wrdata result.txt "@ + expressions),
        letters("quit"@),
        letters(".endc"@),
        letters(".end"@),
        letters(""@),
    ]
}

/// The netlist of a request and the shape of its results.
pub open spec fn compiled_of(request: SimulationRequest) -> Result<Compiled, Fault> {
    match layout_of(request.circuit) {
        Err(f) => Err(f),
        Ok(layout) => match registry_of(request.circuit.models@) {
            Err(f) => Err(f),
            Ok(models) => match probes_of(request, layout) {
                Err(f) => Err(f),
                Ok(probes) => match plan_of(request.analysis, request.circuit, layout) {
                    Err(f) => Err(f),
                    Ok(plan) => match component_lines(
                        request.circuit.components@,
                        layout,
                        models,
                        request.circuit.components@.len() as int,
                    ) {
                        Err(f) => Err(f),
                        Ok(components) => Ok(
                            Compiled {
                                netlist: stack_of(
                                    seq![letters("* OntologyX Sim generated ngspice netlist"@)]
                                        + model_lines(models) + components + control_lines(
                                        plan.command,
                                        join_of(expressions(probes), " "@),
                                    ),
                                ),
                                probes,
                                axis_kind: plan.axis_kind,
                                axis_unit: plan.axis_unit,
                                complex: plan.complex,
                            },
                        ),
                    },
                },
            },
        },
    }
}

fn push_control_lines(lines: &mut Vec<Draft>, command: Draft, expressions: &str)
    ensures
        drafts(final(lines)@) == drafts(old(lines)@) + control_lines(command@, expressions@),
{
    let ghost start = drafts(lines@);
    push_text(lines, ".control");
    push_text(lines, "set noaskquit");
    push_text(lines, "set wr_singlescale");
    push_text(lines, "set wr_vecnames");
    push_text(lines, "option numdgt=17");
    let ghost before = drafts(lines@);
    lines.push(command);
    assert(drafts(lines@) =~= before.push(command@));
    push_text(lines, cat2("wrdata result.txt ", expressions).as_str());
    push_text(lines, "quit");
    push_text(lines, ".endc");
    push_text(lines, ".end");
    push_text(lines, "");
    assert(drafts(lines@) =~= start + control_lines(command@, expressions@));
}

pub fn compile_request(request: &SimulationRequest) -> (r: Result<CompiledRequest, EngineError>)
    ensures
        agrees(r, compiled_of(*request)),
{
    let topology = match Topology::build(&request.circuit) {
        Err(e) => {
            return Err(e);
        },
        Ok(topology) => topology,
    };
    let models = match compile_models(&request.circuit.models) {
        Err(e) => {
            return Err(e);
        },
        Ok(models) => models,
    };
    let probes = match compile_probes(request, &topology) {
        Err(e) => {
            return Err(e);
        },
        Ok(probes) => probes,
    };
    let analysis = match compile_analysis(&request.analysis, &request.circuit, &topology) {
        Err(e) => {
            return Err(e);
        },
        Ok(analysis) => analysis,
    };
    let components = match compile_components(&request.circuit.components, &topology, &models) {
        Err(e) => {
            return Err(e);
        },
        Ok(components) => components,
    };
    let mut lines: Vec<Draft> = Vec::new();
    assert(drafts(lines@) =~= Seq::<Seq<Sign>>::empty());
    push_text(&mut lines, "* OntologyX Sim generated ngspice netlist");
    assert(drafts(lines@) =~= seq![letters("* OntologyX Sim generated ngspice netlist"@)]);
    push_model_lines(&mut lines, &models);
    push_drafts(&mut lines, &components);
    let shown = join_expressions(&probes);
    push_control_lines(&mut lines, analysis.command, shown.as_str());
    Ok(
        CompiledRequest {
            netlist: stack(&lines),
            probes,
            axis_kind: analysis.axis_kind,
            axis_unit: analysis.axis_unit,
            complex: analysis.complex,
        },
    )
}

} // verus!
