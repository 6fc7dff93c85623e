//! Structural validation of circuits.
use crate::circuit::{
    parameter_of, Circuit, Component, Net, NetEndpoint, ParameterValue, Pin, PinDirection,
    SignalDomain, CIRCUIT_SCHEMA_VERSION,
};
use crate::model::{ModelDefinition, ModelKind, ModelLanguage};
use crate::number::Real;
use crate::text::{
    blank, cat2, cat3, cat4, cat5, concat_upto, decimal, decimal_text,
    find_first, find_last, from_chars, is_alphabetic_char, is_alphanumeric_char,
    is_ascii_alphabetic, is_ascii_alphanumeric, is_blank, last_at, lemma_last_at_bounds,
    parse_unsigned, slice_chars, split_once, text_eq, to_chars, trim, trim_text, unsigned,
};
use crate::units::Unit;
use vstd::prelude::*;

verus! {

#[derive(Clone, Copy, Debug, PartialEq, Eq, Hash, Structural)]
pub enum IssueSeverity {
    Warning,
    Error,
}

#[derive(Clone, Debug, PartialEq, Eq)]
pub struct ValidationIssue {
    pub severity: IssueSeverity,
    pub code: String,
    pub path: String,
    pub message: String,
}

/// What a `ValidationIssue` says.
pub struct Issue {
    pub severity: IssueSeverity,
    pub code: Seq<char>,
    pub path: Seq<char>,
    pub message: Seq<char>,
}

impl View for ValidationIssue {
    type V = Issue;

    open spec fn view(&self) -> Issue {
        Issue {
            severity: self.severity,
            code: self.code@,
            path: self.path@,
            message: self.message@,
        }
    }
}

#[derive(Clone, Debug, PartialEq, Eq)]
pub struct ValidationReport {
    pub issues: Vec<ValidationIssue>,
}

impl View for ValidationReport {
    type V = Seq<Issue>;

    open spec fn view(&self) -> Seq<Issue> {
        self.issues@.map_values(|i: ValidationIssue| i@)
    }
}

/// How many issues have this severity.
pub open spec fn count_of(issues: Seq<Issue>, severity: IssueSeverity) -> nat
    decreases issues.len(),
{
    if issues.len() == 0 {
        0
    } else {
        count_of(issues.drop_last(), severity) + if issues.last().severity == severity {
            1nat
        } else {
            0nat
        }
    }
}

/// No issue is an error.
pub open spec fn acceptable(issues: Seq<Issue>) -> bool {
    forall|i: int| 0 <= i < issues.len() ==> (#[trigger] issues[i]).severity != IssueSeverity::Error
}

proof fn lemma_count_bound(issues: Seq<Issue>, severity: IssueSeverity)
    ensures
        count_of(issues, severity) <= issues.len(),
    decreases issues.len(),
{
    if issues.len() > 0 {
        lemma_count_bound(issues.drop_last(), severity);
    }
}

/// A report is valid exactly when it counts no errors, and every issue is
/// counted once, as an error or as a warning.
pub proof fn report_counts(issues: Seq<Issue>)
    ensures
        acceptable(issues) <==> count_of(issues, IssueSeverity::Error) == 0,
        count_of(issues, IssueSeverity::Error) + count_of(issues, IssueSeverity::Warning)
            == issues.len(),
    decreases issues.len(),
{
    if issues.len() > 0 {
        let rest = issues.drop_last();
        report_counts(rest);
        if acceptable(issues) {
            assert forall|i: int| 0 <= i < rest.len() implies (#[trigger] rest[i]).severity
                != IssueSeverity::Error by {
                assert(issues[i].severity != IssueSeverity::Error);
            }
            assert(issues[issues.len() - 1].severity != IssueSeverity::Error);
        }
        if count_of(issues, IssueSeverity::Error) == 0 {
            assert forall|i: int| 0 <= i < issues.len() implies (#[trigger] issues[i]).severity
                != IssueSeverity::Error by {
                if i < rest.len() {
                    assert(rest[i].severity != IssueSeverity::Error);
                }
            }
        }
    }
}

impl ValidationReport {
    pub fn new() -> (r: Self)
        ensures
            r@ == Seq::<Issue>::empty(),
    {
        let r = ValidationReport { issues: Vec::new() };
        assert(r@ =~= Seq::<Issue>::empty());
        r
    }

    fn count(&self, severity: IssueSeverity) -> (r: usize)
        ensures
            r == count_of(self@, severity),
    {
        let mut n: usize = 0;
        let mut i: usize = 0;
        while i < self.issues.len()
            invariant
                i <= self.issues@.len(),
                self@.len() == self.issues@.len(),
                n == count_of(self@.take(i as int), severity),
                n <= i,
            decreases self.issues@.len() - i,
        {
            assert(self@.take(i + 1).drop_last() =~= self@.take(i as int));
            if self.issues[i].severity == severity {
                n = n + 1;
            }
            i = i + 1;
        }
        assert(self@.take(i as int) =~= self@);
        n
    }

    pub fn is_valid(&self) -> (r: bool)
        ensures
            r == acceptable(self@),
    {
        proof {
            report_counts(self@);
        }
        self.count(IssueSeverity::Error) == 0
    }

    pub fn error_count(&self) -> (r: usize)
        ensures
            r == count_of(self@, IssueSeverity::Error),
    {
        self.count(IssueSeverity::Error)
    }

    pub fn warning_count(&self) -> (r: usize)
        ensures
            r == count_of(self@, IssueSeverity::Warning),
    {
        self.count(IssueSeverity::Warning)
    }

    fn push(&mut self, severity: IssueSeverity, code: &str, path: String, message: String)
        ensures
            final(self)@ == old(self)@ + seq![
                (Issue { severity, code: code@, path: path@, message: message@ }),
            ],
    {
        let ghost before = self.issues@;
        self.issues.push(ValidationIssue { severity, code: code.to_owned(), path, message });
        assert(self@ =~= before.map_values(|i: ValidationIssue| i@) + seq![
            (Issue { severity, code: code@, path: path@, message: message@ }),
        ]);
    }

    fn error(&mut self, code: &str, path: String, message: String)
        ensures
            final(self)@ == old(self)@ + error(code@, path@, message@),
    {
        self.push(IssueSeverity::Error, code, path, message)
    }

    fn warning(&mut self, code: &str, path: String, message: String)
        ensures
            final(self)@ == old(self)@ + warning(code@, path@, message@),
    {
        self.push(IssueSeverity::Warning, code, path, message)
    }
}

impl Default for ValidationReport {
    fn default() -> (r: Self)
        ensures
            r@ == Seq::<Issue>::empty(),
    {
        ValidationReport::new()
    }
}

/// One error.
pub open spec fn error(code: Seq<char>, path: Seq<char>, message: Seq<char>) -> Seq<Issue> {
    seq![(Issue { severity: IssueSeverity::Error, code, path, message })]
}

/// One warning.
pub open spec fn warning(code: Seq<char>, path: Seq<char>, message: Seq<char>) -> Seq<Issue> {
    seq![(Issue { severity: IssueSeverity::Warning, code, path, message })]
}

pub open spec fn none() -> Seq<Issue> {
    Seq::empty()
}

/// `list[index]`
pub open spec fn item_path(list: Seq<char>, index: int) -> Seq<char> {
    list + "["@ + decimal(index as nat) + "]"@
}

fn item_text(list: &str, index: usize) -> (r: String)
    ensures
        r@ == item_path(list@, index as int),
{
    cat4(list, "[", decimal_text(index as u64).as_str(), "]")
}

/// Whether an earlier model has the same name.
pub open spec fn model_repeated(models: Seq<ModelDefinition>, i: int) -> bool {
    exists|j: int| 0 <= j < i && trim((#[trigger] models[j]).id@) == trim(models[i].id@)
}

pub open spec fn language_fits(model: ModelDefinition) -> bool {
    match model.kind {
        ModelKind::Device | ModelKind::Subcircuit => model.language == ModelLanguage::Spice,
        ModelKind::Module => model.language == ModelLanguage::Verilog || model.language
            == ModelLanguage::SystemVerilog,
    }
}

/// What is wrong with one model.
pub open spec fn model_issues(models: Seq<ModelDefinition>, i: int) -> Seq<Issue> {
    let model = models[i];
    let path = item_path("models"@, i);
    let id = trim(model.id@);
    (if id.len() == 0 {
        error("empty_model_id"@, path + ".id"@, "model id must not be empty"@)
    } else if model_repeated(models, i) {
        error("duplicate_model_id"@, path + ".id"@, "duplicate model id `"@ + id + "`"@)
    } else {
        none()
    }) + (if is_blank(model.entry@) {
        error("empty_model_entry"@, path + ".entry"@, "model entry must not be empty"@)
    } else {
        none()
    }) + (if is_blank(model.source@) {
        error("empty_model_source"@, path + ".source"@, "model source must not be empty"@)
    } else {
        none()
    }) + (if !language_fits(model) {
        error(
            "incompatible_model_language"@,
            path + ".language"@,
            "model kind "@ + model.kind.spec_name() + " is incompatible with language "@
                + model.language.spec_name(),
        )
    } else {
        none()
    })
}

/// The model that a name stands for: the last one of that name.
pub open spec fn model_named(
    models: Seq<ModelDefinition>,
    name: Seq<char>,
) -> Option<ModelDefinition>
    decreases models.len(),
{
    if models.len() == 0 {
        None
    } else if name.len() > 0 && trim(models.last().id@) == name {
        Some(models.last())
    } else {
        model_named(models.drop_last(), name)
    }
}

/// The index of the component that a name stands for: the first one of that
/// name.
pub open spec fn component_named(components: Seq<Component>, name: Seq<char>) -> Option<int>
    decreases components.len(),
{
    if components.len() == 0 {
        None
    } else {
        match component_named(components.drop_last(), name) {
            Some(i) => Some(i),
            None => if name.len() > 0 && trim(components.last().id@) == name {
                Some(components.len() - 1)
            } else {
                None
            },
        }
    }
}

/// The pin that a name stands for: the last one of that name.
pub open spec fn pin_named(pins: Seq<Pin>, name: Seq<char>) -> Option<Pin>
    decreases pins.len(),
{
    if pins.len() == 0 {
        None
    } else if name.len() > 0 && trim(pins.last().id@) == name {
        Some(pins.last())
    } else {
        pin_named(pins.drop_last(), name)
    }
}

pub open spec fn pin_repeated(pins: Seq<Pin>, j: int) -> bool {
    exists|k: int| 0 <= k < j && trim((#[trigger] pins[k]).id@) == trim(pins[j].id@)
}

pub open spec fn pin_issues(component: Component, path: Seq<char>, j: int) -> Seq<Issue> {
    let pin = component.pins@[j];
    let id = trim(pin.id@);
    let pin_path = item_path(path + ".pins"@, j);
    if id.len() == 0 {
        error("empty_pin_id"@, pin_path + ".id"@, "pin id must not be empty"@)
    } else if pin_repeated(component.pins@, j) {
        error(
            "duplicate_pin_id"@,
            pin_path + ".id"@,
            "duplicate pin id `"@ + id + "` on component `"@ + trim(component.id@) + "`"@,
        )
    } else {
        none()
    }
}

pub open spec fn value_finite(value: ParameterValue) -> bool {
    match value {
        ParameterValue::Number(number) => number.finite(),
        ParameterValue::Quantity(quantity) => quantity.value.finite(),
        _ => true,
    }
}

pub open spec fn parameter_issues(component: Component, path: Seq<char>, j: int) -> Seq<Issue> {
    let (name, value) = component.parameters@[j];
    (if is_blank(name) {
        error(
            "empty_parameter_name"@,
            path + ".parameters"@,
            "parameter name must not be empty"@,
        )
    } else {
        none()
    }) + (if !value_finite(value) {
        error(
            "non_finite_parameter"@,
            path + ".parameters."@ + name,
            "numeric parameters must be finite"@,
        )
    } else {
        none()
    })
}

/// The kind of model that a component must name.
pub open spec fn wanted_model(kind: Seq<char>) -> Option<ModelKind> {
    if kind == "diode"@ || kind == "bjt"@ || kind == "mosfet"@ {
        Some(ModelKind::Device)
    } else if kind == "op_amp"@ || kind == "subcircuit"@ {
        Some(ModelKind::Subcircuit)
    } else {
        None
    }
}

pub open spec fn model_reference_issues(
    component: Component,
    path: Seq<char>,
    models: Seq<ModelDefinition>,
) -> Seq<Issue> {
    let at = path + ".parameters.model"@;
    match wanted_model(component.kind@) {
        None => none(),
        Some(wanted) => match parameter_of(component.parameters@, "model"@) {
            None => error(
                "missing_model_reference"@,
                at,
                "component requires a `model` reference"@,
            ),
            Some(ParameterValue::Text(name)) => if is_blank(name@) {
                error(
                    "invalid_model_reference"@,
                    at,
                    "model reference must be a non-empty string"@,
                )
            } else {
                match model_named(models, name@) {
                    None => error("unknown_model"@, at, "unknown model `"@ + name@ + "`"@),
                    Some(model) => if model.kind != wanted {
                        error(
                            "incompatible_model_kind"@,
                            at,
                            "model `"@ + name@ + "` has kind "@ + model.kind.spec_name()
                                + ", expected "@ + wanted.spec_name(),
                        )
                    } else {
                        none()
                    },
                }
            },
            Some(_) => error(
                "invalid_model_reference"@,
                at,
                "model reference must be a non-empty string"@,
            ),
        },
    }
}

/// The first pin with exactly this name.
pub open spec fn pin_at(pins: Seq<Pin>, name: Seq<char>) -> Option<int>
    decreases pins.len(),
{
    if pins.len() == 0 {
        None
    } else {
        match pin_at(pins.drop_last(), name) {
            Some(i) => Some(i),
            None => if pins.last().id@ == name {
                Some(pins.len() - 1)
            } else {
                None
            },
        }
    }
}

#[verifier::opaque]
pub open spec fn bridge_pin_issues(
    component: Component,
    path: Seq<char>,
    name: Seq<char>,
    domain: SignalDomain,
    direction: PinDirection,
) -> Seq<Issue> {
    match pin_at(component.pins@, name) {
        None => error(
            "mixed_signal_bridge_pin_missing"@,
            path + ".pins"@,
            "bridge requires pin `"@ + name + "`"@,
        ),
        Some(i) => {
            let pin = component.pins@[i];
            let pin_path = item_path(path + ".pins"@, i);
            (if pin.domain != domain {
                error(
                    "mixed_signal_bridge_pin_domain"@,
                    pin_path + ".domain"@,
                    "pin `"@ + name + "` must use "@ + domain.spec_name() + " domain"@,
                )
            } else {
                none()
            }) + (if pin.direction != direction {
                error(
                    "mixed_signal_bridge_pin_direction"@,
                    pin_path + ".direction"@,
                    "pin `"@ + name + "` must use "@ + direction.spec_name() + " direction"@,
                )
            } else {
                none()
            })
        },
    }
}

/// What a bridge parameter is, and what is wrong with it.
#[verifier::opaque]
pub open spec fn bridge_quantity(
    component: Component,
    path: Seq<char>,
    key: Seq<char>,
    unit: Unit,
    required: bool,
    non_negative: bool,
) -> (Option<Real>, Seq<Issue>) {
    let at = path + ".parameters."@ + key;
    let number = match parameter_of(component.parameters@, key) {
        Some(ParameterValue::Number(value)) => Some(value),
        Some(ParameterValue::Quantity(quantity)) => if quantity.unit == unit {
            Some(quantity.value)
        } else {
            None
        },
        _ => None,
    };
    match number {
        None => (
            None,
            match parameter_of(component.parameters@, key) {
                None => if required {
                    error(
                        "mixed_signal_bridge_parameter_missing"@,
                        at,
                        "bridge requires parameter `"@ + key + "`"@,
                    )
                } else {
                    none()
                },
                Some(ParameterValue::Quantity(quantity)) => error(
                    "mixed_signal_bridge_parameter_unit"@,
                    at,
                    "parameter `"@ + key + "` has unit "@ + quantity.unit.spec_name()
                        + ", expected "@ + unit.spec_name(),
                ),
                Some(_) => error(
                    "mixed_signal_bridge_parameter_type"@,
                    at,
                    "parameter `"@ + key + "` must be numeric or an "@ + unit.spec_name()
                        + " quantity"@,
                ),
            },
        ),
        Some(value) => if !value.finite() {
            (
                None,
                error(
                    "mixed_signal_bridge_parameter_non_finite"@,
                    at,
                    "parameter `"@ + key + "` must be finite"@,
                ),
            )
        } else if non_negative && value.key() < 0 {
            (
                None,
                error(
                    "mixed_signal_bridge_parameter_negative"@,
                    at,
                    "parameter `"@ + key + "` must be non-negative"@,
                ),
            )
        } else {
            (Some(value), none())
        },
    }
}

/// A window of two bridge parameters, the first strictly below the second.
#[verifier::opaque]
pub open spec fn window_issues(
    component: Component,
    path: Seq<char>,
    low_key: Seq<char>,
    high_key: Seq<char>,
    code: Seq<char>,
    message: Seq<char>,
) -> Seq<Issue> {
    let (low, low_issues) = bridge_quantity(component, path, low_key, Unit::Volt, true, false);
    let (high, high_issues) = bridge_quantity(component, path, high_key, Unit::Volt, true, false);
    low_issues + high_issues + (match (low, high) {
        (Some(l), Some(h)) => if h.at_most(l) {
            error(code, path + ".parameters"@, message)
        } else {
            none()
        },
        _ => none(),
    })
}

pub open spec fn adc_issues(component: Component, path: Seq<char>) -> Seq<Issue> {
    bridge_pin_issues(component, path, "analog_in"@, SignalDomain::Analog, PinDirection::Input)
        + bridge_pin_issues(
        component,
        path,
        "digital_out"@,
        SignalDomain::Digital,
        PinDirection::Output,
    ) + window_issues(
        component,
        path,
        "low_threshold"@,
        "high_threshold"@,
        "invalid_adc_threshold_window"@,
        "adc_bridge low_threshold must be strictly below high_threshold"@,
    ) + bridge_quantity(component, path, "rise_delay"@, Unit::Second, false, true).1
        + bridge_quantity(component, path, "fall_delay"@, Unit::Second, false, true).1
}

pub open spec fn dac_issues(component: Component, path: Seq<char>) -> Seq<Issue> {
    bridge_pin_issues(component, path, "digital_in"@, SignalDomain::Digital, PinDirection::Input)
        + bridge_pin_issues(
        component,
        path,
        "analog_out"@,
        SignalDomain::Analog,
        PinDirection::Output,
    ) + window_issues(
        component,
        path,
        "low_voltage"@,
        "high_voltage"@,
        "invalid_dac_voltage_window"@,
        "dac_bridge low_voltage must be strictly below high_voltage"@,
    ) + bridge_quantity(component, path, "unknown_voltage"@, Unit::Volt, false, false).1
        + bridge_quantity(component, path, "rise_time"@, Unit::Second, false, true).1
        + bridge_quantity(component, path, "fall_time"@, Unit::Second, false, true).1
        + bridge_quantity(component, path, "input_load"@, Unit::Farad, false, true).1
}

pub open spec fn bridge_issues(component: Component, path: Seq<char>) -> Seq<Issue> {
    if component.kind@ == "adc_bridge"@ {
        adc_issues(component, path)
    } else if component.kind@ == "dac_bridge"@ {
        dac_issues(component, path)
    } else {
        none()
    }
}

/// A letter or underscore, then letters, digits and underscores; dollar signs
/// too where `dollar` allows them.
pub open spec fn identifier(s: Seq<char>, dollar: bool) -> bool {
    &&& s.len() > 0
    &&& s[0] == '_' || is_ascii_alphabetic(s[0])
    &&& forall|i: int|
        0 < i < s.len() ==> #[trigger] s[i] == '_' || (dollar && s[i] == '$')
            || is_ascii_alphanumeric(s[i])
}

/// `peripheral@pin`
pub open spec fn gpio_mapping(s: Seq<char>) -> bool {
    match split_once(s, '@') {
        Some((peripheral, pin)) => identifier(peripheral, false) && unsigned(
            pin,
            u32::MAX as nat,
        ) is Some,
        None => false,
    }
}

/// `port` or `port[bit]`
pub open spec fn port_reference(s: Seq<char>) -> bool {
    let open = last_at(s, '[');
    ||| identifier(s, true)
    ||| open >= 0 && s.last() == ']' && identifier(s.take(open), true) && unsigned(
        s.subrange(open + 1, s.len() - 1),
        usize::MAX as nat,
    ) is Some
}

pub open spec fn hdl_model_issues(
    component: Component,
    path: Seq<char>,
    models: Seq<ModelDefinition>,
) -> Seq<Issue> {
    let at = path + ".parameters.model"@;
    match parameter_of(component.parameters@, "model"@) {
        None => error("missing_model_reference"@, at, "hdl_module requires a `model` reference"@),
        Some(ParameterValue::Text(name)) => if is_blank(name@) {
            error(
                "invalid_model_reference"@,
                at,
                "HDL model reference must be a non-empty string"@,
            )
        } else {
            match model_named(models, name@) {
                None => error("unknown_model"@, at, "unknown HDL model `"@ + name@ + "`"@),
                Some(model) => if model.kind == ModelKind::Module && model.language
                    != ModelLanguage::Spice {
                    none()
                } else {
                    error(
                        "incompatible_hdl_model"@,
                        at,
                        "HDL component requires a Verilog/SystemVerilog module model; `"@ + name@
                            + "` is "@ + model.language.spec_name() + "/"@
                            + model.kind.spec_name(),
                    )
                },
            }
        },
        Some(_) => error(
            "invalid_model_reference"@,
            at,
            "HDL model reference must be a non-empty string"@,
        ),
    }
}

/// Whether an earlier pin has the same mapping; only names that are mappings
/// count.
pub open spec fn mapping_repeated(pins: Seq<Pin>, j: int) -> bool {
    exists|k: int| 0 <= k < j && trim((#[trigger] pins[k]).name@) == trim(pins[j].name@)
}

pub open spec fn hdl_pin_issues(component: Component, path: Seq<char>, j: int) -> Seq<Issue> {
    let pin = component.pins@[j];
    let pin_path = item_path(path + ".pins"@, j);
    let mapping = trim(pin.name@);
    (if pin.domain != SignalDomain::Digital {
        error(
            "hdl_pin_domain"@,
            pin_path + ".domain"@,
            "HDL pin `"@ + pin.id@ + "` must use the digital domain"@,
        )
    } else {
        none()
    }) + (if pin.direction != PinDirection::Input && pin.direction != PinDirection::Output {
        error(
            "hdl_pin_direction"@,
            pin_path + ".direction"@,
            "HDL pin `"@ + pin.id@
                + "` must be Input or Output in R5; inout is deferred to a later co-simulation boundary"@,
        )
    } else {
        none()
    }) + (if !port_reference(mapping) {
        error(
            "hdl_pin_mapping_invalid"@,
            pin_path + ".name"@,
            "HDL pin `"@ + pin.id@ + "` name must map to `port` or `port[bit]`"@,
        )
    } else if mapping_repeated(component.pins@, j) {
        error(
            "hdl_pin_mapping_duplicate"@,
            pin_path + ".name"@,
            "HDL port mapping `"@ + mapping + "` appears more than once"@,
        )
    } else {
        none()
    })
}

/// The part of a name behind `param.`.
pub open spec fn override_name(name: Seq<char>) -> Option<Seq<char>> {
    if name.len() >= 6 && name.take(6) == "param."@ {
        Some(name.skip(6))
    } else {
        None
    }
}

pub open spec fn override_issues(component: Component, path: Seq<char>, j: int) -> Seq<Issue> {
    let key = component.parameters@[j].0;
    match override_name(key) {
        Some(name) => if !identifier(name, true) {
            error(
                "hdl_parameter_name_invalid"@,
                path + ".parameters."@ + key,
                "HDL parameter override `"@ + name + "` is not a safe identifier"@,
            )
        } else {
            none()
        },
        None => none(),
    }
}

pub open spec fn hdl_issues(
    component: Component,
    path: Seq<char>,
    models: Seq<ModelDefinition>,
) -> Seq<Issue> {
    if component.kind@ != "hdl_module"@ {
        none()
    } else {
        hdl_model_issues(component, path, models) + (if component.pins@.len() == 0 {
            error(
                "hdl_module_has_no_pins"@,
                path + ".pins"@,
                "hdl_module must expose at least one digital input/output pin"@,
            )
        } else {
            none()
        }) + concat_upto(
            component.pins@.len() as int,
            |j: int| hdl_pin_issues(component, path, j),
        ) + concat_upto(
            component.parameters@.len() as int,
            |j: int| override_issues(component, path, j),
        )
    }
}

pub open spec fn mcu_pin_issues(component: Component, path: Seq<char>, j: int) -> Seq<Issue> {
    let pin = component.pins@[j];
    let pin_path = item_path(path + ".pins"@, j);
    let mapping = trim(pin.name@);
    (if pin.domain != SignalDomain::Digital {
        error(
            "mcu_pin_domain"@,
            pin_path + ".domain"@,
            "MCU pin `"@ + pin.id@ + "` must use the digital domain in R6"@,
        )
    } else {
        none()
    }) + (if pin.direction != PinDirection::Output {
        error(
            "mcu_pin_direction"@,
            pin_path + ".direction"@,
            "MCU pin `"@ + pin.id@
                + "` must be Output in R6; input/bidirectional synchronization belongs to the shared co-simulation scheduler"@,
        )
    } else {
        none()
    }) + (if !gpio_mapping(mapping) {
        error(
            "mcu_pin_mapping_invalid"@,
            pin_path + ".name"@,
            "MCU pin `"@ + pin.id@
                + "` name must map to a Renode GPIO as `peripheral@pin`, for example `gpioPortD@12`"@,
        )
    } else if mapping_repeated(component.pins@, j) {
        error(
            "mcu_pin_mapping_duplicate"@,
            pin_path + ".name"@,
            "Renode GPIO mapping `"@ + mapping + "` appears more than once"@,
        )
    } else {
        none()
    })
}

pub open spec fn mcu_issues(component: Component, path: Seq<char>) -> Seq<Issue> {
    if component.kind@ != "mcu"@ {
        none()
    } else if component.pins@.len() == 0 {
        error(
            "mcu_has_no_pins"@,
            path + ".pins"@,
            "mcu must expose at least one GPIO output pin in R6"@,
        )
    } else {
        concat_upto(component.pins@.len() as int, |j: int| mcu_pin_issues(component, path, j))
    }
}

pub open spec fn component_repeated(components: Seq<Component>, i: int) -> bool {
    exists|j: int| 0 <= j < i && trim((#[trigger] components[j]).id@) == trim(components[i].id@)
}

/// What is wrong with the pins, the parameters and the model of a component.
pub open spec fn content_issues(
    component: Component,
    path: Seq<char>,
    models: Seq<ModelDefinition>,
) -> Seq<Issue> {
    concat_upto(component.pins@.len() as int, |j: int| pin_issues(component, path, j)) + (
    if component.pins@.len() == 0 {
        warning("component_has_no_pins"@, path + ".pins"@, "component has no pins"@)
    } else {
        none()
    }) + concat_upto(
        component.parameters@.len() as int,
        |j: int| parameter_issues(component, path, j),
    ) + model_reference_issues(component, path, models) + bridge_issues(component, path)
        + hdl_issues(component, path, models) + mcu_issues(component, path)
}

pub open spec fn component_issues(circuit: Circuit, i: int) -> Seq<Issue> {
    let component = circuit.components@[i];
    let path = item_path("components"@, i);
    let id = trim(component.id@);
    if id.len() == 0 {
        error("empty_component_id"@, path + ".id"@, "component id must not be empty"@)
    } else {
        (if is_blank(component.kind@) {
            error("empty_component_kind"@, path + ".kind"@, "component kind must not be empty"@)
        } else {
            none()
        }) + (if component_repeated(circuit.components@, i) {
            error("duplicate_component_id"@, path + ".id"@, "duplicate component id `"@ + id + "`"@)
        } else {
            content_issues(component, path, circuit.models@)
        })
    }
}

/// The pin that an endpoint names.
pub open spec fn pin_of(components: Seq<Component>, endpoint: NetEndpoint) -> Option<Pin> {
    match component_named(components, endpoint.component@) {
        Some(i) => pin_named(components[i].pins@, endpoint.pin@),
        None => None,
    }
}

pub open spec fn endpoint_repeated(endpoints: Seq<NetEndpoint>, j: int) -> bool {
    exists|k: int| 0 <= k < j && (#[trigger] endpoints[k])@ == endpoints[j]@
}

pub open spec fn endpoint_issues(
    components: Seq<Component>,
    endpoints: Seq<NetEndpoint>,
    net_path: Seq<char>,
    j: int,
) -> Seq<Issue> {
    let endpoint = endpoints[j];
    let path = item_path(net_path + ".endpoints"@, j);
    (if endpoint_repeated(endpoints, j) {
        error(
            "duplicate_net_endpoint"@,
            path,
            "the same endpoint appears more than once on this net"@,
        )
    } else {
        none()
    }) + (if component_named(components, endpoint.component@) is None {
        error(
            "unknown_component"@,
            path + ".component"@,
            "unknown component `"@ + endpoint.component@ + "`"@,
        )
    } else if pin_of(components, endpoint) is None {
        error(
            "unknown_pin"@,
            path + ".pin"@,
            "unknown pin `"@ + endpoint.pin@ + "` on component `"@ + endpoint.component@ + "`"@,
        )
    } else {
        none()
    })
}

/// Whether an endpoint names a pin of this domain.
pub open spec fn lands_in(
    components: Seq<Component>,
    endpoint: NetEndpoint,
    domain: SignalDomain,
) -> bool {
    match pin_of(components, endpoint) {
        Some(pin) => pin.domain == domain,
        None => false,
    }
}

/// Whether the first `n` endpoints reach a pin of this domain.
pub open spec fn reaches(
    components: Seq<Component>,
    endpoints: Seq<NetEndpoint>,
    n: int,
    domain: SignalDomain,
) -> bool {
    exists|j: int| 0 <= j < n && #[trigger] lands_in(components, endpoints[j], domain)
}

pub open spec fn drives(components: Seq<Component>, endpoint: NetEndpoint) -> bool {
    match pin_of(components, endpoint) {
        Some(pin) => pin.domain == SignalDomain::Digital && (pin.direction == PinDirection::Output
            || pin.direction == PinDirection::Bidirectional),
        None => false,
    }
}

/// How many of the first `n` endpoints drive a digital level.
pub open spec fn driver_count(
    components: Seq<Component>,
    endpoints: Seq<NetEndpoint>,
    n: int,
) -> nat
    decreases n,
{
    if n <= 0 {
        0
    } else {
        driver_count(components, endpoints, n - 1) + if drives(components, endpoints[n - 1]) {
            1nat
        } else {
            0nat
        }
    }
}

pub open spec fn net_repeated(nets: Seq<Net>, i: int) -> bool {
    exists|j: int| 0 <= j < i && trim((#[trigger] nets[j]).id@) == trim(nets[i].id@)
}

/// What the domains of the pins on a net ask for.
pub open spec fn domain_issues(
    components: Seq<Component>,
    endpoints: Seq<NetEndpoint>,
    path: Seq<char>,
) -> Seq<Issue> {
    let n = endpoints.len() as int;
    let digital = reaches(components, endpoints, n, SignalDomain::Digital);
    let analog = reaches(components, endpoints, n, SignalDomain::Analog);
    let reference = reaches(components, endpoints, n, SignalDomain::Reference);
    let mixed = reaches(components, endpoints, n, SignalDomain::Mixed);
    (if digital && !analog && !reference && !mixed && driver_count(components, endpoints, n) > 1 {
        warning(
            "multiple_digital_drivers_resolved"@,
            path + ".endpoints"@,
            "multiple digital drivers are resolved by the event engine using Z/X contention semantics"@,
        )
    } else {
        none()
    }) + (if digital && (analog || reference) {
        error(
            "mixed_signal_bridge_required"@,
            path + ".endpoints"@,
            "analog/reference and digital pins cannot share one net; connect them through separate adc_bridge/dac_bridge pins"@,
        )
    } else {
        none()
    })
}

pub open spec fn net_issues(circuit: Circuit, i: int) -> Seq<Issue> {
    let net = circuit.nets@[i];
    let path = item_path("nets"@, i);
    let id = trim(net.id@);
    (if id.len() == 0 {
        error("empty_net_id"@, path + ".id"@, "net id must not be empty"@)
    } else if net_repeated(circuit.nets@, i) {
        error("duplicate_net_id"@, path + ".id"@, "duplicate net id `"@ + id + "`"@)
    } else {
        none()
    }) + (if net.endpoints@.len() < 2 {
        warning("dangling_net"@, path + ".endpoints"@, "net has fewer than two endpoints"@)
    } else {
        none()
    }) + concat_upto(
        net.endpoints@.len() as int,
        |j: int| endpoint_issues(circuit.components@, net.endpoints@, path, j),
    ) + domain_issues(circuit.components@, net.endpoints@, path)
}

pub open spec fn schema_issues(circuit: Circuit) -> Seq<Issue> {
    if circuit.schema_version != CIRCUIT_SCHEMA_VERSION {
        error(
            "unsupported_schema_version"@,
            "schema_version"@,
            "expected schema version "@ + decimal(CIRCUIT_SCHEMA_VERSION as nat) + ", got "@
                + decimal(circuit.schema_version as nat),
        )
    } else {
        none()
    }
}

/// Everything that is wrong with a circuit, in the order of its parts.
pub open spec fn circuit_issues(circuit: Circuit) -> Seq<Issue> {
    schema_issues(circuit) + concat_upto(
        circuit.models@.len() as int,
        |i: int| model_issues(circuit.models@, i),
    ) + concat_upto(circuit.components@.len() as int, |i: int| component_issues(circuit, i))
        + concat_upto(circuit.nets@.len() as int, |i: int| net_issues(circuit, i))
}

/// A model that stands for itself: it has a name of its own, an entry and a
/// source, and its language is one for its kind.
pub open spec fn model_sound(models: Seq<ModelDefinition>, i: int) -> bool {
    &&& trim(models[i].id@).len() > 0
    &&& !model_repeated(models, i)
    &&& !is_blank(models[i].entry@)
    &&& !is_blank(models[i].source@)
    &&& language_fits(models[i])
}

/// A component with a kind and a name of its own, whose pins have names of their
/// own, and whose parameters are named and finite.
pub open spec fn component_sound(components: Seq<Component>, i: int) -> bool {
    let component = components[i];
    &&& trim(component.id@).len() > 0
    &&& !component_repeated(components, i)
    &&& !is_blank(component.kind@)
    &&& forall|j: int|
        0 <= j < component.pins@.len() ==> trim((#[trigger] component.pins@[j]).id@).len() > 0
            && !pin_repeated(component.pins@, j)
    &&& forall|j: int|
        0 <= j < component.parameters@.len() ==> !is_blank((#[trigger] component.parameters@[j]).0)
            && value_finite(component.parameters@[j].1)
}

/// A net with a name of its own, whose endpoints are different pins of the
/// circuit and do not join a digital pin to an analog one.
pub open spec fn net_sound(circuit: Circuit, i: int) -> bool {
    let components = circuit.components@;
    let endpoints = circuit.nets@[i].endpoints@;
    let n = endpoints.len() as int;
    &&& trim(circuit.nets@[i].id@).len() > 0
    &&& !net_repeated(circuit.nets@, i)
    &&& forall|j: int|
        0 <= j < n ==> pin_of(components, #[trigger] endpoints[j]) is Some && !endpoint_repeated(
            endpoints,
            j,
        )
    &&& reaches(components, endpoints, n, SignalDomain::Digital) ==> !reaches(
        components,
        endpoints,
        n,
        SignalDomain::Analog,
    ) && !reaches(components, endpoints, n, SignalDomain::Reference)
}

proof fn lemma_acceptable_parts(a: Seq<Issue>, b: Seq<Issue>)
    requires
        acceptable(a + b),
    ensures
        acceptable(a),
        acceptable(b),
{
    assert forall|i: int| 0 <= i < a.len() implies (#[trigger] a[i]).severity
        != IssueSeverity::Error by {
        assert((a + b)[i] == a[i]);
    }
    assert forall|i: int| 0 <= i < b.len() implies (#[trigger] b[i]).severity
        != IssueSeverity::Error by {
        assert((a + b)[i + a.len()] == b[i]);
    }
}

proof fn lemma_acceptable_item(n: int, f: spec_fn(int) -> Seq<Issue>, i: int)
    requires
        acceptable(concat_upto(n, f)),
        0 <= i < n,
    ensures
        acceptable(f(i)),
    decreases n,
{
    lemma_acceptable_parts(concat_upto(n - 1, f), f(n - 1));
    if i < n - 1 {
        lemma_acceptable_item(n - 1, f, i);
    }
}

proof fn lemma_error_unacceptable(code: Seq<char>, path: Seq<char>, message: Seq<char>)
    ensures
        !acceptable(error(code, path, message)),
{
    assert(error(code, path, message)[0].severity == IssueSeverity::Error);
}

/// No list of one error is acceptable.
spec fn errors_count() -> bool {
    forall|code: Seq<char>, path: Seq<char>, message: Seq<char>|
        !acceptable(#[trigger] error(code, path, message))
}

proof fn lemma_errors_count()
    ensures
        errors_count(),
{
    assert forall|code: Seq<char>, path: Seq<char>, message: Seq<char>| !acceptable(
        #[trigger] error(code, path, message),
    ) by {
        lemma_error_unacceptable(code, path, message);
    }
}

proof fn lemma_model_sound(models: Seq<ModelDefinition>, i: int)
    requires
        acceptable(model_issues(models, i)),
    ensures
        model_sound(models, i),
{
    lemma_errors_count();
    let model = models[i];
    let path = item_path("models"@, i);
    let id = trim(model.id@);
    let a = if id.len() == 0 {
        error("empty_model_id"@, path + ".id"@, "model id must not be empty"@)
    } else if model_repeated(models, i) {
        error("duplicate_model_id"@, path + ".id"@, "duplicate model id `"@ + id + "`"@)
    } else {
        none()
    };
    let b = if is_blank(model.entry@) {
        error("empty_model_entry"@, path + ".entry"@, "model entry must not be empty"@)
    } else {
        none()
    };
    let c = if is_blank(model.source@) {
        error("empty_model_source"@, path + ".source"@, "model source must not be empty"@)
    } else {
        none()
    };
    let d = if !language_fits(model) {
        error(
            "incompatible_model_language"@,
            path + ".language"@,
            "model kind "@ + model.kind.spec_name() + " is incompatible with language "@
                + model.language.spec_name(),
        )
    } else {
        none()
    };
    lemma_acceptable_parts(a + b + c, d);
    lemma_acceptable_parts(a + b, c);
    lemma_acceptable_parts(a, b);
}

proof fn lemma_contents_sound(component: Component, path: Seq<char>, models: Seq<ModelDefinition>)
    requires
        acceptable(content_issues(component, path, models)),
    ensures
        forall|j: int|
            0 <= j < component.pins@.len() ==> trim((#[trigger] component.pins@[j]).id@).len() > 0
                && !pin_repeated(component.pins@, j),
        forall|j: int|
            0 <= j < component.parameters@.len() ==> !is_blank(
                (#[trigger] component.parameters@[j]).0,
            ) && value_finite(component.parameters@[j].1),
{
    lemma_errors_count();
    let f = |j: int| pin_issues(component, path, j);
    let g = |j: int| parameter_issues(component, path, j);
    let pins = concat_upto(component.pins@.len() as int, f);
    let bare = if component.pins@.len() == 0 {
        warning("component_has_no_pins"@, path + ".pins"@, "component has no pins"@)
    } else {
        none()
    };
    let parameters = concat_upto(component.parameters@.len() as int, g);
    let model = model_reference_issues(component, path, models);
    let bridge = bridge_issues(component, path);
    let hdl = hdl_issues(component, path, models);
    let mcu = mcu_issues(component, path);
    assert(content_issues(component, path, models) == pins + bare + parameters + model + bridge
        + hdl + mcu);
    lemma_acceptable_parts(pins + bare + parameters + model + bridge + hdl, mcu);
    lemma_acceptable_parts(pins + bare + parameters + model + bridge, hdl);
    lemma_acceptable_parts(pins + bare + parameters + model, bridge);
    lemma_acceptable_parts(pins + bare + parameters, model);
    lemma_acceptable_parts(pins + bare, parameters);
    lemma_acceptable_parts(pins, bare);
    assert forall|j: int| 0 <= j < component.pins@.len() implies trim(
        (#[trigger] component.pins@[j]).id@,
    ).len() > 0 && !pin_repeated(component.pins@, j) by {
        lemma_acceptable_item(component.pins@.len() as int, f, j);
        assert(f(j) == pin_issues(component, path, j));
    }
    assert forall|j: int| 0 <= j < component.parameters@.len() implies !is_blank(
        (#[trigger] component.parameters@[j]).0,
    ) && value_finite(component.parameters@[j].1) by {
        lemma_acceptable_item(component.parameters@.len() as int, g, j);
        assert(g(j) == parameter_issues(component, path, j));
        let (name, value) = component.parameters@[j];
        let a = if is_blank(name) {
            error(
                "empty_parameter_name"@,
                path + ".parameters"@,
                "parameter name must not be empty"@,
            )
        } else {
            none()
        };
        let b = if !value_finite(value) {
            error(
                "non_finite_parameter"@,
                path + ".parameters."@ + name,
                "numeric parameters must be finite"@,
            )
        } else {
            none()
        };
        lemma_acceptable_parts(a, b);
    }
}

proof fn lemma_component_sound(circuit: Circuit, i: int)
    requires
        acceptable(component_issues(circuit, i)),
    ensures
        component_sound(circuit.components@, i),
{
    lemma_errors_count();
    let component = circuit.components@[i];
    let path = item_path("components"@, i);
    let id = trim(component.id@);
    let a = if is_blank(component.kind@) {
        error("empty_component_kind"@, path + ".kind"@, "component kind must not be empty"@)
    } else {
        none()
    };
    let b = if component_repeated(circuit.components@, i) {
        error("duplicate_component_id"@, path + ".id"@, "duplicate component id `"@ + id + "`"@)
    } else {
        content_issues(component, path, circuit.models@)
    };
    if id.len() > 0 {
        lemma_acceptable_parts(a, b);
        lemma_contents_sound(component, path, circuit.models@);
    }
}

proof fn lemma_endpoint_sound(
    components: Seq<Component>,
    endpoints: Seq<NetEndpoint>,
    net_path: Seq<char>,
    j: int,
)
    requires
        acceptable(endpoint_issues(components, endpoints, net_path, j)),
    ensures
        pin_of(components, endpoints[j]) is Some,
        !endpoint_repeated(endpoints, j),
{
    lemma_errors_count();
    let endpoint = endpoints[j];
    let path = item_path(net_path + ".endpoints"@, j);
    let a = if endpoint_repeated(endpoints, j) {
        error(
            "duplicate_net_endpoint"@,
            path,
            "the same endpoint appears more than once on this net"@,
        )
    } else {
        none()
    };
    let b = if component_named(components, endpoint.component@) is None {
        error(
            "unknown_component"@,
            path + ".component"@,
            "unknown component `"@ + endpoint.component@ + "`"@,
        )
    } else if pin_of(components, endpoint) is None {
        error(
            "unknown_pin"@,
            path + ".pin"@,
            "unknown pin `"@ + endpoint.pin@ + "` on component `"@ + endpoint.component@ + "`"@,
        )
    } else {
        none()
    };
    lemma_acceptable_parts(a, b);
}

proof fn lemma_domains_sound(
    components: Seq<Component>,
    endpoints: Seq<NetEndpoint>,
    path: Seq<char>,
)
    requires
        acceptable(domain_issues(components, endpoints, path)),
    ensures
        reaches(components, endpoints, endpoints.len() as int, SignalDomain::Digital) ==> !reaches(
            components,
            endpoints,
            endpoints.len() as int,
            SignalDomain::Analog,
        ) && !reaches(components, endpoints, endpoints.len() as int, SignalDomain::Reference),
{
    lemma_errors_count();
    let n = endpoints.len() as int;
    let digital = reaches(components, endpoints, n, SignalDomain::Digital);
    let analog = reaches(components, endpoints, n, SignalDomain::Analog);
    let reference = reaches(components, endpoints, n, SignalDomain::Reference);
    let mixed = reaches(components, endpoints, n, SignalDomain::Mixed);
    let a = if digital && !analog && !reference && !mixed && driver_count(components, endpoints, n)
        > 1 {
        warning(
            "multiple_digital_drivers_resolved"@,
            path + ".endpoints"@,
            "multiple digital drivers are resolved by the event engine using Z/X contention semantics"@,
        )
    } else {
        none()
    };
    let b = if digital && (analog || reference) {
        error(
            "mixed_signal_bridge_required"@,
            path + ".endpoints"@,
            "analog/reference and digital pins cannot share one net; connect them through separate adc_bridge/dac_bridge pins"@,
        )
    } else {
        none()
    };
    lemma_acceptable_parts(a, b);
}

proof fn lemma_net_sound(circuit: Circuit, i: int)
    requires
        acceptable(net_issues(circuit, i)),
    ensures
        net_sound(circuit, i),
{
    lemma_errors_count();
    let net = circuit.nets@[i];
    let path = item_path("nets"@, i);
    let id = trim(net.id@);
    let a = if id.len() == 0 {
        error("empty_net_id"@, path + ".id"@, "net id must not be empty"@)
    } else if net_repeated(circuit.nets@, i) {
        error("duplicate_net_id"@, path + ".id"@, "duplicate net id `"@ + id + "`"@)
    } else {
        none()
    };
    let b = if net.endpoints@.len() < 2 {
        warning("dangling_net"@, path + ".endpoints"@, "net has fewer than two endpoints"@)
    } else {
        none()
    };
    let f = |j: int| endpoint_issues(circuit.components@, net.endpoints@, path, j);
    let n = net.endpoints@.len() as int;
    let c = concat_upto(n, f);
    let d = domain_issues(circuit.components@, net.endpoints@, path);
    assert(net_issues(circuit, i) == a + b + c + d);
    lemma_acceptable_parts(a + b + c, d);
    lemma_acceptable_parts(a + b, c);
    lemma_acceptable_parts(a, b);
    lemma_domains_sound(circuit.components@, net.endpoints@, path);
    assert forall|j: int| 0 <= j < n implies pin_of(
        circuit.components@,
        #[trigger] net.endpoints@[j],
    ) is Some && !endpoint_repeated(net.endpoints@, j) by {
        lemma_acceptable_item(n, f, j);
        assert(f(j) == endpoint_issues(circuit.components@, net.endpoints@, path, j));
        lemma_endpoint_sound(circuit.components@, net.endpoints@, path, j);
    }
}

/// What a circuit without errors satisfies: it has the current schema, models,
/// components, pins and nets have names of their own, every endpoint is a pin of
/// the circuit, parameters are finite, and no net joins digital to analog pins.
pub proof fn accepted_circuits_are_sound(circuit: Circuit)
    requires
        acceptable(circuit_issues(circuit)),
    ensures
        circuit.schema_version == CIRCUIT_SCHEMA_VERSION,
        forall|i: int| 0 <= i < circuit.models@.len() ==> #[trigger] model_sound(circuit.models@, i),
        forall|i: int|
            0 <= i < circuit.components@.len() ==> #[trigger] component_sound(
                circuit.components@,
                i,
            ),
        forall|i: int| 0 <= i < circuit.nets@.len() ==> #[trigger] net_sound(circuit, i),
{
    lemma_errors_count();
    let f = |i: int| model_issues(circuit.models@, i);
    let g = |i: int| component_issues(circuit, i);
    let h = |i: int| net_issues(circuit, i);
    let a = schema_issues(circuit);
    let b = concat_upto(circuit.models@.len() as int, f);
    let c = concat_upto(circuit.components@.len() as int, g);
    let d = concat_upto(circuit.nets@.len() as int, h);
    assert(circuit_issues(circuit) == a + b + c + d);
    lemma_acceptable_parts(a + b + c, d);
    lemma_acceptable_parts(a + b, c);
    lemma_acceptable_parts(a, b);
    assert forall|i: int| 0 <= i < circuit.models@.len() implies #[trigger] model_sound(
        circuit.models@,
        i,
    ) by {
        lemma_acceptable_item(circuit.models@.len() as int, f, i);
        assert(f(i) == model_issues(circuit.models@, i));
        lemma_model_sound(circuit.models@, i);
    }
    assert forall|i: int| 0 <= i < circuit.components@.len() implies #[trigger] component_sound(
        circuit.components@,
        i,
    ) by {
        lemma_acceptable_item(circuit.components@.len() as int, g, i);
        assert(g(i) == component_issues(circuit, i));
        lemma_component_sound(circuit, i);
    }
    assert forall|i: int| 0 <= i < circuit.nets@.len() implies #[trigger] net_sound(
        circuit,
        i,
    ) by {
        lemma_acceptable_item(circuit.nets@.len() as int, h, i);
        assert(h(i) == net_issues(circuit, i));
        lemma_net_sound(circuit, i);
    }
}

/// Appending one list to another in two steps.
proof fn lemma_append(a: Seq<Issue>, b: Seq<Issue>, c: Seq<Issue>)
    ensures
        a + b + c == a + (b + c),
{
    assert(a + b + c =~= a + (b + c));
}

fn check_model(models: &Vec<ModelDefinition>, i: usize, report: &mut ValidationReport)
    requires
        i < models@.len(),
    ensures
        final(report)@ == old(report)@ + model_issues(models@, i as int),
{
    let model = &models[i];
    let path = item_text("models", i);
    let id = trim_text(model.id.as_str());
    if id.as_str().is_empty() {
        report.error(
            "empty_model_id",
            cat2(path.as_str(), ".id"),
            "model id must not be empty".to_owned(),
        );
    } else {
        let mut j: usize = 0;
        while j < i && !text_eq(trim_text(models[j].id.as_str()).as_str(), id.as_str())
            invariant
                j <= i < models@.len(),
                id@ == trim(models@[i as int].id@),
                forall|k: int| 0 <= k < j ==> trim((#[trigger] models@[k]).id@) != id@,
            decreases i - j,
        {
            j = j + 1;
        }
        if j < i {
            assert(trim(models@[j as int].id@) == trim(models@[i as int].id@));
            report.error(
                "duplicate_model_id",
                cat2(path.as_str(), ".id"),
                cat3("duplicate model id `", id.as_str(), "`"),
            );
        }
    }
    if blank(model.entry.as_str()) {
        report.error(
            "empty_model_entry",
            cat2(path.as_str(), ".entry"),
            "model entry must not be empty".to_owned(),
        );
    }
    if blank(model.source.as_str()) {
        report.error(
            "empty_model_source",
            cat2(path.as_str(), ".source"),
            "model source must not be empty".to_owned(),
        );
    }
    let fits: bool = match model.kind {
        ModelKind::Device => model.language == ModelLanguage::Spice,
        ModelKind::Subcircuit => model.language == ModelLanguage::Spice,
        ModelKind::Module => model.language != ModelLanguage::Spice,
    };
    if !fits {
        report.error(
            "incompatible_model_language",
            cat2(path.as_str(), ".language"),
            cat4(
                "model kind ",
                model.kind.name(),
                " is incompatible with language ",
                model.language.name(),
            ),
        );
    }
    assert(report@ =~= old(report)@ + model_issues(models@, i as int));
}

/// The model that a name stands for.
fn find_model<'a>(models: &'a Vec<ModelDefinition>, name: &str) -> (r: Option<&'a ModelDefinition>)
    ensures
        match (r, model_named(models@, name@)) {
            (Some(m), Some(n)) => *m == n,
            (None, None) => true,
            _ => false,
        },
{
    let mut i: usize = models.len();
    assert(models@.take(i as int) =~= models@);
    while i > 0
        invariant
            i <= models@.len(),
            model_named(models@, name@) == model_named(models@.take(i as int), name@),
        decreases i,
    {
        assert(models@.take(i as int).last() == models@[i - 1]);
        assert(models@.take(i as int).drop_last() =~= models@.take(i - 1));
        i = i - 1;
        if !name.is_empty() && text_eq(trim_text(models[i].id.as_str()).as_str(), name) {
            return Some(&models[i]);
        }
    }
    None
}

/// The component that a name stands for.
fn find_component(components: &Vec<Component>, name: &str) -> (r: Option<usize>)
    ensures
        match (r, component_named(components@, name@)) {
            (Some(i), Some(j)) => i == j && i < components@.len(),
            (None, None) => true,
            _ => false,
        },
{
    let mut i: usize = 0;
    while i < components.len()
        invariant
            i <= components@.len(),
            component_named(components@.take(i as int), name@) is None,
        decreases components@.len() - i,
    {
        assert(components@.take(i + 1).last() == components@[i as int]);
        assert(components@.take(i + 1).drop_last() =~= components@.take(i as int));
        if !name.is_empty() && text_eq(trim_text(components[i].id.as_str()).as_str(), name) {
            proof {
                lemma_component_named_stays(components@, name@, i + 1);
            }
            return Some(i);
        }
        i = i + 1;
    }
    assert(components@.take(i as int) =~= components@);
    None
}

proof fn lemma_component_named_stays(components: Seq<Component>, name: Seq<char>, n: int)
    requires
        0 <= n <= components.len(),
        component_named(components.take(n), name) is Some,
    ensures
        component_named(components, name) == component_named(components.take(n), name),
    decreases components.len() - n,
{
    if n < components.len() {
        assert(components.take(n + 1).drop_last() =~= components.take(n));
        lemma_component_named_stays(components, name, n + 1);
    } else {
        assert(components.take(n) =~= components);
    }
}

/// The pin that a name stands for.
fn find_pin<'a>(pins: &'a Vec<Pin>, name: &str) -> (r: Option<&'a Pin>)
    ensures
        match (r, pin_named(pins@, name@)) {
            (Some(p), Some(q)) => *p == q,
            (None, None) => true,
            _ => false,
        },
{
    let mut i: usize = pins.len();
    assert(pins@.take(i as int) =~= pins@);
    while i > 0
        invariant
            i <= pins@.len(),
            pin_named(pins@, name@) == pin_named(pins@.take(i as int), name@),
        decreases i,
    {
        assert(pins@.take(i as int).last() == pins@[i - 1]);
        assert(pins@.take(i as int).drop_last() =~= pins@.take(i - 1));
        i = i - 1;
        if !name.is_empty() && text_eq(trim_text(pins[i].id.as_str()).as_str(), name) {
            return Some(&pins[i]);
        }
    }
    None
}

/// The first pin with exactly this name.
pub fn find_pin_at(pins: &Vec<Pin>, name: &str) -> (r: Option<usize>)
    ensures
        match (r, pin_at(pins@, name@)) {
            (Some(i), Some(j)) => i == j && i < pins@.len(),
            (None, None) => true,
            _ => false,
        },
{
    let mut i: usize = 0;
    while i < pins.len()
        invariant
            i <= pins@.len(),
            pin_at(pins@.take(i as int), name@) is None,
        decreases pins@.len() - i,
    {
        assert(pins@.take(i + 1).last() == pins@[i as int]);
        assert(pins@.take(i + 1).drop_last() =~= pins@.take(i as int));
        if text_eq(pins[i].id.as_str(), name) {
            proof {
                lemma_pin_at_stays(pins@, name@, i + 1);
            }
            return Some(i);
        }
        i = i + 1;
    }
    assert(pins@.take(i as int) =~= pins@);
    None
}

proof fn lemma_pin_at_stays(pins: Seq<Pin>, name: Seq<char>, n: int)
    requires
        0 <= n <= pins.len(),
        pin_at(pins.take(n), name) is Some,
    ensures
        pin_at(pins, name) == pin_at(pins.take(n), name),
    decreases pins.len() - n,
{
    if n < pins.len() {
        assert(pins.take(n + 1).drop_last() =~= pins.take(n));
        lemma_pin_at_stays(pins, name, n + 1);
    } else {
        assert(pins.take(n) =~= pins);
    }
}

fn check_pin(component: &Component, path: &str, j: usize, report: &mut ValidationReport)
    requires
        j < component.pins@.len(),
    ensures
        final(report)@ == old(report)@ + pin_issues(*component, path@, j as int),
{
    let pins = &component.pins;
    let pin_path = item_text(cat2(path, ".pins").as_str(), j);
    let id = trim_text(pins[j].id.as_str());
    if id.as_str().is_empty() {
        report.error(
            "empty_pin_id",
            cat2(pin_path.as_str(), ".id"),
            "pin id must not be empty".to_owned(),
        );
        return;
    }
    let mut k: usize = 0;
    while k < j && !text_eq(trim_text(pins[k].id.as_str()).as_str(), id.as_str())
        invariant
            k <= j < pins@.len(),
            id@ == trim(pins@[j as int].id@),
            forall|m: int| 0 <= m < k ==> trim((#[trigger] pins@[m]).id@) != id@,
        decreases j - k,
    {
        k = k + 1;
    }
    if k < j {
        assert(trim(pins@[k as int].id@) == trim(pins@[j as int].id@));
        report.error(
            "duplicate_pin_id",
            cat2(pin_path.as_str(), ".id"),
            cat5(
                "duplicate pin id `",
                id.as_str(),
                "` on component `",
                trim_text(component.id.as_str()).as_str(),
                "`",
            ),
        );
    } else {
        assert(report@ =~= old(report)@ + none());
    }
}

fn check_parameter(component: &Component, path: &str, j: usize, report: &mut ValidationReport)
    requires
        j < component.parameters@.len(),
    ensures
        final(report)@ == old(report)@ + parameter_issues(*component, path@, j as int),
{
    let name = component.parameters.name_at(j);
    let value = component.parameters.value_at(j);
    if blank(name) {
        report.error(
            "empty_parameter_name",
            cat2(path, ".parameters"),
            "parameter name must not be empty".to_owned(),
        );
    }
    let finite: bool = match value {
        ParameterValue::Number(number) => number.is_finite(),
        ParameterValue::Quantity(quantity) => quantity.is_finite(),
        _ => true,
    };
    if !finite {
        report.error(
            "non_finite_parameter",
            cat3(path, ".parameters.", name),
            "numeric parameters must be finite".to_owned(),
        );
    }
    assert(report@ =~= old(report)@ + parameter_issues(*component, path@, j as int));
}

fn check_model_reference(
    component: &Component,
    path: &str,
    models: &Vec<ModelDefinition>,
    report: &mut ValidationReport,
)
    ensures
        final(report)@ == old(report)@ + model_reference_issues(*component, path@, models@),
{
    let kind = &component.kind;
    let wanted: ModelKind = if kind.is("diode") || kind.is("bjt") || kind.is("mosfet") {
        ModelKind::Device
    } else if kind.is("op_amp") || kind.is("subcircuit") {
        ModelKind::Subcircuit
    } else {
        assert(report@ =~= old(report)@ + none());
        return;
    };
    let at = cat2(path, ".parameters.model");
    match component.parameters.get("model") {
        Some(ParameterValue::Text(name)) => {
            if blank(name.as_str()) {
                report.error(
                    "invalid_model_reference",
                    at,
                    "model reference must be a non-empty string".to_owned(),
                );
                return;
            }
            match find_model(models, name.as_str()) {
                None => {
                    report.error("unknown_model", at, cat3("unknown model `", name.as_str(), "`"));
                },
                Some(model) => {
                    if model.kind != wanted {
                        report.error(
                            "incompatible_model_kind",
                            at,
                            cat2(
                                cat3("model `", name.as_str(), "` has kind ").as_str(),
                                cat3(model.kind.name(), ", expected ", wanted.name()).as_str(),
                            ),
                        );
                        proof {
                            assert("model `"@ + name@ + "` has kind "@ + (model.kind.spec_name()
                                + ", expected "@ + wanted.spec_name()) =~= "model `"@ + name@
                                + "` has kind "@ + model.kind.spec_name() + ", expected "@
                                + wanted.spec_name());
                        }
                    } else {
                        assert(report@ =~= old(report)@ + none());
                    }
                },
            }
        },
        Some(_) => {
            report.error(
                "invalid_model_reference",
                at,
                "model reference must be a non-empty string".to_owned(),
            );
        },
        None => {
            report.error(
                "missing_model_reference",
                at,
                "component requires a `model` reference".to_owned(),
            );
        },
    }
}

fn validate_bridge_pin(
    component: &Component,
    path: &str,
    name: &str,
    domain: SignalDomain,
    direction: PinDirection,
    report: &mut ValidationReport,
)
    ensures
        final(report)@ == old(report)@ + bridge_pin_issues(
            *component,
            path@,
            name@,
            domain,
            direction,
        ),
{
    reveal(bridge_pin_issues);
    match find_pin_at(&component.pins, name) {
        None => {
            report.error(
                "mixed_signal_bridge_pin_missing",
                cat2(path, ".pins"),
                cat3("bridge requires pin `", name, "`"),
            );
        },
        Some(i) => {
            let pin = &component.pins[i];
            let pin_path = item_text(cat2(path, ".pins").as_str(), i);
            if pin.domain != domain {
                report.error(
                    "mixed_signal_bridge_pin_domain",
                    cat2(pin_path.as_str(), ".domain"),
                    cat5("pin `", name, "` must use ", domain.name(), " domain"),
                );
            }
            if pin.direction != direction {
                report.error(
                    "mixed_signal_bridge_pin_direction",
                    cat2(pin_path.as_str(), ".direction"),
                    cat5("pin `", name, "` must use ", direction.name(), " direction"),
                );
            }
            assert(report@ =~= old(report)@ + bridge_pin_issues(
                *component,
                path@,
                name@,
                domain,
                direction,
            ));
        },
    }
}

fn validate_bridge_quantity(
    component: &Component,
    path: &str,
    key: &str,
    unit: Unit,
    required: bool,
    non_negative: bool,
    report: &mut ValidationReport,
) -> (r: Option<Real>)
    ensures
        r == bridge_quantity(*component, path@, key@, unit, required, non_negative).0,
        final(report)@ == old(report)@ + bridge_quantity(
            *component,
            path@,
            key@,
            unit,
            required,
            non_negative,
        ).1,
{
    reveal(bridge_quantity);
    let at = cat3(path, ".parameters.", key);
    let number: Real = match component.parameters.get(key) {
        None => {
            if required {
                report.error(
                    "mixed_signal_bridge_parameter_missing",
                    at,
                    cat3("bridge requires parameter `", key, "`"),
                );
            } else {
                assert(report@ =~= old(report)@ + none());
            }
            return None;
        },
        Some(ParameterValue::Number(value)) => *value,
        Some(ParameterValue::Quantity(quantity)) => {
            if quantity.unit == unit {
                quantity.value
            } else {
                report.error(
                    "mixed_signal_bridge_parameter_unit",
                    at,
                    cat2(
                        cat3("parameter `", key, "` has unit ").as_str(),
                        cat3(quantity.unit.name(), ", expected ", unit.name()).as_str(),
                    ),
                );
                proof {
                    assert("parameter `"@ + key@ + "` has unit "@ + (quantity.unit.spec_name()
                        + ", expected "@ + unit.spec_name()) =~= "parameter `"@ + key@
                        + "` has unit "@ + quantity.unit.spec_name() + ", expected "@
                        + unit.spec_name());
                }
                return None;
            }
        },
        Some(_) => {
            report.error(
                "mixed_signal_bridge_parameter_type",
                at,
                cat5(
                    "parameter `",
                    key,
                    "` must be numeric or an ",
                    unit.name(),
                    " quantity",
                ),
            );
            return None;
        },
    };
    if !number.is_finite() {
        report.error(
            "mixed_signal_bridge_parameter_non_finite",
            at,
            cat3("parameter `", key, "` must be finite"),
        );
        return None;
    }
    if non_negative && number.lt(Real { bits: 0 }) {
        report.error(
            "mixed_signal_bridge_parameter_negative",
            at,
            cat3("parameter `", key, "` must be non-negative"),
        );
        return None;
    }
    assert(report@ =~= old(report)@ + none());
    Some(number)
}

fn check_window(
    component: &Component,
    path: &str,
    low_key: &str,
    high_key: &str,
    code: &str,
    message: &str,
    report: &mut ValidationReport,
)
    ensures
        final(report)@ == old(report)@ + window_issues(
            *component,
            path@,
            low_key@,
            high_key@,
            code@,
            message@,
        ),
{
    reveal(window_issues);
    let low = validate_bridge_quantity(component, path, low_key, Unit::Volt, true, false, report);
    let high = validate_bridge_quantity(component, path, high_key, Unit::Volt, true, false, report);
    match (low, high) {
        (Some(l), Some(h)) => {
            if h.le(l) {
                report.error(code, cat2(path, ".parameters"), message.to_owned());
            }
        },
        _ => {},
    }
    assert(report@ =~= old(report)@ + window_issues(
        *component,
        path@,
        low_key@,
        high_key@,
        code@,
        message@,
    ));
}

fn validate_mixed_signal_bridge(component: &Component, path: &str, report: &mut ValidationReport)
    ensures
        final(report)@ == old(report)@ + bridge_issues(*component, path@),
{
    if component.kind.is("adc_bridge") {
        validate_bridge_pin(
            component,
            path,
            "analog_in",
            SignalDomain::Analog,
            PinDirection::Input,
            report,
        );
        validate_bridge_pin(
            component,
            path,
            "digital_out",
            SignalDomain::Digital,
            PinDirection::Output,
            report,
        );
        check_window(
            component,
            path,
            "low_threshold",
            "high_threshold",
            "invalid_adc_threshold_window",
            "adc_bridge low_threshold must be strictly below high_threshold",
            report,
        );
        validate_bridge_quantity(component, path, "rise_delay", Unit::Second, false, true, report);
        validate_bridge_quantity(component, path, "fall_delay", Unit::Second, false, true, report);
        assert(report@ =~= old(report)@ + adc_issues(*component, path@));
    } else if component.kind.is("dac_bridge") {
        validate_bridge_pin(
            component,
            path,
            "digital_in",
            SignalDomain::Digital,
            PinDirection::Input,
            report,
        );
        validate_bridge_pin(
            component,
            path,
            "analog_out",
            SignalDomain::Analog,
            PinDirection::Output,
            report,
        );
        check_window(
            component,
            path,
            "low_voltage",
            "high_voltage",
            "invalid_dac_voltage_window",
            "dac_bridge low_voltage must be strictly below high_voltage",
            report,
        );
        validate_bridge_quantity(component, path, "unknown_voltage", Unit::Volt, false, false, report);
        validate_bridge_quantity(component, path, "rise_time", Unit::Second, false, true, report);
        validate_bridge_quantity(component, path, "fall_time", Unit::Second, false, true, report);
        validate_bridge_quantity(component, path, "input_load", Unit::Farad, false, true, report);
        assert(report@ =~= old(report)@ + dac_issues(*component, path@));
    } else {
        assert(report@ =~= old(report)@ + none());
    }
}

/// Whether the characters are an identifier.
pub fn is_identifier(v: &Vec<char>, dollar: bool) -> (r: bool)
    ensures
        r == identifier(v@, dollar),
{
    if v.len() == 0 || !(v[0] == '_' || is_alphabetic_char(v[0])) {
        return false;
    }
    let mut i: usize = 1;
    while i < v.len()
        invariant
            1 <= i <= v@.len(),
            forall|k: int|
                0 < k < i ==> #[trigger] v@[k] == '_' || (dollar && v@[k] == '$')
                    || is_ascii_alphanumeric(v@[k]),
        decreases v@.len() - i,
    {
        let c = v[i];
        if !(c == '_' || (dollar && c == '$') || is_alphanumeric_char(c)) {
            assert(v@[i as int] == c);
            return false;
        }
        i = i + 1;
    }
    true
}

pub fn is_renode_identifier(value: &str) -> (r: bool)
    ensures
        r == identifier(value@, false),
{
    is_identifier(&to_chars(value), false)
}

pub fn is_hdl_identifier(value: &str) -> (r: bool)
    ensures
        r == identifier(value@, true),
{
    is_identifier(&to_chars(value), true)
}

pub fn is_mcu_gpio_mapping(value: &str) -> (r: bool)
    ensures
        r == gpio_mapping(value@),
{
    let v = to_chars(value);
    let k: usize = find_first(&v, '@');
    if k == v.len() {
        return false;
    }
    let peripheral = slice_chars(&v, 0, k);
    let pin = slice_chars(&v, k + 1, v.len());
    assert(peripheral@ =~= v@.take(k as int));
    assert(pin@ =~= v@.skip(k + 1));
    is_identifier(&peripheral, false) && parse_unsigned(&pin, u32::MAX as u64).is_some()
}

pub fn is_hdl_port_reference(value: &str) -> (r: bool)
    ensures
        r == port_reference(value@),
{
    let v = to_chars(value);
    if is_identifier(&v, true) {
        return true;
    }
    match find_last(&v, '[') {
        None => false,
        Some(open) => {
            if v[v.len() - 1] != ']' {
                return false;
            }
            proof {
                lemma_last_at_bounds(v@, '[');
            }
            let port = slice_chars(&v, 0, open);
            let bit = slice_chars(&v, open + 1, v.len() - 1);
            assert(port@ =~= v@.take(open as int));
            is_identifier(&port, true) && parse_unsigned(&bit, usize::MAX as u64).is_some()
        },
    }
}

fn repeated_mapping(pins: &Vec<Pin>, j: usize) -> (r: bool)
    requires
        j < pins@.len(),
    ensures
        r == mapping_repeated(pins@, j as int),
{
    let mapping = trim_text(pins[j].name.as_str());
    let mut k: usize = 0;
    while k < j
        invariant
            k <= j < pins@.len(),
            mapping@ == trim(pins@[j as int].name@),
            forall|m: int| 0 <= m < k ==> trim((#[trigger] pins@[m]).name@) != mapping@,
        decreases j - k,
    {
        if text_eq(trim_text(pins[k].name.as_str()).as_str(), mapping.as_str()) {
            assert(trim(pins@[k as int].name@) == trim(pins@[j as int].name@));
            return true;
        }
        k = k + 1;
    }
    false
}

fn check_hdl_model(
    component: &Component,
    path: &str,
    models: &Vec<ModelDefinition>,
    report: &mut ValidationReport,
)
    ensures
        final(report)@ == old(report)@ + hdl_model_issues(*component, path@, models@),
{
    let at = cat2(path, ".parameters.model");
    match component.parameters.get("model") {
        Some(ParameterValue::Text(name)) => {
            if blank(name.as_str()) {
                report.error(
                    "invalid_model_reference",
                    at,
                    "HDL model reference must be a non-empty string".to_owned(),
                );
                return;
            }
            match find_model(models, name.as_str()) {
                None => {
                    report.error(
                        "unknown_model",
                        at,
                        cat3("unknown HDL model `", name.as_str(), "`"),
                    );
                },
                Some(model) => {
                    if model.kind == ModelKind::Module && model.language != ModelLanguage::Spice {
                        assert(report@ =~= old(report)@ + none());
                    } else {
                        let message = cat2(
                            cat3(
                                "HDL component requires a Verilog/SystemVerilog module model; `",
                                name.as_str(),
                                "` is ",
                            ).as_str(),
                            cat3(model.language.name(), "/", model.kind.name()).as_str(),
                        );
                        assert(message@
                            =~= "HDL component requires a Verilog/SystemVerilog module model; `"@
                            + name@ + "` is "@ + model.language.spec_name() + "/"@
                            + model.kind.spec_name());
                        report.error("incompatible_hdl_model", at, message);
                    }
                },
            }
        },
        Some(_) => {
            report.error(
                "invalid_model_reference",
                at,
                "HDL model reference must be a non-empty string".to_owned(),
            );
        },
        None => {
            report.error(
                "missing_model_reference",
                at,
                "hdl_module requires a `model` reference".to_owned(),
            );
        },
    }
}

fn check_hdl_pin(component: &Component, path: &str, j: usize, report: &mut ValidationReport)
    requires
        j < component.pins@.len(),
    ensures
        final(report)@ == old(report)@ + hdl_pin_issues(*component, path@, j as int),
{
    let pin = &component.pins[j];
    let pin_path = item_text(cat2(path, ".pins").as_str(), j);
    if pin.domain != SignalDomain::Digital {
        report.error(
            "hdl_pin_domain",
            cat2(pin_path.as_str(), ".domain"),
            cat3("HDL pin `", pin.id.as_str(), "` must use the digital domain"),
        );
    }
    if pin.direction != PinDirection::Input && pin.direction != PinDirection::Output {
        report.error(
            "hdl_pin_direction",
            cat2(pin_path.as_str(), ".direction"),
            cat3(
                "HDL pin `",
                pin.id.as_str(),
                "` must be Input or Output in R5; inout is deferred to a later co-simulation boundary",
            ),
        );
    }
    let mapping = trim_text(pin.name.as_str());
    if !is_hdl_port_reference(mapping.as_str()) {
        report.error(
            "hdl_pin_mapping_invalid",
            cat2(pin_path.as_str(), ".name"),
            cat3("HDL pin `", pin.id.as_str(), "` name must map to `port` or `port[bit]`"),
        );
    } else if repeated_mapping(&component.pins, j) {
        report.error(
            "hdl_pin_mapping_duplicate",
            cat2(pin_path.as_str(), ".name"),
            cat3("HDL port mapping `", mapping.as_str(), "` appears more than once"),
        );
    }
    assert(report@ =~= old(report)@ + hdl_pin_issues(*component, path@, j as int));
}

/// The part of a parameter's name behind `param.`.
pub fn find_override(name: &str) -> (r: Option<String>)
    ensures
        match (r, override_name(name@)) {
            (Some(t), Some(u)) => t@ == u,
            (None, None) => true,
            _ => false,
        },
{
    let v = to_chars(name);
    proof {
        reveal_strlit("param.");
    }
    if v.len() >= 6 {
        let head = from_chars(&slice_chars(&v, 0, 6));
        assert(head@ =~= v@.take(6));
        if text_eq(head.as_str(), "param.") {
            let rest = slice_chars(&v, 6, v.len());
            assert(rest@ =~= v@.skip(6));
            return Some(from_chars(&rest));
        }
    }
    None
}

fn check_override(component: &Component, path: &str, j: usize, report: &mut ValidationReport)
    requires
        j < component.parameters@.len(),
    ensures
        final(report)@ == old(report)@ + override_issues(*component, path@, j as int),
{
    let key = component.parameters.name_at(j);
    match find_override(key) {
        Some(name) => {
            if !is_hdl_identifier(name.as_str()) {
                report.error(
                    "hdl_parameter_name_invalid",
                    cat3(path, ".parameters.", key),
                    cat3(
                        "HDL parameter override `",
                        name.as_str(),
                        "` is not a safe identifier",
                    ),
                );
            } else {
                assert(report@ =~= old(report)@ + none());
            }
        },
        None => {
            assert(report@ =~= old(report)@ + none());
        },
    }
}

fn validate_hdl_module(
    component: &Component,
    path: &str,
    models: &Vec<ModelDefinition>,
    report: &mut ValidationReport,
)
    ensures
        final(report)@ == old(report)@ + hdl_issues(*component, path@, models@),
{
    if !component.kind.is("hdl_module") {
        assert(report@ =~= old(report)@ + none());
        return;
    }
    check_hdl_model(component, path, models, report);
    if component.pins.len() == 0 {
        report.error(
            "hdl_module_has_no_pins",
            cat2(path, ".pins"),
            "hdl_module must expose at least one digital input/output pin".to_owned(),
        );
    }
    let ghost start = report@;
    let ghost f = |j: int| hdl_pin_issues(*component, path@, j);
    let mut j: usize = 0;
    assert(report@ =~= start + concat_upto(0, f));
    while j < component.pins.len()
        invariant
            j <= component.pins@.len(),
            f == (|j: int| hdl_pin_issues(*component, path@, j)),
            report@ == start + concat_upto(j as int, f),
        decreases component.pins@.len() - j,
    {
        proof {
            lemma_append(start, concat_upto(j as int, f), f(j as int));
        }
        check_hdl_pin(component, path, j, report);
        j = j + 1;
    }
    let ghost middle = report@;
    let ghost g = |j: int| override_issues(*component, path@, j);
    let mut k: usize = 0;
    assert(report@ =~= middle + concat_upto(0, g));
    while k < component.parameters.len()
        invariant
            k <= component.parameters@.len(),
            g == (|j: int| override_issues(*component, path@, j)),
            report@ == middle + concat_upto(k as int, g),
        decreases component.parameters@.len() - k,
    {
        proof {
            lemma_append(middle, concat_upto(k as int, g), g(k as int));
        }
        check_override(component, path, k, report);
        k = k + 1;
    }
    assert(report@ =~= old(report)@ + hdl_issues(*component, path@, models@));
}

fn check_mcu_pin(component: &Component, path: &str, j: usize, report: &mut ValidationReport)
    requires
        j < component.pins@.len(),
    ensures
        final(report)@ == old(report)@ + mcu_pin_issues(*component, path@, j as int),
{
    let pin = &component.pins[j];
    let pin_path = item_text(cat2(path, ".pins").as_str(), j);
    if pin.domain != SignalDomain::Digital {
        report.error(
            "mcu_pin_domain",
            cat2(pin_path.as_str(), ".domain"),
            cat3("MCU pin `", pin.id.as_str(), "` must use the digital domain in R6"),
        );
    }
    if pin.direction != PinDirection::Output {
        report.error(
            "mcu_pin_direction",
            cat2(pin_path.as_str(), ".direction"),
            cat3(
                "MCU pin `",
                pin.id.as_str(),
                "` must be Output in R6; input/bidirectional synchronization belongs to the shared co-simulation scheduler",
            ),
        );
    }
    let mapping = trim_text(pin.name.as_str());
    if !is_mcu_gpio_mapping(mapping.as_str()) {
        report.error(
            "mcu_pin_mapping_invalid",
            cat2(pin_path.as_str(), ".name"),
            cat3(
                "MCU pin `",
                pin.id.as_str(),
                "` name must map to a Renode GPIO as `peripheral@pin`, for example `gpioPortD@12`",
            ),
        );
    } else if repeated_mapping(&component.pins, j) {
        report.error(
            "mcu_pin_mapping_duplicate",
            cat2(pin_path.as_str(), ".name"),
            cat3("Renode GPIO mapping `", mapping.as_str(), "` appears more than once"),
        );
    }
    assert(report@ =~= old(report)@ + mcu_pin_issues(*component, path@, j as int));
}

fn validate_mcu_component(component: &Component, path: &str, report: &mut ValidationReport)
    ensures
        final(report)@ == old(report)@ + mcu_issues(*component, path@),
{
    if !component.kind.is("mcu") {
        assert(report@ =~= old(report)@ + none());
        return;
    }
    if component.pins.len() == 0 {
        report.error(
            "mcu_has_no_pins",
            cat2(path, ".pins"),
            "mcu must expose at least one GPIO output pin in R6".to_owned(),
        );
        return;
    }
    let ghost start = report@;
    let ghost f = |j: int| mcu_pin_issues(*component, path@, j);
    let mut j: usize = 0;
    assert(report@ =~= start + concat_upto(0, f));
    while j < component.pins.len()
        invariant
            j <= component.pins@.len(),
            f == (|j: int| mcu_pin_issues(*component, path@, j)),
            report@ == start + concat_upto(j as int, f),
        decreases component.pins@.len() - j,
    {
        proof {
            lemma_append(start, concat_upto(j as int, f), f(j as int));
        }
        check_mcu_pin(component, path, j, report);
        j = j + 1;
    }
}

fn check_content(
    component: &Component,
    path: &str,
    models: &Vec<ModelDefinition>,
    report: &mut ValidationReport,
)
    ensures
        final(report)@ == old(report)@ + content_issues(*component, path@, models@),
{
    let ghost start = report@;
    let ghost f = |j: int| pin_issues(*component, path@, j);
    let mut j: usize = 0;
    assert(report@ =~= start + concat_upto(0, f));
    while j < component.pins.len()
        invariant
            j <= component.pins@.len(),
            f == (|j: int| pin_issues(*component, path@, j)),
            report@ == start + concat_upto(j as int, f),
        decreases component.pins@.len() - j,
    {
        proof {
            lemma_append(start, concat_upto(j as int, f), f(j as int));
        }
        check_pin(component, path, j, report);
        j = j + 1;
    }
    if component.pins.len() == 0 {
        report.warning(
            "component_has_no_pins",
            cat2(path, ".pins"),
            "component has no pins".to_owned(),
        );
    }
    let ghost middle = report@;
    let ghost g = |j: int| parameter_issues(*component, path@, j);
    let mut k: usize = 0;
    assert(report@ =~= middle + concat_upto(0, g));
    while k < component.parameters.len()
        invariant
            k <= component.parameters@.len(),
            g == (|j: int| parameter_issues(*component, path@, j)),
            report@ == middle + concat_upto(k as int, g),
        decreases component.parameters@.len() - k,
    {
        proof {
            lemma_append(middle, concat_upto(k as int, g), g(k as int));
        }
        check_parameter(component, path, k, report);
        k = k + 1;
    }
    check_model_reference(component, path, models, report);
    validate_mixed_signal_bridge(component, path, report);
    validate_hdl_module(component, path, models, report);
    validate_mcu_component(component, path, report);
    assert(report@ =~= old(report)@ + content_issues(*component, path@, models@));
}

fn check_component(circuit: &Circuit, i: usize, report: &mut ValidationReport)
    requires
        i < circuit.components@.len(),
    ensures
        final(report)@ == old(report)@ + component_issues(*circuit, i as int),
{
    let components = &circuit.components;
    let component = &components[i];
    let path = item_text("components", i);
    let id = trim_text(component.id.as_str());
    if id.as_str().is_empty() {
        report.error(
            "empty_component_id",
            cat2(path.as_str(), ".id"),
            "component id must not be empty".to_owned(),
        );
        return;
    }
    if blank(component.kind.as_str()) {
        report.error(
            "empty_component_kind",
            cat2(path.as_str(), ".kind"),
            "component kind must not be empty".to_owned(),
        );
    }
    let mut j: usize = 0;
    while j < i && !text_eq(trim_text(components[j].id.as_str()).as_str(), id.as_str())
        invariant
            j <= i < components@.len(),
            id@ == trim(components@[i as int].id@),
            forall|k: int| 0 <= k < j ==> trim((#[trigger] components@[k]).id@) != id@,
        decreases i - j,
    {
        j = j + 1;
    }
    if j < i {
        assert(trim(components@[j as int].id@) == trim(components@[i as int].id@));
        report.error(
            "duplicate_component_id",
            cat2(path.as_str(), ".id"),
            cat3("duplicate component id `", id.as_str(), "`"),
        );
    } else {
        check_content(component, path.as_str(), &circuit.models, report);
    }
    assert(report@ =~= old(report)@ + component_issues(*circuit, i as int));
}

/// The pin that an endpoint names.
fn find_endpoint<'a>(components: &'a Vec<Component>, endpoint: &NetEndpoint) -> (r: Option<&'a Pin>)
    ensures
        match (r, pin_of(components@, *endpoint)) {
            (Some(p), Some(q)) => *p == q,
            (None, None) => true,
            _ => false,
        },
{
    match find_component(components, endpoint.component.as_str()) {
        Some(i) => find_pin(&components[i].pins, endpoint.pin.as_str()),
        None => None,
    }
}

fn check_endpoint(
    components: &Vec<Component>,
    endpoints: &Vec<NetEndpoint>,
    net_path: &str,
    j: usize,
    report: &mut ValidationReport,
)
    requires
        j < endpoints@.len(),
    ensures
        final(report)@ == old(report)@ + endpoint_issues(
            components@,
            endpoints@,
            net_path@,
            j as int,
        ),
{
    let endpoint = &endpoints[j];
    let path = item_text(cat2(net_path, ".endpoints").as_str(), j);
    let mut k: usize = 0;
    while k < j && !endpoints[k].is(endpoint.component.as_str(), endpoint.pin.as_str())
        invariant
            k <= j < endpoints@.len(),
            endpoint == endpoints@[j as int],
            forall|m: int| 0 <= m < k ==> (#[trigger] endpoints@[m])@ != endpoint@,
        decreases j - k,
    {
        k = k + 1;
    }
    if k < j {
        assert(endpoints@[k as int]@ == endpoints@[j as int]@);
        report.error(
            "duplicate_net_endpoint",
            path.clone(),
            "the same endpoint appears more than once on this net".to_owned(),
        );
    }
    match find_component(components, endpoint.component.as_str()) {
        None => {
            report.error(
                "unknown_component",
                cat2(path.as_str(), ".component"),
                cat3("unknown component `", endpoint.component.as_str(), "`"),
            );
        },
        Some(_) => {
            if find_endpoint(components, endpoint).is_none() {
                report.error(
                    "unknown_pin",
                    cat2(path.as_str(), ".pin"),
                    cat5(
                        "unknown pin `",
                        endpoint.pin.as_str(),
                        "` on component `",
                        endpoint.component.as_str(),
                        "`",
                    ),
                );
            }
        },
    }
    assert(report@ =~= old(report)@ + endpoint_issues(
        components@,
        endpoints@,
        net_path@,
        j as int,
    ));
}

/// Whether the endpoints reach a pin of this domain.
fn reach(components: &Vec<Component>, endpoints: &Vec<NetEndpoint>, domain: SignalDomain) -> (r: bool)
    ensures
        r == reaches(components@, endpoints@, endpoints@.len() as int, domain),
{
    let mut j: usize = 0;
    while j < endpoints.len()
        invariant
            j <= endpoints@.len(),
            forall|k: int|
                0 <= k < j ==> !(#[trigger] lands_in(components@, endpoints@[k], domain)),
        decreases endpoints@.len() - j,
    {
        match find_endpoint(components, &endpoints[j]) {
            Some(pin) => {
                if pin.domain == domain {
                    assert(lands_in(components@, endpoints@[j as int], domain));
                    return true;
                }
            },
            None => {},
        }
        j = j + 1;
    }
    false
}

fn count_drivers(components: &Vec<Component>, endpoints: &Vec<NetEndpoint>) -> (r: usize)
    ensures
        r == driver_count(components@, endpoints@, endpoints@.len() as int),
{
    let mut n: usize = 0;
    let mut j: usize = 0;
    while j < endpoints.len()
        invariant
            j <= endpoints@.len(),
            n == driver_count(components@, endpoints@, j as int),
            n <= j,
        decreases endpoints@.len() - j,
    {
        match find_endpoint(components, &endpoints[j]) {
            Some(pin) => {
                if pin.domain == SignalDomain::Digital && (pin.direction == PinDirection::Output
                    || pin.direction == PinDirection::Bidirectional) {
                    n = n + 1;
                }
            },
            None => {},
        }
        j = j + 1;
    }
    n
}

fn check_domains(
    components: &Vec<Component>,
    endpoints: &Vec<NetEndpoint>,
    path: &str,
    report: &mut ValidationReport,
)
    ensures
        final(report)@ == old(report)@ + domain_issues(components@, endpoints@, path@),
{
    let digital: bool = reach(components, endpoints, SignalDomain::Digital);
    let analog: bool = reach(components, endpoints, SignalDomain::Analog);
    let reference: bool = reach(components, endpoints, SignalDomain::Reference);
    let mixed: bool = reach(components, endpoints, SignalDomain::Mixed);
    if digital && !analog && !reference && !mixed && count_drivers(components, endpoints) > 1 {
        report.warning(
            "multiple_digital_drivers_resolved",
            cat2(path, ".endpoints"),
            "multiple digital drivers are resolved by the event engine using Z/X contention semantics".to_owned(),
        );
    }
    if digital && (analog || reference) {
        report.error(
            "mixed_signal_bridge_required",
            cat2(path, ".endpoints"),
            "analog/reference and digital pins cannot share one net; connect them through separate adc_bridge/dac_bridge pins".to_owned(),
        );
    }
    assert(report@ =~= old(report)@ + domain_issues(components@, endpoints@, path@));
}

fn check_net(circuit: &Circuit, i: usize, report: &mut ValidationReport)
    requires
        i < circuit.nets@.len(),
    ensures
        final(report)@ == old(report)@ + net_issues(*circuit, i as int),
{
    let nets = &circuit.nets;
    let net = &nets[i];
    let path = item_text("nets", i);
    let id = trim_text(net.id.as_str());
    if id.as_str().is_empty() {
        report.error(
            "empty_net_id",
            cat2(path.as_str(), ".id"),
            "net id must not be empty".to_owned(),
        );
    } else {
        let mut j: usize = 0;
        while j < i && !text_eq(trim_text(nets[j].id.as_str()).as_str(), id.as_str())
            invariant
                j <= i < nets@.len(),
                id@ == trim(nets@[i as int].id@),
                forall|k: int| 0 <= k < j ==> trim((#[trigger] nets@[k]).id@) != id@,
            decreases i - j,
        {
            j = j + 1;
        }
        if j < i {
            assert(trim(nets@[j as int].id@) == trim(nets@[i as int].id@));
            report.error(
                "duplicate_net_id",
                cat2(path.as_str(), ".id"),
                cat3("duplicate net id `", id.as_str(), "`"),
            );
        }
    }
    if net.endpoints.len() < 2 {
        report.warning(
            "dangling_net",
            cat2(path.as_str(), ".endpoints"),
            "net has fewer than two endpoints".to_owned(),
        );
    }
    let ghost start = report@;
    let ghost f = |j: int|
        endpoint_issues(circuit.components@, net.endpoints@, path@, j);
    let mut j: usize = 0;
    assert(report@ =~= start + concat_upto(0, f));
    while j < net.endpoints.len()
        invariant
            j <= net.endpoints@.len(),
            f == (|j: int| endpoint_issues(circuit.components@, net.endpoints@, path@, j)),
            report@ == start + concat_upto(j as int, f),
        decreases net.endpoints@.len() - j,
    {
        proof {
            lemma_append(start, concat_upto(j as int, f), f(j as int));
        }
        check_endpoint(&circuit.components, &net.endpoints, path.as_str(), j, report);
        j = j + 1;
    }
    check_domains(&circuit.components, &net.endpoints, path.as_str(), report);
    assert(report@ =~= old(report)@ + net_issues(*circuit, i as int));
}

/// Everything that is wrong with a circuit.
pub fn validate_circuit(circuit: &Circuit) -> (report: ValidationReport)
    ensures
        report@ == circuit_issues(*circuit),
{
    let mut report = ValidationReport::new();
    if circuit.schema_version != CIRCUIT_SCHEMA_VERSION {
        report.error(
            "unsupported_schema_version",
            "schema_version".to_owned(),
            cat4(
                "expected schema version ",
                decimal_text(CIRCUIT_SCHEMA_VERSION as u64).as_str(),
                ", got ",
                decimal_text(circuit.schema_version as u64).as_str(),
            ),
        );
    }
    let ghost start = report@;
    assert(start =~= schema_issues(*circuit));
    let ghost f = |i: int| model_issues(circuit.models@, i);
    let mut i: usize = 0;
    assert(report@ =~= start + concat_upto(0, f));
    while i < circuit.models.len()
        invariant
            i <= circuit.models@.len(),
            f == (|i: int| model_issues(circuit.models@, i)),
            report@ == start + concat_upto(i as int, f),
        decreases circuit.models@.len() - i,
    {
        proof {
            lemma_append(start, concat_upto(i as int, f), f(i as int));
        }
        check_model(&circuit.models, i, &mut report);
        i = i + 1;
    }
    let ghost second = report@;
    let ghost g = |i: int| component_issues(*circuit, i);
    let mut j: usize = 0;
    assert(report@ =~= second + concat_upto(0, g));
    while j < circuit.components.len()
        invariant
            j <= circuit.components@.len(),
            g == (|i: int| component_issues(*circuit, i)),
            report@ == second + concat_upto(j as int, g),
        decreases circuit.components@.len() - j,
    {
        proof {
            lemma_append(second, concat_upto(j as int, g), g(j as int));
        }
        check_component(circuit, j, &mut report);
        j = j + 1;
    }
    let ghost third = report@;
    let ghost h = |i: int| net_issues(*circuit, i);
    let mut k: usize = 0;
    assert(report@ =~= third + concat_upto(0, h));
    while k < circuit.nets.len()
        invariant
            k <= circuit.nets@.len(),
            h == (|i: int| net_issues(*circuit, i)),
            report@ == third + concat_upto(k as int, h),
        decreases circuit.nets@.len() - k,
    {
        proof {
            lemma_append(third, concat_upto(k as int, h), h(k as int));
        }
        check_net(circuit, k, &mut report);
        k = k + 1;
    }
    report
}

/// A component lists a pin under a name, in a domain and of a direction.
pub open spec fn lists_pin(
    component: Component,
    name: Seq<char>,
    domain: SignalDomain,
    direction: PinDirection,
) -> bool {
    exists|k: int|
        0 <= k < component.pins@.len() && (#[trigger] component.pins@[k]).id@ == name
            && component.pins@[k].domain == domain && component.pins@[k].direction == direction
}

/// A component lists two voltages of which the one is strictly below the other.
pub open spec fn lists_window(component: Component, low_key: Seq<char>, high_key: Seq<char>) -> bool {
    exists|low: Real, high: Real|
        #![trigger low.less(high)]
        crate::lookup::amounts(component, low_key, Unit::Volt, low) && crate::lookup::amounts(
            component,
            high_key,
            Unit::Volt,
            high,
        ) && low.finite() && high.finite() && low.less(high)
}

proof fn lemma_bridge_pin(
    component: Component,
    path: Seq<char>,
    name: Seq<char>,
    domain: SignalDomain,
    direction: PinDirection,
)
    requires
        acceptable(bridge_pin_issues(component, path, name, domain, direction)),
    ensures
        lists_pin(component, name, domain, direction),
{
    reveal(bridge_pin_issues);
    lemma_errors_count();
    crate::lookup::pins_are_found(component, name);
    match pin_at(component.pins@, name) {
        None => {},
        Some(i) => {
            let pin = component.pins@[i];
            let pin_path = item_path(path + ".pins"@, i);
            let a = if pin.domain != domain {
                error(
                    "mixed_signal_bridge_pin_domain"@,
                    pin_path + ".domain"@,
                    "pin `"@ + name + "` must use "@ + domain.spec_name() + " domain"@,
                )
            } else {
                none()
            };
            let b = if pin.direction != direction {
                error(
                    "mixed_signal_bridge_pin_direction"@,
                    pin_path + ".direction"@,
                    "pin `"@ + name + "` must use "@ + direction.spec_name() + " direction"@,
                )
            } else {
                none()
            };
            lemma_acceptable_parts(a, b);
        },
    }
}

proof fn lemma_window(
    component: Component,
    path: Seq<char>,
    low_key: Seq<char>,
    high_key: Seq<char>,
    code: Seq<char>,
    message: Seq<char>,
)
    ensures
        acceptable(window_issues(component, path, low_key, high_key, code, message)) <==> crate::mixed::bridge_levels(
            component,
            low_key,
            high_key,
        ) is Ok,
        crate::mixed::bridge_levels(component, low_key, high_key) is Ok ==> lists_window(
            component,
            low_key,
            high_key,
        ),
{
    reveal(window_issues);
    reveal(bridge_quantity);
    lemma_errors_count();
    let (low, a) = bridge_quantity(component, path, low_key, Unit::Volt, true, false);
    let (high, b) = bridge_quantity(component, path, high_key, Unit::Volt, true, false);
    let c = match (low, high) {
        (Some(l), Some(h)) => if h.at_most(l) {
            error(code, path + ".parameters"@, message)
        } else {
            none()
        },
        _ => none(),
    };
    assert(window_issues(component, path, low_key, high_key, code, message) == a + b + c);
    if acceptable(a + b + c) {
        lemma_acceptable_parts(a + b, c);
        lemma_acceptable_parts(a, b);
    }
    if acceptable(a) && acceptable(b) && acceptable(c) {
        assert(low is Some ==> a =~= none());
        assert(high is Some ==> b =~= none());
        if low is Some && high is Some {
            let whole = a + b + c;
            assert(whole =~= none());
        }
    }
    if let Ok((x, y)) = crate::mixed::bridge_levels(component, low_key, high_key) {
        crate::lookup::amounts_are_listed(
            crate::mixed::mixed_code(),
            component,
            low_key,
            Unit::Volt,
            x,
        );
        crate::lookup::amounts_are_listed(
            crate::mixed::mixed_code(),
            component,
            high_key,
            Unit::Volt,
            y,
        );
        assert(x.less(y));
    }
}

/// The check accepts the two voltages of a bridge exactly if a netlist can be made with
/// them: both are given, and the low one is strictly below the high one.
pub proof fn bridge_windows_are_checked_as_they_are_used(
    component: Component,
    path: Seq<char>,
    low_key: Seq<char>,
    high_key: Seq<char>,
    code: Seq<char>,
    message: Seq<char>,
)
    ensures
        acceptable(window_issues(component, path, low_key, high_key, code, message)) <==> crate::mixed::bridge_levels(
            component,
            low_key,
            high_key,
        ) is Ok,
        acceptable(window_issues(component, path, low_key, high_key, code, message))
            ==> lists_window(component, low_key, high_key),
{
    lemma_window(component, path, low_key, high_key, code, message);
}

/// A bridge that the check accepts has an analog and a digital pin, one of them its
/// input and the other its output, and two voltages of which the low one is strictly
/// below the high one.
pub proof fn accepted_bridges_are_sound(component: Component, path: Seq<char>)
    requires
        acceptable(bridge_issues(component, path)),
    ensures
        component.kind@ == "adc_bridge"@ ==> lists_pin(
            component,
            "analog_in"@,
            SignalDomain::Analog,
            PinDirection::Input,
        ) && lists_pin(component, "digital_out"@, SignalDomain::Digital, PinDirection::Output)
            && lists_window(component, "low_threshold"@, "high_threshold"@),
        component.kind@ == "dac_bridge"@ ==> lists_pin(
            component,
            "digital_in"@,
            SignalDomain::Digital,
            PinDirection::Input,
        ) && lists_pin(component, "analog_out"@, SignalDomain::Analog, PinDirection::Output)
            && lists_window(component, "low_voltage"@, "high_voltage"@),
{
    reveal_strlit("adc_bridge");
    reveal_strlit("dac_bridge");
    assert("adc_bridge"@[0] != "dac_bridge"@[0]);
    if component.kind@ == "adc_bridge"@ {
        let a = bridge_pin_issues(
            component,
            path,
            "analog_in"@,
            SignalDomain::Analog,
            PinDirection::Input,
        );
        let b = bridge_pin_issues(
            component,
            path,
            "digital_out"@,
            SignalDomain::Digital,
            PinDirection::Output,
        );
        let c = window_issues(
            component,
            path,
            "low_threshold"@,
            "high_threshold"@,
            "invalid_adc_threshold_window"@,
            "adc_bridge low_threshold must be strictly below high_threshold"@,
        );
        let d = bridge_quantity(component, path, "rise_delay"@, Unit::Second, false, true).1;
        let e = bridge_quantity(component, path, "fall_delay"@, Unit::Second, false, true).1;
        assert(adc_issues(component, path) == a + b + c + d + e);
        lemma_acceptable_parts(a + b + c + d, e);
        lemma_acceptable_parts(a + b + c, d);
        lemma_acceptable_parts(a + b, c);
        lemma_acceptable_parts(a, b);
        lemma_bridge_pin(
            component,
            path,
            "analog_in"@,
            SignalDomain::Analog,
            PinDirection::Input,
        );
        lemma_bridge_pin(
            component,
            path,
            "digital_out"@,
            SignalDomain::Digital,
            PinDirection::Output,
        );
        lemma_window(
            component,
            path,
            "low_threshold"@,
            "high_threshold"@,
            "invalid_adc_threshold_window"@,
            "adc_bridge low_threshold must be strictly below high_threshold"@,
        );
    } else if component.kind@ == "dac_bridge"@ {
        let a = bridge_pin_issues(
            component,
            path,
            "digital_in"@,
            SignalDomain::Digital,
            PinDirection::Input,
        );
        let b = bridge_pin_issues(
            component,
            path,
            "analog_out"@,
            SignalDomain::Analog,
            PinDirection::Output,
        );
        let c = window_issues(
            component,
            path,
            "low_voltage"@,
            "high_voltage"@,
            "invalid_dac_voltage_window"@,
            "dac_bridge low_voltage must be strictly below high_voltage"@,
        );
        let d = bridge_quantity(component, path, "unknown_voltage"@, Unit::Volt, false, false).1;
        let e = bridge_quantity(component, path, "rise_time"@, Unit::Second, false, true).1;
        let f = bridge_quantity(component, path, "fall_time"@, Unit::Second, false, true).1;
        let g = bridge_quantity(component, path, "input_load"@, Unit::Farad, false, true).1;
        assert(dac_issues(component, path) == a + b + c + d + e + f + g);
        lemma_acceptable_parts(a + b + c + d + e + f, g);
        lemma_acceptable_parts(a + b + c + d + e, f);
        lemma_acceptable_parts(a + b + c + d, e);
        lemma_acceptable_parts(a + b + c, d);
        lemma_acceptable_parts(a + b, c);
        lemma_acceptable_parts(a, b);
        lemma_bridge_pin(
            component,
            path,
            "digital_in"@,
            SignalDomain::Digital,
            PinDirection::Input,
        );
        lemma_bridge_pin(
            component,
            path,
            "analog_out"@,
            SignalDomain::Analog,
            PinDirection::Output,
        );
        lemma_window(
            component,
            path,
            "low_voltage"@,
            "high_voltage"@,
            "invalid_dac_voltage_window"@,
            "dac_bridge low_voltage must be strictly below high_voltage"@,
        );
    }
}

/// The check takes the name of a pin for a port of a module exactly if a test bench can
/// bind it, and for a pin of a board exactly if a firmware script can sample it.
pub proof fn pin_mappings_are_checked_as_they_are_used(name: Seq<char>)
    ensures
        port_reference(trim(name)) <==> crate::hdl::port_named(name) is Ok,
        gpio_mapping(trim(name)) <==> crate::renode::gpio_of(name) is Ok,
{
}

/// The first part of a name is found among the components, and it is the first of that
/// name.
proof fn lemma_component_named(components: Seq<Component>, name: Seq<char>)
    ensures
        component_named(components, name) matches Some(i) ==> 0 <= i < components.len() && trim(
            components[i].id@,
        ) == name,
    decreases components.len(),
{
    if components.len() > 0 {
        lemma_component_named(components.drop_last(), name);
    }
}

proof fn lemma_pin_named(pins: Seq<Pin>, name: Seq<char>)
    ensures
        pin_named(pins, name) matches Some(pin) ==> exists|k: int|
            0 <= k < pins.len() && #[trigger] pins[k] == pin && trim(pin.id@) == name,
    decreases pins.len(),
{
    if pins.len() > 0 {
        let rest = pins.drop_last();
        lemma_pin_named(rest, name);
        if name.len() > 0 && trim(pins.last().id@) == name {
            assert(pins[pins.len() - 1] == pins.last());
        } else if let Some(pin) = pin_named(rest, name) {
            let k = choose|k: int|
                0 <= k < rest.len() && #[trigger] rest[k] == pin && trim(pin.id@) == name;
            assert(pins[k] == pin);
        }
    }
}

/// Every endpoint of a net in a circuit that the check accepts is a pin that one of its
/// components lists.
pub proof fn accepted_endpoints_are_pins(circuit: Circuit, i: int, j: int)
    requires
        acceptable(circuit_issues(circuit)),
        0 <= i < circuit.nets@.len(),
        0 <= j < circuit.nets@[i].endpoints@.len(),
    ensures
        ({
            let endpoint = circuit.nets@[i].endpoints@[j];
            exists|c: int, k: int|
                #![trigger circuit.components@[c].pins@[k]]
                0 <= c < circuit.components@.len() && 0 <= k < circuit.components@[c].pins@.len()
                    && trim(circuit.components@[c].id@) == endpoint.component@ && trim(
                    circuit.components@[c].pins@[k].id@,
                ) == endpoint.pin@
        }),
{
    accepted_circuits_are_sound(circuit);
    let endpoint = circuit.nets@[i].endpoints@[j];
    assert(net_sound(circuit, i));
    assert(pin_of(circuit.components@, endpoint) is Some);
    lemma_component_named(circuit.components@, endpoint.component@);
    let c = component_named(circuit.components@, endpoint.component@)->0;
    lemma_pin_named(circuit.components@[c].pins@, endpoint.pin@);
    let pin = pin_of(circuit.components@, endpoint)->0;
    let k = choose|k: int|
        0 <= k < circuit.components@[c].pins@.len() && #[trigger] circuit.components@[c].pins@[k]
            == pin && trim(pin.id@) == endpoint.pin@;
    assert(circuit.components@[c].pins@[k] == pin);
}

} // verus!
