//! Reading the parameters and pins of a component, with the failures that an
//! engine reports under a code of its own.
use crate::circuit::{parameter_of, Component, ParameterValue, PinDirection, SignalDomain};
use crate::fault::{fail, fault, passes, EngineError, Fault};
use crate::number::Real;
use crate::text::{cat2, cat3, cat4, lowercase, lowercase_text, text_eq, trim, trim_text};
use crate::units::Unit;
use crate::validation::{find_pin_at, pin_at};
use crate::waveform::LogicValue;
use vstd::prelude::*;

verus! {

/// The bit patterns of a half and of one.
pub const HALF_BITS: u64 = 0x3fe0_0000_0000_0000;

pub const ONE_BITS: u64 = 0x3ff0_0000_0000_0000;

/// The result is the one that the model gives.
pub open spec fn same<T>(r: Result<T, EngineError>, model: Result<T, Fault>) -> bool {
    match (r, model) {
        (Ok(x), Ok(y)) => x == y,
        (Err(e), Err(f)) => e@ == f,
        _ => false,
    }
}

/// A failure of one component.
pub open spec fn component_fault(code: Seq<char>, component: Component, message: Seq<char>) -> Fault {
    fault(code, "component `"@ + component.id@ + "`: "@ + message)
}

pub fn component_error(code: &str, component: &Component, message: &str) -> (r: EngineError)
    ensures
        r@ == component_fault(code@, *component, message@),
{
    fail(code, cat4("component `", component.id.as_str(), "`: ", message))
}

/// A failure about one named parameter or pin of a component.
pub open spec fn about(
    code: Seq<char>,
    component: Component,
    before: Seq<char>,
    name: Seq<char>,
    after: Seq<char>,
) -> Fault {
    component_fault(code, component, before + name + after)
}

pub fn error_about(
    code: &str,
    component: &Component,
    before: &str,
    name: &str,
    after: &str,
) -> (r: EngineError)
    ensures
        r@ == about(code@, *component, before@, name@, after@),
{
    component_error(code, component, cat3(before, name, after).as_str())
}

/// The level that a word stands for.
pub open spec fn logic_word(t: Seq<char>) -> Option<LogicValue> {
    if t == "0"@ || t == "zero"@ || t == "low"@ {
        Some(LogicValue::Zero)
    } else if t == "1"@ || t == "one"@ || t == "high"@ {
        Some(LogicValue::One)
    } else if t == "x"@ || t == "unknown"@ {
        Some(LogicValue::X)
    } else if t == "z"@ || t == "high_impedance"@ || t == "high-impedance"@ {
        Some(LogicValue::Z)
    } else {
        None
    }
}

/// The level that an optional parameter gives.
pub open spec fn logic_of(code: Seq<char>, component: Component, key: Seq<char>) -> Result<
    Option<LogicValue>,
    Fault,
> {
    let unfit = Err(
        about(code, component, "parameter `"@, key, "` must be 0, 1, x, z, or boolean"@),
    );
    match parameter_of(component.parameters@, key) {
        None => Ok(None),
        Some(ParameterValue::Boolean(b)) => Ok(
            Some(
                if b {
                    LogicValue::One
                } else {
                    LogicValue::Zero
                },
            ),
        ),
        Some(ParameterValue::Integer(n)) => if n == 0 {
            Ok(Some(LogicValue::Zero))
        } else if n == 1 {
            Ok(Some(LogicValue::One))
        } else {
            unfit
        },
        Some(ParameterValue::Text(text)) => match logic_word(lowercase(trim(text@))) {
            Some(level) => Ok(Some(level)),
            None => Err(
                about(
                    code,
                    component,
                    "parameter `"@,
                    key,
                    "` is not a supported four-state logic value"@,
                ),
            ),
        },
        Some(_) => unfit,
    }
}

pub fn optional_logic_value(code: &str, component: &Component, key: &str) -> (r: Result<
    Option<LogicValue>,
    EngineError,
>)
    ensures
        same(r, logic_of(code@, *component, key@)),
{
    match component.parameters.get(key) {
        None => Ok(None),
        Some(ParameterValue::Boolean(b)) => {
            if *b {
                Ok(Some(LogicValue::One))
            } else {
                Ok(Some(LogicValue::Zero))
            }
        },
        Some(ParameterValue::Integer(n)) => {
            if *n == 0 {
                Ok(Some(LogicValue::Zero))
            } else if *n == 1 {
                Ok(Some(LogicValue::One))
            } else {
                Err(
                    error_about(
                        code,
                        component,
                        "parameter `",
                        key,
                        "` must be 0, 1, x, z, or boolean",
                    ),
                )
            }
        },
        Some(ParameterValue::Text(text)) => {
            let word = lowercase_text(trim_text(text.as_str()).as_str());
            let t = word.as_str();
            if text_eq(t, "0") || text_eq(t, "zero") || text_eq(t, "low") {
                Ok(Some(LogicValue::Zero))
            } else if text_eq(t, "1") || text_eq(t, "one") || text_eq(t, "high") {
                Ok(Some(LogicValue::One))
            } else if text_eq(t, "x") || text_eq(t, "unknown") {
                Ok(Some(LogicValue::X))
            } else if text_eq(t, "z") || text_eq(t, "high_impedance") || text_eq(
                t,
                "high-impedance",
            ) {
                Ok(Some(LogicValue::Z))
            } else {
                Err(
                    error_about(
                        code,
                        component,
                        "parameter `",
                        key,
                        "` is not a supported four-state logic value",
                    ),
                )
            }
        },
        Some(ParameterValue::Number(_)) | Some(ParameterValue::Quantity(_)) => {
            Err(
                error_about(
                    code,
                    component,
                    "parameter `",
                    key,
                    "` must be 0, 1, x, z, or boolean",
                ),
            )
        },
    }
}

/// The level that a parameter must give.
pub open spec fn needed_logic(code: Seq<char>, component: Component, key: Seq<char>) -> Result<
    LogicValue,
    Fault,
> {
    match logic_of(code, component, key) {
        Err(f) => Err(f),
        Ok(Some(level)) => Ok(level),
        Ok(None) => Err(
            about(code, component, "required logic parameter `"@, key, "` is missing"@),
        ),
    }
}

pub fn required_logic_value(code: &str, component: &Component, key: &str) -> (r: Result<
    LogicValue,
    EngineError,
>)
    ensures
        same(r, needed_logic(code@, *component, key@)),
{
    match optional_logic_value(code, component, key) {
        Err(e) => Err(e),
        Ok(Some(level)) => Ok(level),
        Ok(None) => Err(
            error_about(code, component, "required logic parameter `", key, "` is missing"),
        ),
    }
}

/// The time that an optional parameter gives.
pub open spec fn seconds_of(code: Seq<char>, component: Component, key: Seq<char>) -> Result<
    Option<Real>,
    Fault,
> {
    let number = match parameter_of(component.parameters@, key) {
        Some(ParameterValue::Integer(n)) => Some(Real::of_int(n as int)),
        Some(ParameterValue::Number(x)) => Some(x),
        Some(ParameterValue::Quantity(q)) => if q.unit == Unit::Second {
            Some(q.value)
        } else {
            None
        },
        _ => None,
    };
    match number {
        Some(x) => if x.finite() {
            Ok(Some(x))
        } else {
            Err(about(code, component, "parameter `"@, key, "` must be finite"@))
        },
        None => match parameter_of(component.parameters@, key) {
            None => Ok(None),
            Some(ParameterValue::Quantity(q)) => Err(
                about(
                    code,
                    component,
                    "parameter `"@,
                    key,
                    "` expects seconds, got "@ + q.unit.spec_name(),
                ),
            ),
            Some(_) => Err(
                about(code, component, "parameter `"@, key, "` must be numeric seconds"@),
            ),
        },
    }
}

pub fn optional_seconds(code: &str, component: &Component, key: &str) -> (r: Result<
    Option<Real>,
    EngineError,
>)
    ensures
        same(r, seconds_of(code@, *component, key@)),
        r matches Ok(Some(x)) ==> x.finite(),
{
    let seconds: Real = match component.parameters.get(key) {
        None => {
            return Ok(None);
        },
        Some(ParameterValue::Integer(n)) => Real::from_i64(*n),
        Some(ParameterValue::Number(x)) => *x,
        Some(ParameterValue::Quantity(q)) => {
            if q.unit == Unit::Second {
                q.value
            } else {
                return Err(
                    error_about(
                        code,
                        component,
                        "parameter `",
                        key,
                        cat2("` expects seconds, got ", q.unit.name()).as_str(),
                    ),
                );
            }
        },
        Some(ParameterValue::Boolean(_)) | Some(ParameterValue::Text(_)) => {
            return Err(
                error_about(code, component, "parameter `", key, "` must be numeric seconds"),
            );
        },
    };
    if !seconds.is_finite() {
        return Err(error_about(code, component, "parameter `", key, "` must be finite"));
    }
    Ok(Some(seconds))
}

/// A time that must be given and greater than zero.
pub open spec fn positive_seconds(code: Seq<char>, component: Component, key: Seq<char>) -> Result<
    Real,
    Fault,
> {
    match seconds_of(code, component, key) {
        Err(f) => Err(f),
        Ok(None) => Err(about(code, component, "required parameter `"@, key, "` is missing"@)),
        Ok(Some(x)) => if x.key() <= 0 {
            Err(about(code, component, "parameter `"@, key, "` must be greater than zero"@))
        } else {
            Ok(x)
        },
    }
}

pub fn required_positive_seconds(code: &str, component: &Component, key: &str) -> (r: Result<
    Real,
    EngineError,
>)
    ensures
        same(r, positive_seconds(code@, *component, key@)),
        r matches Ok(x) ==> x.finite() && x.key() > 0,
{
    match optional_seconds(code, component, key) {
        Err(e) => Err(e),
        Ok(None) => Err(error_about(code, component, "required parameter `", key, "` is missing")),
        Ok(Some(x)) => {
            if x.le(Real { bits: 0 }) {
                Err(
                    error_about(
                        code,
                        component,
                        "parameter `",
                        key,
                        "` must be greater than zero",
                    ),
                )
            } else {
                Ok(x)
            }
        },
    }
}

/// A time that may be given and is then not negative.
pub open spec fn delay_seconds(code: Seq<char>, component: Component, key: Seq<char>) -> Result<
    Option<Real>,
    Fault,
> {
    match seconds_of(code, component, key) {
        Ok(Some(x)) => if x.key() < 0 {
            Err(about(code, component, "parameter `"@, key, "` must not be negative"@))
        } else {
            Ok(Some(x))
        },
        other => other,
    }
}

pub fn optional_non_negative_seconds(code: &str, component: &Component, key: &str) -> (r: Result<
    Option<Real>,
    EngineError,
>)
    ensures
        same(r, delay_seconds(code@, *component, key@)),
        r matches Ok(Some(x)) ==> x.finite() && x.key() >= 0,
{
    match optional_seconds(code, component, key) {
        Err(e) => Err(e),
        Ok(None) => Ok(None),
        Ok(Some(x)) => {
            if x.lt(Real { bits: 0 }) {
                Err(error_about(code, component, "parameter `", key, "` must not be negative"))
            } else {
                Ok(Some(x))
            }
        },
    }
}

/// The share of its period for which a clock is high: a half unless given.
/// Each engine words its two failures in its own way.
pub open spec fn duty_of(
    code: Seq<char>,
    component: Component,
    unfit: Seq<char>,
    outside: Seq<char>,
) -> Result<Real, Fault> {
    let number = match parameter_of(component.parameters@, "duty_cycle"@) {
        None => Some(Real { bits: HALF_BITS }),
        Some(ParameterValue::Integer(n)) => Some(Real::of_int(n as int)),
        Some(ParameterValue::Number(x)) => Some(x),
        Some(ParameterValue::Quantity(q)) => if q.unit == Unit::Dimensionless {
            Some(q.value)
        } else {
            None
        },
        _ => None,
    };
    match number {
        None => Err(component_fault(code, component, unfit)),
        Some(x) => if x.finite() && 0 < x.key() < (Real { bits: ONE_BITS }).key() {
            Ok(x)
        } else {
            Err(component_fault(code, component, outside))
        },
    }
}

pub fn duty_cycle(code: &str, component: &Component, unfit: &str, outside: &str) -> (r: Result<
    Real,
    EngineError,
>)
    ensures
        same(r, duty_of(code@, *component, unfit@, outside@)),
        r matches Ok(x) ==> x.finite() && 0 < x.key() < (Real { bits: ONE_BITS }).key(),
{
    let duty: Real = match component.parameters.get("duty_cycle") {
        None => Real { bits: HALF_BITS },
        Some(ParameterValue::Integer(n)) => Real::from_i64(*n),
        Some(ParameterValue::Number(x)) => *x,
        Some(ParameterValue::Quantity(q)) => {
            if q.unit == Unit::Dimensionless {
                q.value
            } else {
                return Err(component_error(code, component, unfit));
            }
        },
        Some(_) => {
            return Err(component_error(code, component, unfit));
        },
    };
    if !duty.is_finite() || duty.le(Real { bits: 0 }) || (Real { bits: ONE_BITS }).le(duty) {
        return Err(component_error(code, component, outside));
    }
    Ok(duty)
}

/// Whether the component has a pin of this name.
pub open spec fn has_pin(component: Component, name: Seq<char>) -> bool {
    pin_at(component.pins@, name) is Some
}

pub fn pin_present(component: &Component, name: &str) -> (r: bool)
    ensures
        r == has_pin(*component, name@),
{
    find_pin_at(&component.pins, name).is_some()
}

/// What keeps a pin from being a digital pin of this direction.
pub open spec fn pin_failure(
    code: Seq<char>,
    component: Component,
    name: Seq<char>,
    direction: PinDirection,
) -> Option<Fault> {
    match pin_at(component.pins@, name) {
        None => Some(about(code, component, "required digital pin `"@, name, "` is missing"@)),
        Some(i) => if component.pins@[i].domain != SignalDomain::Digital {
            Some(about(code, component, "pin `"@, name, "` must use the digital signal domain"@))
        } else if component.pins@[i].direction != direction {
            Some(
                about(
                    code,
                    component,
                    "pin `"@,
                    name,
                    "` must have direction "@ + direction.spec_name(),
                ),
            )
        } else {
            None
        },
    }
}

pub fn require_pin(code: &str, component: &Component, name: &str, direction: PinDirection) -> (r:
    Result<(), EngineError>)
    ensures
        passes(r, pin_failure(code@, *component, name@, direction)),
{
    match find_pin_at(&component.pins, name) {
        None => Err(
            error_about(code, component, "required digital pin `", name, "` is missing"),
        ),
        Some(i) => {
            let pin = &component.pins[i];
            if pin.domain != SignalDomain::Digital {
                return Err(
                    error_about(
                        code,
                        component,
                        "pin `",
                        name,
                        "` must use the digital signal domain",
                    ),
                );
            }
            if pin.direction != direction {
                return Err(
                    error_about(
                        code,
                        component,
                        "pin `",
                        name,
                        cat2("` must have direction ", direction.name()).as_str(),
                    ),
                );
            }
            Ok(())
        },
    }
}

/// The number that an optional parameter gives in a unit, where whole numbers
/// are not taken.
pub open spec fn quantity_of(
    code: Seq<char>,
    component: Component,
    key: Seq<char>,
    unit: Unit,
) -> Result<Option<Real>, Fault> {
    let checked = |x: Real|
        if x.finite() {
            Ok(Some(x))
        } else {
            Err(about(code, component, "parameter `"@, key, "` must be finite"@))
        };
    match parameter_of(component.parameters@, key) {
        None => Ok(None),
        Some(ParameterValue::Number(x)) => checked(x),
        Some(ParameterValue::Quantity(q)) => if q.unit == unit {
            checked(q.value)
        } else {
            Err(
                about(
                    code,
                    component,
                    "parameter `"@,
                    key,
                    "` has unit "@ + q.unit.spec_name() + ", expected "@ + unit.spec_name(),
                ),
            )
        },
        Some(_) => Err(
            about(
                code,
                component,
                "parameter `"@,
                key,
                "` must be a number or "@ + unit.spec_name() + " quantity"@,
            ),
        ),
    }
}

pub fn optional_quantity(code: &str, component: &Component, key: &str, unit: Unit) -> (r: Result<
    Option<Real>,
    EngineError,
>)
    ensures
        same(r, quantity_of(code@, *component, key@, unit)),
        r matches Ok(Some(x)) ==> x.finite(),
{
    let x: Real = match component.parameters.get(key) {
        None => {
            return Ok(None);
        },
        Some(ParameterValue::Number(x)) => *x,
        Some(ParameterValue::Quantity(q)) => {
            if q.unit == unit {
                q.value
            } else {
                return Err(
                    error_about(
                        code,
                        component,
                        "parameter `",
                        key,
                        cat4(
                            "` has unit ",
                            q.unit.name(),
                            ", expected ",
                            unit.name(),
                        ).as_str(),
                    ),
                );
            }
        },
        Some(_) => {
            return Err(
                error_about(
                    code,
                    component,
                    "parameter `",
                    key,
                    cat3("` must be a number or ", unit.name(), " quantity").as_str(),
                ),
            );
        },
    };
    if !x.is_finite() {
        return Err(error_about(code, component, "parameter `", key, "` must be finite"));
    }
    Ok(Some(x))
}

/// The number of a parameter that must be given.
pub open spec fn needed_quantity(
    code: Seq<char>,
    component: Component,
    key: Seq<char>,
    unit: Unit,
) -> Result<Real, Fault> {
    match quantity_of(code, component, key, unit) {
        Err(f) => Err(f),
        Ok(None) => Err(about(code, component, "required parameter `"@, key, "` is missing"@)),
        Ok(Some(x)) => Ok(x),
    }
}

pub fn required_quantity(code: &str, component: &Component, key: &str, unit: Unit) -> (r: Result<
    Real,
    EngineError,
>)
    ensures
        same(r, needed_quantity(code@, *component, key@, unit)),
        r matches Ok(x) ==> x.finite(),
{
    match optional_quantity(code, component, key, unit) {
        Err(e) => Err(e),
        Ok(None) => Err(
            error_about(code, component, "required parameter `", key, "` is missing"),
        ),
        Ok(Some(x)) => Ok(x),
    }
}

} // verus!
