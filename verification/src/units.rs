//! Physical units and quantities.
use crate::number::Real;
use vstd::prelude::*;

verus! {

#[derive(Clone, Copy, Debug, PartialEq, Eq, Hash, Structural)]
pub enum Unit {
    Volt,
    Ampere,
    Ohm,
    Farad,
    Henry,
    Hertz,
    Second,
    Siemens,
    Watt,
    Dimensionless,
}

impl Unit {
    /// The variant's name.
    pub open spec fn spec_name(self) -> Seq<char> {
        match self {
            Unit::Volt => "Volt"@,
            Unit::Ampere => "Ampere"@,
            Unit::Ohm => "Ohm"@,
            Unit::Farad => "Farad"@,
            Unit::Henry => "Henry"@,
            Unit::Hertz => "Hertz"@,
            Unit::Second => "Second"@,
            Unit::Siemens => "Siemens"@,
            Unit::Watt => "Watt"@,
            Unit::Dimensionless => "Dimensionless"@,
        }
    }

    pub fn name(self) -> (r: &'static str)
        ensures
            r@ == self.spec_name(),
    {
        match self {
            Unit::Volt => "Volt",
            Unit::Ampere => "Ampere",
            Unit::Ohm => "Ohm",
            Unit::Farad => "Farad",
            Unit::Henry => "Henry",
            Unit::Hertz => "Hertz",
            Unit::Second => "Second",
            Unit::Siemens => "Siemens",
            Unit::Watt => "Watt",
            Unit::Dimensionless => "Dimensionless",
        }
    }
}

/// A number with its unit.
#[derive(Clone, Copy, Debug, PartialEq, Eq, Structural)]
pub struct Quantity {
    pub value: Real,
    pub unit: Unit,
}

impl Quantity {
    pub fn new(value: Real, unit: Unit) -> (r: Self)
        ensures
            r.value == value,
            r.unit == unit,
    {
        Quantity { value, unit }
    }

    pub fn is_finite(self) -> (r: bool)
        ensures
            r == self.value.finite(),
    {
        self.value.is_finite()
    }
}

} // verus!
