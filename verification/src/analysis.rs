//! The analyses that can be asked of a circuit.
use crate::number::Real;
use vstd::prelude::*;

verus! {

#[derive(Clone, Copy, Debug, PartialEq, Eq, PartialOrd, Ord, Hash, Structural)]
pub enum AnalysisKind {
    OperatingPoint,
    DcSweep,
    Transient,
    AcSweep,
    DigitalTransient,
    MixedSignalTransient,
    FirmwareTransient,
    CoSimulationTransient,
}

impl AnalysisKind {
    /// The variant's name.
    pub open spec fn spec_name(self) -> Seq<char> {
        match self {
            AnalysisKind::OperatingPoint => "OperatingPoint"@,
            AnalysisKind::DcSweep => "DcSweep"@,
            AnalysisKind::Transient => "Transient"@,
            AnalysisKind::AcSweep => "AcSweep"@,
            AnalysisKind::DigitalTransient => "DigitalTransient"@,
            AnalysisKind::MixedSignalTransient => "MixedSignalTransient"@,
            AnalysisKind::FirmwareTransient => "FirmwareTransient"@,
            AnalysisKind::CoSimulationTransient => "CoSimulationTransient"@,
        }
    }

    pub fn name(self) -> (r: &'static str)
        ensures
            r@ == self.spec_name(),
    {
        match self {
            AnalysisKind::OperatingPoint => "OperatingPoint",
            AnalysisKind::DcSweep => "DcSweep",
            AnalysisKind::Transient => "Transient",
            AnalysisKind::AcSweep => "AcSweep",
            AnalysisKind::DigitalTransient => "DigitalTransient",
            AnalysisKind::MixedSignalTransient => "MixedSignalTransient",
            AnalysisKind::FirmwareTransient => "FirmwareTransient",
            AnalysisKind::CoSimulationTransient => "CoSimulationTransient",
        }
    }
}

#[derive(Clone, Copy, Debug, PartialEq, Eq, Hash, Structural)]
pub enum AnalysisDomain {
    Analog,
    Digital,
    Mixed,
}

#[derive(Clone, Copy, Debug, PartialEq, Eq, Hash, Structural)]
pub enum AcScale {
    Linear,
    Decade,
    Octave,
}

#[derive(Clone, Debug, PartialEq, Eq)]
pub enum Analysis {
    OperatingPoint,
    DcSweep { source: String, start: Real, stop: Real, step: Real },
    Transient { step: Real, stop: Real },
    AcSweep { scale: AcScale, points: u32, start_hz: Real, stop_hz: Real },
    DigitalTransient { stop: Real },
    MixedSignalTransient { step: Real, stop: Real },
    FirmwareTransient { step: Real, stop: Real },
}

impl Analysis {
    pub open spec fn spec_kind(self) -> AnalysisKind {
        match self {
            Analysis::OperatingPoint => AnalysisKind::OperatingPoint,
            Analysis::DcSweep { .. } => AnalysisKind::DcSweep,
            Analysis::Transient { .. } => AnalysisKind::Transient,
            Analysis::AcSweep { .. } => AnalysisKind::AcSweep,
            Analysis::DigitalTransient { .. } => AnalysisKind::DigitalTransient,
            Analysis::MixedSignalTransient { .. } => AnalysisKind::MixedSignalTransient,
            Analysis::FirmwareTransient { .. } => AnalysisKind::FirmwareTransient,
        }
    }

    pub open spec fn spec_domain(self) -> AnalysisDomain {
        match self {
            Analysis::DigitalTransient { .. } => AnalysisDomain::Digital,
            Analysis::FirmwareTransient { .. } => AnalysisDomain::Digital,
            Analysis::MixedSignalTransient { .. } => AnalysisDomain::Mixed,
            _ => AnalysisDomain::Analog,
        }
    }

    pub fn kind(&self) -> (r: AnalysisKind)
        ensures
            r == self.spec_kind(),
    {
        match self {
            Analysis::OperatingPoint => AnalysisKind::OperatingPoint,
            Analysis::DcSweep { .. } => AnalysisKind::DcSweep,
            Analysis::Transient { .. } => AnalysisKind::Transient,
            Analysis::AcSweep { .. } => AnalysisKind::AcSweep,
            Analysis::DigitalTransient { .. } => AnalysisKind::DigitalTransient,
            Analysis::MixedSignalTransient { .. } => AnalysisKind::MixedSignalTransient,
            Analysis::FirmwareTransient { .. } => AnalysisKind::FirmwareTransient,
        }
    }

    pub fn domain(&self) -> (r: AnalysisDomain)
        ensures
            r == self.spec_domain(),
    {
        match self {
            Analysis::DigitalTransient { .. } => AnalysisDomain::Digital,
            Analysis::MixedSignalTransient { .. } => AnalysisDomain::Mixed,
            Analysis::FirmwareTransient { .. } => AnalysisDomain::Digital,
            _ => AnalysisDomain::Analog,
        }
    }
}

} // verus!
