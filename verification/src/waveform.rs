//! Normalized simulation results.
use crate::analysis::AnalysisKind;
use crate::circuit::CIRCUIT_SCHEMA_VERSION;
use crate::number::Real;
use crate::units::Unit;
use vstd::prelude::*;

verus! {

/// Current normalized simulation-result schema version.
pub const SIMULATION_RESULT_SCHEMA_VERSION: u16 = 1;

/// Current crate version.
pub const VERSION: &'static str = "0.15.0";

/// The name of an observed signal.
#[derive(Debug, PartialEq, Eq, PartialOrd, Ord, Hash)]
pub struct SignalId(pub String);

impl View for SignalId {
    type V = Seq<char>;

    open spec fn view(&self) -> Seq<char> {
        self.0@
    }
}

impl Clone for SignalId {
    fn clone(&self) -> (r: Self)
        ensures
            r == *self,
    {
        SignalId(self.0.clone())
    }
}

impl SignalId {
    pub fn new(value: &str) -> (r: Self)
        ensures
            r@ == value@,
    {
        SignalId(value.to_owned())
    }

    pub fn as_str(&self) -> (r: &str)
        ensures
            r@ == self@,
    {
        self.0.as_str()
    }
}

/// The name of a simulation engine.
#[derive(Debug, PartialEq, Eq, PartialOrd, Ord, Hash)]
pub struct EngineId(pub String);

impl View for EngineId {
    type V = Seq<char>;

    open spec fn view(&self) -> Seq<char> {
        self.0@
    }
}

impl Clone for EngineId {
    fn clone(&self) -> (r: Self)
        ensures
            r == *self,
    {
        EngineId(self.0.clone())
    }
}

impl EngineId {
    pub fn new(value: &str) -> (r: Self)
        ensures
            r@ == value@,
    {
        EngineId(value.to_owned())
    }

    pub fn as_str(&self) -> (r: &str)
        ensures
            r@ == self@,
    {
        self.0.as_str()
    }
}

#[derive(Clone, Copy, Debug, PartialEq, Eq, Hash, Structural)]
pub enum AxisKind {
    Scalar,
    Time,
    DcSweep,
    Frequency,
}

#[derive(Clone, Debug, PartialEq, Eq)]
pub struct AnalogAxis {
    pub kind: AxisKind,
    pub unit: Unit,
    pub values: Vec<Real>,
}

#[derive(Clone, Debug, PartialEq, Eq)]
pub struct AnalogWaveform {
    pub signal: SignalId,
    pub unit: Unit,
    pub axis: AnalogAxis,
    pub values: Vec<Real>,
    pub imaginary: Option<Vec<Real>>,
}

/// A four-state logic level: low, high, unknown and undriven.
#[derive(Clone, Copy, Debug, PartialEq, Eq, Hash, Structural)]
pub enum LogicValue {
    Zero,
    One,
    X,
    Z,
}

#[derive(Clone, Copy, Debug, PartialEq, Eq, Structural)]
pub struct DigitalTransition {
    pub time: Real,
    pub value: LogicValue,
}

#[derive(Clone, Debug, PartialEq, Eq)]
pub struct DigitalWaveform {
    pub signal: SignalId,
    pub transitions: Vec<DigitalTransition>,
}

#[derive(Clone, Debug, PartialEq, Eq)]
pub enum Waveform {
    Analog(AnalogWaveform),
    Digital(DigitalWaveform),
}

impl Waveform {
    /// How many points or transitions the waveform has.
    pub open spec fn points(self) -> nat {
        match self {
            Waveform::Analog(waveform) => waveform.values@.len(),
            Waveform::Digital(waveform) => waveform.transitions@.len(),
        }
    }

    pub fn point_count(&self) -> (r: usize)
        ensures
            r == self.points(),
    {
        match self {
            Waveform::Analog(waveform) => waveform.values.len(),
            Waveform::Digital(waveform) => waveform.transitions.len(),
        }
    }
}

#[derive(Clone, Copy, Debug, PartialEq, Eq, Hash, Structural)]
pub enum DiagnosticLevel {
    Info,
    Warning,
    Error,
}

#[derive(Clone, Debug, PartialEq, Eq)]
pub struct Diagnostic {
    pub level: DiagnosticLevel,
    pub code: String,
    pub message: String,
}

impl Diagnostic {
    pub fn new(level: DiagnosticLevel, code: &str, message: &str) -> (r: Self)
        ensures
            r.level == level,
            r.code@ == code@,
            r.message@ == message@,
    {
        Diagnostic { level, code: code.to_owned(), message: message.to_owned() }
    }
}

/// Deterministic provenance attached to every normalized result.
#[derive(Clone, Debug, PartialEq, Eq)]
pub struct SimulationMetadata {
    pub result_schema_version: u16,
    pub circuit_schema_version: u16,
    pub core_version: String,
    pub engine_version: Option<String>,
}

impl SimulationMetadata {
    pub open spec fn is_current(self, circuit_schema_version: u16, engine_version: Option<String>) -> bool {
        &&& self.result_schema_version == SIMULATION_RESULT_SCHEMA_VERSION
        &&& self.circuit_schema_version == circuit_schema_version
        &&& self.core_version@ == VERSION@
        &&& self.engine_version == engine_version
    }

    pub fn current(circuit_schema_version: u16, engine_version: Option<String>) -> (r: Self)
        ensures
            r.is_current(circuit_schema_version, engine_version),
    {
        SimulationMetadata {
            result_schema_version: SIMULATION_RESULT_SCHEMA_VERSION,
            circuit_schema_version,
            core_version: VERSION.to_owned(),
            engine_version,
        }
    }
}

impl Default for SimulationMetadata {
    fn default() -> (r: Self)
        ensures
            r.is_current(CIRCUIT_SCHEMA_VERSION, None),
    {
        SimulationMetadata::current(CIRCUIT_SCHEMA_VERSION, None)
    }
}

/// Deterministic result-size statistics. Runtime timings do not live here
/// because the normalized result is also used for reproducibility.
#[derive(Clone, Copy, Debug, PartialEq, Eq, Structural)]
pub struct SimulationStats {
    pub waveform_count: usize,
    pub point_count: usize,
}

impl Default for SimulationStats {
    fn default() -> (r: Self)
        ensures
            r.waveform_count == 0,
            r.point_count == 0,
    {
        SimulationStats { waveform_count: 0, point_count: 0 }
    }
}

/// The points of all the waveforms together.
pub open spec fn total_points(waveforms: Seq<Waveform>) -> nat
    decreases waveforms.len(),
{
    if waveforms.len() == 0 {
        0
    } else {
        total_points(waveforms.drop_last()) + waveforms.last().points()
    }
}

/// A count as a `usize`, the largest where it does not fit.
pub open spec fn counted(n: nat) -> usize {
    if n > usize::MAX {
        usize::MAX
    } else {
        n as usize
    }
}

impl SimulationStats {
    pub fn from_waveforms(waveforms: &Vec<Waveform>) -> (r: Self)
        ensures
            r.waveform_count == waveforms@.len(),
            r.point_count == counted(total_points(waveforms@)),
    {
        let mut point_count: usize = 0;
        let mut i: usize = 0;
        while i < waveforms.len()
            invariant
                i <= waveforms@.len(),
                point_count == counted(total_points(waveforms@.take(i as int))),
            decreases waveforms@.len() - i,
        {
            assert(waveforms@.take(i + 1).drop_last() =~= waveforms@.take(i as int));
            point_count = point_count.saturating_add(waveforms[i].point_count());
            i = i + 1;
        }
        assert(waveforms@.take(i as int) =~= waveforms@);
        SimulationStats { waveform_count: waveforms.len(), point_count }
    }
}

#[derive(Clone, Debug, PartialEq, Eq)]
pub struct SimulationResult {
    pub engine: EngineId,
    pub analysis: AnalysisKind,
    pub metadata: SimulationMetadata,
    pub stats: SimulationStats,
    pub waveforms: Vec<Waveform>,
    pub diagnostics: Vec<Diagnostic>,
}

impl SimulationResult {
    pub fn new(
        engine: EngineId,
        engine_version: Option<String>,
        analysis: AnalysisKind,
        circuit_schema_version: u16,
        waveforms: Vec<Waveform>,
        diagnostics: Vec<Diagnostic>,
    ) -> (r: Self)
        ensures
            r.engine == engine,
            r.analysis == analysis,
            r.metadata.is_current(circuit_schema_version, engine_version),
            r.stats.waveform_count == waveforms@.len(),
            r.stats.point_count == counted(total_points(waveforms@)),
            r.waveforms == waveforms,
            r.diagnostics == diagnostics,
    {
        let stats = SimulationStats::from_waveforms(&waveforms);
        SimulationResult {
            engine,
            analysis,
            metadata: SimulationMetadata::current(circuit_schema_version, engine_version),
            stats,
            waveforms,
            diagnostics,
        }
    }
}

} // verus!
