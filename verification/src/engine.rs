//! Simulation requests, engines and the choice among them.
use crate::analysis::{Analysis, AnalysisDomain, AnalysisKind};
use crate::circuit::{Circuit, NetEndpoint};
use crate::control::{check_signal, ExecutionControl};
use crate::fault::{fault, EngineError};
use crate::text::{cat2, cat3, cat4, decimal, decimal_text};
use crate::validation::{
    acceptable, circuit_issues, count_of, validate_circuit, IssueSeverity, ValidationReport,
};
use crate::waveform::{EngineId, SimulationResult};
use vstd::prelude::*;

verus! {

/// What an engine can simulate.
#[derive(Clone, Debug, PartialEq, Eq)]
pub struct EngineCapabilities {
    pub analog: bool,
    pub digital: bool,
    pub mixed_signal: bool,
    pub analyses: Vec<AnalysisKind>,
}

/// What an engine can simulate, as a plain value.
pub struct Abilities {
    pub analog: bool,
    pub digital: bool,
    pub mixed_signal: bool,
    pub analyses: Seq<AnalysisKind>,
}

impl View for EngineCapabilities {
    type V = Abilities;

    open spec fn view(&self) -> Abilities {
        Abilities {
            analog: self.analog,
            digital: self.digital,
            mixed_signal: self.mixed_signal,
            analyses: self.analyses@,
        }
    }
}

impl Abilities {
    /// Whether the domain and the kind of the analysis are both covered.
    pub open spec fn covers(self, analysis: Analysis) -> bool {
        &&& match analysis.spec_domain() {
            AnalysisDomain::Analog => self.analog,
            AnalysisDomain::Digital => self.digital,
            AnalysisDomain::Mixed => self.mixed_signal,
        }
        &&& self.analyses.contains(analysis.spec_kind())
    }
}

impl EngineCapabilities {
    pub fn supports(&self, analysis: &Analysis) -> (r: bool)
        ensures
            r == self@.covers(*analysis),
    {
        let in_domain: bool = match analysis.domain() {
            AnalysisDomain::Analog => self.analog,
            AnalysisDomain::Digital => self.digital,
            AnalysisDomain::Mixed => self.mixed_signal,
        };
        if !in_domain {
            return false;
        }
        let kind = analysis.kind();
        let mut i: usize = 0;
        while i < self.analyses.len()
            invariant
                i <= self.analyses@.len(),
                kind == analysis.spec_kind(),
                match analysis.spec_domain() {
                    AnalysisDomain::Analog => self.analog,
                    AnalysisDomain::Digital => self.digital,
                    AnalysisDomain::Mixed => self.mixed_signal,
                },
                forall|j: int| 0 <= j < i ==> self.analyses@[j] != kind,
            decreases self.analyses@.len() - i,
        {
            if self.analyses[i] == kind {
                assert(self.analyses@[i as int] == kind);
                return true;
            }
            i = i + 1;
        }
        false
    }
}

/// Stable description of a registered simulation engine.
#[derive(Clone, Debug, PartialEq, Eq)]
pub struct EngineDescriptor {
    pub id: EngineId,
    pub version: Option<String>,
    pub capabilities: EngineCapabilities,
}

#[derive(Clone, Debug, PartialEq, Eq)]
pub struct Probe {
    pub endpoint: NetEndpoint,
    pub alias: Option<String>,
}

#[derive(Clone, Debug, PartialEq, Eq)]
pub struct SimulationRequest {
    pub circuit: Circuit,
    pub analysis: Analysis,
    pub probes: Vec<Probe>,
}

/// A simulation backend.
///
/// What an engine that does not say so is named and able to do is left open, and
/// a run of it may end in any way.
pub trait SimulationEngine: Sized {
    /// The name of the engine.
    open spec fn name(&self) -> Seq<char> {
        arbitrary()
    }

    /// What the engine can simulate.
    open spec fn abilities(&self) -> Abilities {
        arbitrary()
    }

    /// The version of the engine, where it knows one.
    open spec fn release(&self) -> Option<Seq<char>> {
        arbitrary()
    }

    /// Whether the engine takes a request.
    open spec fn takes(&self, request: SimulationRequest) -> bool {
        arbitrary()
    }

    /// Whether a run of a request may end like this.
    open spec fn may_end(
        &self,
        request: SimulationRequest,
        control: ExecutionControl,
        outcome: Result<SimulationResult, EngineError>,
    ) -> bool {
        true
    }

    fn id(&self) -> (r: EngineId)
        ensures
            r@ == self.name(),
    ;

    fn capabilities(&self) -> (r: EngineCapabilities)
        ensures
            r@ == self.abilities(),
    ;

    /// Human- and tool-facing engine version, if it can be determined cheaply.
    fn version(&self) -> (r: Option<String>)
        ensures
            release_of(r) == self.release(),
    ;

    fn descriptor(&self) -> (r: EngineDescriptor)
        ensures
            r.id@ == self.name(),
            release_of(r.version) == self.release(),
            r.capabilities@ == self.abilities(),
    {
        EngineDescriptor {
            id: self.id(),
            version: self.version(),
            capabilities: self.capabilities(),
        }
    }

    /// Whether the engine takes a request, where several engines share a kind
    /// of analysis.
    fn supports_request(&self, request: &SimulationRequest) -> (r: bool)
        ensures
            r == self.takes(*request),
    ;

    fn simulate_with_control(&self, request: &SimulationRequest, control: &ExecutionControl) -> (r:
        Result<SimulationResult, EngineError>)
        ensures
            self.may_end(*request, *control, r),
    ;

    /// A run under the default limits.
    fn simulate(&self, request: &SimulationRequest) -> (r: Result<SimulationResult, EngineError>)
        ensures
            exists|control: ExecutionControl|
                control.policy == crate::control::default_policy() && #[trigger] self.may_end(
                    *request,
                    control,
                    r,
                ),
    {
        let control = ExecutionControl::default();
        self.simulate_with_control(request, &control)
    }
}

/// A version as a plain value.
pub open spec fn release_of(version: Option<String>) -> Option<Seq<char>> {
    match version {
        Some(v) => Some(v@),
        None => None,
    }
}

/// The checks that precede a run that cannot be interrupted.
pub fn check_before_execution(control: &ExecutionControl) -> (r: Result<(), EngineError>)
    ensures
        match r {
            Ok(_) => control.policy.failure() is None,
            Err(e) => control.policy.failure() == Some(e@) || control.policy.failure() is None
                && e@ == fault(
                "execution_cancelled"@,
                "simulation was cancelled before execution"@,
            ),
        },
{
    check_signal(
        &control.policy,
        control.cancellation.is_cancelled(),
        "simulation was cancelled before execution",
    )
}

/// The engines in the order of their registration.
pub struct EngineRegistry<E> {
    pub engines: Vec<E>,
}

/// The first engine whose abilities cover an analysis.
pub open spec fn covered_by<E: SimulationEngine>(engines: Seq<E>, analysis: Analysis, i: int) -> bool {
    &&& 0 <= i < engines.len()
    &&& engines[i].abilities().covers(analysis)
    &&& forall|j: int| 0 <= j < i ==> !(#[trigger] engines[j]).abilities().covers(analysis)
}

/// The first engine that takes a request.
pub open spec fn taken_by<E: SimulationEngine>(
    engines: Seq<E>,
    request: SimulationRequest,
    i: int,
) -> bool {
    &&& 0 <= i < engines.len()
    &&& engines[i].takes(request)
    &&& forall|j: int| 0 <= j < i ==> !(#[trigger] engines[j]).takes(request)
}

impl<E: SimulationEngine> EngineRegistry<E> {
    pub fn new() -> (r: Self)
        ensures
            r.engines@ == Seq::<E>::empty(),
    {
        EngineRegistry { engines: Vec::new() }
    }

    pub fn register(&mut self, engine: E)
        ensures
            final(self).engines@ == old(self).engines@.push(engine),
    {
        self.engines.push(engine);
    }

    pub fn ids(&self) -> (r: Vec<EngineId>)
        ensures
            r@.len() == self.engines@.len(),
            forall|i: int| 0 <= i < r@.len() ==> (#[trigger] r@[i])@ == self.engines@[i].name(),
    {
        let mut out: Vec<EngineId> = Vec::new();
        let mut i: usize = 0;
        while i < self.engines.len()
            invariant
                i <= self.engines@.len(),
                out@.len() == i,
                forall|k: int| 0 <= k < i ==> (#[trigger] out@[k])@ == self.engines@[k].name(),
            decreases self.engines@.len() - i,
        {
            out.push(self.engines[i].id());
            i = i + 1;
        }
        out
    }

    pub fn descriptors(&self) -> (r: Vec<EngineDescriptor>)
        ensures
            r@.len() == self.engines@.len(),
            forall|i: int|
                0 <= i < r@.len() ==> (#[trigger] r@[i]).id@ == self.engines@[i].name()
                    && release_of(r@[i].version) == self.engines@[i].release()
                    && r@[i].capabilities@ == self.engines@[i].abilities(),
    {
        let mut out: Vec<EngineDescriptor> = Vec::new();
        let mut i: usize = 0;
        while i < self.engines.len()
            invariant
                i <= self.engines@.len(),
                out@.len() == i,
                forall|k: int|
                    0 <= k < i ==> (#[trigger] out@[k]).id@ == self.engines@[k].name()
                        && release_of(out@[k].version) == self.engines@[k].release()
                        && out@[k].capabilities@ == self.engines@[k].abilities(),
            decreases self.engines@.len() - i,
        {
            out.push(self.engines[i].descriptor());
            i = i + 1;
        }
        out
    }

    /// The first engine whose abilities cover the analysis.
    pub fn select(&self, analysis: &Analysis) -> (r: Option<&E>)
        ensures
            match r {
                Some(e) => exists|i: int| #[trigger]
                    covered_by(self.engines@, *analysis, i) && *e == self.engines@[i],
                None => forall|i: int|
                    0 <= i < self.engines@.len() ==> !(#[trigger] self.engines@[i]).abilities().covers(
                        *analysis,
                    ),
            },
    {
        let mut i: usize = 0;
        while i < self.engines.len()
            invariant
                i <= self.engines@.len(),
                forall|k: int|
                    0 <= k < i ==> !(#[trigger] self.engines@[k]).abilities().covers(*analysis),
            decreases self.engines@.len() - i,
        {
            if self.engines[i].capabilities().supports(analysis) {
                assert(covered_by(self.engines@, *analysis, i as int));
                return Some(&self.engines[i]);
            }
            i = i + 1;
        }
        None
    }

    /// The first engine that takes the request.
    pub fn select_request(&self, request: &SimulationRequest) -> (r: Option<&E>)
        ensures
            match r {
                Some(e) => exists|i: int| #[trigger]
                    taken_by(self.engines@, *request, i) && *e == self.engines@[i],
                None => forall|i: int|
                    0 <= i < self.engines@.len() ==> !(#[trigger] self.engines@[i]).takes(*request),
            },
    {
        let mut i: usize = 0;
        while i < self.engines.len()
            invariant
                i <= self.engines@.len(),
                forall|k: int| 0 <= k < i ==> !(#[trigger] self.engines@[k]).takes(*request),
            decreases self.engines@.len() - i,
        {
            if self.engines[i].supports_request(request) {
                assert(taken_by(self.engines@, *request, i as int));
                return Some(&self.engines[i]);
            }
            i = i + 1;
        }
        None
    }
}

/// A later registration takes no request away from an engine that has it.
pub proof fn registration_keeps_the_choice<E: SimulationEngine>(
    engines: Seq<E>,
    engine: E,
    request: SimulationRequest,
    i: int,
)
    requires
        taken_by(engines, request, i),
    ensures
        taken_by(engines.push(engine), request, i),
{
    assert forall|j: int| 0 <= j < i implies !(#[trigger] engines.push(engine)[j]).takes(
        request,
    ) by {
        assert(engines.push(engine)[j] == engines[j]);
    }
}

/// At most one engine is the first that takes a request.
pub proof fn choice_is_unique<E: SimulationEngine>(
    engines: Seq<E>,
    request: SimulationRequest,
    i: int,
    j: int,
)
    requires
        taken_by(engines, request, i),
        taken_by(engines, request, j),
    ensures
        i == j,
{
}

#[derive(Clone, Debug, PartialEq, Eq)]
pub enum SimulationError {
    InvalidCircuit { report: ValidationReport },
    NoCompatibleEngine { analysis: AnalysisKind },
    Engine { engine: EngineId, error: EngineError },
}

impl SimulationError {
    pub open spec fn spec_code(self) -> Seq<char> {
        match self {
            SimulationError::InvalidCircuit { .. } => "invalid_circuit"@,
            SimulationError::NoCompatibleEngine { .. } => "no_compatible_engine"@,
            SimulationError::Engine { .. } => "engine_error"@,
        }
    }

    pub open spec fn spec_text(self) -> Seq<char> {
        match self {
            SimulationError::InvalidCircuit { report } => "circuit validation failed with "@
                + decimal(count_of(report@, IssueSeverity::Error)) + " error(s)"@,
            SimulationError::NoCompatibleEngine {
                analysis,
            } => "no registered engine supports "@ + analysis.spec_name(),
            SimulationError::Engine { engine, error } => "engine `"@ + engine@ + "` failed: "@ + (
            error.code@ + ": "@ + error.message@),
        }
    }

    /// Stable top-level error code.
    pub fn code(&self) -> (r: &'static str)
        ensures
            r@ == self.spec_code(),
    {
        match self {
            SimulationError::InvalidCircuit { .. } => "invalid_circuit",
            SimulationError::NoCompatibleEngine { .. } => "no_compatible_engine",
            SimulationError::Engine { .. } => "engine_error",
        }
    }

    /// What went wrong, for a reader.
    pub fn to_text(&self) -> (r: String)
        ensures
            r@ == self.spec_text(),
    {
        match self {
            SimulationError::InvalidCircuit { report } => {
                let count: usize = report.error_count();
                cat3(
                    "circuit validation failed with ",
                    decimal_text(count as u64).as_str(),
                    " error(s)",
                )
            },
            SimulationError::NoCompatibleEngine { analysis } => cat2(
                "no registered engine supports ",
                analysis.name(),
            ),
            SimulationError::Engine { engine, error } => cat4(
                "engine `",
                engine.as_str(),
                "` failed: ",
                error.to_text().as_str(),
            ),
        }
    }
}

/// The engines of an application behind one door.
pub struct Simulator<E> {
    pub registry: EngineRegistry<E>,
}

/// What a simulation may give: the circuit is checked first, then the first
/// engine that takes the request runs it.
pub open spec fn simulation_may_end<E: SimulationEngine>(
    engines: Seq<E>,
    request: SimulationRequest,
    control: ExecutionControl,
    outcome: Result<SimulationResult, SimulationError>,
) -> bool {
    if !acceptable(circuit_issues(request.circuit)) {
        outcome matches Err(SimulationError::InvalidCircuit { report }) && report@
            == circuit_issues(request.circuit)
    } else if forall|i: int| 0 <= i < engines.len() ==> !(#[trigger] engines[i]).takes(request) {
        outcome == Err::<SimulationResult, SimulationError>(
            SimulationError::NoCompatibleEngine { analysis: request.analysis.spec_kind() },
        )
    } else {
        exists|i: int| #[trigger]
            taken_by(engines, request, i) && match outcome {
                Ok(result) => engines[i].may_end(request, control, Ok(result)),
                Err(SimulationError::Engine { engine, error }) => engine@ == engines[i].name()
                    && engines[i].may_end(request, control, Err(error)),
                _ => false,
            }
    }
}

impl<E: SimulationEngine> Simulator<E> {
    pub fn new() -> (r: Self)
        ensures
            r.registry.engines@ == Seq::<E>::empty(),
    {
        Simulator { registry: EngineRegistry::new() }
    }

    pub fn register_engine(&mut self, engine: E)
        ensures
            final(self).registry.engines@ == old(self).registry.engines@.push(engine),
    {
        self.registry.register(engine);
    }

    pub fn engine_ids(&self) -> (r: Vec<EngineId>)
        ensures
            r@.len() == self.registry.engines@.len(),
            forall|i: int|
                0 <= i < r@.len() ==> (#[trigger] r@[i])@ == self.registry.engines@[i].name(),
    {
        self.registry.ids()
    }

    pub fn engine_descriptors(&self) -> (r: Vec<EngineDescriptor>)
        ensures
            r@.len() == self.registry.engines@.len(),
            forall|i: int|
                0 <= i < r@.len() ==> (#[trigger] r@[i]).id@ == self.registry.engines@[i].name()
                    && release_of(r@[i].version) == self.registry.engines@[i].release()
                    && r@[i].capabilities@ == self.registry.engines@[i].abilities(),
    {
        self.registry.descriptors()
    }

    pub fn validate(&self, circuit: &Circuit) -> (r: ValidationReport)
        ensures
            r@ == circuit_issues(*circuit),
    {
        validate_circuit(circuit)
    }

    /// A simulation under the default limits.
    pub fn simulate(&self, request: &SimulationRequest) -> (r: Result<
        SimulationResult,
        SimulationError,
    >)
        ensures
            exists|control: ExecutionControl|
                control.policy == crate::control::default_policy()
                    && #[trigger] simulation_may_end(
                    self.registry.engines@,
                    *request,
                    control,
                    r,
                ),
    {
        let control = ExecutionControl::default();
        self.simulate_with_control(request, &control)
    }

    pub fn simulate_with_control(
        &self,
        request: &SimulationRequest,
        control: &ExecutionControl,
    ) -> (r: Result<SimulationResult, SimulationError>)
        ensures
            simulation_may_end(self.registry.engines@, *request, *control, r),
    {
        let report = self.validate(&request.circuit);
        if !report.is_valid() {
            return Err(SimulationError::InvalidCircuit { report });
        }
        let engine = match self.registry.select_request(request) {
            None => {
                return Err(
                    SimulationError::NoCompatibleEngine { analysis: request.analysis.kind() },
                );
            },
            Some(engine) => engine,
        };
        let id = engine.id();
        match engine.simulate_with_control(request, control) {
            Ok(result) => Ok(result),
            Err(error) => Err(SimulationError::Engine { engine: id, error }),
        }
    }
}

} // verus!
