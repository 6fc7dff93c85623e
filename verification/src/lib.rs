//! OntologyX Sim Core: circuit contracts and simulation engines.
//!
//! The circuit model and the normalized result model are solver-independent.
//! The digital event engine and the co-simulation scheduler run here; for the
//! outside solvers this library writes what they are given, decides when they
//! are stopped, and reads what they leave. What a file, a process or a socket
//! does is not seen here.
//!
//! Numbers are doubles, held as their bits and computed exactly as the machine
//! would: see `number`. A generated text that holds numbers is a `draft`.

pub mod analog_terms;
pub mod analysis;
pub mod arithmetic;
pub mod bench_terms;
pub mod circuit;
pub mod control;
pub mod cosim;
pub mod cosim_bridge;
pub mod deck;
pub mod digital;
pub mod digital_cosim;
pub mod digital_engine;
pub mod draft;
pub mod engine;
pub mod event_terms;
pub mod events;
pub mod fault;
pub mod firmware;
pub mod hdl;
pub mod job_terms;
pub mod kernel;
pub mod lines;
pub mod logic;
pub mod lookup;
pub mod mixed;
pub mod model;
pub mod ngspice;
pub mod node_terms;
pub mod nodes;
pub mod number;
pub mod protocol_terms;
pub mod reading;
pub mod recorder;
pub mod renode;
pub mod renode_cosim;
pub mod runs;
pub mod runtime;
pub mod scales;
pub mod scheduler;
pub mod scope;
pub mod service;
pub mod settings;
pub mod solvers;
pub mod spelling;
pub mod spice_models;
pub mod spice_results;
pub mod stimulus;
pub mod text;
pub mod timeline;
pub mod truth;
pub mod units;
pub mod validation;
pub mod vcd;
pub mod verilator;
pub mod verilator_cosim;
pub mod waveform;
pub mod wiring;
pub mod xspice;

pub use analysis::{AcScale, Analysis, AnalysisDomain, AnalysisKind};
pub use circuit::{
    Circuit, Component, ComponentId, ComponentKind, Net, NetEndpoint, NetId, ParameterValue, Pin,
    PinDirection, PinId, SignalDomain, CIRCUIT_SCHEMA_VERSION,
};
pub use control::{
    CancellationToken, ExecutionControl, ExecutionPolicy, DEFAULT_EXECUTION_POLL_INTERVAL_MS,
    DEFAULT_EXECUTION_TIMEOUT_MS, DEFAULT_MAX_INPUT_BYTES, DEFAULT_MAX_LOG_BYTES,
    DEFAULT_MAX_OUTPUT_BYTES,
};
pub use cosim::{
    CoSimulationConfig, CoSimulationEndpoint, CoSimulationLink, CoSimulationParticipant,
    CoSimulationPort, CoSimulationStats, CoSimulationTime, CoSimulationValue, COSIM_SCHEDULER_ID,
    COSIM_TIMEBASE_HZ, DEFAULT_MAX_COSIM_STEPS, DEFAULT_MAX_DELTA_CYCLES,
};
pub use cosim_bridge::{
    AdcCoSimulationParticipant, DacCoSimulationParticipant, ADC_COSIM_ANALOG_IN,
    ADC_COSIM_DIGITAL_OUT, DAC_COSIM_ANALOG_OUT, DAC_COSIM_DIGITAL_IN,
};
pub use digital::{DIGITAL_ENGINE_ID, MAX_DIGITAL_EVENTS};
pub use digital_cosim::{DigitalCoSimulationBinding, DigitalCoSimulationParticipant};
pub use digital_engine::DigitalEngine;
pub use engine::{
    EngineCapabilities, EngineDescriptor, EngineRegistry, Probe, SimulationEngine,
    SimulationError, SimulationRequest, Simulator,
};
pub use fault::EngineError;
pub use firmware::{FirmwareArtifact, FirmwareFormat};
pub use logic::{LogicVector, MAX_DIGITAL_BUS_WIDTH};
pub use mixed::MIXED_SIGNAL_ENGINE_ID;
pub use model::{ModelDefinition, ModelId, ModelKind, ModelLanguage};
pub use ngspice::NGSPICE_ENGINE_ID;
pub use number::Real;
pub use renode::{RenodeTarget, MAX_RENODE_SAMPLE_POINTS, RENODE_ENGINE_ID};
pub use renode_cosim::{
    RenodeCoSimulationBinding, RenodeCoSimulationConfig, RenodeCoSimulationParticipant,
    RENODE_COSIM_DEFAULT_HELPER, RENODE_COSIM_TIME_QUANTUM_PS,
};
pub use runs::{NgSpiceInfo, RenodeInfo, VerilatorInfo, XSpiceInfo};
pub use runtime::{
    ArtifactRef, ContentAddressedStore, IsolatedProcessExecutor, IsolatedProcessLimits,
    ProductionRuntimeLimits, ReproducibilityManifest, RuntimeError, RuntimeJobFailure,
    RuntimeJobId, RuntimeJobSnapshot, RuntimeJobStatus, WorkerRequestEnvelope,
    WorkerResponseEnvelope, DEFAULT_MAX_ATTEMPTS,
    DEFAULT_MAX_PARALLEL_WORKERS, DEFAULT_MAX_QUEUED_JOBS, DEFAULT_MAX_RETAINED_TERMINAL_JOBS,
    DEFAULT_WORKER_CPU_SECONDS, DEFAULT_WORKER_FILE_BYTES, DEFAULT_WORKER_MEMORY_BYTES,
    DEFAULT_WORKER_OPEN_FILES, DEFAULT_WORKER_PROCESSES, RUNTIME_MANIFEST_SCHEMA_VERSION,
};
pub use scheduler::{CoSimulationReport, CoSimulationScheduler};
pub use service::{
    HealthResponse, ServiceError, ServiceLimits, SimulationJobEvent, SimulationJobFailure,
    SimulationJobId, SimulationJobSnapshot, SimulationJobStatus, SubmitSimulation,
    DEFAULT_MAX_CONCURRENT_JOBS, DEFAULT_MAX_RETAINED_JOBS, DEFAULT_MAX_SERVICE_REQUEST_BYTES,
};
pub use solvers::{
    MixedSignalEngine, MixedSignalInfo, NgSpiceEngine, RenodeEngine, VerilatorEngine, XSpiceEngine,
};
pub use units::{Quantity, Unit};
pub use validation::{validate_circuit, IssueSeverity, ValidationIssue, ValidationReport};
pub use verilator::VERILATOR_ENGINE_ID;
pub use verilator_cosim::VerilatorCoSimulationParticipant;
pub use waveform::{
    AnalogAxis, AnalogWaveform, AxisKind, Diagnostic, DiagnosticLevel, DigitalTransition,
    DigitalWaveform, EngineId, LogicValue, SignalId, SimulationMetadata, SimulationResult,
    SimulationStats, Waveform, SIMULATION_RESULT_SCHEMA_VERSION, VERSION,
};
pub use xspice::XSPICE_ENGINE_ID;
