//! The outside solvers: what they can simulate, how they are started, and
//! whether their event models are there.
use crate::analysis::AnalysisKind;
use crate::circuit::{contains_kind, has_kind};
use crate::control::ExecutionPolicy;
use crate::engine::{Abilities, EngineCapabilities, SimulationRequest};
use crate::fault::{agrees, EngineError, Fault};
use crate::mixed::{mixed_compiled, CompiledMixedRequest};
use crate::model::ModelDefinition;
use crate::ngspice::{compiled_of, CompiledRequest};
use crate::renode::{firmware_run, takes_firmware, CompiledRenodeRequest, RenodeTarget};
use crate::runs::{
    check_start, ngspice_info, renode_info, spice_version, start_failure, tool_version,
    verilator_info, NgSpiceInfo, Printed, RenodeInfo, VerilatorInfo, XSpiceInfo,
};
use crate::spice_models::text_of;
use crate::text::texts;
use crate::verilator::{bench_of, takes_hdl, CompiledVerilatorRequest, HdlSourceFile};
use crate::verilator_cosim::cosim_source_file;
use crate::xspice::{
    event_compiled, log_has_xspice_failure, shows_failure, CompiledXSpiceRequest,
};
use vstd::prelude::*;

verus! {

/// What ngspice can simulate.
pub open spec fn analog_abilities() -> Abilities {
    Abilities {
        analog: true,
        digital: false,
        mixed_signal: false,
        analyses: seq![
            AnalysisKind::OperatingPoint,
            AnalysisKind::DcSweep,
            AnalysisKind::Transient,
            AnalysisKind::AcSweep,
        ],
    }
}

pub fn ngspice_capabilities() -> (r: EngineCapabilities)
    ensures
        r@ == analog_abilities(),
{
    let mut analyses: Vec<AnalysisKind> = Vec::new();
    analyses.push(AnalysisKind::OperatingPoint);
    analyses.push(AnalysisKind::DcSweep);
    analyses.push(AnalysisKind::Transient);
    analyses.push(AnalysisKind::AcSweep);
    assert(analyses@ =~= analog_abilities().analyses);
    EngineCapabilities { analog: true, digital: false, mixed_signal: false, analyses }
}

/// A solver of the digital domain that knows one kind of analysis.
pub open spec fn digital_abilities(kind: AnalysisKind) -> Abilities {
    Abilities { analog: false, digital: true, mixed_signal: false, analyses: seq![kind] }
}

fn digital_capabilities(kind: AnalysisKind) -> (r: EngineCapabilities)
    ensures
        r@ == digital_abilities(kind),
{
    let mut analyses: Vec<AnalysisKind> = Vec::new();
    analyses.push(kind);
    assert(analyses@ =~= seq![kind]);
    EngineCapabilities { analog: false, digital: true, mixed_signal: false, analyses }
}

pub fn xspice_capabilities() -> (r: EngineCapabilities)
    ensures
        r@ == digital_abilities(AnalysisKind::DigitalTransient),
{
    digital_capabilities(AnalysisKind::DigitalTransient)
}

pub fn verilator_capabilities() -> (r: EngineCapabilities)
    ensures
        r@ == digital_abilities(AnalysisKind::DigitalTransient),
{
    digital_capabilities(AnalysisKind::DigitalTransient)
}

pub fn renode_capabilities() -> (r: EngineCapabilities)
    ensures
        r@ == digital_abilities(AnalysisKind::FirmwareTransient),
{
    digital_capabilities(AnalysisKind::FirmwareTransient)
}

/// What ngspice and its event models can simulate together.
pub open spec fn mixed_abilities() -> Abilities {
    Abilities {
        analog: false,
        digital: false,
        mixed_signal: true,
        analyses: seq![AnalysisKind::MixedSignalTransient],
    }
}

pub fn mixed_capabilities() -> (r: EngineCapabilities)
    ensures
        r@ == mixed_abilities(),
{
    let mut analyses: Vec<AnalysisKind> = Vec::new();
    analyses.push(AnalysisKind::MixedSignalTransient);
    assert(analyses@ =~= mixed_abilities().analyses);
    EngineCapabilities { analog: false, digital: false, mixed_signal: true, analyses }
}

/// A request that ngspice and its event models can run: a mixed transient
/// without an HDL module.
pub open spec fn takes_mixed(request: SimulationRequest) -> bool {
    mixed_abilities().covers(request.analysis) && !has_kind(
        request.circuit.components@,
        "hdl_module"@,
    )
}

pub fn mixed_supports_request(request: &SimulationRequest) -> (r: bool)
    ensures
        r == takes_mixed(*request),
{
    mixed_capabilities().supports(&request.analysis) && !contains_kind(
        &request.circuit.components,
        "hdl_module",
    )
}

/// Whether ngspice and its event models are there.
#[derive(Clone, Debug, PartialEq, Eq)]
pub struct MixedSignalInfo {
    pub available: bool,
    pub xspice_available: bool,
    pub executable: String,
    pub version: Option<String>,
}

/// What is known of the event models, from what is known of ngspice. The trial
/// counts only where ngspice is there.
pub fn xspice_info(ngspice: NgSpiceInfo, trial: bool) -> (r: XSpiceInfo)
    ensures
        r == (XSpiceInfo {
            available: ngspice.available,
            xspice_available: ngspice.available && trial,
            executable: ngspice.executable,
            version: ngspice.version,
        }),
{
    XSpiceInfo {
        available: ngspice.available,
        xspice_available: ngspice.available && trial,
        executable: ngspice.executable,
        version: ngspice.version,
    }
}

pub fn mixed_info(info: XSpiceInfo) -> (r: MixedSignalInfo)
    ensures
        r == (MixedSignalInfo {
            available: info.available,
            xspice_available: info.xspice_available,
            executable: info.executable,
            version: info.version,
        }),
{
    MixedSignalInfo {
        available: info.available,
        xspice_available: info.xspice_available,
        executable: info.executable,
        version: info.version,
    }
}

/// A netlist whose run shows whether the event models are there.
pub const TRIAL_NETLIST: &'static str = "* OntologyX XSPICE capability probe
Vdummy dummy 0 DC=0
a_source [din] source_model
.model source_model d_source(input_file=\"source.txt\")
a_gate din dout gate_model
.model gate_model d_buffer(rise_delay=1e-12 fall_delay=1e-12)
.control
set noaskquit
tran 1e-12 5e-12
eprvcd -t 1e-15 dout > result.vcd
quit
.endc
.end
";

/// The stimulus of the trial.
pub const TRIAL_STIMULUS: &'static str = "0 0s
1e-12 1s
";

/// Whether the trial shows that the event models are there: it ends with
/// success, no model is missing, and it leaves a dump.
pub fn trial_passes(success: bool, log: &str, dump_bytes: u64) -> (r: bool)
    ensures
        r == (success && !shows_failure(log@) && dump_bytes > 0),
{
    success && !log_has_xspice_failure(log) && dump_bytes > 0
}

/// The arguments of a run of ngspice on a netlist.
pub fn spice_arguments(log_file: &str, netlist_file: &str) -> (r: Vec<String>)
    ensures
        texts(r@) == seq!["-n"@, "-b"@, "-o"@, log_file@, netlist_file@],
{
    let mut out: Vec<String> = Vec::new();
    out.push("-n".to_owned());
    out.push("-b".to_owned());
    out.push("-o".to_owned());
    out.push(log_file.to_owned());
    out.push(netlist_file.to_owned());
    assert(texts(out@) =~= seq!["-n"@, "-b"@, "-o"@, log_file@, netlist_file@]);
    out
}

/// The names of the first `n` source files.
pub open spec fn file_names(sources: Seq<HdlSourceFile>, n: int) -> Seq<Seq<char>>
    decreases n,
{
    if n <= 0 {
        Seq::empty()
    } else {
        file_names(sources, n - 1).push(sources[n - 1].filename@)
    }
}

/// How Verilator treats time and unknown levels: a tick is a picosecond, and
/// what is unknown is zero.
pub open spec fn hdl_semantics() -> Seq<Seq<char>> {
    seq!["--timescale"@, "1ps/1ps"@, "--x-assign"@, "0"@, "--x-initial"@, "0"@]
}

/// The arguments of a build of a test bench.
pub open spec fn bench_arguments(sources: Seq<HdlSourceFile>) -> Seq<Seq<char>> {
    seq!["--binary"@, "--timing"@, "--trace-vcd"@] + hdl_semantics() + seq![
        "--top-module"@,
        "oxsim_tb"@,
        "--Mdir"@,
        "obj_dir"@,
        "-o"@,
        "oxsim_verilated"@,
        "-j"@,
        "1"@,
    ] + file_names(sources, sources.len() as int) + seq!["oxsim_tb.sv"@]
}

fn push_hdl_semantics(out: &mut Vec<String>)
    ensures
        texts(final(out)@) == texts(old(out)@) + hdl_semantics(),
{
    out.push("--timescale".to_owned());
    out.push("1ps/1ps".to_owned());
    out.push("--x-assign".to_owned());
    out.push("0".to_owned());
    out.push("--x-initial".to_owned());
    out.push("0".to_owned());
    assert(texts(out@) =~= texts(old(out)@) + hdl_semantics());
}

pub fn hdl_build_arguments(sources: &Vec<HdlSourceFile>) -> (r: Vec<String>)
    ensures
        texts(r@) == bench_arguments(sources@),
{
    let mut out: Vec<String> = Vec::new();
    out.push("--binary".to_owned());
    out.push("--timing".to_owned());
    out.push("--trace-vcd".to_owned());
    assert(texts(out@) =~= seq!["--binary"@, "--timing"@, "--trace-vcd"@]);
    push_hdl_semantics(&mut out);
    let ghost start = texts(out@);
    out.push("--top-module".to_owned());
    out.push("oxsim_tb".to_owned());
    out.push("--Mdir".to_owned());
    out.push("obj_dir".to_owned());
    out.push("-o".to_owned());
    out.push("oxsim_verilated".to_owned());
    out.push("-j".to_owned());
    out.push("1".to_owned());
    let ghost head = start + seq![
        "--top-module"@,
        "oxsim_tb"@,
        "--Mdir"@,
        "obj_dir"@,
        "-o"@,
        "oxsim_verilated"@,
        "-j"@,
        "1"@,
    ];
    assert(texts(out@) =~= head + file_names(sources@, 0));
    let mut i: usize = 0;
    while i < sources.len()
        invariant
            i <= sources@.len(),
            texts(out@) == head + file_names(sources@, i as int),
        decreases sources@.len() - i,
    {
        let ghost before = texts(out@);
        out.push(sources[i].filename.clone());
        assert(texts(out@) =~= before.push(sources@[i as int].filename@));
        assert(texts(out@) =~= head + file_names(sources@, i + 1));
        i = i + 1;
    }
    let ghost before = texts(out@);
    out.push("oxsim_tb.sv".to_owned());
    assert(texts(out@) =~= before + seq!["oxsim_tb.sv"@]);
    out
}

/// The arguments of a build of a module that is stepped from outside.
pub open spec fn stepped_arguments(entry: Seq<char>, source_file: Seq<char>) -> Seq<Seq<char>> {
    seq!["--cc"@, "--exe"@, "--build"@, "--timing"@] + hdl_semantics() + seq![
        "--top-module"@,
        entry,
        "--prefix"@,
        "OxCosimModel"@,
        "--Mdir"@,
        "obj_dir_cosim"@,
        "-o"@,
        "oxsim_verilator_cosim"@,
        "-j"@,
        "1"@,
        source_file,
        "oxsim_cosim_main.cpp"@,
    ]
}

pub fn hdl_cosim_build_arguments(model: &ModelDefinition) -> (r: Vec<String>)
    ensures
        texts(r@) == stepped_arguments(
            model.entry@,
            if model.language == crate::model::ModelLanguage::Verilog {
                "oxsim_cosim_model.v"@
            } else {
                "oxsim_cosim_model.sv"@
            },
        ),
{
    let source_file = cosim_source_file(model);
    let mut out: Vec<String> = Vec::new();
    out.push("--cc".to_owned());
    out.push("--exe".to_owned());
    out.push("--build".to_owned());
    out.push("--timing".to_owned());
    assert(texts(out@) =~= seq!["--cc"@, "--exe"@, "--build"@, "--timing"@]);
    push_hdl_semantics(&mut out);
    let ghost start = texts(out@);
    out.push("--top-module".to_owned());
    out.push(model.entry.clone());
    out.push("--prefix".to_owned());
    out.push("OxCosimModel".to_owned());
    out.push("--Mdir".to_owned());
    out.push("obj_dir_cosim".to_owned());
    out.push("-o".to_owned());
    out.push("oxsim_verilator_cosim".to_owned());
    out.push("-j".to_owned());
    out.push("1".to_owned());
    out.push(source_file.to_owned());
    out.push("oxsim_cosim_main.cpp".to_owned());
    assert(texts(out@) =~= stepped_arguments(model.entry@, source_file@));
    out
}

/// The arguments of a run of Renode on a script.
pub fn renode_arguments(script_file: &str) -> (r: Vec<String>)
    ensures
        texts(r@) == seq!["--disable-gui"@, "--console"@, "-p"@, script_file@],
{
    let mut out: Vec<String> = Vec::new();
    out.push("--disable-gui".to_owned());
    out.push("--console".to_owned());
    out.push("-p".to_owned());
    out.push(script_file.to_owned());
    assert(texts(out@) =~= seq!["--disable-gui"@, "--console"@, "-p"@, script_file@]);
    out
}

/// A run that is refused before it is started, or what it is given.
pub open spec fn prepared<T>(refusal: Option<Fault>, compiled: Result<T, Fault>) -> Result<T, Fault> {
    match refusal {
        Some(f) => Err(f),
        None => compiled,
    }
}

/// What is told of ngspice agrees with what it printed.
pub open spec fn tells_ngspice(info: NgSpiceInfo, executable: Seq<char>, printed: Option<Printed>) -> bool {
    &&& info.executable@ == executable
    &&& match printed {
        None => !info.available && info.version is None,
        Some(p) => {
            &&& text_of(info.version) == spice_version(p)
            &&& info.available == (p.success || spice_version(p) is Some)
        },
    }
}

/// What is told of the event models agrees with what ngspice printed and with the
/// trial.
pub open spec fn tells_xspice(
    info: XSpiceInfo,
    executable: Seq<char>,
    printed: Option<Printed>,
    trial: bool,
) -> bool {
    &&& tells_ngspice(
        NgSpiceInfo {
            available: info.available,
            executable: info.executable,
            version: info.version,
        },
        executable,
        printed,
    )
    &&& info.xspice_available == (info.available && trial)
}

/// ngspice in batch mode.
#[derive(Clone, Debug, PartialEq, Eq)]
pub struct NgSpiceEngine {
    pub executable: String,
}

impl Default for NgSpiceEngine {
    fn default() -> (r: Self)
        ensures
            r.executable@ == "ngspice"@,
    {
        NgSpiceEngine::new("ngspice")
    }
}

impl NgSpiceEngine {
    pub fn new(executable: &str) -> (r: Self)
        ensures
            r.executable@ == executable@,
    {
        NgSpiceEngine { executable: executable.to_owned() }
    }

    pub fn executable(&self) -> (r: &str)
        ensures
            r@ == self.executable@,
    {
        self.executable.as_str()
    }

    /// Whether the solver is there, from what it printed, if it could be started.
    pub fn info(&self, printed: Option<Printed>) -> (r: NgSpiceInfo)
        ensures
            tells_ngspice(r, self.executable@, printed),
    {
        ngspice_info(self.executable.as_str(), printed)
    }

    /// What a run of the request is given, unless the run is not started.
    pub fn prepare(&self, request: &SimulationRequest, policy: &ExecutionPolicy, cancelled: bool) -> (r:
        Result<CompiledRequest, EngineError>)
        ensures
            agrees(
                r,
                prepared(start_failure(*policy, cancelled, "ngspice"@), compiled_of(*request)),
            ),
    {
        match check_start(policy, cancelled, "ngspice") {
            Err(e) => Err(e),
            Ok(_) => crate::ngspice::compile_request(request),
        }
    }

    pub fn capabilities(&self) -> (r: EngineCapabilities)
        ensures
            r@ == analog_abilities(),
    {
        ngspice_capabilities()
    }

    pub fn supports_request(&self, request: &SimulationRequest) -> (r: bool)
        ensures
            r == analog_abilities().covers(request.analysis),
    {
        self.capabilities().supports(&request.analysis)
    }
}

/// The event models of ngspice.
#[derive(Clone, Debug, PartialEq, Eq)]
pub struct XSpiceEngine {
    pub executable: String,
}

impl Default for XSpiceEngine {
    fn default() -> (r: Self)
        ensures
            r.executable@ == "ngspice"@,
    {
        XSpiceEngine::new("ngspice")
    }
}

impl XSpiceEngine {
    pub fn new(executable: &str) -> (r: Self)
        ensures
            r.executable@ == executable@,
    {
        XSpiceEngine { executable: executable.to_owned() }
    }

    pub fn executable(&self) -> (r: &str)
        ensures
            r@ == self.executable@,
    {
        self.executable.as_str()
    }

    /// Whether the solver and its event models are there. `trial` says whether a
    /// trial run passed.
    pub fn info(&self, printed: Option<Printed>, trial: bool) -> (r: XSpiceInfo)
        ensures
            tells_xspice(r, self.executable@, printed, trial),
    {
        xspice_info(ngspice_info(self.executable.as_str(), printed), trial)
    }

    /// What a run of the request is given, unless the run is not started.
    pub fn prepare(&self, request: &SimulationRequest, policy: &ExecutionPolicy, cancelled: bool) -> (r:
        Result<CompiledXSpiceRequest, EngineError>)
        ensures
            agrees(
                r,
                prepared(start_failure(*policy, cancelled, "XSPICE"@), event_compiled(*request)),
            ),
    {
        match check_start(policy, cancelled, "XSPICE") {
            Err(e) => Err(e),
            Ok(_) => crate::xspice::compile_request(request),
        }
    }

    pub fn capabilities(&self) -> (r: EngineCapabilities)
        ensures
            r@ == digital_abilities(AnalysisKind::DigitalTransient),
    {
        xspice_capabilities()
    }

    pub fn supports_request(&self, request: &SimulationRequest) -> (r: bool)
        ensures
            r == digital_abilities(AnalysisKind::DigitalTransient).covers(request.analysis),
    {
        self.capabilities().supports(&request.analysis)
    }
}

/// ngspice and its event models in one run.
#[derive(Clone, Debug, PartialEq, Eq)]
pub struct MixedSignalEngine {
    pub executable: String,
}

impl Default for MixedSignalEngine {
    fn default() -> (r: Self)
        ensures
            r.executable@ == "ngspice"@,
    {
        MixedSignalEngine::new("ngspice")
    }
}

impl MixedSignalEngine {
    pub fn new(executable: &str) -> (r: Self)
        ensures
            r.executable@ == executable@,
    {
        MixedSignalEngine { executable: executable.to_owned() }
    }

    pub fn executable(&self) -> (r: &str)
        ensures
            r@ == self.executable@,
    {
        self.executable.as_str()
    }

    /// Whether the solver and its event models are there. `trial` says whether a
    /// trial run passed.
    pub fn info(&self, printed: Option<Printed>, trial: bool) -> (r: MixedSignalInfo)
        ensures
            tells_xspice(
                (XSpiceInfo {
                    available: r.available,
                    xspice_available: r.xspice_available,
                    executable: r.executable,
                    version: r.version,
                }),
                self.executable@,
                printed,
                trial,
            ),
    {
        mixed_info(xspice_info(ngspice_info(self.executable.as_str(), printed), trial))
    }

    /// What a run of the request is given, unless the run is not started.
    pub fn prepare(&self, request: &SimulationRequest, policy: &ExecutionPolicy, cancelled: bool) -> (r:
        Result<CompiledMixedRequest, EngineError>)
        requires
            request.circuit.components@.len() + 10_000 <= usize::MAX,
        ensures
            agrees(
                r,
                prepared(start_failure(*policy, cancelled, "mixed-signal"@), mixed_compiled(*request)),
            ),
    {
        match check_start(policy, cancelled, "mixed-signal") {
            Err(e) => Err(e),
            Ok(_) => crate::mixed::compile_request(request),
        }
    }

    pub fn capabilities(&self) -> (r: EngineCapabilities)
        ensures
            r@ == mixed_abilities(),
    {
        mixed_capabilities()
    }

    pub fn supports_request(&self, request: &SimulationRequest) -> (r: bool)
        ensures
            r == takes_mixed(*request),
    {
        mixed_supports_request(request)
    }
}

/// Verilator on a test bench.
#[derive(Clone, Debug, PartialEq, Eq)]
pub struct VerilatorEngine {
    pub executable: String,
}

impl Default for VerilatorEngine {
    fn default() -> (r: Self)
        ensures
            r.executable@ == "verilator"@,
    {
        VerilatorEngine::new("verilator")
    }
}

impl VerilatorEngine {
    pub fn new(executable: &str) -> (r: Self)
        ensures
            r.executable@ == executable@,
    {
        VerilatorEngine { executable: executable.to_owned() }
    }

    pub fn executable(&self) -> (r: &str)
        ensures
            r@ == self.executable@,
    {
        self.executable.as_str()
    }

    /// Whether Verilator is there, from what it printed, if it could be started.
    pub fn info(&self, printed: Option<Printed>) -> (r: VerilatorInfo)
        ensures
            r.executable@ == self.executable@,
            match printed {
                Some(p) => r.available == p.success && text_of(r.version) == if p.success {
                    tool_version(p)
                } else {
                    None
                },
                None => !r.available && r.version is None,
            },
    {
        verilator_info(self.executable.as_str(), printed)
    }

    /// What a run of the request is given, unless the run is not started.
    pub fn prepare(&self, request: &SimulationRequest, policy: &ExecutionPolicy, cancelled: bool) -> (r:
        Result<CompiledVerilatorRequest, EngineError>)
        ensures
            agrees(
                r,
                prepared(start_failure(*policy, cancelled, "Verilator"@), bench_of(*request)),
            ),
    {
        match check_start(policy, cancelled, "Verilator") {
            Err(e) => Err(e),
            Ok(_) => crate::verilator::compile_request(request),
        }
    }

    pub fn capabilities(&self) -> (r: EngineCapabilities)
        ensures
            r@ == digital_abilities(AnalysisKind::DigitalTransient),
    {
        verilator_capabilities()
    }

    pub fn supports_request(&self, request: &SimulationRequest) -> (r: bool)
        ensures
            r == takes_hdl(*request),
    {
        crate::verilator::supports_request(request)
    }
}

/// Renode with firmware on one board.
#[derive(Clone, Debug, PartialEq, Eq)]
pub struct RenodeEngine {
    pub executable: String,
    pub target: RenodeTarget,
}

impl RenodeEngine {
    pub fn new(target: RenodeTarget) -> (r: Self)
        ensures
            r.executable@ == "renode"@,
            r.target == target,
    {
        RenodeEngine::with_executable("renode", target)
    }

    pub fn with_executable(executable: &str, target: RenodeTarget) -> (r: Self)
        ensures
            r.executable@ == executable@,
            r.target == target,
    {
        RenodeEngine { executable: executable.to_owned(), target }
    }

    pub fn executable(&self) -> (r: &str)
        ensures
            r@ == self.executable@,
    {
        self.executable.as_str()
    }

    pub fn target(&self) -> (r: &RenodeTarget)
        ensures
            *r == self.target,
    {
        &self.target
    }

    /// Whether Renode is there, from what it printed, if it could be started.
    pub fn info(&self, printed: Option<Printed>) -> (r: RenodeInfo)
        ensures
            r.executable@ == self.executable@,
            match printed {
                Some(p) => r.available == p.success && text_of(r.version) == if p.success {
                    tool_version(p)
                } else {
                    None
                },
                None => !r.available && r.version is None,
            },
    {
        renode_info(self.executable.as_str(), printed)
    }

    /// What a run of the request is given, unless the run is not started.
    pub fn prepare(&self, request: &SimulationRequest, policy: &ExecutionPolicy, cancelled: bool) -> (r:
        Result<CompiledRenodeRequest, EngineError>)
        ensures
            agrees(
                r,
                prepared(
                    start_failure(*policy, cancelled, "Renode"@),
                    prepared(self.target.failure(), firmware_run(*request, self.target)),
                ),
            ),
    {
        match check_start(policy, cancelled, "Renode") {
            Err(e) => {
                return Err(e);
            },
            Ok(_) => {},
        }
        match self.target.validate() {
            Err(e) => Err(e),
            Ok(_) => crate::renode::compile_request(request, &self.target),
        }
    }

    pub fn capabilities(&self) -> (r: EngineCapabilities)
        ensures
            r@ == digital_abilities(AnalysisKind::FirmwareTransient),
    {
        renode_capabilities()
    }

    pub fn supports_request(&self, request: &SimulationRequest) -> (r: bool)
        ensures
            r == takes_firmware(self.target, *request),
    {
        crate::renode::supports_request(&self.target, request)
    }
}

/// A request with an HDL module is taken neither by the built-in digital engine
/// nor by ngspice and its event models.
pub proof fn hdl_requests_are_left_to_verilator(
    engine: crate::digital_engine::DigitalEngine,
    request: SimulationRequest,
)
    requires
        has_kind(request.circuit.components@, "hdl_module"@),
    ensures
        !crate::engine::SimulationEngine::takes(&engine, request),
        !takes_mixed(request),
{
}

} // verus!
