//! How a run of an outside solver is admitted, and what is made of what it
//! leaves behind.
use crate::control::ExecutionPolicy;
use crate::engine::SimulationRequest;
use crate::fault::{fail, fault, passes, EngineError, Fault};
use crate::lines::lines_of;
use crate::mixed::{CompiledMixedRequest, MIXED_SIGNAL_ENGINE_ID};
use crate::ngspice::{AnalogProbe, CompiledRequest, NGSPICE_ENGINE_ID};
use crate::number::Real;
use crate::renode::{
    changes, parse_samples, sample_views, samples_in, transitions_from_samples, RenodeProbe,
    RENODE_ENGINE_ID,
};
use crate::spice_results::{
    analog_waveforms, bounded_log, enforce_buffer_limit, extract_warnings, find_version, full_rows,
    log_end, parse_wrdata, samples, samples_of, shows_column, size_failure, version_of, warnings_of,
    OwnedTableRow, Sample, TableRow,
};
use crate::text::{cat2, cat3, cat4, is_blank, text_eq, texts, trim, trim_text};
use crate::units::Unit;
use crate::vcd::{dump_histories, parse_vcd, shows_history, VcdNumbers};
use crate::verilator::{
    extract_verilator_warnings, hdl_warnings, CompiledVerilatorRequest, VERILATOR_ENGINE_ID,
};
use crate::waveform::{
    counted, total_points, AxisKind, Diagnostic, DiagnosticLevel, DigitalTransition,
    DigitalWaveform, EngineId, SignalId, SimulationResult, Waveform,
};
use crate::xspice::{
    event_probes, log_has_xspice_failure, shows_failure, CompiledXSpiceRequest, EventProbe,
    XSPICE_ENGINE_ID,
};
use vstd::prelude::*;

verus! {

/// Why a run is not started.
pub open spec fn start_failure(policy: ExecutionPolicy, cancelled: bool, solver: Seq<char>) -> Option<
    Fault,
> {
    match policy.failure() {
        Some(f) => Some(f),
        None => if cancelled {
            Some(
                fault(
                    "execution_cancelled"@,
                    "simulation was cancelled before "@ + solver + " execution"@,
                ),
            )
        } else {
            None
        },
    }
}

pub fn check_start(policy: &ExecutionPolicy, cancelled: bool, solver: &str) -> (r: Result<
    (),
    EngineError,
>)
    ensures
        passes(r, start_failure(*policy, cancelled, solver@)),
{
    match policy.validate() {
        Err(e) => {
            return Err(e);
        },
        Ok(_) => {},
    }
    if cancelled {
        return Err(
            fail(
                "execution_cancelled",
                cat3("simulation was cancelled before ", solver, " execution"),
            ),
        );
    }
    Ok(())
}

/// Why a program that could not be started was not.
pub fn spawn_error(code: &str, missing_code: &str, missing: bool, executable: &str, reason: &str) -> (r:
    EngineError)
    ensures
        r@ == fault(
            if missing {
                missing_code@
            } else {
                code@
            },
            "could not execute `"@ + executable@ + "`: "@ + reason@,
        ),
{
    let message = cat4("could not execute `", executable, "`: ", reason);
    if missing {
        fail(missing_code, message)
    } else {
        fail(code, message)
    }
}

/// How a program ended: whether with success, its status in words, and its log.
#[derive(Clone, Debug, PartialEq, Eq)]
pub struct RunEnd {
    pub success: bool,
    pub status: String,
    pub log: String,
}

/// Why the end of a program is refused.
pub open spec fn exit_failure(code: Seq<char>, program: Seq<char>, end: RunEnd) -> Option<Fault> {
    if end.success {
        None
    } else {
        Some(fault(code, program + " exited with "@ + end.status@ + ": "@ + log_end(end.log@)))
    }
}

pub fn check_exit(code: &str, program: &str, end: &RunEnd) -> (r: Result<(), EngineError>)
    ensures
        passes(r, exit_failure(code@, program@, *end)),
{
    if !end.success {
        let start = cat4(program, " exited with ", end.status.as_str(), ": ");
        return Err(fail(code, cat2(start.as_str(), bounded_log(end.log.as_str()).as_str())));
    }
    Ok(())
}

/// A log that could not be read for the reason `code` is taken as empty.
pub fn settle_log(read: Result<String, EngineError>, code: &str) -> (r: Result<String, EngineError>)
    ensures
        match read {
            Ok(log) => r == Ok::<String, EngineError>(log),
            Err(e) => if e@.code == code@ {
                r matches Ok(log) && log@ == ""@
            } else {
                r == Err::<String, EngineError>(e)
            },
        },
{
    match read {
        Ok(log) => Ok(log),
        Err(e) => {
            if text_eq(e.code(), code) {
                Ok("".to_owned())
            } else {
                Err(e)
            }
        },
    }
}

/// Why a result that could not be read is missing: a result that is too large
/// stays that.
pub open spec fn missing_result(
    code: Seq<char>,
    start: Seq<char>,
    unread: Fault,
    log: Seq<char>,
) -> Fault {
    if unread.code == "execution_resource_limit"@ {
        unread
    } else {
        fault(code, start + unread.message + "; log: "@ + log_end(log))
    }
}

fn missing_result_error(code: &str, start: &str, unread: EngineError, log: &str) -> (r: EngineError)
    ensures
        r@ == missing_result(code@, start@, unread@, log@),
{
    if text_eq(unread.code(), "execution_resource_limit") {
        return unread;
    }
    fail(code, cat4(start, unread.message(), "; log: ", bounded_log(log).as_str()))
}

/// What diagnostics say.
pub open spec fn notes(v: Seq<Diagnostic>) -> Seq<(DiagnosticLevel, Seq<char>, Seq<char>)> {
    v.map_values(|d: Diagnostic| (d.level, d.code@, d.message@))
}

/// The version of the solver, as a note.
pub open spec fn version_notes(version: Option<String>) -> Seq<
    (DiagnosticLevel, Seq<char>, Seq<char>),
> {
    match version {
        Some(text) => seq![(DiagnosticLevel::Info, "ngspice_version"@, text@)],
        None => Seq::empty(),
    }
}

/// Warnings, as notes.
pub open spec fn warning_notes(code: Seq<char>, warnings: Seq<Seq<char>>) -> Seq<
    (DiagnosticLevel, Seq<char>, Seq<char>),
> {
    warnings.map_values(|w: Seq<char>| (DiagnosticLevel::Warning, code, w))
}

fn push_note(out: &mut Vec<Diagnostic>, level: DiagnosticLevel, code: &str, message: &str)
    ensures
        notes(final(out)@) == notes(old(out)@).push((level, code@, message@)),
{
    let ghost before = notes(out@);
    out.push(Diagnostic::new(level, code, message));
    assert(notes(out@) =~= before.push((level, code@, message@)));
}

fn push_version(out: &mut Vec<Diagnostic>, version: &Option<String>)
    ensures
        notes(final(out)@) == notes(old(out)@) + version_notes(*version),
{
    let ghost before = notes(out@);
    match version {
        Some(text) => {
            push_note(out, DiagnosticLevel::Info, "ngspice_version", text.as_str());
            assert(notes(out@) =~= before + version_notes(*version));
        },
        None => {
            assert(notes(out@) =~= before + version_notes(*version));
        },
    }
}

fn push_warnings(out: &mut Vec<Diagnostic>, code: &str, warnings: &Vec<String>)
    ensures
        notes(final(out)@) == notes(old(out)@) + warning_notes(code@, texts(warnings@)),
{
    let ghost all = warning_notes(code@, texts(warnings@));
    let ghost start = notes(out@);
    let mut i: usize = 0;
    assert(start + all.take(0) =~= start);
    while i < warnings.len()
        invariant
            i <= warnings@.len(),
            all == warning_notes(code@, texts(warnings@)),
            notes(out@) == start + all.take(i as int),
        decreases warnings@.len() - i,
    {
        assert(texts(warnings@)[i as int] == warnings@[i as int]@);
        push_note(out, DiagnosticLevel::Warning, code, warnings[i].as_str());
        assert(notes(out@) =~= start + all.take(i + 1));
        i = i + 1;
    }
    assert(all.take(i as int) =~= all);
}

/// A result of a request by an engine, with some diagnostics.
pub open spec fn is_result(
    result: SimulationResult,
    engine: Seq<char>,
    version: Option<String>,
    request: SimulationRequest,
    diagnostics: Seq<(DiagnosticLevel, Seq<char>, Seq<char>)>,
) -> bool {
    &&& result.engine@ == engine
    &&& result.analysis == request.analysis.spec_kind()
    &&& result.metadata.is_current(request.circuit.schema_version, version)
    &&& result.stats.waveform_count == result.waveforms@.len()
    &&& result.stats.point_count == counted(total_points(result.waveforms@))
    &&& notes(result.diagnostics@) == diagnostics
}

/// A waveform of one column of samples.
pub open spec fn shows_samples(
    waveform: Waveform,
    rows: Seq<Sample>,
    signal: Seq<char>,
    k: int,
    axis_kind: AxisKind,
    axis_unit: Unit,
    complex: bool,
    operating_point: bool,
) -> bool {
    match waveform {
        Waveform::Analog(w) => {
            &&& w.signal@ == signal
            &&& w.unit == Unit::Volt
            &&& w.axis.kind == axis_kind
            &&& w.axis.unit == axis_unit
            &&& w.axis.values@ == Seq::new(
                rows.len(),
                |i: int|
                    if operating_point {
                        Real { bits: 0 }
                    } else {
                        rows[i].axis
                    },
            )
            &&& w.values@ == Seq::new(rows.len(), |i: int| rows[i].values[k].0)
            &&& match w.imaginary {
                Some(imaginary) => complex && imaginary@ == Seq::new(
                    rows.len(),
                    |i: int| rows[i].values[k].1,
                ),
                None => !complex,
            }
        },
        _ => false,
    }
}

proof fn lemma_column_shows_samples(
    waveform: Waveform,
    rows: Seq<OwnedTableRow>,
    signal: Seq<char>,
    k: int,
    axis_kind: AxisKind,
    axis_unit: Unit,
    complex: bool,
    operating_point: bool,
)
    requires
        shows_column(
            waveform,
            rows,
            signal,
            k,
            axis_kind,
            axis_unit,
            complex,
            operating_point,
        ),
    ensures
        shows_samples(
            waveform,
            samples(rows),
            signal,
            k,
            axis_kind,
            axis_unit,
            complex,
            operating_point,
        ),
{
    let all = samples(rows);
    assert forall|i: int| 0 <= i < rows.len() implies all[i].values == rows[i].values@
        && all[i].axis == rows[i].axis by {
        assert(all[i] == rows[i]@);
    }
    match waveform {
        Waveform::Analog(w) => {
            assert(w.values@ =~= Seq::new(all.len(), |i: int| all[i].values[k].0));
            assert(w.axis.values@ =~= Seq::new(
                all.len(),
                |i: int|
                    if operating_point {
                        Real { bits: 0 }
                    } else {
                        all[i].axis
                    },
            ));
            match w.imaginary {
                Some(imaginary) => {
                    assert(imaginary@ =~= Seq::new(all.len(), |i: int| all[i].values[k].1));
                },
                None => {},
            }
        },
        _ => {},
    }
}

/// The waveforms of all probes.
pub open spec fn show_all_samples(
    waveforms: Seq<Waveform>,
    rows: Seq<Sample>,
    probes: Seq<AnalogProbe>,
    axis_kind: AxisKind,
    axis_unit: Unit,
    complex: bool,
    operating_point: bool,
) -> bool {
    waveforms.len() == probes.len() && forall|k: int|
        0 <= k < waveforms.len() ==> shows_samples(
            #[trigger] waveforms[k],
            rows,
            probes[k].signal@,
            k,
            axis_kind,
            axis_unit,
            complex,
            operating_point,
        )
}

fn sampled_waveforms(
    rows: &Vec<OwnedTableRow>,
    probes: &Vec<AnalogProbe>,
    axis_kind: AxisKind,
    axis_unit: Unit,
    complex: bool,
    operating_point: bool,
) -> (r: Vec<Waveform>)
    requires
        full_rows(rows@, probes@.len()),
    ensures
        show_all_samples(
            r@,
            samples(rows@),
            probes@,
            axis_kind,
            axis_unit,
            complex,
            operating_point,
        ),
{
    let r = analog_waveforms(rows, probes, axis_kind, axis_unit, complex, operating_point);
    proof {
        assert forall|k: int| 0 <= k < r@.len() implies shows_samples(
            #[trigger] r@[k],
            samples(rows@),
            probes@[k].signal@,
            k,
            axis_kind,
            axis_unit,
            complex,
            operating_point,
        ) by {
            lemma_column_shows_samples(
                r@[k],
                rows@,
                probes@[k].signal@,
                k,
                axis_kind,
                axis_unit,
                complex,
                operating_point,
            );
        }
    }
    r
}

/// The rows of an analog run, or why it is refused.
pub open spec fn analog_outcome(
    compiled: CompiledRequest,
    end: RunEnd,
    table: Result<Vec<TableRow>, EngineError>,
) -> Result<Seq<Sample>, Fault> {
    match exit_failure("ngspice_failed"@, "ngspice"@, end) {
        Some(f) => Err(f),
        None => match table {
            Err(unread) => Err(
                missing_result(
                    "ngspice_result_missing"@,
                    "ngspice completed without a readable result table: "@,
                    unread@,
                    end.log@,
                ),
            ),
            Ok(lines) => match samples_of(
                lines@,
                compiled.probes@.len(),
                compiled.complex,
                compiled.axis_kind == AxisKind::Scalar,
                lines@.len() as int,
            ) {
                Err(f) => Err(f),
                Ok(rows) => if rows.len() == 0 {
                    Err(fault("ngspice_empty_result"@, "ngspice returned no result rows"@))
                } else {
                    Ok(rows)
                },
            },
        },
    }
}

/// The result of an analog run. `table` is the result table with its numbers
/// read, or why it could not be read.
pub fn conclude_ngspice(
    request: &SimulationRequest,
    compiled: &CompiledRequest,
    end: &RunEnd,
    table: Result<Vec<TableRow>, EngineError>,
    version: Option<String>,
) -> (r: Result<SimulationResult, EngineError>)
    requires
        2 * compiled.probes@.len() < usize::MAX,
    ensures
        match (r, analog_outcome(*compiled, *end, table)) {
            (Ok(result), Ok(rows)) => {
                &&& is_result(
                    result,
                    NGSPICE_ENGINE_ID@,
                    version,
                    *request,
                    version_notes(version) + warning_notes(
                        "ngspice_warning"@,
                        warnings_of(lines_of(end.log@), lines_of(end.log@).len() as int),
                    ),
                )
                &&& show_all_samples(
                    result.waveforms@,
                    rows,
                    compiled.probes@,
                    compiled.axis_kind,
                    compiled.axis_unit,
                    compiled.complex,
                    request.analysis is OperatingPoint,
                )
            },
            (Err(e), Err(f)) => e@ == f,
            _ => false,
        },
{
    match check_exit("ngspice_failed", "ngspice", end) {
        Err(e) => {
            return Err(e);
        },
        Ok(_) => {},
    }
    let lines = match table {
        Err(unread) => {
            return Err(
                missing_result_error(
                    "ngspice_result_missing",
                    "ngspice completed without a readable result table: ",
                    unread,
                    end.log.as_str(),
                ),
            );
        },
        Ok(lines) => lines,
    };
    let scalar = match compiled.axis_kind {
        AxisKind::Scalar => true,
        _ => false,
    };
    let rows = match parse_wrdata(&lines, compiled.probes.len(), compiled.complex, scalar) {
        Err(e) => {
            return Err(e);
        },
        Ok(rows) => rows,
    };
    assert(samples(rows@).len() == rows@.len());
    if rows.len() == 0 {
        return Err(
            EngineError::new("ngspice_empty_result", "ngspice returned no result rows"),
        );
    }
    let operating_point = match &request.analysis {
        crate::analysis::Analysis::OperatingPoint => true,
        _ => false,
    };
    let waveforms = sampled_waveforms(
        &rows,
        &compiled.probes,
        compiled.axis_kind,
        compiled.axis_unit,
        compiled.complex,
        operating_point,
    );
    let mut diagnostics: Vec<Diagnostic> = Vec::new();
    assert(notes(diagnostics@) =~= Seq::<(DiagnosticLevel, Seq<char>, Seq<char>)>::empty());
    push_version(&mut diagnostics, &version);
    assert(notes(diagnostics@) =~= version_notes(version));
    push_warnings(&mut diagnostics, "ngspice_warning", &extract_warnings(end.log.as_str()));
    Ok(
        SimulationResult::new(
            EngineId::new(NGSPICE_ENGINE_ID),
            version,
            request.analysis.kind(),
            request.circuit.schema_version,
            waveforms,
            diagnostics,
        ),
    )
}

/// A dump with its numbers read.
#[derive(Clone, Debug, PartialEq, Eq)]
pub struct Dump {
    pub source: String,
    pub numbers: VcdNumbers,
}

/// What the probes saw, according to a dump.
pub open spec fn dump_seen(dump: Dump, probes: Seq<EventProbe>) -> Result<
    Seq<Seq<DigitalTransition>>,
    Fault,
> {
    dump_histories(
        dump.source@,
        dump.numbers.magnitude,
        dump.numbers.times@,
        event_probes(probes),
    )
}

/// Why a log refuses an event run.
pub open spec fn event_log_failure(log: Seq<char>) -> Option<Fault> {
    if shows_failure(log) {
        Some(
            fault(
                "xspice_unavailable"@,
                "ngspice does not appear to provide usable XSPICE code models: "@ + log_end(log),
            ),
        )
    } else {
        None
    }
}

fn check_event_log(log: &str) -> (r: Result<(), EngineError>)
    ensures
        passes(r, event_log_failure(log@)),
{
    if log_has_xspice_failure(log) {
        return Err(
            fail(
                "xspice_unavailable",
                cat2(
                    "ngspice does not appear to provide usable XSPICE code models: ",
                    bounded_log(log).as_str(),
                ),
            ),
        );
    }
    Ok(())
}

/// What an event run saw, or why it is refused.
pub open spec fn event_outcome(
    compiled: CompiledXSpiceRequest,
    end: RunEnd,
    dump: Result<Dump, EngineError>,
) -> Result<Seq<Seq<DigitalTransition>>, Fault> {
    match exit_failure("xspice_failed"@, "ngspice/XSPICE"@, end) {
        Some(f) => Err(f),
        None => match event_log_failure(end.log@) {
            Some(f) => Err(f),
            None => match dump {
                Err(unread) => Err(
                    missing_result(
                        "xspice_result_missing"@,
                        "XSPICE completed without a readable VCD result: "@,
                        unread@,
                        end.log@,
                    ),
                ),
                Ok(dump) => dump_seen(dump, compiled.probes@),
            },
        },
    }
}

/// The waveforms of event probes.
pub open spec fn show_all_histories(
    waveforms: Seq<Waveform>,
    histories: Seq<Seq<DigitalTransition>>,
    probes: Seq<EventProbe>,
) -> bool {
    waveforms.len() == probes.len() && histories.len() == probes.len() && forall|i: int|
        0 <= i < waveforms.len() ==> shows_history(
            #[trigger] waveforms[i],
            probes[i].signal@,
            histories[i],
        )
}

/// That delays were raised to the least that the solver takes.
pub open spec fn floor_notes(floored: bool, start: Seq<char>) -> Seq<
    (DiagnosticLevel, Seq<char>, Seq<char>),
> {
    if floored {
        seq![
            (
                DiagnosticLevel::Warning,
                "xspice_delay_floor"@,
                start + " below 1.000e-12 s were clamped to the solver minimum"@,
            ),
        ]
    } else {
        Seq::empty()
    }
}

fn push_floor(out: &mut Vec<Diagnostic>, floored: bool, start: &str)
    ensures
        notes(final(out)@) == notes(old(out)@) + floor_notes(floored, start@),
{
    let ghost before = notes(out@);
    if floored {
        let message = cat2(start, " below 1.000e-12 s were clamped to the solver minimum");
        push_note(out, DiagnosticLevel::Warning, "xspice_delay_floor", message.as_str());
    }
    assert(notes(out@) =~= before + floor_notes(floored, start@));
}

/// What is said of each event run.
pub open spec fn event_notes() -> Seq<(DiagnosticLevel, Seq<char>, Seq<char>)> {
    seq![
        (DiagnosticLevel::Info, "xspice_backend"@, "ngspice XSPICE event engine"@),
        (
            DiagnosticLevel::Info,
            "xspice_initialization_semantics"@,
            "XSPICE initializes digital event nodes to zero at simulation start; startup transitions can differ from the built-in X-initialized reference engine before the first causal transition"@,
        ),
    ]
}

/// The result of an event run. `dump` is the dump with its numbers read, or why
/// it could not be read.
pub fn conclude_xspice(
    request: &SimulationRequest,
    compiled: &CompiledXSpiceRequest,
    end: &RunEnd,
    dump: Result<Dump, EngineError>,
    version: Option<String>,
) -> (r: Result<SimulationResult, EngineError>)
    ensures
        match (r, event_outcome(*compiled, *end, dump)) {
            (Ok(result), Ok(histories)) => {
                &&& is_result(
                    result,
                    XSPICE_ENGINE_ID@,
                    version,
                    *request,
                    event_notes() + floor_notes(
                        compiled.delay_floor_applied,
                        "XSPICE gate delay values"@,
                    ) + version_notes(version) + warning_notes(
                        "xspice_warning"@,
                        warnings_of(lines_of(end.log@), lines_of(end.log@).len() as int),
                    ),
                )
                &&& show_all_histories(result.waveforms@, histories, compiled.probes@)
            },
            (Err(e), Err(f)) => e@ == f,
            _ => false,
        },
{
    match check_exit("xspice_failed", "ngspice/XSPICE", end) {
        Err(e) => {
            return Err(e);
        },
        Ok(_) => {},
    }
    match check_event_log(end.log.as_str()) {
        Err(e) => {
            return Err(e);
        },
        Ok(_) => {},
    }
    let dump = match dump {
        Err(unread) => {
            return Err(
                missing_result_error(
                    "xspice_result_missing",
                    "XSPICE completed without a readable VCD result: ",
                    unread,
                    end.log.as_str(),
                ),
            );
        },
        Ok(dump) => dump,
    };
    let waveforms = match parse_vcd(dump.source.as_str(), &dump.numbers, &compiled.probes) {
        Err(e) => {
            return Err(e);
        },
        Ok(waveforms) => waveforms,
    };
    let mut diagnostics: Vec<Diagnostic> = Vec::new();
    push_note(
        &mut diagnostics,
        DiagnosticLevel::Info,
        "xspice_backend",
        "ngspice XSPICE event engine",
    );
    push_note(
        &mut diagnostics,
        DiagnosticLevel::Info,
        "xspice_initialization_semantics",
        "XSPICE initializes digital event nodes to zero at simulation start; startup transitions can differ from the built-in X-initialized reference engine before the first causal transition",
    );
    assert(notes(diagnostics@) =~= event_notes());
    push_floor(&mut diagnostics, compiled.delay_floor_applied, "XSPICE gate delay values");
    push_version(&mut diagnostics, &version);
    push_warnings(&mut diagnostics, "xspice_warning", &extract_warnings(end.log.as_str()));
    Ok(
        SimulationResult::new(
            EngineId::new(XSPICE_ENGINE_ID),
            version,
            request.analysis.kind(),
            request.circuit.schema_version,
            waveforms,
            diagnostics,
        ),
    )
}

/// A result table with its numbers read, and its size.
#[derive(Clone, Debug, PartialEq, Eq)]
pub struct MixedTable {
    pub lines: Vec<TableRow>,
    pub bytes: u64,
}

/// A dump with its numbers read, and its size.
#[derive(Clone, Debug, PartialEq, Eq)]
pub struct MixedDump {
    pub dump: Dump,
    pub bytes: u64,
}

/// What a mixed run saw.
pub struct MixedSeen {
    pub rows: Option<Seq<Sample>>,
    pub histories: Option<Seq<Seq<DigitalTransition>>>,
}

/// The sum of two sizes, or the largest size.
pub open spec fn sizes_together(a: u64, b: u64) -> u64 {
    if a + b > u64::MAX {
        u64::MAX
    } else {
        (a + b) as u64
    }
}

/// The size of what a mixed run left.
pub open spec fn mixed_bytes(table: Option<MixedTable>, dump: Option<MixedDump>) -> u64 {
    sizes_together(
        match table {
            Some(t) => t.bytes,
            None => 0,
        },
        match dump {
            Some(d) => d.bytes,
            None => 0,
        },
    )
}

/// The analog part of a mixed run.
pub open spec fn mixed_rows(table: Option<MixedTable>, probes: nat) -> Result<
    Option<Seq<Sample>>,
    Fault,
> {
    match table {
        None => Ok(None),
        Some(t) => match samples_of(t.lines@, probes, false, false, t.lines@.len() as int) {
            Err(f) => Err(f),
            Ok(rows) => if rows.len() == 0 {
                Err(
                    fault(
                        "mixed_signal_empty_analog_result"@,
                        "mixed-signal transient returned no analog rows"@,
                    ),
                )
            } else {
                Ok(Some(rows))
            },
        },
    }
}

/// What a mixed run saw, or why it is refused. What was read of a result that no
/// probe asks for is left aside by the caller.
pub open spec fn mixed_outcome(
    compiled: CompiledMixedRequest,
    policy: ExecutionPolicy,
    end: RunEnd,
    table: Option<Result<MixedTable, EngineError>>,
    dump: Option<Result<MixedDump, EngineError>>,
) -> Result<MixedSeen, Fault> {
    match exit_failure("mixed_signal_failed"@, "ngspice/XSPICE"@, end) {
        Some(f) => Err(f),
        None => match event_log_failure(end.log@) {
            Some(f) => Err(f),
            None => match (opened(table), opened(dump)) {
                (Err(e), _) => Err(e@),
                (_, Err(e)) => Err(e@),
                (Ok(t), Ok(d)) => match size_failure(
                    "mixed-signal result"@,
                    mixed_bytes(t, d),
                    policy.max_output_bytes,
                ) {
                    Some(f) => Err(f),
                    None => match mixed_rows(t, compiled.analog_probes@.len()) {
                        Err(f) => Err(f),
                        Ok(rows) => match d {
                            None => Ok(MixedSeen { rows, histories: None }),
                            Some(found) => match dump_seen(
                                found.dump,
                                compiled.digital_probes@,
                            ) {
                                Err(f) => Err(f),
                                Ok(h) => Ok(MixedSeen { rows, histories: Some(h) }),
                            },
                        },
                    },
                },
            },
        },
    }
}

/// What was read, if anything was to be read.
pub open spec fn opened<T>(read: Option<Result<T, EngineError>>) -> Result<Option<T>, EngineError> {
    match read {
        None => Ok(None),
        Some(Ok(value)) => Ok(Some(value)),
        Some(Err(e)) => Err(e),
    }
}

/// The waveforms of a mixed run: those of the analog probes, then those of the
/// digital probes.
pub open spec fn show_mixed(
    waveforms: Seq<Waveform>,
    seen: MixedSeen,
    analog: Seq<AnalogProbe>,
    digital: Seq<EventProbe>,
) -> bool {
    let first = if seen.rows is Some {
        analog.len() as int
    } else {
        0
    };
    &&& first <= waveforms.len()
    &&& match seen.rows {
        Some(rows) => show_all_samples(
            waveforms.take(first),
            rows,
            analog,
            AxisKind::Time,
            Unit::Second,
            false,
            false,
        ),
        None => true,
    }
    &&& match seen.histories {
        Some(h) => show_all_histories(waveforms.skip(first), h, digital),
        None => waveforms.len() == first,
    }
}

/// What is said of each mixed run.
pub open spec fn mixed_notes() -> Seq<(DiagnosticLevel, Seq<char>, Seq<char>)> {
    seq![
        (
            DiagnosticLevel::Info,
            "mixed_signal_backend"@,
            "single-process ngspice/XSPICE coordinated analog + event transient"@,
        ),
    ]
}

fn append_waveforms(out: &mut Vec<Waveform>, more: Vec<Waveform>)
    ensures
        final(out)@ == old(out)@ + more@,
{
    let mut more = more;
    out.append(&mut more);
}

fn read_mixed_waveforms(
    compiled: &CompiledMixedRequest,
    table: Option<MixedTable>,
    dump: Option<MixedDump>,
) -> (r: Result<Vec<Waveform>, EngineError>)
    requires
        2 * compiled.analog_probes@.len() < usize::MAX,
    ensures
        match r {
            Ok(v) => mixed_rows(table, compiled.analog_probes@.len()) matches Ok(rows) && match dump {
                Some(d) => dump_seen(d.dump, compiled.digital_probes@) matches Ok(h) && show_mixed(
                    v@,
                    MixedSeen { rows, histories: Some(h) },
                    compiled.analog_probes@,
                    compiled.digital_probes@,
                ),
                None => show_mixed(
                    v@,
                    MixedSeen { rows, histories: None },
                    compiled.analog_probes@,
                    compiled.digital_probes@,
                ),
            },
            Err(e) => match mixed_rows(table, compiled.analog_probes@.len()) {
                Err(f) => e@ == f,
                Ok(_) => dump matches Some(d) && dump_seen(d.dump, compiled.digital_probes@)
                    == Err::<Seq<Seq<DigitalTransition>>, Fault>(e@),
            },
        },
{
    let mut waveforms: Vec<Waveform> = Vec::new();
    match table {
        None => {},
        Some(found) => {
            let rows = match parse_wrdata(
                &found.lines,
                compiled.analog_probes.len(),
                false,
                false,
            ) {
                Err(e) => {
                    return Err(e);
                },
                Ok(rows) => rows,
            };
            assert(samples(rows@).len() == rows@.len());
            if rows.len() == 0 {
                return Err(
                    EngineError::new(
                        "mixed_signal_empty_analog_result",
                        "mixed-signal transient returned no analog rows",
                    ),
                );
            }
            waveforms = sampled_waveforms(
                &rows,
                &compiled.analog_probes,
                AxisKind::Time,
                Unit::Second,
                false,
                false,
            );
        },
    }
    let ghost first = waveforms@;
    match dump {
        None => {
            assert(waveforms@.take(first.len() as int) =~= first);
        },
        Some(found) => {
            let events = match parse_vcd(
                found.dump.source.as_str(),
                &found.dump.numbers,
                &compiled.digital_probes,
            ) {
                Err(e) => {
                    return Err(e);
                },
                Ok(events) => events,
            };
            let ghost second = events@;
            append_waveforms(&mut waveforms, events);
            assert(waveforms@.take(first.len() as int) =~= first);
            assert(waveforms@.skip(first.len() as int) =~= second);
        },
    }
    Ok(waveforms)
}

/// The result of a mixed run. `table` and `dump` are what the probes ask for,
/// with the numbers read, or why it could not be read.
pub fn conclude_mixed(
    request: &SimulationRequest,
    compiled: &CompiledMixedRequest,
    policy: &ExecutionPolicy,
    end: &RunEnd,
    table: Option<Result<MixedTable, EngineError>>,
    dump: Option<Result<MixedDump, EngineError>>,
    version: Option<String>,
) -> (r: Result<SimulationResult, EngineError>)
    requires
        2 * compiled.analog_probes@.len() < usize::MAX,
    ensures
        match (r, mixed_outcome(*compiled, *policy, *end, table, dump)) {
            (Ok(result), Ok(seen)) => {
                &&& is_result(
                    result,
                    MIXED_SIGNAL_ENGINE_ID@,
                    version,
                    *request,
                    mixed_notes() + floor_notes(
                        compiled.delay_floor_applied,
                        "mixed-signal XSPICE delays"@,
                    ) + version_notes(version) + warning_notes(
                        "mixed_signal_warning"@,
                        warnings_of(lines_of(end.log@), lines_of(end.log@).len() as int),
                    ),
                )
                &&& show_mixed(
                    result.waveforms@,
                    seen,
                    compiled.analog_probes@,
                    compiled.digital_probes@,
                )
            },
            (Err(e), Err(f)) => e@ == f,
            _ => false,
        },
{
    match check_exit("mixed_signal_failed", "ngspice/XSPICE", end) {
        Err(e) => {
            return Err(e);
        },
        Ok(_) => {},
    }
    match check_event_log(end.log.as_str()) {
        Err(e) => {
            return Err(e);
        },
        Ok(_) => {},
    }
    let table: Option<MixedTable> = match table {
        None => None,
        Some(Ok(found)) => Some(found),
        Some(Err(e)) => {
            return Err(e);
        },
    };
    let dump: Option<MixedDump> = match dump {
        None => None,
        Some(Ok(found)) => Some(found),
        Some(Err(e)) => {
            return Err(e);
        },
    };
    let table_bytes: u64 = match &table {
        Some(found) => found.bytes,
        None => 0,
    };
    let dump_bytes: u64 = match &dump {
        Some(found) => found.bytes,
        None => 0,
    };
    match enforce_buffer_limit(
        "mixed-signal result",
        table_bytes.saturating_add(dump_bytes),
        policy.max_output_bytes,
    ) {
        Err(e) => {
            return Err(e);
        },
        Ok(_) => {},
    }
    let waveforms = match read_mixed_waveforms(compiled, table, dump) {
        Err(e) => {
            return Err(e);
        },
        Ok(waveforms) => waveforms,
    };
    let mut diagnostics: Vec<Diagnostic> = Vec::new();
    push_note(
        &mut diagnostics,
        DiagnosticLevel::Info,
        "mixed_signal_backend",
        "single-process ngspice/XSPICE coordinated analog + event transient",
    );
    assert(notes(diagnostics@) =~= mixed_notes());
    push_floor(&mut diagnostics, compiled.delay_floor_applied, "mixed-signal XSPICE delays");
    push_version(&mut diagnostics, &version);
    push_warnings(&mut diagnostics, "mixed_signal_warning", &extract_warnings(end.log.as_str()));
    Ok(
        SimulationResult::new(
            EngineId::new(MIXED_SIGNAL_ENGINE_ID),
            version,
            request.analysis.kind(),
            request.circuit.schema_version,
            waveforms,
            diagnostics,
        ),
    )
}

/// The first sixteen warnings of a build and of the run after it.
pub open spec fn hdl_run_warnings(build_log: Seq<char>, run_log: Seq<char>) -> Seq<Seq<char>> {
    let all = hdl_warnings(lines_of(build_log), lines_of(build_log).len() as int) + hdl_warnings(
        lines_of(run_log),
        lines_of(run_log).len() as int,
    );
    if all.len() > 16 {
        all.take(16)
    } else {
        all
    }
}

fn list_hdl_run_warnings(build_log: &str, run_log: &str) -> (r: Vec<String>)
    ensures
        texts(r@) == hdl_run_warnings(build_log@, run_log@),
{
    let mut all = extract_verilator_warnings(build_log);
    let mut more = extract_verilator_warnings(run_log);
    let ghost first = texts(all@);
    let ghost second = texts(more@);
    all.append(&mut more);
    assert(texts(all@) =~= first + second);
    if all.len() > 16 {
        all.truncate(16);
        assert(texts(all@) =~= (first + second).take(16));
    }
    all
}

/// What is said of each run of a test bench.
pub open spec fn hdl_notes() -> Seq<(DiagnosticLevel, Seq<char>, Seq<char>)> {
    seq![
        (
            DiagnosticLevel::Info,
            "verilator_two_state_semantics"@,
            "Verilator is mostly a two-state simulator; R5 fixes X assignment/initialization to zero for deterministic RTL execution"@,
        ),
    ]
}

/// The result of a run of a test bench.
pub fn conclude_verilator(
    request: &SimulationRequest,
    compiled: &CompiledVerilatorRequest,
    build_log: &str,
    run_log: &str,
    dump: &Dump,
    version: Option<String>,
) -> (r: Result<SimulationResult, EngineError>)
    ensures
        match (r, dump_seen(*dump, compiled.probes@)) {
            (Ok(result), Ok(histories)) => {
                &&& is_result(
                    result,
                    VERILATOR_ENGINE_ID@,
                    version,
                    *request,
                    hdl_notes() + warning_notes(
                        "verilator_warning"@,
                        hdl_run_warnings(build_log@, run_log@),
                    ),
                )
                &&& show_all_histories(result.waveforms@, histories, compiled.probes@)
            },
            (Err(e), Err(f)) => e@ == f,
            _ => false,
        },
{
    let waveforms = match parse_vcd(dump.source.as_str(), &dump.numbers, &compiled.probes) {
        Err(e) => {
            return Err(e);
        },
        Ok(waveforms) => waveforms,
    };
    let mut diagnostics: Vec<Diagnostic> = Vec::new();
    push_note(
        &mut diagnostics,
        DiagnosticLevel::Info,
        "verilator_two_state_semantics",
        "Verilator is mostly a two-state simulator; R5 fixes X assignment/initialization to zero for deterministic RTL execution",
    );
    assert(notes(diagnostics@) =~= hdl_notes());
    push_warnings(
        &mut diagnostics,
        "verilator_warning",
        &list_hdl_run_warnings(build_log, run_log),
    );
    Ok(
        SimulationResult::new(
            EngineId::new(VERILATOR_ENGINE_ID),
            version,
            request.analysis.kind(),
            request.circuit.schema_version,
            waveforms,
            diagnostics,
        ),
    )
}

/// What is said of each firmware run. `step` is the sampling step as it is
/// written.
pub open spec fn board_notes(step: Seq<char>) -> Seq<(DiagnosticLevel, Seq<char>, Seq<char>)> {
    seq![
        (
            DiagnosticLevel::Info,
            "renode_gpio_sampled"@,
            "Renode MCU firmware executed on virtual time with "@ + step
                + "s GPIO sampling; peripherals and instruction execution remain owned by Renode"@,
        ),
    ]
}

/// The waveforms of the sampled pins.
pub open spec fn show_pins(
    waveforms: Seq<Waveform>,
    samples: Seq<Seq<(Real, bool)>>,
    probes: Seq<RenodeProbe>,
) -> bool {
    waveforms.len() == probes.len() && forall|i: int|
        0 <= i < waveforms.len() ==> shows_history(
            #[trigger] waveforms[i],
            probes[i].signal@,
            changes(
                samples[probes[i].source_index as int],
                samples[probes[i].source_index as int].len() as int,
            ),
        )
}

/// The result of a firmware run. `times` holds the numbers that the texts of
/// `sample_time_texts` write; `step` is the sampling step as it is written.
pub fn conclude_renode(
    request: &SimulationRequest,
    probes: &Vec<RenodeProbe>,
    source_count: usize,
    end: &RunEnd,
    times: &Vec<Option<Real>>,
    step: &str,
    version: Option<String>,
) -> (r: Result<SimulationResult, EngineError>)
    requires
        request.analysis is FirmwareTransient,
        forall|i: int| 0 <= i < probes@.len() ==> (#[trigger] probes@[i]).source_index < source_count,
    ensures
        match exit_failure("renode_execution_failed"@, "Renode"@, *end) {
            Some(f) => r matches Err(e) && e@ == f,
            None => match (r, samples_in(end.log@, times@, source_count as nat)) {
                (Ok(result), Ok(samples)) => {
                    &&& is_result(
                        result,
                        RENODE_ENGINE_ID@,
                        version,
                        *request,
                        board_notes(step@),
                    )
                    &&& show_pins(result.waveforms@, samples, probes@)
                },
                (Err(e), Err(f)) => e@ == f,
                _ => false,
            },
        },
{
    match check_exit("renode_execution_failed", "Renode", end) {
        Err(e) => {
            return Err(e);
        },
        Ok(_) => {},
    }
    let found = match parse_samples(end.log.as_str(), times, source_count) {
        Err(e) => {
            return Err(e);
        },
        Ok(found) => found,
    };
    let ghost all = sample_views(found@);
    let mut waveforms: Vec<Waveform> = Vec::new();
    let mut i: usize = 0;
    while i < probes.len()
        invariant
            i <= probes@.len(),
            all == sample_views(found@),
            found@.len() == source_count,
            forall|i: int|
                0 <= i < probes@.len() ==> (#[trigger] probes@[i]).source_index < source_count,
            show_pins(waveforms@, all, probes@.take(i as int)),
        decreases probes@.len() - i,
    {
        let probe = &probes[i];
        let ghost before = waveforms@;
        assert(all[probe.source_index as int] == found@[probe.source_index as int]@);
        let transitions = transitions_from_samples(&found[probe.source_index]);
        waveforms.push(
            Waveform::Digital(
                DigitalWaveform { signal: SignalId::new(probe.signal.as_str()), transitions },
            ),
        );
        proof {
            let part = probes@.take(i + 1);
            assert forall|k: int| 0 <= k < waveforms@.len() implies shows_history(
                #[trigger] waveforms@[k],
                part[k].signal@,
                changes(
                    all[part[k].source_index as int],
                    all[part[k].source_index as int].len() as int,
                ),
            ) by {
                if k < i {
                    assert(waveforms@[k] == before[k]);
                    assert(probes@.take(i as int)[k] == part[k]);
                }
            }
        }
        i = i + 1;
    }
    assert(probes@.take(i as int) =~= probes@);
    let mut diagnostics: Vec<Diagnostic> = Vec::new();
    let message = cat3(
        "Renode MCU firmware executed on virtual time with ",
        step,
        "s GPIO sampling; peripherals and instruction execution remain owned by Renode",
    );
    push_note(&mut diagnostics, DiagnosticLevel::Info, "renode_gpio_sampled", message.as_str());
    assert(notes(diagnostics@) =~= board_notes(step@));
    Ok(
        SimulationResult::new(
            EngineId::new(RENODE_ENGINE_ID),
            version,
            request.analysis.kind(),
            request.circuit.schema_version,
            waveforms,
            diagnostics,
        ),
    )
}

/// What a program printed when it was asked for its version: whether it ended
/// with success, and both of its outputs.
#[derive(Clone, Debug, PartialEq, Eq)]
pub struct Printed {
    pub success: bool,
    pub stdout: String,
    pub stderr: String,
}

/// Whether a solver is there, and which.
#[derive(Clone, Debug, PartialEq, Eq)]
pub struct NgSpiceInfo {
    pub available: bool,
    pub executable: String,
    pub version: Option<String>,
}

/// The version that ngspice prints.
pub open spec fn spice_version(printed: Printed) -> Option<Seq<char>> {
    version_of(printed.stdout@ + "\n"@ + printed.stderr@, "ngspice"@)
}

/// Whether ngspice is there, from what it printed, if it could be started.
pub fn ngspice_info(executable: &str, printed: Option<Printed>) -> (r: NgSpiceInfo)
    ensures
        r.executable@ == executable@,
        match printed {
            None => !r.available && r.version is None,
            Some(p) => {
                &&& crate::spice_models::text_of(r.version) == spice_version(p)
                &&& r.available == (p.success || spice_version(p) is Some)
            },
        },
{
    match printed {
        None => NgSpiceInfo {
            available: false,
            executable: executable.to_owned(),
            version: None,
        },
        Some(p) => {
            let both = cat3(p.stdout.as_str(), "\n", p.stderr.as_str());
            let version = find_version(both.as_str(), "ngspice");
            NgSpiceInfo {
                available: p.success || version.is_some(),
                executable: executable.to_owned(),
                version,
            }
        },
    }
}

/// Whether the event models of a solver are there too.
#[derive(Clone, Debug, PartialEq, Eq)]
pub struct XSpiceInfo {
    pub available: bool,
    pub xspice_available: bool,
    pub executable: String,
    pub version: Option<String>,
}

/// Whether Verilator is there, and which.
#[derive(Clone, Debug, PartialEq, Eq)]
pub struct VerilatorInfo {
    pub available: bool,
    pub executable: String,
    pub version: Option<String>,
}

/// Whether Renode is there, and which.
#[derive(Clone, Debug, PartialEq, Eq)]
pub struct RenodeInfo {
    pub available: bool,
    pub executable: String,
    pub version: Option<String>,
}

/// The version that a tool prints: its output, or what stands for it.
pub open spec fn tool_version(printed: Printed) -> Option<Seq<char>> {
    if !is_blank(printed.stdout@) {
        Some(trim(printed.stdout@))
    } else if !is_blank(printed.stderr@) {
        Some(trim(printed.stderr@))
    } else {
        None
    }
}

/// The version that a tool prints.
fn read_tool_version(printed: &Printed) -> (r: Option<String>)
    ensures
        crate::spice_models::text_of(r) == tool_version(*printed),
{
    if !crate::text::blank(printed.stdout.as_str()) {
        Some(trim_text(printed.stdout.as_str()))
    } else if !crate::text::blank(printed.stderr.as_str()) {
        Some(trim_text(printed.stderr.as_str()))
    } else {
        None
    }
}

/// Whether Verilator is there, from what it printed, if it could be started.
pub fn verilator_info(executable: &str, printed: Option<Printed>) -> (r: VerilatorInfo)
    ensures
        r.executable@ == executable@,
        match printed {
            Some(p) => r.available == p.success && crate::spice_models::text_of(r.version)
                == if p.success {
                tool_version(p)
            } else {
                None
            },
            None => !r.available && r.version is None,
        },
{
    match printed {
        Some(p) => if p.success {
            VerilatorInfo {
                available: true,
                executable: executable.to_owned(),
                version: read_tool_version(&p),
            }
        } else {
            VerilatorInfo { available: false, executable: executable.to_owned(), version: None }
        },
        None => VerilatorInfo {
            available: false,
            executable: executable.to_owned(),
            version: None,
        },
    }
}

/// Whether Renode is there, from what it printed, if it could be started.
pub fn renode_info(executable: &str, printed: Option<Printed>) -> (r: RenodeInfo)
    ensures
        r.executable@ == executable@,
        match printed {
            Some(p) => r.available == p.success && crate::spice_models::text_of(r.version)
                == if p.success {
                tool_version(p)
            } else {
                None
            },
            None => !r.available && r.version is None,
        },
{
    let found = verilator_info(executable, printed);
    RenodeInfo {
        available: found.available,
        executable: found.executable,
        version: found.version,
    }
}

} // verus!
