//! Which engine covers what, and what the simulators are asked for.
use crate::analysis::{Analysis, AnalysisDomain, AnalysisKind};
use crate::solvers::{
    analog_abilities, bench_arguments, digital_abilities, file_names, hdl_semantics, mixed_abilities,
    stepped_arguments,
};
use crate::verilator::HdlSourceFile;
use vstd::prelude::*;

verus! {

/// The sweeps of a circuit are analog, the run of its logic and of its firmware are
/// digital, and the run of both together is mixed.
pub proof fn analyses_have_their_domain(analysis: Analysis)
    ensures
        analysis.spec_domain() == match analysis.spec_kind() {
            AnalysisKind::OperatingPoint => AnalysisDomain::Analog,
            AnalysisKind::DcSweep => AnalysisDomain::Analog,
            AnalysisKind::Transient => AnalysisDomain::Analog,
            AnalysisKind::AcSweep => AnalysisDomain::Analog,
            AnalysisKind::MixedSignalTransient => AnalysisDomain::Mixed,
            _ => AnalysisDomain::Digital,
        },
        analysis is OperatingPoint <==> analysis.spec_kind() == AnalysisKind::OperatingPoint,
        analysis is DcSweep <==> analysis.spec_kind() == AnalysisKind::DcSweep,
        analysis is Transient <==> analysis.spec_kind() == AnalysisKind::Transient,
        analysis is AcSweep <==> analysis.spec_kind() == AnalysisKind::AcSweep,
        analysis is DigitalTransient <==> analysis.spec_kind() == AnalysisKind::DigitalTransient,
        analysis is MixedSignalTransient <==> analysis.spec_kind()
            == AnalysisKind::MixedSignalTransient,
        analysis is FirmwareTransient <==> analysis.spec_kind() == AnalysisKind::FirmwareTransient,
{
}

/// The analog solver covers the analog analyses and no other, the mixed one the mixed
/// run, and a digital one the one analysis that it knows.
pub proof fn solvers_cover_their_analyses(analysis: Analysis)
    ensures
        analog_abilities().covers(analysis) <==> analysis is OperatingPoint || analysis is DcSweep
            || analysis is Transient || analysis is AcSweep,
        mixed_abilities().covers(analysis) <==> analysis is MixedSignalTransient,
        digital_abilities(AnalysisKind::DigitalTransient).covers(analysis) <==> analysis
            is DigitalTransient,
        digital_abilities(AnalysisKind::FirmwareTransient).covers(analysis) <==> analysis
            is FirmwareTransient,
{
    let all = analog_abilities().analyses;
    assert(all[0] == AnalysisKind::OperatingPoint && all[1] == AnalysisKind::DcSweep && all[2]
        == AnalysisKind::Transient && all[3] == AnalysisKind::AcSweep);
    let mixed = mixed_abilities().analyses;
    assert(mixed[0] == AnalysisKind::MixedSignalTransient);
    let logic = digital_abilities(AnalysisKind::DigitalTransient).analyses;
    assert(logic[0] == AnalysisKind::DigitalTransient);
    let firmware = digital_abilities(AnalysisKind::FirmwareTransient).analyses;
    assert(firmware[0] == AnalysisKind::FirmwareTransient);
}

/// An argument is followed by its value somewhere.
pub open spec fn passes(arguments: Seq<Seq<char>>, name: Seq<char>, value: Seq<char>) -> bool {
    exists|i: int|
        0 <= i < arguments.len() - 1 && #[trigger] arguments[i] == name && arguments[i + 1] == value
}

/// A build of a test bench counts time in picoseconds, as the waits in it do, takes the
/// test bench as its top and is given every source file.
pub proof fn bench_builds_count_picoseconds(sources: Seq<HdlSourceFile>, k: int)
    ensures
        passes(bench_arguments(sources), "--timescale"@, "1ps/1ps"@),
        passes(bench_arguments(sources), "--top-module"@, "oxsim_tb"@),
        passes(bench_arguments(sources), "--x-assign"@, "0"@),
        passes(bench_arguments(sources), "--x-initial"@, "0"@),
        bench_arguments(sources).contains("--trace-vcd"@),
        0 <= k < sources.len() ==> bench_arguments(sources).contains(sources[k].filename@),
        bench_arguments(sources).last() == "oxsim_tb.sv"@,
{
    let all = bench_arguments(sources);
    let rules = hdl_semantics();
    assert(rules[0] == "--timescale"@ && rules[1] == "1ps/1ps"@ && rules[2] == "--x-assign"@
        && rules[3] == "0"@ && rules[4] == "--x-initial"@ && rules[5] == "0"@);
    assert(all[2] == "--trace-vcd"@);
    assert(all[3] == rules[0] && all[4] == rules[1]);
    assert(all[5] == rules[2] && all[6] == rules[3]);
    assert(all[7] == rules[4] && all[8] == rules[5]);
    assert(all[9] == "--top-module"@ && all[10] == "oxsim_tb"@);
    let names = file_names(sources, sources.len() as int);
    lemma_file_names(sources, sources.len() as int);
    if 0 <= k < sources.len() {
        assert(names[k] == sources[k].filename@);
        assert(all[17 + k] == names[k]);
    }
}

proof fn lemma_file_names(sources: Seq<HdlSourceFile>, n: int)
    requires
        0 <= n <= sources.len(),
    ensures
        file_names(sources, n).len() == n,
        forall|k: int| 0 <= k < n ==> file_names(sources, n)[k] == (#[trigger] sources[k]).filename@,
    decreases n,
{
    if n > 0 {
        lemma_file_names(sources, n - 1);
    }
}

/// A build of a module that is stepped from outside counts time in picoseconds and
/// takes that module as its top.
pub proof fn stepped_builds_count_picoseconds(entry: Seq<char>, source_file: Seq<char>)
    ensures
        passes(stepped_arguments(entry, source_file), "--timescale"@, "1ps/1ps"@),
        passes(stepped_arguments(entry, source_file), "--top-module"@, entry),
        stepped_arguments(entry, source_file).contains(source_file),
{
    let all = stepped_arguments(entry, source_file);
    let rules = hdl_semantics();
    assert(rules[0] == "--timescale"@ && rules[1] == "1ps/1ps"@);
    assert(all[4] == rules[0] && all[5] == rules[1]);
    assert(all[10] == "--top-module"@ && all[11] == entry);
    assert(all[20] == source_file);
}

} // verus!
