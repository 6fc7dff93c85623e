//! What a simulator process leaves behind: result tables, logs and sizes.
use crate::control::ExecutionPolicy;
use crate::fault::{fail, fault, passes, EngineError, Fault};
use crate::lines::{
    begins_with, chars_begin_with, chars_include, includes, lines_of, rows, split_lines,
    split_words, words_of,
};
use crate::ngspice::AnalogProbe;
use crate::number::Real;
use crate::text::{
    cat3, cat6, decimal, decimal_text, from_chars, lowercase, lowercase_chars, slice_chars,
    texts, to_chars, trim, trim_bounds,
};
use crate::units::Unit;
use crate::waveform::{AnalogAxis, AnalogWaveform, AxisKind, SignalId, Waveform};
use vstd::prelude::*;

verus! {

/// A line of a table and its words.
#[derive(Clone, Debug, PartialEq, Eq)]
pub struct TableLine {
    pub text: String,
    pub words: Vec<String>,
}

impl View for TableLine {
    type V = (Seq<char>, Seq<Seq<char>>);

    open spec fn view(&self) -> (Seq<char>, Seq<Seq<char>>) {
        (self.text@, texts(self.words@))
    }
}

/// The first `n` lines of a table that are not blank.
pub open spec fn table_lines(lines: Seq<Seq<char>>, n: int) -> Seq<(Seq<char>, Seq<Seq<char>>)>
    decreases n,
{
    if n <= 0 {
        Seq::empty()
    } else {
        let before = table_lines(lines, n - 1);
        let trimmed = trim(lines[n - 1]);
        if trimmed.len() == 0 {
            before
        } else {
            before.push((trimmed, words_of(trimmed)))
        }
    }
}

pub open spec fn line_views(v: Seq<TableLine>) -> Seq<(Seq<char>, Seq<Seq<char>>)> {
    v.map_values(|l: TableLine| l@)
}

/// Texts out of rows of characters.
pub fn to_texts(v: &Vec<Vec<char>>) -> (r: Vec<String>)
    ensures
        texts(r@) == rows(v@),
{
    let ghost all = rows(v@);
    let mut out: Vec<String> = Vec::new();
    let mut i: usize = 0;
    while i < v.len()
        invariant
            i <= v@.len(),
            all == rows(v@),
            texts(out@) =~= all.take(i as int),
        decreases v@.len() - i,
    {
        let ghost before = texts(out@);
        out.push(from_chars(&v[i]));
        assert(all[i as int] == v@[i as int]@);
        assert(texts(out@) =~= before.push(all[i as int]));
        assert(all.take(i + 1) =~= all.take(i as int).push(all[i as int]));
        i = i + 1;
    }
    assert(texts(out@) =~= all);
    out
}

/// The lines of a result table that are not blank, with their words.
pub fn split_table(source: &str) -> (r: Vec<TableLine>)
    ensures
        line_views(r@) == table_lines(lines_of(source@), lines_of(source@).len() as int),
{
    let lines = split_lines(&to_chars(source));
    let ghost all = rows(lines@);
    let mut out: Vec<TableLine> = Vec::new();
    let mut i: usize = 0;
    assert(line_views(out@) =~= Seq::<(Seq<char>, Seq<Seq<char>>)>::empty());
    while i < lines.len()
        invariant
            i <= lines@.len(),
            all == rows(lines@),
            line_views(out@) == table_lines(all, i as int),
        decreases lines@.len() - i,
    {
        assert(all[i as int] == lines@[i as int]@);
        let bounds = trim_bounds(&lines[i]);
        if bounds.0 < bounds.1 {
            let trimmed = slice_chars(&lines[i], bounds.0, bounds.1);
            let ghost before = line_views(out@);
            out.push(
                TableLine { text: from_chars(&trimmed), words: to_texts(&split_words(&trimmed)) },
            );
            assert(line_views(out@) =~= before.push(out@.last()@));
        }
        i = i + 1;
    }
    out
}

/// A word and the number that it writes, if it writes one.
#[derive(Clone, Debug, PartialEq, Eq)]
pub struct Cell {
    pub text: String,
    pub value: Option<Real>,
}

/// A line of a table whose words have been read as numbers.
#[derive(Clone, Debug, PartialEq, Eq)]
pub struct TableRow {
    pub text: String,
    pub cells: Vec<Cell>,
}

/// A row of results: the place on the axis and a complex value for each signal.
#[derive(Clone, Debug, PartialEq, Eq)]
pub struct OwnedTableRow {
    pub axis: Real,
    pub values: Vec<(Real, Real)>,
}

/// What an `OwnedTableRow` says.
pub struct Sample {
    pub axis: Real,
    pub values: Seq<(Real, Real)>,
}

impl View for OwnedTableRow {
    type V = Sample;

    open spec fn view(&self) -> Sample {
        Sample { axis: self.axis, values: self.values@ }
    }
}

pub open spec fn samples(v: Seq<OwnedTableRow>) -> Seq<Sample> {
    v.map_values(|r: OwnedTableRow| r@)
}

/// The first cell behind the first one, among the first `n`, that is no finite
/// number.
pub open spec fn cell_failure(cells: Seq<Cell>, n: int) -> Option<Fault>
    decreases n,
{
    if n <= 1 {
        None
    } else {
        match cell_failure(cells, n - 1) {
            Some(f) => Some(f),
            None => match cells[n - 1].value {
                None => Some(
                    fault(
                        "ngspice_result_parse"@,
                        "could not parse `"@ + cells[n - 1].text@
                            + "`: invalid float literal"@,
                    ),
                ),
                Some(x) => if !x.finite() {
                    Some(
                        fault(
                            "ngspice_non_finite_result"@,
                            "ngspice returned non-finite value `"@ + cells[n - 1].text@ + "`"@,
                        ),
                    )
                } else {
                    None
                },
            },
        }
    }
}

proof fn lemma_cell_failure_stops(cells: Seq<Cell>, n: int, m: int)
    requires
        0 <= m <= n,
        cell_failure(cells, m) is Some,
    ensures
        cell_failure(cells, n) == cell_failure(cells, m),
    decreases n - m,
{
    if m < n {
        lemma_cell_failure_stops(cells, n, m + 1);
    }
}

/// The number of a cell.
pub open spec fn number_at(cells: Seq<Cell>, i: int) -> Real {
    cells[i].value->0
}

/// How many columns the values of a row take.
pub open spec fn value_columns(signals: nat, complex: bool) -> nat {
    if complex {
        2 * signals
    } else {
        signals
    }
}

/// One row of results: a line that does not begin with a number is none.
pub open spec fn sample_of(
    row: TableRow,
    signals: nat,
    complex: bool,
    without_scale: bool,
) -> Result<Option<Sample>, Fault> {
    let cells = row.cells@;
    let columns = value_columns(signals, complex);
    let bare = without_scale && cells.len() == columns;
    if cells.len() == 0 || cells[0].value is None {
        Ok(None)
    } else if cells.len() != 1 + columns && !bare {
        Err(
            fault(
                "ngspice_result_shape"@,
                "expected "@ + decimal(1 + columns) + " numeric columns, got "@ + decimal(
                    cells.len(),
                ) + " in `"@ + row.text@ + "`"@,
            ),
        )
    } else {
        match cell_failure(cells, cells.len() as int) {
            Some(f) => Err(f),
            None => {
                let offset = if bare {
                    0int
                } else {
                    1int
                };
                Ok(
                    Some(
                        Sample {
                            axis: if bare {
                                Real { bits: 0 }
                            } else {
                                number_at(cells, 0)
                            },
                            values: Seq::new(
                                signals,
                                |i: int|
                                    if complex {
                                        (
                                            number_at(cells, offset + 2 * i),
                                            number_at(cells, offset + 2 * i + 1),
                                        )
                                    } else {
                                        (number_at(cells, offset + i), Real { bits: 0 })
                                    },
                            ),
                        },
                    ),
                )
            },
        }
    }
}

/// The rows of results among the first `n` lines.
pub open spec fn samples_of(
    table: Seq<TableRow>,
    signals: nat,
    complex: bool,
    without_scale: bool,
    n: int,
) -> Result<Seq<Sample>, Fault>
    decreases n,
{
    if n <= 0 {
        Ok(Seq::empty())
    } else {
        match samples_of(table, signals, complex, without_scale, n - 1) {
            Err(f) => Err(f),
            Ok(before) => match sample_of(table[n - 1], signals, complex, without_scale) {
                Err(f) => Err(f),
                Ok(None) => Ok(before),
                Ok(Some(sample)) => Ok(before.push(sample)),
            },
        }
    }
}

proof fn lemma_samples_stop(
    table: Seq<TableRow>,
    signals: nat,
    complex: bool,
    without_scale: bool,
    n: int,
    m: int,
)
    requires
        0 <= m <= n,
        samples_of(table, signals, complex, without_scale, m) is Err,
    ensures
        samples_of(table, signals, complex, without_scale, n) == samples_of(
            table,
            signals,
            complex,
            without_scale,
            m,
        ),
    decreases n - m,
{
    if m < n {
        lemma_samples_stop(table, signals, complex, without_scale, n, m + 1);
    }
}

fn check_cells(cells: &Vec<Cell>) -> (r: Result<(), EngineError>)
    ensures
        passes(r, cell_failure(cells@, cells@.len() as int)),
        r is Ok ==> forall|k: int| 1 <= k < cells@.len() ==> (#[trigger] cells@[k]).value is Some,
{
    let mut i: usize = 1;
    while i < cells.len()
        invariant
            1 <= i,
            cells@.len() >= 1 ==> i <= cells@.len(),
            cells@.len() == 0 ==> i == 1,
            cell_failure(cells@, i as int) is None,
            forall|k: int| 1 <= k < i && k < cells@.len() ==> (#[trigger] cells@[k]).value is Some,
        decreases cells@.len() - i,
    {
        match cells[i].value {
            None => {
                proof {
                    lemma_cell_failure_stops(cells@, cells@.len() as int, i + 1);
                }
                return Err(
                    fail(
                        "ngspice_result_parse",
                        cat3(
                            "could not parse `",
                            cells[i].text.as_str(),
                            "`: invalid float literal",
                        ),
                    ),
                );
            },
            Some(x) => {
                if !x.is_finite() {
                    proof {
                        lemma_cell_failure_stops(cells@, cells@.len() as int, i + 1);
                    }
                    return Err(
                        fail(
                            "ngspice_non_finite_result",
                            cat3(
                                "ngspice returned non-finite value `",
                                cells[i].text.as_str(),
                                "`",
                            ),
                        ),
                    );
                }
            },
        }
        i = i + 1;
    }
    Ok(())
}

fn cell_number(cells: &Vec<Cell>, i: usize) -> (r: Real)
    requires
        i < cells@.len(),
        cells@[i as int].value is Some,
    ensures
        r == number_at(cells@, i as int),
{
    match cells[i].value {
        Some(x) => x,
        None => Real { bits: 0 },
    }
}

fn parse_row(row: &TableRow, signals: usize, complex: bool, without_scale: bool) -> (r: Result<
    Option<OwnedTableRow>,
    EngineError,
>)
    requires
        2 * signals < usize::MAX,
    ensures
        match (r, sample_of(*row, signals as nat, complex, without_scale)) {
            (Ok(Some(x)), Ok(Some(y))) => x@ == y,
            (Ok(None), Ok(None)) => true,
            (Err(e), Err(f)) => e@ == f,
            _ => false,
        },
{
    let cells = &row.cells;
    let columns: usize = if complex {
        2 * signals
    } else {
        signals
    };
    if cells.len() == 0 {
        return Ok(None);
    }
    match cells[0].value {
        None => {
            return Ok(None);
        },
        Some(_) => {},
    }
    let bare: bool = without_scale && cells.len() == columns;
    if cells.len() != 1 + columns && !bare {
        return Err(
            fail(
                "ngspice_result_shape",
                crate::text::cat7(
                    "expected ",
                    decimal_text(1 + columns as u64).as_str(),
                    " numeric columns, got ",
                    decimal_text(cells.len() as u64).as_str(),
                    " in `",
                    row.text.as_str(),
                    "`",
                ),
            ),
        );
    }
    match check_cells(cells) {
        Err(e) => {
            return Err(e);
        },
        Ok(_) => {},
    }
    assert(forall|k: int| 0 <= k < cells@.len() ==> (#[trigger] cells@[k]).value is Some);
    let offset: usize = if bare {
        0
    } else {
        1
    };
    let axis = if bare {
        Real { bits: 0 }
    } else {
        cell_number(cells, 0)
    };
    let ghost whole = sample_of(*row, signals as nat, complex, without_scale)->Ok_0->0.values;
    let mut values: Vec<(Real, Real)> = Vec::new();
    let mut i: usize = 0;
    while i < signals
        invariant
            i <= signals,
            2 * signals < usize::MAX,
            columns == value_columns(signals as nat, complex),
            offset <= 1,
            offset + columns == cells@.len(),
            forall|k: int| 0 <= k < cells@.len() ==> (#[trigger] cells@[k]).value is Some,
            whole.len() == signals,
            forall|k: int|
                0 <= k < signals ==> #[trigger] whole[k] == if complex {
                    (
                        number_at(cells@, offset + 2 * k),
                        number_at(cells@, offset + 2 * k + 1),
                    )
                } else {
                    (number_at(cells@, offset + k), Real { bits: 0 })
                },
            values@ =~= whole.take(i as int),
        decreases signals - i,
    {
        assert(whole.take(i + 1) =~= whole.take(i as int).push(whole[i as int]));
        if complex {
            values.push(
                (cell_number(cells, offset + 2 * i), cell_number(cells, offset + 2 * i + 1)),
            );
        } else {
            values.push((cell_number(cells, offset + i), Real { bits: 0 }));
        }
        i = i + 1;
    }
    assert(values@ =~= whole);
    Ok(Some(OwnedTableRow { axis, values }))
}

/// Every row holds a value for each signal.
pub open spec fn full_rows(rows: Seq<OwnedTableRow>, signals: nat) -> bool {
    forall|i: int| 0 <= i < rows.len() ==> (#[trigger] rows[i]).values@.len() == signals
}

/// The rows of a result table, in which a line that does not begin with a number
/// is passed over.
pub fn parse_wrdata(
    table: &Vec<TableRow>,
    signal_count: usize,
    complex: bool,
    scalar_without_scale: bool,
) -> (r: Result<Vec<OwnedTableRow>, EngineError>)
    requires
        2 * signal_count < usize::MAX,
    ensures
        match (
            r,
            samples_of(
                table@,
                signal_count as nat,
                complex,
                scalar_without_scale,
                table@.len() as int,
            ),
        ) {
            (Ok(v), Ok(s)) => samples(v@) == s,
            (Err(e), Err(f)) => e@ == f,
            _ => false,
        },
        r matches Ok(v) ==> full_rows(v@, signal_count as nat),
{
    let mut out: Vec<OwnedTableRow> = Vec::new();
    let mut i: usize = 0;
    assert(samples(out@) =~= Seq::<Sample>::empty());
    while i < table.len()
        invariant
            i <= table@.len(),
            2 * signal_count < usize::MAX,
            samples_of(
                table@,
                signal_count as nat,
                complex,
                scalar_without_scale,
                i as int,
            ) == Ok::<Seq<Sample>, Fault>(samples(out@)),
            full_rows(out@, signal_count as nat),
        decreases table@.len() - i,
    {
        match parse_row(&table[i], signal_count, complex, scalar_without_scale) {
            Err(e) => {
                proof {
                    lemma_samples_stop(
                        table@,
                        signal_count as nat,
                        complex,
                        scalar_without_scale,
                        table@.len() as int,
                        i + 1,
                    );
                }
                return Err(e);
            },
            Ok(None) => {},
            Ok(Some(row)) => {
                let ghost before = samples(out@);
                assert(row@.values.len() == signal_count);
                out.push(row);
                assert(samples(out@) =~= before.push(row@));
            },
        }
        i = i + 1;
    }
    Ok(out)
}

/// The places of rows on the axis; an operating point has none.
pub open spec fn axis_values(rows: Seq<OwnedTableRow>, operating_point: bool) -> Seq<Real> {
    Seq::new(
        rows.len(),
        |i: int|
            if operating_point {
                Real { bits: 0 }
            } else {
                rows[i].axis
            },
    )
}

/// A waveform that shows one column of the rows.
pub open spec fn shows_column(
    waveform: Waveform,
    rows: Seq<OwnedTableRow>,
    signal: Seq<char>,
    k: int,
    axis_kind: AxisKind,
    axis_unit: Unit,
    complex: bool,
    operating_point: bool,
) -> bool {
    match waveform {
        Waveform::Analog(w) => {
            &&& w.signal@ == signal
            &&& w.unit == Unit::Volt
            &&& w.axis.kind == axis_kind
            &&& w.axis.unit == axis_unit
            &&& w.axis.values@ == axis_values(rows, operating_point)
            &&& w.values@ == Seq::new(rows.len(), |i: int| rows[i].values@[k].0)
            &&& match w.imaginary {
                Some(imaginary) => complex && imaginary@ == Seq::new(
                    rows.len(),
                    |i: int| rows[i].values@[k].1,
                ),
                None => !complex,
            }
        },
        _ => false,
    }
}

fn column(rows: &Vec<OwnedTableRow>, k: usize, imaginary: bool) -> (r: Vec<Real>)
    requires
        forall|i: int| 0 <= i < rows@.len() ==> k < (#[trigger] rows@[i]).values@.len(),
    ensures
        r@ == Seq::new(
            rows@.len(),
            |i: int|
                if imaginary {
                    rows@[i].values@[k as int].1
                } else {
                    rows@[i].values@[k as int].0
                },
        ),
{
    let mut out: Vec<Real> = Vec::new();
    let mut i: usize = 0;
    while i < rows.len()
        invariant
            i <= rows@.len(),
            forall|i: int| 0 <= i < rows@.len() ==> k < (#[trigger] rows@[i]).values@.len(),
            out@.len() == i,
            forall|j: int|
                0 <= j < i ==> #[trigger] out@[j] == if imaginary {
                    rows@[j].values@[k as int].1
                } else {
                    rows@[j].values@[k as int].0
                },
        decreases rows@.len() - i,
    {
        let pair = rows[i].values[k];
        if imaginary {
            out.push(pair.1);
        } else {
            out.push(pair.0);
        }
        i = i + 1;
    }
    out
}

fn axis_column(rows: &Vec<OwnedTableRow>, operating_point: bool) -> (r: Vec<Real>)
    ensures
        r@ == axis_values(rows@, operating_point),
{
    let mut out: Vec<Real> = Vec::new();
    let mut i: usize = 0;
    while i < rows.len()
        invariant
            i <= rows@.len(),
            out@.len() == i,
            forall|j: int|
                0 <= j < i ==> #[trigger] out@[j] == axis_values(rows@, operating_point)[j],
        decreases rows@.len() - i,
    {
        if operating_point {
            out.push(Real { bits: 0 });
        } else {
            out.push(rows[i].axis);
        }
        i = i + 1;
    }
    assert(out@ =~= axis_values(rows@, operating_point));
    out
}

/// The waveforms of the probes, column by column.
pub fn analog_waveforms(
    rows: &Vec<OwnedTableRow>,
    probes: &Vec<AnalogProbe>,
    axis_kind: AxisKind,
    axis_unit: Unit,
    complex: bool,
    operating_point: bool,
) -> (r: Vec<Waveform>)
    requires
        full_rows(rows@, probes@.len()),
    ensures
        r@.len() == probes@.len(),
        forall|k: int|
            0 <= k < r@.len() ==> shows_column(
                #[trigger] r@[k],
                rows@,
                probes@[k].signal@,
                k,
                axis_kind,
                axis_unit,
                complex,
                operating_point,
            ),
{
    let mut out: Vec<Waveform> = Vec::new();
    let mut k: usize = 0;
    while k < probes.len()
        invariant
            k <= probes@.len(),
            full_rows(rows@, probes@.len()),
            out@.len() == k,
            forall|j: int|
                0 <= j < k ==> shows_column(
                    #[trigger] out@[j],
                    rows@,
                    probes@[j].signal@,
                    j,
                    axis_kind,
                    axis_unit,
                    complex,
                    operating_point,
                ),
        decreases probes@.len() - k,
    {
        let values = column(rows, k, false);
        assert(values@ =~= Seq::new(rows@.len(), |i: int| rows@[i].values@[k as int].0));
        let imaginary = if complex {
            let part = column(rows, k, true);
            assert(part@ =~= Seq::new(rows@.len(), |i: int| rows@[i].values@[k as int].1));
            Some(part)
        } else {
            None
        };
        out.push(
            Waveform::Analog(
                AnalogWaveform {
                    signal: SignalId::new(probes[k].signal.as_str()),
                    unit: Unit::Volt,
                    axis: AnalogAxis {
                        kind: axis_kind,
                        unit: axis_unit,
                        values: axis_column(rows, operating_point),
                    },
                    values,
                    imaginary,
                },
            ),
        );
        k = k + 1;
    }
    out
}

/// What keeps a size from being within a limit; zero is no limit.
pub open spec fn size_failure(resource: Seq<char>, actual: u64, max_bytes: u64) -> Option<Fault> {
    if max_bytes != 0 && actual > max_bytes {
        Some(
            fault(
                "execution_resource_limit"@,
                resource + " size "@ + decimal(actual as nat)
                    + " bytes exceeds configured limit of "@ + decimal(max_bytes as nat)
                    + " bytes"@,
            ),
        )
    } else {
        None
    }
}

pub fn enforce_buffer_limit(resource: &str, actual: u64, max_bytes: u64) -> (r: Result<
    (),
    EngineError,
>)
    ensures
        passes(r, size_failure(resource@, actual, max_bytes)),
{
    if max_bytes != 0 && actual > max_bytes {
        return Err(
            fail(
                "execution_resource_limit",
                cat6(
                    resource,
                    " size ",
                    decimal_text(actual).as_str(),
                    " bytes exceeds configured limit of ",
                    decimal_text(max_bytes).as_str(),
                    " bytes",
                ),
            ),
        );
    }
    Ok(())
}

/// What ends the wait for a running simulator: a signal, the time, or the size
/// of one of its files.
pub open spec fn wait_failure(
    policy: ExecutionPolicy,
    cancelled: bool,
    elapsed_ms: u128,
    log_bytes: u64,
    result_bytes: u64,
) -> Option<Fault> {
    if cancelled {
        Some(fault("execution_cancelled"@, "ngspice execution was cancelled"@))
    } else if policy.timeout_ms != 0 && elapsed_ms >= policy.timeout_ms {
        Some(
            Fault {
                retryable: true,
                ..fault(
                    "execution_timeout"@,
                    "ngspice exceeded execution timeout of "@ + decimal(policy.timeout_ms as nat)
                        + " ms"@,
                )
            },
        )
    } else {
        match size_failure("log"@, log_bytes, policy.max_log_bytes) {
            Some(f) => Some(f),
            None => size_failure("result"@, result_bytes, policy.max_output_bytes),
        }
    }
}

/// Whether to wait on for a running simulator. A file that does not exist yet
/// has no bytes.
pub fn check_wait(
    policy: &ExecutionPolicy,
    cancelled: bool,
    elapsed_ms: u128,
    log_bytes: u64,
    result_bytes: u64,
) -> (r: Result<(), EngineError>)
    ensures
        passes(r, wait_failure(*policy, cancelled, elapsed_ms, log_bytes, result_bytes)),
{
    if cancelled {
        return Err(EngineError::new("execution_cancelled", "ngspice execution was cancelled"));
    }
    if policy.timeout_ms != 0 && elapsed_ms >= policy.timeout_ms as u128 {
        return Err(
            fail(
                "execution_timeout",
                cat3(
                    "ngspice exceeded execution timeout of ",
                    decimal_text(policy.timeout_ms).as_str(),
                    " ms",
                ),
            ).retryable(true),
        );
    }
    match enforce_buffer_limit("log", log_bytes, policy.max_log_bytes) {
        Err(e) => Err(e),
        Ok(_) => enforce_buffer_limit("result", result_bytes, policy.max_output_bytes),
    }
}

/// How many characters of a log are shown.
pub const SHOWN_LOG_CHARS: usize = 4000;

/// The end of a log, with a mark where something is left out.
pub open spec fn log_end(log: Seq<char>) -> Seq<char> {
    let trimmed = trim(log);
    if trimmed.len() <= SHOWN_LOG_CHARS {
        trimmed
    } else {
        seq!['\u{2026}'] + trimmed.skip(trimmed.len() - SHOWN_LOG_CHARS)
    }
}

pub fn bounded_log(log: &str) -> (r: String)
    ensures
        r@ == log_end(log@),
{
    let chars = to_chars(log);
    let bounds = trim_bounds(&chars);
    let trimmed = slice_chars(&chars, bounds.0, bounds.1);
    if trimmed.len() <= SHOWN_LOG_CHARS {
        return from_chars(&trimmed);
    }
    let from: usize = trimmed.len() - SHOWN_LOG_CHARS;
    let mut out: Vec<char> = Vec::new();
    out.push('\u{2026}');
    let mut i: usize = from;
    while i < trimmed.len()
        invariant
            from <= i <= trimmed@.len(),
            out@ =~= seq!['\u{2026}'] + trimmed@.subrange(from as int, i as int),
        decreases trimmed@.len() - i,
    {
        out.push(trimmed[i]);
        i = i + 1;
    }
    assert(trimmed@.subrange(from as int, i as int) =~= trimmed@.skip(from as int));
    from_chars(&out)
}

/// The shown end of a log is never longer than its bound and the mark.
pub proof fn shown_log_is_bounded(log: Seq<char>)
    ensures
        log_end(log).len() <= SHOWN_LOG_CHARS + 1,
{
}

/// How many warnings of a log are passed on.
pub const MAX_WARNINGS: usize = 16;

/// A line that warns.
pub open spec fn is_warning(line: Seq<char>) -> bool {
    let lowered = lowercase(line);
    begins_with(lowered, "warning"@) || includes(lowered, "warning:"@)
}

/// The warnings among the first `n` lines.
pub open spec fn warnings_of(lines: Seq<Seq<char>>, n: int) -> Seq<Seq<char>>
    decreases n,
{
    if n <= 0 {
        Seq::empty()
    } else {
        let before = warnings_of(lines, n - 1);
        let line = trim(lines[n - 1]);
        if is_warning(line) && before.len() < MAX_WARNINGS {
            before.push(line)
        } else {
            before
        }
    }
}

pub fn extract_warnings(log: &str) -> (r: Vec<String>)
    ensures
        texts(r@) == warnings_of(lines_of(log@), lines_of(log@).len() as int),
        r@.len() <= MAX_WARNINGS,
{
    let lines = split_lines(&to_chars(log));
    let ghost all = rows(lines@);
    let mut out: Vec<String> = Vec::new();
    let mut i: usize = 0;
    assert(texts(out@) =~= Seq::<Seq<char>>::empty());
    while i < lines.len()
        invariant
            i <= lines@.len(),
            all == rows(lines@),
            texts(out@) == warnings_of(all, i as int),
            out@.len() <= MAX_WARNINGS,
        decreases lines@.len() - i,
    {
        assert(all[i as int] == lines@[i as int]@);
        let bounds = trim_bounds(&lines[i]);
        let line = slice_chars(&lines[i], bounds.0, bounds.1);
        let low = lowercase_chars(&line);
        assert(texts(out@).len() == out@.len());
        if (chars_begin_with(&low, "warning") || chars_include(&low, "warning:")) && out.len()
            < MAX_WARNINGS {
            let ghost before = texts(out@);
            out.push(from_chars(&line));
            assert(texts(out@) =~= before.push(line@));
        }
        i = i + 1;
    }
    out
}

/// The first of the first `n` lines that is not blank and names a program, as
/// far as one is asked for.
pub open spec fn naming_line(lines: Seq<Seq<char>>, name: Option<Seq<char>>, n: int) -> Option<
    Seq<char>,
>
    decreases n,
{
    if n <= 0 {
        None
    } else {
        match naming_line(lines, name, n - 1) {
            Some(line) => Some(line),
            None => {
                let line = trim(lines[n - 1]);
                if line.len() > 0 && (name is None || includes(lowercase(line), name->0)) {
                    Some(line)
                } else {
                    None
                }
            },
        }
    }
}

/// The version that a program prints: the first line with its name, else the
/// first line.
pub open spec fn version_of(printed: Seq<char>, name: Seq<char>) -> Option<Seq<char>> {
    let lines = lines_of(printed);
    match naming_line(lines, Some(name), lines.len() as int) {
        Some(line) => Some(line),
        None => naming_line(lines, None, lines.len() as int),
    }
}

proof fn lemma_naming_line_stays(
    lines: Seq<Seq<char>>,
    name: Option<Seq<char>>,
    n: int,
    m: int,
)
    requires
        0 <= m <= n,
        naming_line(lines, name, m) is Some,
    ensures
        naming_line(lines, name, n) == naming_line(lines, name, m),
    decreases n - m,
{
    if m < n {
        lemma_naming_line_stays(lines, name, n, m + 1);
    }
}

pub fn find_version(printed: &str, name: &str) -> (r: Option<String>)
    ensures
        match (r, version_of(printed@, name@)) {
            (Some(s), Some(t)) => s@ == t,
            (None, None) => true,
            _ => false,
        },
{
    let lines = split_lines(&to_chars(printed));
    let ghost all = rows(lines@);
    let mut first: Option<String> = None;
    let mut i: usize = 0;
    while i < lines.len()
        invariant
            i <= lines@.len(),
            all == rows(lines@),
            all == lines_of(printed@),
            naming_line(all, Some(name@), i as int) is None,
            match (first, naming_line(all, None, i as int)) {
                (Some(s), Some(t)) => s@ == t,
                (None, None) => true,
                _ => false,
            },
        decreases lines@.len() - i,
    {
        assert(all[i as int] == lines@[i as int]@);
        let bounds = trim_bounds(&lines[i]);
        if bounds.0 < bounds.1 {
            let line = slice_chars(&lines[i], bounds.0, bounds.1);
            if chars_include(&lowercase_chars(&line), name) {
                proof {
                    lemma_naming_line_stays(all, Some(name@), all.len() as int, i + 1);
                }
                return Some(from_chars(&line));
            }
            if first.is_none() {
                first = Some(from_chars(&line));
            }
        }
        i = i + 1;
    }
    first
}

/// The numbers of a row of results: its place on the axis, and for each signal its
/// value, or its real and its imaginary part.
pub open spec fn row_numbers(axis: Real, values: Seq<(Real, Real)>, complex: bool) -> Seq<Real>
    decreases values.len(),
{
    if values.len() == 0 {
        seq![axis]
    } else {
        let before = row_numbers(axis, values.drop_last(), complex);
        if complex {
            before.push(values.last().0).push(values.last().1)
        } else {
            before.push(values.last().0)
        }
    }
}

proof fn lemma_row_numbers(axis: Real, values: Seq<(Real, Real)>, complex: bool)
    ensures
        row_numbers(axis, values, complex).len() == 1 + value_columns(values.len(), complex),
        row_numbers(axis, values, complex)[0] == axis,
        forall|i: int|
            0 <= i < values.len() && !complex ==> row_numbers(axis, values, complex)[1 + i] == (
            #[trigger] values[i]).0,
        forall|i: int|
            0 <= i < values.len() && complex ==> row_numbers(axis, values, complex)[1 + 2 * i] == (
            #[trigger] values[i]).0 && row_numbers(axis, values, complex)[1 + 2 * i + 1]
                == values[i].1,
    decreases values.len(),
{
    if values.len() > 0 {
        let rest = values.drop_last();
        lemma_row_numbers(axis, rest, complex);
        let before = row_numbers(axis, rest, complex);
        let all = row_numbers(axis, values, complex);
        assert forall|i: int| 0 <= i < values.len() && !complex implies all[1 + i] == (
        #[trigger] values[i]).0 by {
            if i < rest.len() {
                assert(before[1 + i] == rest[i].0);
            }
        }
        assert forall|i: int| 0 <= i < values.len() && complex implies all[1 + 2 * i] == (
        #[trigger] values[i]).0 && all[1 + 2 * i + 1] == values[i].1 by {
            if i < rest.len() {
                assert(before[1 + 2 * i] == rest[i].0);
                assert(before[1 + 2 * i + 1] == rest[i].1);
            }
        }
    }
}

proof fn lemma_cells_pass(cells: Seq<Cell>, n: int)
    requires
        n <= cells.len(),
        forall|i: int|
            0 <= i < cells.len() ==> ((#[trigger] cells[i]).value matches Some(x) && x.finite()),
    ensures
        cell_failure(cells, n) is None,
    decreases n,
{
    if n > 1 {
        lemma_cells_pass(cells, n - 1);
        assert(cells[n - 1].value is Some);
    }
}

/// A row that holds a place on the axis and the values of all signals in order is read
/// as just these.
pub proof fn rows_are_read_back(
    row: TableRow,
    axis: Real,
    values: Seq<(Real, Real)>,
    complex: bool,
    without_scale: bool,
)
    requires
        row.cells@.len() == row_numbers(axis, values, complex).len(),
        forall|i: int|
            0 <= i < row.cells@.len() ==> (#[trigger] row.cells@[i]).value == Some(
                row_numbers(axis, values, complex)[i],
            ) && row_numbers(axis, values, complex)[i].finite(),
        !complex ==> forall|i: int|
            0 <= i < values.len() ==> (#[trigger] values[i]).1 == (Real { bits: 0 }),
    ensures
        sample_of(row, values.len(), complex, without_scale) == Ok::<Option<Sample>, Fault>(
            Some(Sample { axis, values }),
        ),
{
    let cells = row.cells@;
    lemma_row_numbers(axis, values, complex);
    lemma_cells_pass(cells, cells.len() as int);
    assert(cells[0].value == Some(axis));
    let sample = sample_of(row, values.len(), complex, without_scale)->Ok_0->0;
    assert forall|i: int| 0 <= i < values.len() implies #[trigger] sample.values[i] == values[i] by {
        if complex {
            assert(cells[1 + 2 * i].value == Some(values[i].0));
            assert(cells[1 + 2 * i + 1].value == Some(values[i].1));
        } else {
            assert(cells[1 + i].value == Some(values[i].0));
            assert(values[i].1 == (Real { bits: 0 }));
        }
    }
    assert(sample.values =~= values);
}

} // verus!
