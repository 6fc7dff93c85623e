//! Value change dumps of the event engine.
use crate::digital_engine::{push_transition, pushed};
use crate::fault::{fail, fault, EngineError, Fault};
use crate::lines::{
    begins_with, chars_begin_with, find_in_chars, includes, lines_of, place_of, rows, split_lines,
    split_words, words_of,
};
use crate::number::Real;
use crate::reading::same;
use crate::text::{
    cat3, cat4, from_chars, is_ascii_digit, is_digit_char, is_whitespace, is_whitespace_char,
    slice_chars, text_eq, texts, to_chars, trim, trim_bounds,
};
use crate::waveform::{DigitalTransition, DigitalWaveform, LogicValue, SignalId, Waveform};
use crate::xspice::{event_probes, probed_nodes, sorted_nodes, EventProbe};
use vstd::prelude::*;

verus! {

/// The numbers of a dump, as they have been read: how many units a tick has, and
/// the ticks of the time stamps in their order.
#[derive(Clone, Debug, PartialEq, Eq)]
pub struct VcdNumbers {
    pub magnitude: Option<Real>,
    pub times: Vec<Option<Real>>,
}

/// The numbers of a dump as they are written.
#[derive(Clone, Debug, PartialEq, Eq)]
pub struct VcdTexts {
    pub magnitude: Option<String>,
    pub times: Vec<String>,
}

/// Where a text first stands in another.
pub open spec fn first_place(s: Seq<char>, part: Seq<char>) -> Option<int> {
    if includes(s, part) {
        Some(choose|k: int| place_of(s, part, k))
    } else {
        None
    }
}

proof fn lemma_place_unique(s: Seq<char>, part: Seq<char>, j: int, k: int)
    requires
        place_of(s, part, j),
        place_of(s, part, k),
    ensures
        j == k,
{
    if j < k {
        assert(crate::lines::stands_at(s, part, j));
    } else if k < j {
        assert(crate::lines::stands_at(s, part, k));
    }
}

fn find_place(v: &Vec<char>, part: &str) -> (r: Option<usize>)
    ensures
        match (r, first_place(v@, part@)) {
            (Some(k), Some(p)) => k == p && k + part@.len() <= v@.len(),
            (None, None) => true,
            _ => false,
        },
{
    match find_in_chars(v, part) {
        Some(k) => {
            proof {
                assert(crate::lines::stands_at(v@, part@, k as int));
                let p = choose|p: int| place_of(v@, part@, p);
                assert(place_of(v@, part@, k as int));
                lemma_place_unique(v@, part@, k as int, p);
            }
            Some(k)
        },
        None => None,
    }
}

pub open spec fn timescale_fault(message: Seq<char>) -> Fault {
    fault("xspice_vcd_timescale"@, message)
}

/// The text of the timescale declaration.
pub open spec fn timescale_text(source: Seq<char>) -> Result<Seq<char>, Fault> {
    match first_place(source, "$timescale"@) {
        None => Err(timescale_fault("VCD result is missing a timescale declaration"@)),
        Some(start) => {
            let rest = source.skip(start + "$timescale"@.len());
            match first_place(rest, "$end"@) {
                None => Err(timescale_fault("VCD timescale declaration is not terminated"@)),
                Some(end) => Ok(trim(rest.take(end))),
            }
        },
    }
}

/// Without any whitespace.
pub open spec fn compact(s: Seq<char>) -> Seq<char> {
    s.filter(|c: char| !is_whitespace(c))
}

/// How many digits a text begins with.
pub open spec fn leading_digits(s: Seq<char>) -> int
    decreases s.len(),
{
    if s.len() == 0 || !is_ascii_digit(s[0]) {
        0
    } else {
        1 + leading_digits(s.drop_first())
    }
}

/// The bit pattern of a unit of time.
pub open spec fn unit_bits(unit: Seq<char>) -> Option<u64> {
    if unit == "s"@ {
        Some(0x3ff0_0000_0000_0000)
    } else if unit == "ms"@ {
        Some(0x3f50_624d_d2f1_a9fc)
    } else if unit == "us"@ {
        Some(0x3eb0_c6f7_a0b5_ed8d)
    } else if unit == "ns"@ {
        Some(0x3e11_2e0b_e826_d695)
    } else if unit == "ps"@ {
        Some(0x3d71_9799_812d_ea11)
    } else if unit == "fs"@ {
        Some(0x3cd2_03af_9ee7_5616)
    } else {
        None
    }
}

fn find_unit(unit: &str) -> (r: Option<u64>)
    ensures
        r == unit_bits(unit@),
{
    if text_eq(unit, "s") {
        Some(0x3ff0_0000_0000_0000)
    } else if text_eq(unit, "ms") {
        Some(0x3f50_624d_d2f1_a9fc)
    } else if text_eq(unit, "us") {
        Some(0x3eb0_c6f7_a0b5_ed8d)
    } else if text_eq(unit, "ns") {
        Some(0x3e11_2e0b_e826_d695)
    } else if text_eq(unit, "ps") {
        Some(0x3d71_9799_812d_ea11)
    } else if text_eq(unit, "fs") {
        Some(0x3cd2_03af_9ee7_5616)
    } else {
        None
    }
}

/// The length of a tick of a dump.
pub open spec fn timescale_of(source: Seq<char>, magnitude: Option<Real>) -> Result<Real, Fault> {
    match timescale_text(source) {
        Err(f) => Err(f),
        Ok(text) => {
            let digits = leading_digits(compact(text));
            let unit = compact(text).skip(digits);
            if digits == 0 {
                Err(timescale_fault("unsupported VCD timescale `"@ + text + "`"@))
            } else {
                match magnitude {
                    None => Err(
                        timescale_fault(
                            "could not parse VCD timescale `"@ + text
                                + "`: invalid float literal"@,
                        ),
                    ),
                    Some(x) => match unit_bits(unit) {
                        None => Err(
                            timescale_fault("unsupported VCD timescale unit `"@ + unit + "`"@),
                        ),
                        Some(bits) => Ok(x.scaled(Real { bits })),
                    },
                }
            }
        },
    }
}

fn timescale_chars(source: &Vec<char>) -> (r: Result<Vec<char>, EngineError>)
    ensures
        match (r, timescale_text(source@)) {
            (Ok(v), Ok(s)) => v@ == s,
            (Err(e), Err(f)) => e@ == f,
            _ => false,
        },
{
    let start: usize = match find_place(source, "$timescale") {
        None => {
            return Err(
                EngineError::new(
                    "xspice_vcd_timescale",
                    "VCD result is missing a timescale declaration",
                ),
            );
        },
        Some(start) => start,
    };
    proof {
        reveal_strlit("$timescale");
    }
    let end: usize = source.len();
    let from: usize = start + 10;
    let rest = slice_chars(source, from, end);
    assert(rest@ =~= source@.skip(from as int));
    match find_place(&rest, "$end") {
        None => Err(
            EngineError::new("xspice_vcd_timescale", "VCD timescale declaration is not terminated"),
        ),
        Some(end) => {
            let inner = slice_chars(&rest, 0, end);
            assert(inner@ =~= rest@.take(end as int));
            let bounds = trim_bounds(&inner);
            Ok(slice_chars(&inner, bounds.0, bounds.1))
        },
    }
}

fn compact_chars(v: &Vec<char>) -> (r: Vec<char>)
    ensures
        r@ == compact(v@),
{
    let mut out: Vec<char> = Vec::new();
    let mut i: usize = 0;
    let ghost keep = |c: char| !is_whitespace(c);
    assert(v@.take(0).filter(keep) =~= Seq::<char>::empty()) by {
        reveal(Seq::filter);
    }
    while i < v.len()
        invariant
            i <= v@.len(),
            keep == (|c: char| !is_whitespace(c)),
            out@ == v@.take(i as int).filter(keep),
        decreases v@.len() - i,
    {
        proof {
            reveal(Seq::filter);
            assert(v@.take(i + 1).drop_last() =~= v@.take(i as int));
            assert(v@.take(i + 1).last() == v@[i as int]);
        }
        if !is_whitespace_char(v[i]) {
            out.push(v[i]);
        }
        i = i + 1;
    }
    assert(v@.take(i as int) =~= v@);
    out
}

fn count_leading_digits(v: &Vec<char>) -> (r: usize)
    ensures
        r == leading_digits(v@),
        r <= v@.len(),
{
    let mut i: usize = 0;
    assert(v@.skip(0) =~= v@);
    while i < v.len() && is_digit_char(v[i])
        invariant
            i <= v@.len(),
            leading_digits(v@) == i + leading_digits(v@.skip(i as int)),
        decreases v@.len() - i,
    {
        assert(v@.skip(i as int)[0] == v@[i as int]);
        assert(v@.skip(i as int).drop_first() =~= v@.skip(i + 1));
        i = i + 1;
    }
    assert(i < v@.len() ==> v@.skip(i as int)[0] == v@[i as int]);
    i
}

fn parse_timescale(source: &Vec<char>, magnitude: Option<Real>) -> (r: Result<Real, EngineError>)
    ensures
        same(r, timescale_of(source@, magnitude)),
{
    let text = match timescale_chars(source) {
        Err(e) => {
            return Err(e);
        },
        Ok(text) => text,
    };
    let dense = compact_chars(&text);
    let digits: usize = count_leading_digits(&dense);
    if digits == 0 {
        return Err(
            fail(
                "xspice_vcd_timescale",
                cat3("unsupported VCD timescale `", from_chars(&text).as_str(), "`"),
            ),
        );
    }
    let x = match magnitude {
        None => {
            return Err(
                fail(
                    "xspice_vcd_timescale",
                    cat3(
                        "could not parse VCD timescale `",
                        from_chars(&text).as_str(),
                        "`: invalid float literal",
                    ),
                ),
            );
        },
        Some(x) => x,
    };
    let unit = from_chars(&slice_chars(&dense, digits, dense.len()));
    assert(unit@ =~= dense@.skip(digits as int));
    match find_unit(unit.as_str()) {
        None => Err(
            fail(
                "xspice_vcd_timescale",
                cat3("unsupported VCD timescale unit `", unit.as_str(), "`"),
            ),
        ),
        Some(bits) => Ok(x.scale(Real { bits })),
    }
}

/// Without the backslashes in front.
pub open spec fn without_escape(s: Seq<char>) -> Seq<char>
    decreases s.len(),
{
    if s.len() > 0 && s[0] == '\\' {
        without_escape(s.drop_first())
    } else {
        s
    }
}

fn strip_escape(v: &Vec<char>) -> (r: String)
    ensures
        r@ == without_escape(v@),
{
    let mut from: usize = 0;
    assert(v@.skip(0) =~= v@);
    while from < v.len() && v[from] == '\\'
        invariant
            from <= v@.len(),
            without_escape(v@) == without_escape(v@.skip(from as int)),
        decreases v@.len() - from,
    {
        assert(v@.skip(from as int)[0] == v@[from as int]);
        assert(v@.skip(from as int).drop_first() =~= v@.skip(from + 1));
        from = from + 1;
    }
    assert(from < v@.len() ==> v@.skip(from as int)[0] == v@[from as int]);
    let rest = slice_chars(v, from, v.len());
    assert(rest@ =~= v@.skip(from as int));
    from_chars(&rest)
}

/// A declared variable: its identifier and the node that it stands for.
#[derive(Clone, Debug, PartialEq, Eq)]
pub struct Variable {
    pub identifier: String,
    pub node: String,
}

impl View for Variable {
    type V = (Seq<char>, Seq<char>);

    open spec fn view(&self) -> (Seq<char>, Seq<char>) {
        (self.identifier@, self.node@)
    }
}

pub open spec fn variable_views(v: Seq<Variable>) -> Seq<(Seq<char>, Seq<char>)> {
    v.map_values(|x: Variable| x@)
}

/// The variables that the first `n` lines declare.
pub open spec fn variables_of(lines: Seq<Seq<char>>, n: int) -> Result<
    Seq<(Seq<char>, Seq<char>)>,
    Fault,
>
    decreases n,
{
    if n <= 0 {
        Ok(Seq::empty())
    } else {
        match variables_of(lines, n - 1) {
            Err(f) => Err(f),
            Ok(before) => {
                let line = trim(lines[n - 1]);
                let words = words_of(line);
                if !begins_with(line, "$var "@) {
                    Ok(before)
                } else if words.len() < 6 {
                    Err(
                        fault(
                            "xspice_vcd_declaration"@,
                            "malformed VCD variable declaration `"@ + line + "`"@,
                        ),
                    )
                } else {
                    Ok(before.push((words[3], without_escape(words[4]))))
                }
            },
        }
    }
}

proof fn lemma_variables_stop(lines: Seq<Seq<char>>, n: int, m: int)
    requires
        0 <= m <= n,
        variables_of(lines, m) is Err,
    ensures
        variables_of(lines, n) == variables_of(lines, m),
    decreases n - m,
{
    if m < n {
        lemma_variables_stop(lines, n, m + 1);
    }
}

/// The node of an identifier, as its last declaration has it.
pub open spec fn variable_at(variables: Seq<(Seq<char>, Seq<char>)>, identifier: Seq<char>) -> Option<
    Seq<char>,
>
    decreases variables.len(),
{
    if variables.len() == 0 {
        None
    } else if variables.last().0 == identifier {
        Some(variables.last().1)
    } else {
        variable_at(variables.drop_last(), identifier)
    }
}

/// Whether some identifier stands for a node.
pub open spec fn declares(variables: Seq<(Seq<char>, Seq<char>)>, node: Seq<char>) -> bool {
    exists|i: int|
        0 <= i < variables.len() && variable_at(variables, (#[trigger] variables[i]).0) == Some(
            node,
        )
}

fn find_variable<'a>(variables: &'a Vec<Variable>, identifier: &str) -> (r: Option<&'a String>)
    ensures
        match (r, variable_at(variable_views(variables@), identifier@)) {
            (Some(s), Some(t)) => s@ == t,
            (None, None) => true,
            _ => false,
        },
{
    let ghost all = variable_views(variables@);
    let mut i: usize = variables.len();
    assert(all.take(i as int) =~= all);
    while i > 0
        invariant
            i <= variables@.len(),
            all == variable_views(variables@),
            variable_at(all, identifier@) == variable_at(all.take(i as int), identifier@),
        decreases i,
    {
        assert(all.take(i as int).last() == variables@[i - 1]@);
        assert(all.take(i as int).drop_last() =~= all.take(i - 1));
        i = i - 1;
        if text_eq(variables[i].identifier.as_str(), identifier) {
            return Some(&variables[i].node);
        }
    }
    None
}

fn is_declared(variables: &Vec<Variable>, node: &str) -> (r: bool)
    ensures
        r == declares(variable_views(variables@), node@),
{
    let ghost all = variable_views(variables@);
    let mut i: usize = 0;
    while i < variables.len()
        invariant
            i <= variables@.len(),
            all == variable_views(variables@),
            forall|k: int|
                0 <= k < i ==> variable_at(all, (#[trigger] all[k]).0) != Some(node@),
        decreases variables@.len() - i,
    {
        assert(all[i as int] == variables@[i as int]@);
        match find_variable(variables, variables[i].identifier.as_str()) {
            Some(found) => {
                if text_eq(found.as_str(), node) {
                    assert(variable_at(all, all[i as int].0) == Some(node@));
                    return true;
                }
            },
            None => {},
        }
        i = i + 1;
    }
    false
}

fn read_variables(lines: &Vec<Vec<char>>) -> (r: Result<Vec<Variable>, EngineError>)
    ensures
        match (r, variables_of(rows(lines@), lines@.len() as int)) {
            (Ok(v), Ok(s)) => variable_views(v@) == s,
            (Err(e), Err(f)) => e@ == f,
            _ => false,
        },
{
    let ghost all = rows(lines@);
    let mut out: Vec<Variable> = Vec::new();
    let mut i: usize = 0;
    assert(variable_views(out@) =~= Seq::<(Seq<char>, Seq<char>)>::empty());
    while i < lines.len()
        invariant
            i <= lines@.len(),
            all == rows(lines@),
            variables_of(all, i as int) == Ok::<Seq<(Seq<char>, Seq<char>)>, Fault>(
                variable_views(out@),
            ),
        decreases lines@.len() - i,
    {
        assert(all[i as int] == lines@[i as int]@);
        let bounds = trim_bounds(&lines[i]);
        let line = slice_chars(&lines[i], bounds.0, bounds.1);
        if chars_begin_with(&line, "$var ") {
            let words = split_words(&line);
            let ghost listed = rows(words@);
            if words.len() < 6 {
                proof {
                    lemma_variables_stop(all, all.len() as int, i + 1);
                }
                return Err(
                    fail(
                        "xspice_vcd_declaration",
                        cat3(
                            "malformed VCD variable declaration `",
                            from_chars(&line).as_str(),
                            "`",
                        ),
                    ),
                );
            }
            assert(listed[3] == words@[3]@ && listed[4] == words@[4]@);
            let ghost before = variable_views(out@);
            out.push(
                Variable { identifier: from_chars(&words[3]), node: strip_escape(&words[4]) },
            );
            assert(variable_views(out@) =~= before.push(out@.last()@));
        }
        i = i + 1;
    }
    Ok(out)
}

/// Where the reading of a dump stands: whether the declarations are over, how
/// many time stamps have been read, and the time of the last.
pub struct Clock {
    pub values: bool,
    pub stamps: nat,
    pub time: Real,
}

/// What a line of a dump is.
pub enum Entry {
    End,
    Nothing,
    Stamp(Seq<char>),
    Change(LogicValue, Seq<char>),
}

/// The level that a character stands for.
pub open spec fn level_of(c: char) -> Option<LogicValue> {
    if c == '0' {
        Some(LogicValue::Zero)
    } else if c == '1' {
        Some(LogicValue::One)
    } else if c == 'x' || c == 'X' || c == 'u' || c == 'U' {
        Some(LogicValue::X)
    } else if c == 'z' || c == 'Z' {
        Some(LogicValue::Z)
    } else {
        None
    }
}

/// What a line says, by whether the declarations are over.
pub open spec fn entry_of(line: Seq<char>, values: bool) -> Entry {
    let trimmed = trim(line);
    if begins_with(trimmed, "$enddefinitions"@) {
        Entry::End
    } else if !values || trimmed.len() == 0 || trimmed[0] == '$' {
        Entry::Nothing
    } else if trimmed[0] == '#' {
        Entry::Stamp(trimmed.skip(1))
    } else {
        match level_of(trimmed[0]) {
            None => Entry::Nothing,
            Some(level) => Entry::Change(level, trim(trimmed.skip(1))),
        }
    }
}

/// A line of a dump that has been read.
enum LineEntry {
    End,
    Nothing,
    Stamp(String),
    Change(LogicValue, String),
}

impl View for LineEntry {
    type V = Entry;

    closed spec fn view(&self) -> Entry {
        match self {
            LineEntry::End => Entry::End,
            LineEntry::Nothing => Entry::Nothing,
            LineEntry::Stamp(raw) => Entry::Stamp(raw@),
            LineEntry::Change(level, identifier) => Entry::Change(*level, identifier@),
        }
    }
}

fn read_entry(line: &Vec<char>, values: bool) -> (r: LineEntry)
    ensures
        r@ == entry_of(line@, values),
{
    let bounds = trim_bounds(line);
    let trimmed = slice_chars(line, bounds.0, bounds.1);
    if chars_begin_with(&trimmed, "$enddefinitions") {
        return LineEntry::End;
    }
    if !values || trimmed.len() == 0 || trimmed[0] == '$' {
        return LineEntry::Nothing;
    }
    let rest = slice_chars(&trimmed, 1, trimmed.len());
    assert(rest@ =~= trimmed@.skip(1));
    let c = trimmed[0];
    if c == '#' {
        return LineEntry::Stamp(from_chars(&rest));
    }
    let level = if c == '0' {
        LogicValue::Zero
    } else if c == '1' {
        LogicValue::One
    } else if c == 'x' || c == 'X' || c == 'u' || c == 'U' {
        LogicValue::X
    } else if c == 'z' || c == 'Z' {
        LogicValue::Z
    } else {
        return LineEntry::Nothing;
    };
    let inner = trim_bounds(&rest);
    LineEntry::Change(level, from_chars(&slice_chars(&rest, inner.0, inner.1)))
}

/// The tick of a time stamp.
pub open spec fn tick_at(times: Seq<Option<Real>>, i: nat) -> Option<Real> {
    if i < times.len() {
        times[i as int]
    } else {
        None
    }
}

/// Why a time stamp cannot be read.
pub open spec fn stamp_fault(raw: Seq<char>) -> Fault {
    fault(
        "xspice_vcd_time"@,
        "could not parse VCD timestamp `"@ + raw + "`: "@ + if raw.len() == 0 {
            "cannot parse float from empty string"@
        } else {
            "invalid float literal"@
        },
    )
}

/// Where the reading stands after the first `n` lines.
pub open spec fn clock_at(
    lines: Seq<Seq<char>>,
    scale: Real,
    times: Seq<Option<Real>>,
    n: int,
) -> Result<Clock, Fault>
    decreases n,
{
    if n <= 0 {
        Ok(Clock { values: false, stamps: 0, time: Real { bits: 0 } })
    } else {
        match clock_at(lines, scale, times, n - 1) {
            Err(f) => Err(f),
            Ok(clock) => match entry_of(lines[n - 1], clock.values) {
                Entry::End => Ok(Clock { values: true, ..clock }),
                Entry::Stamp(raw) => match tick_at(times, clock.stamps) {
                    None => Err(stamp_fault(raw)),
                    Some(tick) => Ok(
                        Clock {
                            stamps: clock.stamps + 1,
                            time: tick.scaled(scale),
                            values: clock.values,
                        },
                    ),
                },
                _ => Ok(clock),
            },
        }
    }
}

proof fn lemma_clock_stops(
    lines: Seq<Seq<char>>,
    scale: Real,
    times: Seq<Option<Real>>,
    n: int,
    m: int,
)
    requires
        0 <= m <= n,
        clock_at(lines, scale, times, m) is Err,
    ensures
        clock_at(lines, scale, times, n) == clock_at(lines, scale, times, m),
    decreases n - m,
{
    if m < n {
        lemma_clock_stops(lines, scale, times, n, m + 1);
    }
}

/// The levels of a node that the first `n` lines give.
pub open spec fn node_history(
    lines: Seq<Seq<char>>,
    variables: Seq<(Seq<char>, Seq<char>)>,
    scale: Real,
    times: Seq<Option<Real>>,
    node: Seq<char>,
    n: int,
) -> Seq<DigitalTransition>
    decreases n,
{
    if n <= 0 {
        seq![DigitalTransition { time: Real { bits: 0 }, value: LogicValue::X }]
    } else {
        let before = node_history(lines, variables, scale, times, node, n - 1);
        let clock = clock_at(lines, scale, times, n - 1)->Ok_0;
        match entry_of(lines[n - 1], clock.values) {
            Entry::Change(level, identifier) => if variable_at(variables, identifier) == Some(
                node,
            ) {
                pushed(before, clock.time, level)
            } else {
                before
            },
            _ => before,
        }
    }
}

/// The first of the first `n` nodes that no variable stands for.
pub open spec fn missing_node(
    nodes: Seq<Seq<char>>,
    variables: Seq<(Seq<char>, Seq<char>)>,
    n: int,
) -> Option<Seq<char>>
    decreases n,
{
    if n <= 0 {
        None
    } else {
        match missing_node(nodes, variables, n - 1) {
            Some(node) => Some(node),
            None => if declares(variables, nodes[n - 1]) {
                None
            } else {
                Some(nodes[n - 1])
            },
        }
    }
}

proof fn lemma_missing_node_stays(
    nodes: Seq<Seq<char>>,
    variables: Seq<(Seq<char>, Seq<char>)>,
    n: int,
    m: int,
)
    requires
        0 <= m <= n,
        missing_node(nodes, variables, m) is Some,
    ensures
        missing_node(nodes, variables, n) == missing_node(nodes, variables, m),
    decreases n - m,
{
    if m < n {
        lemma_missing_node_stays(nodes, variables, n, m + 1);
    }
}

/// The levels of the probed nodes, or why the dump is refused.
pub open spec fn dump_histories(
    source: Seq<char>,
    magnitude: Option<Real>,
    times: Seq<Option<Real>>,
    probes: Seq<(Seq<char>, Seq<char>)>,
) -> Result<Seq<Seq<DigitalTransition>>, Fault> {
    let lines = lines_of(source);
    match timescale_of(source, magnitude) {
        Err(f) => Err(f),
        Ok(scale) => match variables_of(lines, lines.len() as int) {
            Err(f) => Err(f),
            Ok(variables) => match clock_at(lines, scale, times, lines.len() as int) {
                Err(f) => Err(f),
                Ok(_) => {
                    let nodes = probed_nodes(probes, probes.len() as int);
                    match missing_node(nodes, variables, nodes.len() as int) {
                        Some(node) => Err(
                            fault(
                                "xspice_vcd_missing_signal"@,
                                "VCD result did not contain requested event node `"@ + node
                                    + "`"@,
                            ),
                        ),
                        None => Ok(
                            Seq::new(
                                probes.len(),
                                |i: int|
                                    node_history(
                                        lines,
                                        variables,
                                        scale,
                                        times,
                                        probes[i].1,
                                        lines.len() as int,
                                    ),
                            ),
                        ),
                    }
                },
            },
        },
    }
}

/// A waveform that shows a history under a name.
pub open spec fn shows_history(
    waveform: Waveform,
    signal: Seq<char>,
    history: Seq<DigitalTransition>,
) -> bool {
    match waveform {
        Waveform::Digital(w) => w.signal@ == signal && w.transitions@ == history,
        _ => false,
    }
}

fn check_declared(probes: &Vec<EventProbe>, variables: &Vec<Variable>) -> (r: Result<
    (),
    EngineError,
>)
    ensures
        ({
            let nodes = probed_nodes(event_probes(probes@), probes@.len() as int);
            match (r, missing_node(nodes, variable_views(variables@), nodes.len() as int)) {
                (Ok(_), None) => true,
                (Err(e), Some(node)) => e@ == fault(
                    "xspice_vcd_missing_signal"@,
                    "VCD result did not contain requested event node `"@ + node + "`"@,
                ),
                _ => false,
            }
        }),
{
    let nodes = sorted_nodes(probes);
    let ghost all = texts(nodes@);
    let ghost listed = variable_views(variables@);
    let mut i: usize = 0;
    while i < nodes.len()
        invariant
            i <= nodes@.len(),
            all == texts(nodes@),
            all == probed_nodes(event_probes(probes@), probes@.len() as int),
            listed == variable_views(variables@),
            missing_node(all, listed, i as int) is None,
        decreases nodes@.len() - i,
    {
        assert(all[i as int] == nodes@[i as int]@);
        if !is_declared(variables, nodes[i].as_str()) {
            proof {
                lemma_missing_node_stays(all, listed, all.len() as int, i + 1);
            }
            return Err(
                fail(
                    "xspice_vcd_missing_signal",
                    cat3(
                        "VCD result did not contain requested event node `",
                        nodes[i].as_str(),
                        "`",
                    ),
                ),
            );
        }
        i = i + 1;
    }
    Ok(())
}

fn record_change(
    histories: &mut Vec<Vec<DigitalTransition>>,
    probes: &Vec<EventProbe>,
    node: &str,
    time: Real,
    level: LogicValue,
)
    requires
        old(histories)@.len() == probes@.len(),
    ensures
        final(histories)@.len() == probes@.len(),
        forall|i: int|
            0 <= i < probes@.len() ==> (#[trigger] final(histories)@[i])@ == if probes@[i].node@
                == node@ {
                pushed(old(histories)@[i]@, time, level)
            } else {
                old(histories)@[i]@
            },
{
    let mut i: usize = 0;
    while i < probes.len()
        invariant
            i <= probes@.len(),
            histories@.len() == probes@.len(),
            old(histories)@.len() == probes@.len(),
            forall|k: int|
                0 <= k < i ==> (#[trigger] histories@[k])@ == if probes@[k].node@ == node@ {
                    pushed(old(histories)@[k]@, time, level)
                } else {
                    old(histories)@[k]@
                },
            forall|k: int| i <= k < probes@.len() ==> histories@[k] == old(histories)@[k],
        decreases probes@.len() - i,
    {
        if text_eq(probes[i].node.as_str(), node) {
            let mut history: Vec<DigitalTransition> = Vec::new();
            std::mem::swap(&mut history, &mut histories[i]);
            push_transition(&mut history, time, level);
            histories.set(i, history);
        }
        i = i + 1;
    }
}

/// The waveforms of the probes in a dump. The numbers of the dump are handed
/// over as they have been read.
pub fn parse_vcd(source: &str, numbers: &VcdNumbers, probes: &Vec<EventProbe>) -> (r: Result<
    Vec<Waveform>,
    EngineError,
>)
    ensures
        match (
            r,
            dump_histories(
                source@,
                numbers.magnitude,
                numbers.times@,
                event_probes(probes@),
            ),
        ) {
            (Ok(v), Ok(h)) => v@.len() == probes@.len() && h.len() == probes@.len() && forall|
                i: int,
            |
                0 <= i < v@.len() ==> shows_history(#[trigger] v@[i], probes@[i].signal@, h[i]),
            (Err(e), Err(f)) => e@ == f,
            _ => false,
        },
{
    let chars = to_chars(source);
    let scale = match parse_timescale(&chars, numbers.magnitude) {
        Err(e) => {
            return Err(e);
        },
        Ok(scale) => scale,
    };
    let lines = split_lines(&chars);
    let ghost all = rows(lines@);
    let variables = match read_variables(&lines) {
        Err(e) => {
            return Err(e);
        },
        Ok(variables) => variables,
    };
    let ghost listed = variable_views(variables@);
    let ghost times = numbers.times@;
    let ghost named = event_probes(probes@);
    let mut histories: Vec<Vec<DigitalTransition>> = Vec::new();
    let mut k: usize = 0;
    while k < probes.len()
        invariant
            k <= probes@.len(),
            histories@.len() == k,
            forall|i: int|
                0 <= i < k ==> (#[trigger] histories@[i])@ == seq![
                    DigitalTransition { time: Real { bits: 0 }, value: LogicValue::X },
                ],
        decreases probes@.len() - k,
    {
        let mut history: Vec<DigitalTransition> = Vec::new();
        history.push(DigitalTransition { time: Real { bits: 0 }, value: LogicValue::X });
        assert(history@ =~= seq![
            DigitalTransition { time: Real { bits: 0 }, value: LogicValue::X },
        ]);
        histories.push(history);
        k = k + 1;
    }
    let mut values: bool = false;
    let mut stamps: usize = 0;
    let mut time = Real { bits: 0 };
    let mut i: usize = 0;
    while i < lines.len()
        invariant
            i <= lines@.len(),
            stamps <= i,
            all == rows(lines@),
            all == lines_of(source@),
            times == numbers.times@,
            named == event_probes(probes@),
            timescale_of(source@, numbers.magnitude) == Ok::<Real, Fault>(scale),
            variables_of(all, all.len() as int) == Ok::<Seq<(Seq<char>, Seq<char>)>, Fault>(
                listed,
            ),
            listed == variable_views(variables@),
            clock_at(all, scale, times, i as int) == Ok::<Clock, Fault>(
                Clock { values, stamps: stamps as nat, time },
            ),
            histories@.len() == probes@.len(),
            forall|p: int|
                0 <= p < probes@.len() ==> (#[trigger] histories@[p])@ == node_history(
                    all,
                    listed,
                    scale,
                    times,
                    probes@[p].node@,
                    i as int,
                ),
        decreases lines@.len() - i,
    {
        assert(all[i as int] == lines@[i as int]@);
        match read_entry(&lines[i], values) {
            LineEntry::End => {
                values = true;
            },
            LineEntry::Nothing => {},
            LineEntry::Stamp(raw) => {
                let tick = if stamps < numbers.times.len() {
                    numbers.times[stamps]
                } else {
                    None
                };
                match tick {
                    None => {
                        proof {
                            lemma_clock_stops(all, scale, times, all.len() as int, i + 1);
                        }
                        let reason = if raw.as_str().is_empty() {
                            "cannot parse float from empty string"
                        } else {
                            "invalid float literal"
                        };
                        return Err(
                            fail(
                                "xspice_vcd_time",
                                cat4(
                                    "could not parse VCD timestamp `",
                                    raw.as_str(),
                                    "`: ",
                                    reason,
                                ),
                            ),
                        );
                    },
                    Some(tick) => {
                        time = tick.scale(scale);
                        stamps = stamps + 1;
                    },
                }
            },
            LineEntry::Change(level, identifier) => {
                match find_variable(&variables, identifier.as_str()) {
                    None => {},
                    Some(node) => {
                        record_change(&mut histories, probes, node.as_str(), time, level);
                    },
                }
            },
        }
        i = i + 1;
    }
    match check_declared(probes, &variables) {
        Err(e) => {
            return Err(e);
        },
        Ok(_) => {},
    }
    let mut out: Vec<Waveform> = Vec::new();
    let mut p: usize = 0;
    while p < probes.len()
        invariant
            p <= probes@.len(),
            histories@.len() == probes@.len(),
            out@.len() == p,
            forall|i: int|
                0 <= i < p ==> shows_history(
                    #[trigger] out@[i],
                    probes@[i].signal@,
                    histories@[i]@,
                ),
        decreases probes@.len() - p,
    {
        out.push(
            Waveform::Digital(
                DigitalWaveform {
                    signal: SignalId::new(probes[p].signal.as_str()),
                    transitions: crate::digital_engine::copy_transitions(&histories[p]),
                },
            ),
        );
        p = p + 1;
    }
    Ok(out)
}

/// The time stamps of the first `n` lines as they are written.
pub open spec fn stamps_of(lines: Seq<Seq<char>>, n: int) -> (Seq<Seq<char>>, bool)
    decreases n,
{
    if n <= 0 {
        (Seq::empty(), false)
    } else {
        let before = stamps_of(lines, n - 1);
        match entry_of(lines[n - 1], before.1) {
            Entry::End => (before.0, true),
            Entry::Stamp(raw) => (before.0.push(raw), before.1),
            _ => before,
        }
    }
}

/// The digits of the timescale of a dump, if it has any.
pub open spec fn magnitude_text(source: Seq<char>) -> Option<Seq<char>> {
    match timescale_text(source) {
        Err(_) => None,
        Ok(text) => {
            let digits = leading_digits(compact(text));
            if digits == 0 {
                None
            } else {
                Some(compact(text).take(digits))
            }
        },
    }
}

/// The texts of a dump that are to be read as numbers.
pub fn vcd_number_texts(source: &str) -> (r: VcdTexts)
    ensures
        crate::spice_models::text_of(r.magnitude) == magnitude_text(source@),
        texts(r.times@) == stamps_of(lines_of(source@), lines_of(source@).len() as int).0,
{
    let chars = to_chars(source);
    let magnitude = match timescale_chars(&chars) {
        Err(_) => None,
        Ok(text) => {
            let dense = compact_chars(&text);
            let digits: usize = count_leading_digits(&dense);
            if digits == 0 {
                None
            } else {
                let part = slice_chars(&dense, 0, digits);
                assert(part@ =~= dense@.take(digits as int));
                Some(from_chars(&part))
            }
        },
    };
    let lines = split_lines(&chars);
    let ghost all = rows(lines@);
    let mut times: Vec<String> = Vec::new();
    let mut values: bool = false;
    let mut i: usize = 0;
    assert(texts(times@) =~= Seq::<Seq<char>>::empty());
    while i < lines.len()
        invariant
            i <= lines@.len(),
            all == rows(lines@),
            stamps_of(all, i as int) == (texts(times@), values),
        decreases lines@.len() - i,
    {
        assert(all[i as int] == lines@[i as int]@);
        match read_entry(&lines[i], values) {
            LineEntry::End => {
                values = true;
            },
            LineEntry::Stamp(raw) => {
                let ghost before = texts(times@);
                times.push(raw);
                assert(texts(times@) =~= before.push(raw@));
            },
            _ => {},
        }
        i = i + 1;
    }
    VcdTexts { magnitude, times }
}

/// No two neighbours of a history are at the same time.
pub open spec fn separate(history: Seq<DigitalTransition>) -> bool {
    forall|i: int, j: int|
        0 <= i && j == i + 1 && j < history.len() ==> (#[trigger] history[i]).time.bits != (
        #[trigger] history[j]).time.bits
}

proof fn lemma_pushed_separate(history: Seq<DigitalTransition>, time: Real, value: LogicValue)
    requires
        separate(history),
        history.len() > 0,
        history[0].time.bits == 0,
    ensures
        separate(pushed(history, time, value)),
        pushed(history, time, value).len() > 0,
        pushed(history, time, value)[0].time.bits == 0,
{
    let now = pushed(history, time, value);
    assert forall|i: int, j: int| 0 <= i && j == i + 1 && j < now.len() implies (
    #[trigger] now[i]).time.bits != (#[trigger] now[j]).time.bits by {
        if j < history.len() {
            assert(history[i].time.bits != history[j].time.bits);
        }
    }
}

/// A history of a node begins at time zero, and no two neighbours in it are at
/// the same time.
pub proof fn histories_are_separate(
    lines: Seq<Seq<char>>,
    variables: Seq<(Seq<char>, Seq<char>)>,
    scale: Real,
    times: Seq<Option<Real>>,
    node: Seq<char>,
    n: int,
)
    ensures
        separate(node_history(lines, variables, scale, times, node, n)),
        node_history(lines, variables, scale, times, node, n).len() > 0,
        node_history(lines, variables, scale, times, node, n)[0].time.bits == 0,
    decreases n,
{
    if n > 0 {
        histories_are_separate(lines, variables, scale, times, node, n - 1);
        let before = node_history(lines, variables, scale, times, node, n - 1);
        let clock = clock_at(lines, scale, times, n - 1)->Ok_0;
        match entry_of(lines[n - 1], clock.values) {
            Entry::Change(level, identifier) => {
                lemma_pushed_separate(before, clock.time, level);
            },
            _ => {},
        }
    }
}

/// The level that a dump writes with a character.
pub open spec fn written_level(c: char) -> Option<LogicValue> {
    match c {
        '0' => Some(LogicValue::Zero),
        '1' => Some(LogicValue::One),
        'x' => Some(LogicValue::X),
        'X' => Some(LogicValue::X),
        'u' => Some(LogicValue::X),
        'U' => Some(LogicValue::X),
        'z' => Some(LogicValue::Z),
        'Z' => Some(LogicValue::Z),
        _ => None,
    }
}

/// A line with the character of a level and an identifier gives that level to the
/// node that the identifier stands for, at the time of the last stamp, and leaves the
/// other nodes alone.
pub proof fn changes_reach_their_node(
    lines: Seq<Seq<char>>,
    variables: Seq<(Seq<char>, Seq<char>)>,
    scale: Real,
    times: Seq<Option<Real>>,
    node: Seq<char>,
    n: int,
    clock: Clock,
)
    requires
        0 < n <= lines.len(),
        clock_at(lines, scale, times, n - 1) == Ok::<Clock, Fault>(clock),
        clock.values,
        trim(lines[n - 1]).len() > 0,
        written_level(trim(lines[n - 1])[0]) is Some,
    ensures
        ({
            let level = written_level(trim(lines[n - 1])[0])->0;
            let identifier = trim(trim(lines[n - 1]).skip(1));
            let before = node_history(lines, variables, scale, times, node, n - 1);
            let after = node_history(lines, variables, scale, times, node, n);
            if variable_at(variables, identifier) == Some(node) {
                &&& after.len() > 0
                &&& after.last().value == level
                &&& after.last().time.bits == clock.time.bits || (after == before && before.len() > 0
                    && before.last().value == level)
            } else {
                after == before
            }
        }),
{
    let trimmed = trim(lines[n - 1]);
    reveal_strlit("$enddefinitions");
    assert("$enddefinitions"@[0] == '$');
    assert(trimmed.take("$enddefinitions"@.len() as int)[0] == trimmed[0] || trimmed.len()
        < "$enddefinitions"@.len());
    assert(!begins_with(trimmed, "$enddefinitions"@));
}

/// A declaration makes its identifier stand for its node.
pub proof fn declarations_name_their_node(lines: Seq<Seq<char>>, n: int)
    requires
        0 < n <= lines.len(),
        variables_of(lines, n) is Ok,
        begins_with(trim(lines[n - 1]), "$var "@),
    ensures
        ({
            let words = words_of(trim(lines[n - 1]));
            &&& words.len() >= 6
            &&& variable_at(variables_of(lines, n)->Ok_0, words[3]) == Some(
                without_escape(words[4]),
            )
        }),
{
}

} // verus!
