//! Inline Verilog and SystemVerilog: names, literals and what a source may hold.
use crate::circuit::ParameterValue;
use crate::cosim::TIMEBASE_BITS;
use crate::draft::{fixed_figure, letters, Draft, Sign};
use crate::fault::{agrees, fail, fault, passes, EngineError, Fault};
use crate::lines::{chars_include, includes};
use crate::model::ModelDefinition;
use crate::number::{saturated, Real, TWO_64_BITS};
use crate::reading::same;
use crate::text::{
    cat2, cat3, cat5, concat_upto, decimal, decimal_text, find_last, from_chars, last_at,
    lemma_last_at_bounds, lowercase, lowercase_chars, parse_unsigned, slice_chars, texts, to_chars,
    trim, trim_bounds, unsigned,
};
use crate::validation::{identifier, is_identifier};
use crate::waveform::LogicValue;
use vstd::prelude::*;

verus! {

pub fn is_safe_identifier(value: &str) -> (r: bool)
    ensures
        r == identifier(value@, true),
{
    is_identifier(&to_chars(value), true)
}

/// A port and a bit of it, or why a text names none.
pub open spec fn port_named(value: Seq<char>) -> Result<(Seq<char>, Option<nat>), Seq<char>> {
    let s = trim(value);
    let open = last_at(s, '[');
    if identifier(s, true) {
        Ok((s, None))
    } else if open < 0 {
        Err("`"@ + s + "` is not a valid HDL identifier"@)
    } else if s.last() != ']' {
        Err("`"@ + s + "` has an unterminated vector index"@)
    } else if !identifier(s.take(open), true) {
        Err("`"@ + s.take(open) + "` is not a valid HDL port identifier"@)
    } else {
        let raw = s.subrange(open + 1, s.len() - 1);
        match unsigned(raw, usize::MAX as nat) {
            Some(bit) => Ok((s.take(open), Some(bit))),
            None => Err("`"@ + raw + "` is not a non-negative vector index"@),
        }
    }
}

/// A bit as a plain value.
pub open spec fn bit_of(bit: Option<usize>) -> Option<nat> {
    match bit {
        Some(b) => Some(b as nat),
        None => None,
    }
}

/// A port, `port`, or one of its bits, `port[bit]`.
pub fn parse_port_reference(value: &str) -> (r: Result<(String, Option<usize>), String>)
    ensures
        match (r, port_named(value@)) {
            (Ok((port, bit)), Ok((name, index))) => port@ == name && bit_of(bit) == index,
            (Err(message), Err(text)) => message@ == text,
            _ => false,
        },
{
    let raw = to_chars(value);
    let bounds = trim_bounds(&raw);
    let s = slice_chars(&raw, bounds.0, bounds.1);
    let shown = from_chars(&s);
    if is_identifier(&s, true) {
        return Ok((shown, None));
    }
    proof {
        lemma_last_at_bounds(s@, '[');
    }
    let open: usize = match find_last(&s, '[') {
        None => {
            return Err(cat3("`", shown.as_str(), "` is not a valid HDL identifier"));
        },
        Some(open) => open,
    };
    let n: usize = s.len();
    if s[n - 1] != ']' {
        return Err(cat3("`", shown.as_str(), "` has an unterminated vector index"));
    }
    let base = slice_chars(&s, 0, open);
    assert(base@ =~= s@.take(open as int));
    if !is_identifier(&base, true) {
        return Err(
            cat3("`", from_chars(&base).as_str(), "` is not a valid HDL port identifier"),
        );
    }
    let digits = slice_chars(&s, open + 1, n - 1);
    match parse_unsigned(&digits, usize::MAX as u64) {
        Some(bit) => Ok((from_chars(&base), Some(bit as usize))),
        None => Err(
            cat3("`", from_chars(&digits).as_str(), "` is not a non-negative vector index"),
        ),
    }
}

/// A character within a string literal.
pub open spec fn escaped(c: char) -> Seq<char> {
    if c == '\\' {
        "\\\\"@
    } else if c == '"' {
        "\\\""@
    } else if c == '\n' {
        "\\n"@
    } else if c == '\r' {
        "\\r"@
    } else if c == '\t' {
        "\\t"@
    } else {
        seq![c]
    }
}

/// A text within a string literal.
pub open spec fn escaped_text(s: Seq<char>) -> Seq<char> {
    concat_upto(s.len() as int, |i: int| escaped(s[i]))
}

pub fn escape_sv_string(value: &str) -> (r: String)
    ensures
        r@ == escaped_text(value@),
{
    let v = to_chars(value);
    let ghost f = |i: int| escaped(v@[i]);
    let mut out = String::new();
    let mut i: usize = 0;
    while i < v.len()
        invariant
            i <= v@.len(),
            f == (|i: int| escaped(v@[i])),
            out@ == concat_upto(i as int, f),
        decreases v@.len() - i,
    {
        let c = v[i];
        let ghost before = out@;
        if c == '\\' {
            out = out.concat("\\\\");
        } else if c == '"' {
            out = out.concat("\\\"");
        } else if c == '\n' {
            out = out.concat("\\n");
        } else if c == '\r' {
            out = out.concat("\\r");
        } else if c == '\t' {
            out = out.concat("\\t");
        } else {
            out.push(c);
            assert(out@ =~= before + seq![c]);
        }
        assert(out@ =~= before + f(i as int));
        i = i + 1;
    }
    out
}

/// An integer in decimal.
pub open spec fn signed_decimal(n: int) -> Seq<char> {
    if n < 0 {
        "-"@ + decimal((-n) as nat)
    } else {
        decimal(n as nat)
    }
}

pub fn signed_text(n: i64) -> (r: String)
    ensures
        r@ == signed_decimal(n as int),
{
    if n < 0 {
        let m: i128 = -(n as i128);
        cat2("-", decimal_text(m as u64).as_str())
    } else {
        decimal_text(n as u64)
    }
}

/// The literal of a parameter.
pub open spec fn literal_of(value: ParameterValue) -> Result<Seq<Sign>, Fault> {
    let unfit = Err(
        fault(
            "verilator_parameter_invalid"@,
            "HDL parameter overrides support boolean, integer, finite number, or text values"@,
        ),
    );
    match value {
        ParameterValue::Boolean(b) => Ok(
            letters(
                if b {
                    "1"@
                } else {
                    "0"@
                },
            ),
        ),
        ParameterValue::Integer(n) => Ok(letters(signed_decimal(n as int))),
        ParameterValue::Number(x) => if x.finite() {
            Ok(fixed_figure(x))
        } else {
            unfit
        },
        ParameterValue::Text(text) => Ok(letters("\""@ + escaped_text(text@) + "\""@)),
        ParameterValue::Quantity(_) => unfit,
    }
}

fn unfit_parameter() -> (r: EngineError)
    ensures
        r@ == fault(
            "verilator_parameter_invalid"@,
            "HDL parameter overrides support boolean, integer, finite number, or text values"@,
        ),
{
    EngineError::new(
        "verilator_parameter_invalid",
        "HDL parameter overrides support boolean, integer, finite number, or text values",
    )
}

pub fn parameter_literal(value: &ParameterValue) -> (r: Result<Draft, EngineError>)
    ensures
        agrees(r, literal_of(*value)),
{
    match value {
        ParameterValue::Boolean(b) => Ok(
            Draft::of(
                if *b {
                    "1"
                } else {
                    "0"
                },
            ),
        ),
        ParameterValue::Integer(n) => Ok(Draft::of(signed_text(*n).as_str())),
        ParameterValue::Number(x) => {
            if x.is_finite() {
                let mut draft = Draft::new();
                draft.fixed(*x);
                assert(draft@ =~= fixed_figure(*x));
                Ok(draft)
            } else {
                Err(unfit_parameter())
            }
        },
        ParameterValue::Text(text) => Ok(
            Draft::of(cat3("\"", escape_sv_string(text.as_str()).as_str(), "\"").as_str()),
        ),
        ParameterValue::Quantity(_) => Err(unfit_parameter()),
    }
}

/// What an inline module must not use, in the order in which it is looked for.
pub open spec fn host_constructs() -> Seq<Seq<char>> {
    seq![
        "`include"@,
        "$system"@,
        "$fopen"@,
        "$fclose"@,
        "$fwrite"@,
        "$fdisplay"@,
        "$readmemh"@,
        "$readmemb"@,
        "$writememh"@,
        "$writememb"@,
        "$dumpfile"@,
        "$dumpvars"@,
        "$finish"@,
        "$stop"@,
        "import \"dpi-c\""@,
        "export \"dpi-c\""@,
        "$c("@,
    ]
}

fn list_host_constructs() -> (r: Vec<String>)
    ensures
        texts(r@) == host_constructs(),
{
    let mut v: Vec<String> = Vec::new();
    v.push("`include".to_owned());
    v.push("$system".to_owned());
    v.push("$fopen".to_owned());
    v.push("$fclose".to_owned());
    v.push("$fwrite".to_owned());
    v.push("$fdisplay".to_owned());
    v.push("$readmemh".to_owned());
    v.push("$readmemb".to_owned());
    v.push("$writememh".to_owned());
    v.push("$writememb".to_owned());
    v.push("$dumpfile".to_owned());
    v.push("$dumpvars".to_owned());
    v.push("$finish".to_owned());
    v.push("$stop".to_owned());
    v.push("import \"dpi-c\"".to_owned());
    v.push("export \"dpi-c\"".to_owned());
    v.push("$c(".to_owned());
    assert(texts(v@) =~= host_constructs());
    v
}

/// The first of the first `n` constructs that a text holds.
pub open spec fn construct_in(text: Seq<char>, constructs: Seq<Seq<char>>, n: int) -> Option<
    Seq<char>,
>
    decreases n,
{
    if n <= 0 {
        None
    } else {
        match construct_in(text, constructs, n - 1) {
            Some(found) => Some(found),
            None => if includes(text, constructs[n - 1]) {
                Some(constructs[n - 1])
            } else {
                None
            },
        }
    }
}

proof fn lemma_construct_stays(text: Seq<char>, constructs: Seq<Seq<char>>, n: int, m: int)
    requires
        0 <= m <= n,
        construct_in(text, constructs, m) is Some,
    ensures
        construct_in(text, constructs, n) == construct_in(text, constructs, m),
    decreases n - m,
{
    if m < n {
        lemma_construct_stays(text, constructs, n, m + 1);
    }
}

/// Why an inline module is refused.
pub open spec fn source_failure(model: ModelDefinition) -> Option<Fault> {
    if model.source@.contains('\0') {
        Some(
            fault(
                "verilator_unsafe_source"@,
                "HDL model `"@ + model.id@ + "` contains a NUL byte"@,
            ),
        )
    } else {
        match construct_in(
            lowercase(model.source@),
            host_constructs(),
            host_constructs().len() as int,
        ) {
            Some(found) => Some(
                fault(
                    "verilator_unsafe_source"@,
                    "HDL model `"@ + model.id@ + "` uses host/testbench construct `"@ + found
                        + "` which is outside the R5 inline-module boundary"@,
                ),
            ),
            None => None,
        }
    }
}

fn contains_char(v: &Vec<char>, c: char) -> (r: bool)
    ensures
        r == v@.contains(c),
{
    let mut i: usize = 0;
    while i < v.len()
        invariant
            i <= v@.len(),
            forall|k: int| 0 <= k < i ==> v@[k] != c,
        decreases v@.len() - i,
    {
        if v[i] == c {
            assert(v@[i as int] == c);
            return true;
        }
        i = i + 1;
    }
    false
}

pub fn validate_hdl_source(model: &ModelDefinition) -> (r: Result<(), EngineError>)
    ensures
        passes(r, source_failure(*model)),
{
    let source = to_chars(model.source.as_str());
    if contains_char(&source, '\0') {
        return Err(
            fail(
                "verilator_unsafe_source",
                cat3("HDL model `", model.id.as_str(), "` contains a NUL byte"),
            ),
        );
    }
    let lowered = lowercase_chars(&source);
    let constructs = list_host_constructs();
    let ghost all = host_constructs();
    let mut i: usize = 0;
    while i < constructs.len()
        invariant
            i <= constructs@.len(),
            all == host_constructs(),
            all == texts(constructs@),
            !model.source@.contains('\0'),
            lowered@ == lowercase(model.source@),
            construct_in(lowered@, all, i as int) is None,
        decreases constructs@.len() - i,
    {
        assert(all[i as int] == constructs@[i as int]@);
        if chars_include(&lowered, constructs[i].as_str()) {
            proof {
                lemma_construct_stays(lowered@, all, all.len() as int, i + 1);
            }
            return Err(
                fail(
                    "verilator_unsafe_source",
                    cat5(
                        "HDL model `",
                        model.id.as_str(),
                        "` uses host/testbench construct `",
                        constructs[i].as_str(),
                        "` which is outside the R5 inline-module boundary",
                    ),
                ),
            );
        }
        i = i + 1;
    }
    Ok(())
}

proof fn lemma_no_construct(text: Seq<char>, constructs: Seq<Seq<char>>, n: int, k: int)
    requires
        0 <= k < n <= constructs.len(),
        construct_in(text, constructs, n) is None,
    ensures
        !includes(text, constructs[k]),
    decreases n,
{
    if k < n - 1 {
        lemma_no_construct(text, constructs, n - 1, k);
    }
}

/// An accepted module uses no construct that reaches the host, whatever the
/// case of its letters.
pub proof fn accepted_modules_stay_inside(model: ModelDefinition, k: int)
    requires
        source_failure(model) is None,
        0 <= k < host_constructs().len(),
    ensures
        !includes(lowercase(model.source@), host_constructs()[k]),
{
    lemma_no_construct(
        lowercase(model.source@),
        host_constructs(),
        host_constructs().len() as int,
        k,
    );
}

/// The literal of a level.
pub open spec fn level_literal(value: LogicValue) -> Seq<char> {
    match value {
        LogicValue::Zero => "1'b0"@,
        LogicValue::One => "1'b1"@,
        LogicValue::X => "1'bx"@,
        LogicValue::Z => "1'bz"@,
    }
}

pub fn logic_literal(value: LogicValue) -> (r: &'static str)
    ensures
        r@ == level_literal(value),
{
    match value {
        LogicValue::Zero => "1'b0",
        LogicValue::One => "1'b1",
        LogicValue::X => "1'bx",
        LogicValue::Z => "1'bz",
    }
}

/// A duration in whole picoseconds, at least one.
pub open spec fn picoseconds_of(seconds: Real, label: Seq<char>) -> Result<u64, Fault> {
    let ticks = seconds.scaled(Real { bits: TIMEBASE_BITS });
    if !ticks.finite() || ticks.at_most(Real { bits: 0 }) || (Real { bits: TWO_64_BITS }).less(
        ticks,
    ) {
        Err(
            fault(
                "verilator_time_invalid"@,
                label + " cannot be represented by the 1 ps R5 Verilator timeline"@,
            ),
        )
    } else if saturated(ticks.rounded()) == 0 {
        Ok(1)
    } else {
        Ok(saturated(ticks.rounded()))
    }
}

pub fn seconds_to_picoseconds(seconds: Real, label: &str) -> (r: Result<u64, EngineError>)
    ensures
        same(r, picoseconds_of(seconds, label@)),
{
    let ticks = seconds.scale(Real { bits: TIMEBASE_BITS });
    if !ticks.is_finite() || ticks.le(Real { bits: 0 }) || (Real { bits: TWO_64_BITS }).lt(ticks) {
        return Err(
            fail(
                "verilator_time_invalid",
                cat2(label, " cannot be represented by the 1 ps R5 Verilator timeline"),
            ),
        );
    }
    let n: u64 = ticks.round_to_u64();
    if n == 0 {
        Ok(1)
    } else {
        Ok(n)
    }
}

/// What a string literal means: a backslash stands for itself and with the next letter
/// for one character.
pub open spec fn meaning(s: Seq<char>) -> Seq<char>
    decreases s.len(),
{
    if s.len() == 0 {
        Seq::empty()
    } else if s[0] == '\\' && s.len() > 1 {
        seq![
            if s[1] == 'n' {
                '\n'
            } else if s[1] == 'r' {
                '\r'
            } else if s[1] == 't' {
                '\t'
            } else {
                s[1]
            },
        ] + meaning(s.skip(2))
    } else {
        seq![s[0]] + meaning(s.skip(1))
    }
}

proof fn lemma_escaped_front(s: Seq<char>, n: int)
    requires
        0 < n <= s.len(),
    ensures
        concat_upto(n, |i: int| escaped(s[i])) == escaped(s[0]) + concat_upto(
            n - 1,
            |i: int| escaped(s.drop_first()[i]),
        ),
    decreases n,
{
    let f = |i: int| escaped(s[i]);
    let rest = s.drop_first();
    let g = |i: int| escaped(rest[i]);
    if n == 1 {
        assert(concat_upto(0, f) =~= Seq::<char>::empty());
        assert(concat_upto(0, g) =~= Seq::<char>::empty());
        assert(concat_upto(1, f) =~= escaped(s[0]) + concat_upto(0, g));
    } else {
        lemma_escaped_front(s, n - 1);
        assert(g(n - 2) == f(n - 1));
        assert(concat_upto(n, f) =~= escaped(s[0]) + concat_upto(n - 1, g));
    }
}

/// A text in a string literal means just that text.
pub proof fn literals_mean_their_text(s: Seq<char>)
    ensures
        meaning(escaped_text(s)) == s,
    decreases s.len(),
{
    if s.len() == 0 {
        assert(escaped_text(s) =~= Seq::<char>::empty());
    } else {
        let rest = s.drop_first();
        literals_mean_their_text(rest);
        lemma_escaped_front(s, s.len() as int);
        let front = escaped(s[0]);
        let tail = escaped_text(rest);
        let all = escaped_text(s);
        assert(all == front + tail);
        reveal_strlit("\\\\");
        reveal_strlit("\\\"");
        reveal_strlit("\\n");
        reveal_strlit("\\r");
        reveal_strlit("\\t");
        if front.len() == 2 {
            assert(all[0] == front[0] && all[1] == front[1]);
            assert(all.skip(2) =~= tail);
        } else {
            assert(all[0] == s[0]);
            assert(all.skip(1) =~= tail);
        }
        assert(meaning(all) =~= s);
    }
}

} // verus!
