//! Inline SPICE models: what they may hold, and what they declare.
use crate::fault::{
    agrees, collected, fail, fault, lemma_collected_at, lemma_collected_stops, EngineError, Fault,
};
use crate::lines::{
    begins_with, chars_begin_with, lines_of, rows, split_lines, split_words, unify_line_ends,
    with_line_feeds, words_of,
};
use crate::model::{ModelDefinition, ModelKind, ModelLanguage};
use crate::text::{
    cat3, cat5, cat7, chars_eq, concat_upto, decimal, decimal_text, from_chars,
    is_alphanumeric_char, is_ascii_alphanumeric, lowercase, lowercase_chars, slice_chars, texts,
    text_eq, to_chars, trim, trim_bounds,
};
use vstd::prelude::*;
use vstd::utf8::encode_utf8;

verus! {

pub const MAX_INLINE_MODEL_BYTES: usize = 1_048_576;

pub const MAX_INLINE_MODEL_REGISTRY_BYTES: usize = 4_194_304;

/// How many bytes a text takes in UTF-8.
pub open spec fn byte_len(s: Seq<char>) -> usize {
    encode_utf8(s).len() as usize
}

/// What a model source declares of its entry.
#[derive(Clone, Debug, PartialEq, Eq)]
pub struct SpiceModelMetadata {
    pub device_type: Option<String>,
    pub subcircuit_port_count: Option<usize>,
}

/// What a model source declares of its entry, as a plain value.
pub struct Declared {
    pub device_type: Option<Seq<char>>,
    pub port_count: Option<nat>,
}

pub open spec fn text_of(s: Option<String>) -> Option<Seq<char>> {
    match s {
        Some(s) => Some(s@),
        None => None,
    }
}

pub open spec fn count_of(n: Option<usize>) -> Option<nat> {
    match n {
        Some(n) => Some(n as nat),
        None => None,
    }
}

impl View for SpiceModelMetadata {
    type V = Declared;

    open spec fn view(&self) -> Declared {
        Declared {
            device_type: text_of(self.device_type),
            port_count: count_of(self.subcircuit_port_count),
        }
    }
}

/// A character that an entry symbol may hold.
pub open spec fn is_entry_char(c: char) -> bool {
    is_ascii_alphanumeric(c) || c == '_' || c == '-' || c == '.' || c == '$'
}

/// A symbol that a netlist can name without harm.
pub open spec fn is_entry(s: Seq<char>) -> bool {
    s.len() > 0 && forall|i: int| 0 <= i < s.len() ==> is_entry_char(#[trigger] s[i])
}

fn is_entry_symbol(v: &Vec<char>) -> (r: bool)
    ensures
        r == is_entry(v@),
{
    let mut i: usize = 0;
    while i < v.len()
        invariant
            i <= v@.len(),
            forall|k: int| 0 <= k < i ==> is_entry_char(#[trigger] v@[k]),
        decreases v@.len() - i,
    {
        let c = v[i];
        if !(is_alphanumeric_char(c) || c == '_' || c == '-' || c == '.' || c == '$') {
            assert(!is_entry_char(v@[i as int]));
            return false;
        }
        i = i + 1;
    }
    v.len() > 0
}

/// A directive that controls the simulator or reads other files.
pub open spec fn forbidden(directive: Seq<char>) -> bool {
    ||| directive == ".control"@
    ||| directive == ".endc"@
    ||| directive == ".end"@
    ||| directive == ".include"@
    ||| directive == ".inc"@
    ||| directive == ".lib"@
    ||| directive == ".source"@
    ||| directive == ".shell"@
}

fn is_forbidden(directive: &str) -> (r: bool)
    ensures
        r == forbidden(directive@),
{
    text_eq(directive, ".control") || text_eq(directive, ".endc") || text_eq(directive, ".end")
        || text_eq(directive, ".include") || text_eq(directive, ".inc") || text_eq(
        directive,
        ".lib",
    ) || text_eq(directive, ".source") || text_eq(directive, ".shell")
}

/// The directive that declares a model of a kind.
pub open spec fn declaring(kind: ModelKind) -> Seq<char> {
    match kind {
        ModelKind::Device => ".model"@,
        _ => ".subckt"@,
    }
}

pub open spec fn is_parenthesis(c: char) -> bool {
    c == '(' || c == ')'
}

/// Without the parentheses in front.
pub open spec fn open_trimmed(s: Seq<char>) -> Seq<char>
    decreases s.len(),
{
    if s.len() > 0 && is_parenthesis(s[0]) {
        open_trimmed(s.drop_first())
    } else {
        s
    }
}

/// Without the parentheses behind.
pub open spec fn close_trimmed(s: Seq<char>) -> Seq<char>
    decreases s.len(),
{
    if s.len() > 0 && is_parenthesis(s.last()) {
        close_trimmed(s.drop_last())
    } else {
        s
    }
}

fn trim_parentheses(v: &Vec<char>) -> (r: Vec<char>)
    ensures
        r@ == close_trimmed(open_trimmed(v@)),
{
    let mut from: usize = 0;
    assert(v@.subrange(0, v@.len() as int) =~= v@);
    while from < v.len() && (v[from] == '(' || v[from] == ')')
        invariant
            from <= v@.len(),
            open_trimmed(v@.subrange(from as int, v@.len() as int)) == open_trimmed(v@),
        decreases v@.len() - from,
    {
        let ghost rest = v@.subrange(from as int, v@.len() as int);
        assert(rest[0] == v@[from as int]);
        assert(rest.drop_first() =~= v@.subrange(from + 1, v@.len() as int));
        from = from + 1;
    }
    let ghost front = v@.subrange(from as int, v@.len() as int);
    assert(front.len() > 0 ==> front[0] == v@[from as int]);
    assert(front == open_trimmed(v@));
    let mut to: usize = v.len();
    while to > from && (v[to - 1] == '(' || v[to - 1] == ')')
        invariant
            from <= to <= v@.len(),
            close_trimmed(v@.subrange(from as int, to as int)) == close_trimmed(front),
        decreases to,
    {
        let ghost rest = v@.subrange(from as int, to as int);
        assert(rest.last() == v@[to - 1]);
        assert(rest.drop_last() =~= v@.subrange(from as int, to - 1));
        to = to - 1;
    }
    let ghost rest = v@.subrange(from as int, to as int);
    assert(rest.len() > 0 ==> rest.last() == v@[to - 1]);
    slice_chars(v, from, to)
}

/// A word that begins the parameters of a subcircuit.
pub open spec fn is_parameter_word(word: Seq<char>) -> bool {
    begins_with(lowercase(word), "params:"@) || word.contains('=')
}

/// The number of words from the `i`th on that come before any parameter.
pub open spec fn port_words(words: Seq<Seq<char>>, i: int) -> nat
    decreases words.len() - i,
{
    if i < 0 || i >= words.len() || is_parameter_word(words[i]) {
        0
    } else {
        1 + port_words(words, i + 1)
    }
}

fn is_parameter(word: &Vec<char>) -> (r: bool)
    ensures
        r == is_parameter_word(word@),
{
    if chars_begin_with(&lowercase_chars(word), "params:") {
        return true;
    }
    let mut i: usize = 0;
    while i < word.len()
        invariant
            i <= word@.len(),
            forall|k: int| 0 <= k < i ==> (#[trigger] word@[k]) != '=',
        decreases word@.len() - i,
    {
        if word[i] == '=' {
            assert(word@[i as int] == '=');
            return true;
        }
        i = i + 1;
    }
    false
}

fn count_ports(words: &Vec<Vec<char>>) -> (r: usize)
    ensures
        r == port_words(rows(words@), 2),
{
    let ghost all = rows(words@);
    let mut i: usize = 2;
    let mut count: usize = 0;
    while i < words.len()
        invariant
            2 <= i,
            words@.len() >= 2 ==> i <= words@.len(),
            all == rows(words@),
            count == i - 2,
            count + port_words(all, i as int) == port_words(all, 2),
        decreases words@.len() - i,
    {
        assert(all[i as int] == words@[i as int]@);
        if is_parameter(&words[i]) {
            return count;
        }
        i = i + 1;
        count = count + 1;
    }
    count
}

/// What the lines of a model source have declared so far.
pub struct Scan {
    pub found: bool,
    pub ended: bool,
    pub declared: Declared,
}

/// One more line of a model source.
pub open spec fn line_scanned(
    model: ModelDefinition,
    before: Scan,
    line: Seq<char>,
    number: int,
) -> Result<Scan, Fault> {
    let trimmed = trim(line);
    if trimmed.len() == 0 || trimmed[0] == '*' {
        Ok(before)
    } else {
        let words = words_of(trimmed);
        let first = if words.len() > 0 {
            words[0]
        } else {
            Seq::empty()
        };
        let directive = lowercase(first);
        if forbidden(directive) {
            Err(
                fault(
                    "ngspice_model_directive_forbidden"@,
                    "model `"@ + model.id@ + "` line "@ + decimal(number as nat)
                        + " contains forbidden directive `"@ + first
                        + "`; inline models cannot control the simulator or read external files"@,
                ),
            )
        } else {
            let ended = before.ended || directive == ".ends"@;
            if directive == declaring(model.kind) && words.len() > 1 && lowercase(words[1])
                == lowercase(trim(model.entry@)) {
                if model.kind == ModelKind::Device {
                    if words.len() > 2 {
                        Ok(
                            Scan {
                                found: true,
                                ended,
                                declared: Declared {
                                    device_type: Some(
                                        lowercase(close_trimmed(open_trimmed(words[2]))),
                                    ),
                                    ..before.declared
                                },
                            },
                        )
                    } else {
                        Err(
                            fault(
                                "ngspice_model_device_type_missing"@,
                                "device model `"@ + model.id@
                                    + "` does not declare a SPICE device type"@,
                            ),
                        )
                    }
                } else {
                    Ok(
                        Scan {
                            found: true,
                            ended,
                            declared: Declared {
                                port_count: Some(port_words(words, 2)),
                                ..before.declared
                            },
                        },
                    )
                }
            } else {
                Ok(Scan { ended, ..before })
            }
        }
    }
}

/// The lines of a model source, as they are read and as they stand in the
/// netlist. A carriage return ends a line, alone or with a line feed.
pub open spec fn source_lines(model: ModelDefinition) -> Seq<Seq<char>> {
    lines_of(with_line_feeds(model.source@, model.source@.len() as int))
}

/// The first `n` lines of a model source.
pub open spec fn scanned(model: ModelDefinition, lines: Seq<Seq<char>>, n: int) -> Result<
    Scan,
    Fault,
>
    decreases n,
{
    if n <= 0 {
        Ok(
            Scan {
                found: false,
                ended: false,
                declared: Declared { device_type: None, port_count: None },
            },
        )
    } else {
        match scanned(model, lines, n - 1) {
            Err(f) => Err(f),
            Ok(scan) => line_scanned(model, scan, lines[n - 1], n),
        }
    }
}

proof fn lemma_scanned_stops(model: ModelDefinition, lines: Seq<Seq<char>>, n: int, m: int)
    requires
        0 <= m <= n,
        scanned(model, lines, m) is Err,
    ensures
        scanned(model, lines, n) == scanned(model, lines, m),
    decreases n - m,
{
    if m < n {
        lemma_scanned_stops(model, lines, n, m + 1);
    }
}

/// What a model source declares of its entry, or why it is refused.
pub open spec fn source_declares(model: ModelDefinition) -> Result<Declared, Fault> {
    let entry = trim(model.entry@);
    if !is_entry(entry) {
        Err(
            fault(
                "ngspice_model_entry_invalid"@,
                "model `"@ + model.id@ + "` has an unsafe or empty entry symbol"@,
            ),
        )
    } else if model.kind == ModelKind::Module {
        Err(
            fault(
                "ngspice_model_kind_unsupported"@,
                "model `"@ + model.id@ + "` is not a SPICE device or subcircuit"@,
            ),
        )
    } else {
        let lines = source_lines(model);
        match scanned(model, lines, lines.len() as int) {
            Err(f) => Err(f),
            Ok(scan) => if !scan.found {
                Err(
                    fault(
                        "ngspice_model_entry_missing"@,
                        "model `"@ + model.id@ + "` does not declare `"@ + entry + "` with `"@
                            + declaring(model.kind) + "`"@,
                    ),
                )
            } else if model.kind == ModelKind::Subcircuit && !scan.ended {
                Err(
                    fault(
                        "ngspice_model_subcircuit_unterminated"@,
                        "subcircuit model `"@ + model.id@ + "` has no `.ends` directive"@,
                    ),
                )
            } else {
                Ok(scan.declared)
            },
        }
    }
}

/// A scan under way.
struct Progress {
    found: bool,
    ended: bool,
    metadata: SpiceModelMetadata,
}

impl View for Progress {
    type V = Scan;

    closed spec fn view(&self) -> Scan {
        Scan { found: self.found, ended: self.ended, declared: self.metadata@ }
    }
}

fn scan_line(
    model: &ModelDefinition,
    entry: &Vec<char>,
    progress: &mut Progress,
    line: &Vec<char>,
    number: u64,
) -> (r: Result<(), EngineError>)
    requires
        entry@ == trim(model.entry@),
    ensures
        match (r, line_scanned(*model, old(progress)@, line@, number as int)) {
            (Ok(_), Ok(scan)) => final(progress)@ == scan,
            (Err(e), Err(f)) => e@ == f,
            _ => false,
        },
{
    let bounds = trim_bounds(line);
    let trimmed = slice_chars(line, bounds.0, bounds.1);
    if trimmed.len() == 0 || trimmed[0] == '*' {
        return Ok(());
    }
    let words = split_words(&trimmed);
    let ghost all = rows(words@);
    let first = if words.len() > 0 {
        from_chars(&words[0])
    } else {
        String::new()
    };
    let ghost head = if all.len() > 0 {
        all[0]
    } else {
        Seq::empty()
    };
    assert(words@.len() > 0 ==> all[0] == words@[0]@);
    assert(first@ =~= head);
    let directive = crate::text::lowercase_text(first.as_str());
    if is_forbidden(directive.as_str()) {
        return Err(
            fail(
                "ngspice_model_directive_forbidden",
                cat7(
                    "model `",
                    model.id.as_str(),
                    "` line ",
                    decimal_text(number).as_str(),
                    " contains forbidden directive `",
                    first.as_str(),
                    "`; inline models cannot control the simulator or read external files",
                ),
            ),
        );
    }
    let expected = match model.kind {
        ModelKind::Device => ".model",
        _ => ".subckt",
    };
    if text_eq(directive.as_str(), ".ends") {
        progress.ended = true;
    }
    if text_eq(directive.as_str(), expected) && words.len() > 1 {
        assert(all[1] == words@[1]@);
        if chars_eq(&lowercase_chars(&words[1]), &lowercase_chars(entry)) {
            match model.kind {
                ModelKind::Device => {
                    if words.len() <= 2 {
                        return Err(
                            fail(
                                "ngspice_model_device_type_missing",
                                cat3(
                                    "device model `",
                                    model.id.as_str(),
                                    "` does not declare a SPICE device type",
                                ),
                            ),
                        );
                    }
                    assert(all[2] == words@[2]@);
                    let device = lowercase_chars(&trim_parentheses(&words[2]));
                    progress.found = true;
                    progress.metadata.device_type = Some(from_chars(&device));
                },
                _ => {
                    progress.found = true;
                    progress.metadata.subcircuit_port_count = Some(count_ports(&words));
                },
            }
        }
    }
    Ok(())
}

pub fn validate_spice_model_source(model: &ModelDefinition) -> (r: Result<
    SpiceModelMetadata,
    EngineError,
>)
    ensures
        agrees(r, source_declares(*model)),
{
    let raw = to_chars(model.entry.as_str());
    let bounds = trim_bounds(&raw);
    let entry = slice_chars(&raw, bounds.0, bounds.1);
    if !is_entry_symbol(&entry) {
        return Err(
            fail(
                "ngspice_model_entry_invalid",
                cat3(
                    "model `",
                    model.id.as_str(),
                    "` has an unsafe or empty entry symbol",
                ),
            ),
        );
    }
    let expected = match model.kind {
        ModelKind::Device => ".model",
        ModelKind::Subcircuit => ".subckt",
        ModelKind::Module => {
            return Err(
                fail(
                    "ngspice_model_kind_unsupported",
                    cat3(
                        "model `",
                        model.id.as_str(),
                        "` is not a SPICE device or subcircuit",
                    ),
                ),
            );
        },
    };
    let lines = split_lines(&unify_line_ends(&to_chars(model.source.as_str())));
    let ghost all = rows(lines@);
    let mut progress = Progress {
        found: false,
        ended: false,
        metadata: SpiceModelMetadata { device_type: None, subcircuit_port_count: None },
    };
    let mut i: usize = 0;
    while i < lines.len()
        invariant
            i <= lines@.len(),
            all == rows(lines@),
            all == source_lines(*model),
            entry@ == trim(model.entry@),
            is_entry(entry@),
            model.kind != ModelKind::Module,
            scanned(*model, all, i as int) == Ok::<Scan, Fault>(progress@),
        decreases lines@.len() - i,
    {
        assert(all[i as int] == lines@[i as int]@);
        match scan_line(model, &entry, &mut progress, &lines[i], i as u64 + 1) {
            Err(e) => {
                proof {
                    lemma_scanned_stops(*model, all, all.len() as int, i + 1);
                }
                return Err(e);
            },
            Ok(_) => {},
        }
        i = i + 1;
    }
    if !progress.found {
        return Err(
            fail(
                "ngspice_model_entry_missing",
                cat7(
                    "model `",
                    model.id.as_str(),
                    "` does not declare `",
                    from_chars(&entry).as_str(),
                    "` with `",
                    expected,
                    "`",
                ),
            ),
        );
    }
    let open_subcircuit: bool = match model.kind {
        ModelKind::Subcircuit => !progress.ended,
        _ => false,
    };
    if open_subcircuit {
        return Err(
            fail(
                "ngspice_model_subcircuit_unterminated",
                cat3(
                    "subcircuit model `",
                    model.id.as_str(),
                    "` has no `.ends` directive",
                ),
            ),
        );
    }
    Ok(progress.metadata)
}

/// A model of the registry.
#[derive(Clone, Debug, PartialEq, Eq)]
pub struct CompiledModel {
    pub id: String,
    pub entry: String,
    pub kind: ModelKind,
    pub device_type: Option<String>,
    pub subcircuit_port_count: Option<usize>,
}

/// What a `CompiledModel` says.
pub struct Entry {
    pub id: Seq<char>,
    pub entry: Seq<char>,
    pub kind: ModelKind,
    pub declared: Declared,
}

impl View for CompiledModel {
    type V = Entry;

    open spec fn view(&self) -> Entry {
        Entry {
            id: self.id@,
            entry: self.entry@,
            kind: self.kind,
            declared: Declared {
                device_type: text_of(self.device_type),
                port_count: count_of(self.subcircuit_port_count),
            },
        }
    }
}

#[derive(Clone, Debug, PartialEq, Eq)]
pub struct CompiledModelRegistry {
    pub entries: Vec<CompiledModel>,
    pub netlist: Vec<String>,
}

/// What a `CompiledModelRegistry` says.
pub struct Registry {
    pub entries: Seq<Entry>,
    pub netlist: Seq<Seq<char>>,
}

pub open spec fn entries_of(v: Seq<CompiledModel>) -> Seq<Entry> {
    v.map_values(|m: CompiledModel| m@)
}

impl View for CompiledModelRegistry {
    type V = Registry;

    open spec fn view(&self) -> Registry {
        Registry { entries: entries_of(self.entries@), netlist: texts(self.netlist@) }
    }
}

/// The bytes of the first `n` model sources.
pub open spec fn registry_bytes(models: Seq<ModelDefinition>, n: int) -> int
    decreases n,
{
    if n <= 0 {
        0
    } else {
        let total = registry_bytes(models, n - 1) + byte_len(models[n - 1].source@);
        if total <= usize::MAX {
            total
        } else {
            usize::MAX as int
        }
    }
}

/// Whether an earlier model has the same name.
pub open spec fn model_repeated(models: Seq<ModelDefinition>, i: int) -> bool {
    exists|j: int| 0 <= j < i && (#[trigger] models[j]).id@ == models[i].id@
}

/// One model of the registry, or why it is refused.
pub open spec fn model_entry(models: Seq<ModelDefinition>, i: int) -> Result<Entry, Fault> {
    let model = models[i];
    if model.language != ModelLanguage::Spice {
        Err(
            fault(
                "ngspice_model_language_unsupported"@,
                "model `"@ + model.id@ + "` is not SPICE source"@,
            ),
        )
    } else if byte_len(model.source@) > MAX_INLINE_MODEL_BYTES {
        Err(
            fault(
                "ngspice_model_too_large"@,
                "model `"@ + model.id@ + "` is "@ + decimal(byte_len(model.source@) as nat)
                    + " bytes; maximum is "@ + decimal(MAX_INLINE_MODEL_BYTES as nat)
                    + " bytes"@,
            ),
        )
    } else {
        match source_declares(model) {
            Err(f) => Err(f),
            Ok(declared) => if model_repeated(models, i) {
                Err(
                    fault(
                        "ngspice_duplicate_model"@,
                        "duplicate model id `"@ + model.id@ + "`"@,
                    ),
                )
            } else {
                Ok(
                    Entry {
                        id: model.id@,
                        entry: trim(model.entry@),
                        kind: model.kind,
                        declared,
                    },
                )
            },
        }
    }
}

/// The registry of all models, or the first refusal.
pub open spec fn registry_of(models: Seq<ModelDefinition>) -> Result<Registry, Fault> {
    let total = registry_bytes(models, models.len() as int);
    if total > MAX_INLINE_MODEL_REGISTRY_BYTES {
        Err(
            fault(
                "ngspice_model_registry_too_large"@,
                "inline model registry is "@ + decimal(total as nat) + " bytes; maximum is "@
                    + decimal(MAX_INLINE_MODEL_REGISTRY_BYTES as nat) + " bytes"@,
            ),
        )
    } else {
        match collected(models.len() as int, |i: int| model_entry(models, i)) {
            Err(f) => Err(f),
            Ok(entries) => Ok(
                Registry {
                    entries,
                    netlist: concat_upto(models.len() as int, |i: int| source_lines(models[i])),
                },
            ),
        }
    }
}

fn compile_model(models: &Vec<ModelDefinition>, i: usize) -> (r: Result<
    CompiledModel,
    EngineError,
>)
    requires
        i < models@.len(),
    ensures
        agrees(r, model_entry(models@, i as int)),
{
    let model = &models[i];
    match model.language {
        ModelLanguage::Spice => {},
        _ => {
            return Err(
                fail(
                    "ngspice_model_language_unsupported",
                    cat3("model `", model.id.as_str(), "` is not SPICE source"),
                ),
            );
        },
    }
    let size: usize = model.source.as_str().len();
    if size > MAX_INLINE_MODEL_BYTES {
        return Err(
            fail(
                "ngspice_model_too_large",
                cat7(
                    "model `",
                    model.id.as_str(),
                    "` is ",
                    decimal_text(size as u64).as_str(),
                    " bytes; maximum is ",
                    decimal_text(MAX_INLINE_MODEL_BYTES as u64).as_str(),
                    " bytes",
                ),
            ),
        );
    }
    let metadata = match validate_spice_model_source(model) {
        Err(e) => {
            return Err(e);
        },
        Ok(metadata) => metadata,
    };
    let mut j: usize = 0;
    while j < i
        invariant
            j <= i < models@.len(),
            model == models@[i as int],
            model.language == ModelLanguage::Spice,
            byte_len(model.source@) <= MAX_INLINE_MODEL_BYTES,
            source_declares(*model) == Ok::<Declared, Fault>(metadata@),
            forall|k: int| 0 <= k < j ==> (#[trigger] models@[k]).id@ != model.id@,
        decreases i - j,
    {
        if text_eq(models[j].id.as_str(), model.id.as_str()) {
            assert(models@[j as int].id@ == models@[i as int].id@);
            return Err(
                fail(
                    "ngspice_duplicate_model",
                    cat3("duplicate model id `", model.id.as_str(), "`"),
                ),
            );
        }
        j = j + 1;
    }
    Ok(
        CompiledModel {
            id: model.id.as_str().to_owned(),
            entry: crate::text::trim_text(model.entry.as_str()),
            kind: model.kind,
            device_type: metadata.device_type,
            subcircuit_port_count: metadata.subcircuit_port_count,
        },
    )
}

pub fn compile_models(models: &Vec<ModelDefinition>) -> (r: Result<
    CompiledModelRegistry,
    EngineError,
>)
    ensures
        agrees(r, registry_of(models@)),
{
    let mut total: usize = 0;
    let mut i: usize = 0;
    while i < models.len()
        invariant
            i <= models@.len(),
            total == registry_bytes(models@, i as int),
        decreases models@.len() - i,
    {
        total = total.saturating_add(models[i].source.as_str().len());
        i = i + 1;
    }
    if total > MAX_INLINE_MODEL_REGISTRY_BYTES {
        return Err(
            fail(
                "ngspice_model_registry_too_large",
                cat5(
                    "inline model registry is ",
                    decimal_text(total as u64).as_str(),
                    " bytes; maximum is ",
                    decimal_text(MAX_INLINE_MODEL_REGISTRY_BYTES as u64).as_str(),
                    " bytes",
                ),
            ),
        );
    }
    let ghost f = |i: int| model_entry(models@, i);
    let ghost g = |i: int| source_lines(models@[i]);
    let mut entries: Vec<CompiledModel> = Vec::new();
    let mut netlist: Vec<String> = Vec::new();
    let mut k: usize = 0;
    assert(entries_of(entries@) =~= Seq::<Entry>::empty());
    assert(texts(netlist@) =~= Seq::<Seq<char>>::empty());
    while k < models.len()
        invariant
            k <= models@.len(),
            total == registry_bytes(models@, models@.len() as int),
            total <= MAX_INLINE_MODEL_REGISTRY_BYTES,
            f == (|i: int| model_entry(models@, i)),
            g == (|i: int| source_lines(models@[i])),
            collected(k as int, f) == Ok::<Seq<Entry>, Fault>(entries_of(entries@)),
            texts(netlist@) == concat_upto(k as int, g),
        decreases models@.len() - k,
    {
        match compile_model(models, k) {
            Err(e) => {
                assert(f(k as int) == Err::<Entry, Fault>(e@));
                assert(collected(k + 1, f) == Err::<Seq<Entry>, Fault>(e@));
                proof {
                    lemma_collected_stops(models@.len() as int, f, k + 1);
                }
                return Err(e);
            },
            Ok(entry) => {
                let ghost before = entries_of(entries@);
                assert(f(k as int) == Ok::<Entry, Fault>(entry@));
                entries.push(entry);
                assert(entries_of(entries@) =~= before.push(entry@));
            },
        }
        append_source_lines(&mut netlist, &models[k]);
        k = k + 1;
    }
    Ok(CompiledModelRegistry { entries, netlist })
}

fn append_source_lines(netlist: &mut Vec<String>, model: &ModelDefinition)
    ensures
        texts(final(netlist)@) == texts(old(netlist)@) + source_lines(*model),
{
    let lines = split_lines(&unify_line_ends(&to_chars(model.source.as_str())));
    let ghost all = rows(lines@);
    let ghost start = texts(netlist@);
    let mut i: usize = 0;
    assert(start + all.take(0) =~= start);
    while i < lines.len()
        invariant
            i <= lines@.len(),
            all == rows(lines@),
            texts(netlist@) == start + all.take(i as int),
        decreases lines@.len() - i,
    {
        let ghost before = texts(netlist@);
        netlist.push(from_chars(&lines[i]));
        assert(all[i as int] == lines@[i as int]@);
        assert(texts(netlist@) =~= before.push(all[i as int]));
        assert(all.take(i + 1) =~= all.take(i as int).push(all[i as int]));
        assert(texts(netlist@) =~= start + all.take(i + 1));
        i = i + 1;
    }
    assert(all.take(i as int) =~= all);
}

/// A line that no inline model may hold.
pub open spec fn line_forbidden(line: Seq<char>) -> bool {
    let trimmed = trim(line);
    let words = words_of(trimmed);
    trimmed.len() > 0 && trimmed[0] != '*' && words.len() > 0 && forbidden(lowercase(words[0]))
}

/// A source that is accepted holds no forbidden directive on any of its lines.
pub proof fn accepted_sources_hold_no_forbidden_directive(model: ModelDefinition, k: int)
    requires
        source_declares(model) is Ok,
        0 <= k < source_lines(model).len(),
    ensures
        !line_forbidden(source_lines(model)[k]),
{
    let lines = source_lines(model);
    if scanned(model, lines, k + 1) is Err {
        lemma_scanned_stops(model, lines, lines.len() as int, k + 1);
    }
}

proof fn lemma_netlist_allowed(models: Seq<ModelDefinition>, n: int, k: int)
    requires
        forall|i: int| 0 <= i < n ==> source_declares(#[trigger] models[i]) is Ok,
        0 <= k < concat_upto(n, |i: int| source_lines(models[i])).len(),
    ensures
        !line_forbidden(concat_upto(n, |i: int| source_lines(models[i]))[k]),
    decreases n,
{
    let f = |i: int| source_lines(models[i]);
    let first = concat_upto(n - 1, f);
    if k < first.len() {
        lemma_netlist_allowed(models, n - 1, k);
        assert(concat_upto(n, f)[k] == first[k]);
    } else {
        assert(concat_upto(n, f)[k] == f(n - 1)[k - first.len()]);
        assert(source_declares(models[n - 1]) is Ok);
        accepted_sources_hold_no_forbidden_directive(models[n - 1], k - first.len());
    }
}

/// The netlist of an accepted registry holds no forbidden directive.
pub proof fn accepted_registries_hold_no_forbidden_directive(
    models: Seq<ModelDefinition>,
    registry: Registry,
    k: int,
)
    requires
        registry_of(models) == Ok::<Registry, Fault>(registry),
        0 <= k < registry.netlist.len(),
    ensures
        !line_forbidden(registry.netlist[k]),
{
    let f = |i: int| model_entry(models, i);
    lemma_collected_at(models.len() as int, f);
    assert forall|i: int| 0 <= i < models.len() implies source_declares(
        #[trigger] models[i],
    ) is Ok by {
        assert(f(i) == Ok::<Entry, Fault>(collected(models.len() as int, f)->Ok_0[i]));
        assert(model_entry(models, i) is Ok);
    }
    lemma_netlist_allowed(models, models.len() as int, k);
}

/// A line of a source that declares the type of a device.
pub open spec fn declares_type(line: Seq<char>, entry: Seq<char>, device: Seq<char>) -> bool {
    let words = words_of(trim(line));
    &&& words.len() > 2
    &&& lowercase(words[0]) == ".model"@
    &&& lowercase(words[1]) == lowercase(entry)
    &&& device == lowercase(close_trimmed(open_trimmed(words[2])))
}

/// A line of a source that declares a subcircuit with its ports.
pub open spec fn declares_ports(line: Seq<char>, entry: Seq<char>, count: nat) -> bool {
    let words = words_of(trim(line));
    &&& words.len() > 1
    &&& lowercase(words[0]) == ".subckt"@
    &&& lowercase(words[1]) == lowercase(entry)
    &&& count == port_words(words, 2)
}

proof fn lemma_scanned_declares(model: ModelDefinition, lines: Seq<Seq<char>>, n: int, scan: Scan)
    requires
        0 <= n <= lines.len(),
        scanned(model, lines, n) == Ok::<Scan, Fault>(scan),
    ensures
        scan.declared.device_type matches Some(device) ==> model.kind == ModelKind::Device
            && exists|k: int|
            0 <= k < n && declares_type(#[trigger] lines[k], trim(model.entry@), device),
        scan.declared.port_count matches Some(count) ==> model.kind != ModelKind::Device
            && exists|k: int|
            0 <= k < n && declares_ports(#[trigger] lines[k], trim(model.entry@), count),
        scan.found ==> if model.kind == ModelKind::Device {
            scan.declared.device_type is Some
        } else {
            scan.declared.port_count is Some
        },
    decreases n,
{
    if n > 0 {
        let before = scanned(model, lines, n - 1)->Ok_0;
        lemma_scanned_declares(model, lines, n - 1, before);
        let line = lines[n - 1];
        if let Some(device) = scan.declared.device_type {
            if before.declared.device_type == Some(device) {
                let k = choose|k: int|
                    0 <= k < n - 1 && declares_type(
                        #[trigger] lines[k],
                        trim(model.entry@),
                        device,
                    );
                assert(declares_type(lines[k], trim(model.entry@), device));
            } else {
                assert(declares_type(lines[n - 1], trim(model.entry@), device));
            }
        }
        if let Some(count) = scan.declared.port_count {
            if before.declared.port_count == Some(count) {
                let k = choose|k: int|
                    0 <= k < n - 1 && declares_ports(
                        #[trigger] lines[k],
                        trim(model.entry@),
                        count,
                    );
                assert(declares_ports(lines[k], trim(model.entry@), count));
            } else {
                assert(declares_ports(lines[n - 1], trim(model.entry@), count));
            }
        }
    }
}

/// The type of a device model and the ports of a subcircuit are those that a line of
/// its source declares for its entry.
pub proof fn declarations_stand_in_the_source(
    models: Seq<ModelDefinition>,
    i: int,
    entry: Entry,
)
    requires
        model_entry(models, i) == Ok::<Entry, Fault>(entry),
    ensures
        entry.id == models[i].id@,
        entry.entry == trim(models[i].entry@),
        entry.kind == models[i].kind,
        is_entry(entry.entry),
        entry.kind == ModelKind::Device ==> (entry.declared.device_type matches Some(device)
            && exists|k: int|
            0 <= k < source_lines(models[i]).len() && declares_type(
                #[trigger] source_lines(models[i])[k],
                entry.entry,
                device,
            )),
        entry.kind == ModelKind::Subcircuit ==> (entry.declared.port_count matches Some(count)
            && exists|k: int|
            0 <= k < source_lines(models[i]).len() && declares_ports(
                #[trigger] source_lines(models[i])[k],
                entry.entry,
                count,
            )),
{
    let lines = source_lines(models[i]);
    let scan = scanned(models[i], lines, lines.len() as int)->Ok_0;
    lemma_scanned_declares(models[i], lines, lines.len() as int, scan);
}

/// Every model of a circuit is in its registry, and all lines of its source are in the
/// netlist.
pub proof fn registries_hold_every_model(
    models: Seq<ModelDefinition>,
    registry: Registry,
    i: int,
    k: int,
)
    requires
        registry_of(models) == Ok::<Registry, Fault>(registry),
        0 <= i < models.len(),
    ensures
        registry.entries.len() == models.len(),
        model_entry(models, i) == Ok::<Entry, Fault>(registry.entries[i]),
        0 <= k < source_lines(models[i]).len() ==> registry.netlist.contains(
            source_lines(models[i])[k],
        ),
{
    let f = |i: int| model_entry(models, i);
    crate::fault::lemma_collected_at(models.len() as int, f);
    assert(f(i) == Ok::<Entry, Fault>(collected(models.len() as int, f)->Ok_0[i]));
    if 0 <= k < source_lines(models[i]).len() {
        let g = |i: int| source_lines(models[i]);
        let line = source_lines(models[i])[k];
        crate::node_terms::lemma_concat_contains(models.len() as int, g, line);
        assert(g(i)[k] == line);
        assert(g(i).contains(line));
    }
}

} // verus!
