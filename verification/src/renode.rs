//! Firmware on a virtual board under Renode: the target, the script that runs it
//! and samples its pins, and what the samples say.
use crate::analysis::Analysis;
use crate::circuit::{
    Component, ComponentId, Net, NetEndpoint, Pin, PinDirection, SignalDomain,
};
use crate::control::ExecutionPolicy;
use crate::draft::{drafts, fixed_figure, letters, push_text, stack, stack_of, Draft, Sign};
use crate::engine::{Probe, SimulationRequest};
use crate::fault::{
    agrees, collected, fail, fault, lemma_collected_at, lemma_collected_stops, passes, EngineError,
    Fault,
};
use crate::firmware::{FirmwareArtifact, FirmwareFormat};
use crate::kernel::{add_time, later};
use crate::lines::{
    behind, chars_behind, lines_of, pieces_of, rows, split_lines, split_pieces, split_words,
    words_of,
};
use crate::number::Real;
use crate::reading::{component_error, component_fault};
use crate::spice_results::{bounded_log, enforce_buffer_limit, log_end, size_failure};
use crate::text::{
    cat2, cat3, cat4, cat5, cat9, chars_eq, decimal, decimal_text, find_first, from_chars, hex_text,
    hexadecimal, is_ascii_alphanumeric, is_alphanumeric_char, parse_unsigned, peel_chars, peeled,
    slice_chars, split_once, text_before, text_eq, text_lt, texts, to_chars, trim, trim_bounds,
    unsigned, Peel,
};
use crate::validation::{identifier, is_identifier};
use crate::waveform::{DigitalTransition, LogicValue};
use vstd::prelude::*;

verus! {

pub const RENODE_ENGINE_ID: &'static str = "renode";

pub const MAX_RENODE_SAMPLE_POINTS: usize = 100_000;

/// What marks a sample in the log.
pub const SAMPLE_MARKER: &'static str = "OXSIM_GPIO|";

/// An observer that a platform already has for a pin.
#[derive(Clone, Debug, PartialEq, Eq)]
pub struct GpioObserver {
    pub mapping: String,
    pub object: String,
}

impl View for GpioObserver {
    type V = (Seq<char>, Seq<char>);

    open spec fn view(&self) -> (Seq<char>, Seq<char>) {
        (self.mapping@, self.object@)
    }
}

pub open spec fn observers(v: Seq<GpioObserver>) -> Seq<(Seq<char>, Seq<char>)> {
    v.map_values(|o: GpioObserver| o@)
}

/// Backend configuration for one MCU component and one immutable firmware artifact.
///
/// Platform paths are Renode search-path relative (for example
/// `platforms/boards/stm32f4_discovery-kit.repl`). Keeping the artifact outside
/// `SimulationRequest` avoids inflating the solver-independent circuit schema with
/// executable bytes. The observers stand in the order of their mappings.
#[derive(Clone, Debug, PartialEq, Eq)]
pub struct RenodeTarget {
    pub component: ComponentId,
    pub platform: String,
    pub firmware: FirmwareArtifact,
    pub cpu: String,
    pub gpio_observers: Vec<GpioObserver>,
}

/// How many entries at the front stand before a key.
pub open spec fn key_place(entries: Seq<(Seq<char>, Seq<char>)>, key: Seq<char>) -> int
    decreases entries.len(),
{
    if entries.len() == 0 {
        0
    } else {
        let before = key_place(entries.drop_last(), key);
        if before < entries.len() - 1 || !text_before(entries.last().0, key) {
            before
        } else {
            entries.len() as int
        }
    }
}

/// Entries with that of one key set.
pub open spec fn with_entry(
    entries: Seq<(Seq<char>, Seq<char>)>,
    key: Seq<char>,
    value: Seq<char>,
) -> Seq<(Seq<char>, Seq<char>)> {
    let place = key_place(entries, key);
    if place < entries.len() && entries[place].0 == key {
        entries.update(place, (key, value))
    } else {
        entries.insert(place, (key, value))
    }
}

/// The value of the first entry with a key among the first `n`.
pub open spec fn entry_at(entries: Seq<(Seq<char>, Seq<char>)>, key: Seq<char>, n: int) -> Option<
    Seq<char>,
>
    decreases n,
{
    if n <= 0 {
        None
    } else {
        match entry_at(entries, key, n - 1) {
            Some(value) => Some(value),
            None => if entries[n - 1].0 == key {
                Some(entries[n - 1].1)
            } else {
                None
            },
        }
    }
}

/// No key twice, and each after those before it.
pub open spec fn keys_in_order(entries: Seq<(Seq<char>, Seq<char>)>) -> bool {
    forall|i: int, j: int|
        0 <= i < j < entries.len() ==> text_before(
            (#[trigger] entries[i]).0,
            (#[trigger] entries[j]).0,
        )
}

proof fn lemma_key_place(entries: Seq<(Seq<char>, Seq<char>)>, key: Seq<char>)
    ensures
        0 <= key_place(entries, key) <= entries.len(),
        key_place(entries, key) < entries.len() ==> !text_before(
            entries[key_place(entries, key)].0,
            key,
        ),
        forall|j: int|
            0 <= j < key_place(entries, key) ==> text_before((#[trigger] entries[j]).0, key),
    decreases entries.len(),
{
    if entries.len() > 0 {
        let rest = entries.drop_last();
        lemma_key_place(rest, key);
        assert forall|j: int| 0 <= j < key_place(entries, key) implies text_before(
            (#[trigger] entries[j]).0,
            key,
        ) by {
            if j < rest.len() {
                assert(rest[j] == entries[j]);
            }
        }
        if key_place(rest, key) < rest.len() {
            assert(rest[key_place(rest, key)] == entries[key_place(rest, key)]);
        }
    }
}

proof fn lemma_entry_found(entries: Seq<(Seq<char>, Seq<char>)>, key: Seq<char>, k: int, n: int)
    requires
        0 <= k < n <= entries.len(),
        entries[k].0 == key,
        forall|j: int| 0 <= j < k ==> (#[trigger] entries[j]).0 != key,
    ensures
        entry_at(entries, key, n) == Some(entries[k].1),
        entry_at(entries, key, k) is None,
    decreases n,
{
    if n - 1 > k {
        lemma_entry_found(entries, key, k, n - 1);
    } else {
        lemma_entry_absent(entries, key, k);
    }
}

proof fn lemma_entry_absent(entries: Seq<(Seq<char>, Seq<char>)>, key: Seq<char>, n: int)
    requires
        0 <= n <= entries.len(),
        forall|j: int| 0 <= j < n ==> (#[trigger] entries[j]).0 != key,
    ensures
        entry_at(entries, key, n) is None,
    decreases n,
{
    if n > 0 {
        lemma_entry_absent(entries, key, n - 1);
    }
}

/// An observer that is set is the one that is used, and the observers stay in
/// the order of their mappings.
pub proof fn set_observers_are_used(
    entries: Seq<(Seq<char>, Seq<char>)>,
    key: Seq<char>,
    value: Seq<char>,
)
    requires
        keys_in_order(entries),
    ensures
        keys_in_order(with_entry(entries, key, value)),
        entry_at(
            with_entry(entries, key, value),
            key,
            with_entry(entries, key, value).len() as int,
        ) == Some(value),
{
    lemma_key_place(entries, key);
    let place = key_place(entries, key);
    let after = with_entry(entries, key, value);
    assert forall|j: int| 0 <= j < place implies (#[trigger] after[j]).0 != key && text_before(
        after[j].0,
        key,
    ) by {
        assert(after[j] == entries[j]);
        crate::text::lemma_before_irreflexive(key);
    }
    assert(after[place] == (key, value));
    lemma_entry_found(after, key, place, after.len() as int);
    assert forall|i: int, j: int| 0 <= i < j < after.len() implies text_before(
        (#[trigger] after[i]).0,
        (#[trigger] after[j]).0,
    ) by {
        let found = place < entries.len() && entries[place].0 == key;
        if found {
            assert(after[i].0 == entries[i].0);
            assert(after[j].0 == entries[j].0);
        } else {
            if j == place {
            } else if i == place {
                assert(after[j] == entries[j - 1]);
                crate::text::lemma_before_total(entries[place].0, key);
                if j - 1 > place {
                    crate::text::lemma_before_transitive(key, entries[place].0, entries[j - 1].0);
                }
            } else if j < place {
                assert(after[i] == entries[i]);
                assert(after[j] == entries[j]);
            } else if i < place {
                assert(after[i] == entries[i]);
                assert(after[j] == entries[j - 1]);
            } else {
                assert(after[i] == entries[i - 1]);
                assert(after[j] == entries[j - 1]);
            }
        }
    }
}

/// A path that a platform description may be loaded from.
pub open spec fn platform_path(value: Seq<char>) -> bool {
    let path = trim(value);
    &&& path.len() > 0
    &&& path[0] != '/'
    &&& ends_with(path, ".repl"@)
    &&& forall|i: int|
        0 <= i < pieces_of(path, '/').len() ==> plain_segment(#[trigger] pieces_of(path, '/')[i])
    &&& forall|i: int| 0 <= i < path.len() ==> path_char(#[trigger] path[i])
}

pub open spec fn ends_with(s: Seq<char>, suffix: Seq<char>) -> bool {
    s.len() >= suffix.len() && s.skip(s.len() - suffix.len()) == suffix
}

/// A part of a path that leads nowhere else.
pub open spec fn plain_segment(s: Seq<char>) -> bool {
    s.len() > 0 && s != "."@ && s != ".."@
}

pub open spec fn path_char(c: char) -> bool {
    is_ascii_alphanumeric(c) || c == '_' || c == '-' || c == '.' || c == '/'
}

/// Identifiers with dots between them.
pub open spec fn object_path(value: Seq<char>) -> bool {
    value.len() > 0 && forall|i: int|
        0 <= i < pieces_of(value, '.').len() ==> identifier(
            #[trigger] pieces_of(value, '.')[i],
            false,
        )
}

/// A peripheral and a pin of it, or why a text names none.
pub open spec fn gpio_of(value: Seq<char>) -> Result<(Seq<char>, nat), Seq<char>> {
    match split_once(trim(value), '@') {
        None => Err("expected `renodeGpioPeripheral@pin`, for example `gpioPortD@12`"@),
        Some((port, pin)) => if !identifier(port, false) {
            Err("GPIO peripheral must be a safe Renode identifier"@)
        } else {
            match unsigned(pin, u32::MAX as nat) {
                None => Err("GPIO pin must be an unsigned integer"@),
                Some(n) => Ok((port, n)),
            }
        },
    }
}

fn chars_end_with(v: &Vec<char>, suffix: &str) -> (r: bool)
    ensures
        r == ends_with(v@, suffix@),
{
    let s = to_chars(suffix);
    if v.len() < s.len() {
        return false;
    }
    let end: usize = v.len();
    let tail = slice_chars(v, end - s.len(), end);
    assert(tail@ =~= v@.skip(v@.len() - suffix@.len()));
    chars_eq(&tail, &s)
}

fn plain_segments(v: &Vec<char>) -> (r: bool)
    ensures
        r == (forall|i: int|
            0 <= i < pieces_of(v@, '/').len() ==> plain_segment(
                #[trigger] pieces_of(v@, '/')[i],
            )),
{
    let parts = split_pieces(v, '/');
    let ghost all = pieces_of(v@, '/');
    let dot = to_chars(".");
    let dots = to_chars("..");
    let mut i: usize = 0;
    while i < parts.len()
        invariant
            i <= parts@.len(),
            all == pieces_of(v@, '/'),
            rows(parts@) == all,
            dot@ == "."@,
            dots@ == ".."@,
            forall|k: int| 0 <= k < i ==> plain_segment(#[trigger] all[k]),
        decreases parts@.len() - i,
    {
        assert(all[i as int] == parts@[i as int]@);
        if parts[i].len() == 0 || chars_eq(&parts[i], &dot) || chars_eq(&parts[i], &dots) {
            assert(!plain_segment(all[i as int]));
            return false;
        }
        i = i + 1;
    }
    true
}

fn path_chars(v: &Vec<char>) -> (r: bool)
    ensures
        r == (forall|i: int| 0 <= i < v@.len() ==> path_char(#[trigger] v@[i])),
{
    let mut i: usize = 0;
    while i < v.len()
        invariant
            i <= v@.len(),
            forall|k: int| 0 <= k < i ==> path_char(#[trigger] v@[k]),
        decreases v@.len() - i,
    {
        let c = v[i];
        if !(is_alphanumeric_char(c) || c == '_' || c == '-' || c == '.' || c == '/') {
            return false;
        }
        i = i + 1;
    }
    true
}

fn trimmed_chars(value: &str) -> (r: Vec<char>)
    ensures
        r@ == trim(value@),
{
    let v = to_chars(value);
    let bounds = trim_bounds(&v);
    slice_chars(&v, bounds.0, bounds.1)
}

pub fn is_safe_platform_path(value: &str) -> (r: bool)
    ensures
        r == platform_path(value@),
{
    let path = trimmed_chars(value);
    path.len() > 0 && path[0] != '/' && chars_end_with(&path, ".repl") && plain_segments(&path)
        && path_chars(&path)
}

pub fn is_safe_object_path(value: &str) -> (r: bool)
    ensures
        r == object_path(value@),
{
    let v = to_chars(value);
    if v.len() == 0 {
        return false;
    }
    let parts = split_pieces(&v, '.');
    let ghost all = pieces_of(v@, '.');
    let mut i: usize = 0;
    while i < parts.len()
        invariant
            i <= parts@.len(),
            v@ == value@,
            all == pieces_of(v@, '.'),
            rows(parts@) == all,
            forall|k: int| 0 <= k < i ==> identifier(#[trigger] all[k], false),
        decreases parts@.len() - i,
    {
        assert(all[i as int] == parts@[i as int]@);
        if !is_identifier(&parts[i], false) {
            assert(!identifier(all[i as int], false));
            return false;
        }
        i = i + 1;
    }
    true
}

pub fn parse_gpio_mapping(value: &str) -> (r: Result<(String, u32), &'static str>)
    ensures
        match (r, gpio_of(value@)) {
            (Ok(v), Ok(s)) => v.0@ == s.0 && v.1 == s.1,
            (Err(m), Err(t)) => m@ == t,
            _ => false,
        },
{
    let v = trimmed_chars(value);
    let mark: usize = find_first(&v, '@');
    if mark >= v.len() {
        return Err("expected `renodeGpioPeripheral@pin`, for example `gpioPortD@12`");
    }
    let end: usize = v.len();
    let port = slice_chars(&v, 0, mark);
    let pin = slice_chars(&v, mark + 1, end);
    assert(port@ =~= v@.take(mark as int));
    assert(pin@ =~= v@.skip(mark + 1));
    if !is_identifier(&port, false) {
        return Err("GPIO peripheral must be a safe Renode identifier");
    }
    match parse_unsigned(&pin, u32::MAX as u64) {
        None => Err("GPIO pin must be an unsigned integer"),
        Some(n) => Ok((from_chars(&port), n as u32)),
    }
}

/// Why an observer is refused.
pub open spec fn observer_failure(mapping: Seq<char>, object: Seq<char>) -> Option<Fault> {
    match gpio_of(mapping) {
        Err(message) => Some(
            fault(
                "renode_target_invalid"@,
                "Renode GPIO observer mapping `"@ + mapping + "` is invalid: "@ + message,
            ),
        ),
        Ok(_) => if !object_path(object) {
            Some(
                fault(
                    "renode_target_invalid"@,
                    "Renode GPIO observer `"@ + object
                        + "` must contain only identifier segments separated by dots"@,
                ),
            )
        } else {
            None
        },
    }
}

/// The first failure among the first `n` observers.
pub open spec fn observers_failure(entries: Seq<(Seq<char>, Seq<char>)>, n: int) -> Option<Fault>
    decreases n,
{
    if n <= 0 {
        None
    } else {
        match observers_failure(entries, n - 1) {
            Some(f) => Some(f),
            None => observer_failure(entries[n - 1].0, entries[n - 1].1),
        }
    }
}

proof fn lemma_observers_failure_stops(entries: Seq<(Seq<char>, Seq<char>)>, n: int, m: int)
    requires
        0 <= m <= n,
        observers_failure(entries, m) is Some,
    ensures
        observers_failure(entries, n) == observers_failure(entries, m),
    decreases n - m,
{
    if m < n {
        lemma_observers_failure_stops(entries, n, m + 1);
    }
}

fn check_observer(observer: &GpioObserver) -> (r: Result<(), EngineError>)
    ensures
        passes(r, observer_failure(observer.mapping@, observer.object@)),
{
    match parse_gpio_mapping(observer.mapping.as_str()) {
        Err(message) => {
            return Err(
                fail(
                    "renode_target_invalid",
                    cat4(
                        "Renode GPIO observer mapping `",
                        observer.mapping.as_str(),
                        "` is invalid: ",
                        message,
                    ),
                ),
            );
        },
        Ok(_) => {},
    }
    if !is_safe_object_path(observer.object.as_str()) {
        return Err(
            fail(
                "renode_target_invalid",
                cat3(
                    "Renode GPIO observer `",
                    observer.object.as_str(),
                    "` must contain only identifier segments separated by dots",
                ),
            ),
        );
    }
    Ok(())
}

impl RenodeTarget {
    pub fn new(component: &str, platform: &str, firmware: FirmwareArtifact) -> (r: Self)
        ensures
            r.component@ == component@,
            r.platform@ == platform@,
            r.firmware == firmware,
            r.cpu@ == "sysbus.cpu"@,
            observers(r.gpio_observers@) == Seq::<(Seq<char>, Seq<char>)>::empty(),
    {
        let gpio_observers: Vec<GpioObserver> = Vec::new();
        assert(observers(gpio_observers@) =~= Seq::<(Seq<char>, Seq<char>)>::empty());
        RenodeTarget {
            component: ComponentId::new(component),
            platform: platform.to_owned(),
            firmware,
            cpu: "sysbus.cpu".to_owned(),
            gpio_observers,
        }
    }

    pub fn with_cpu(self, cpu: &str) -> (r: Self)
        ensures
            r.cpu@ == cpu@,
            r == (RenodeTarget { cpu: r.cpu, ..self }),
    {
        RenodeTarget {
            component: self.component,
            platform: self.platform,
            firmware: self.firmware,
            cpu: cpu.to_owned(),
            gpio_observers: self.gpio_observers,
        }
    }

    /// Reuse an observer already exposed by the Renode platform for a GPIO mapping.
    pub fn with_gpio_observer(self, mapping: &str, object: &str) -> (r: Self)
        ensures
            observers(r.gpio_observers@) == with_entry(
                observers(self.gpio_observers@),
                mapping@,
                object@,
            ),
            r == (RenodeTarget { gpio_observers: r.gpio_observers, ..self }),
    {
        let mut entries = self.gpio_observers;
        let ghost before = observers(entries@);
        let mut at: usize = 0;
        while at < entries.len() && text_lt(entries[at].mapping.as_str(), mapping)
            invariant
                at <= entries@.len(),
                before == observers(entries@),
                forall|j: int| 0 <= j < at ==> text_before((#[trigger] before[j]).0, mapping@),
            decreases entries@.len() - at,
        {
            assert(before[at as int].0 == entries@[at as int].mapping@);
            at = at + 1;
        }
        proof {
            lemma_key_place(before, mapping@);
            let place = key_place(before, mapping@);
            if at < before.len() {
                assert(before[at as int].0 == entries@[at as int].mapping@);
            }
            if place < at {
                assert(text_before(before[place].0, mapping@));
            }
            if at < place {
                assert(text_before(before[at as int].0, mapping@));
            }
        }
        let entry = GpioObserver { mapping: mapping.to_owned(), object: object.to_owned() };
        if at < entries.len() && text_eq(entries[at].mapping.as_str(), mapping) {
            entries.set(at, entry);
            assert(observers(entries@) =~= before.update(at as int, (mapping@, object@)));
        } else {
            entries.insert(at, entry);
            assert(observers(entries@) =~= before.insert(at as int, (mapping@, object@)));
        }
        RenodeTarget {
            component: self.component,
            platform: self.platform,
            firmware: self.firmware,
            cpu: self.cpu,
            gpio_observers: entries,
        }
    }

    /// What is wrong with the target, if anything.
    pub open spec fn failure(self) -> Option<Fault> {
        let entries = observers(self.gpio_observers@);
        match self.firmware.failure() {
            Some(f) => Some(f),
            None => if !platform_path(self.platform@) {
                Some(
                    fault(
                        "renode_target_invalid"@,
                        "Renode platform must be a safe search-path-relative .repl path without `..` segments"@,
                    ),
                )
            } else if !object_path(self.cpu@) {
                Some(
                    fault(
                        "renode_target_invalid"@,
                        "Renode CPU path must contain only identifier segments separated by dots"@,
                    ),
                )
            } else {
                observers_failure(entries, entries.len() as int)
            },
        }
    }

    pub fn validate(&self) -> (r: Result<(), EngineError>)
        ensures
            passes(r, self.failure()),
    {
        match self.firmware.validate() {
            Err(e) => {
                return Err(e);
            },
            Ok(_) => {},
        }
        if !is_safe_platform_path(self.platform.as_str()) {
            return Err(
                EngineError::new(
                    "renode_target_invalid",
                    "Renode platform must be a safe search-path-relative .repl path without `..` segments",
                ),
            );
        }
        if !is_safe_object_path(self.cpu.as_str()) {
            return Err(
                EngineError::new(
                    "renode_target_invalid",
                    "Renode CPU path must contain only identifier segments separated by dots",
                ),
            );
        }
        let ghost entries = observers(self.gpio_observers@);
        let mut i: usize = 0;
        while i < self.gpio_observers.len()
            invariant
                i <= self.gpio_observers@.len(),
                entries == observers(self.gpio_observers@),
                observers_failure(entries, i as int) is None,
                self.firmware.failure() is None,
                platform_path(self.platform@),
                object_path(self.cpu@),
            decreases self.gpio_observers@.len() - i,
        {
            assert(entries[i as int] == self.gpio_observers@[i as int]@);
            match check_observer(&self.gpio_observers[i]) {
                Err(e) => {
                    proof {
                        lemma_observers_failure_stops(entries, entries.len() as int, i + 1);
                    }
                    return Err(e);
                },
                Ok(_) => {},
            }
            i = i + 1;
        }
        Ok(())
    }
}

/// A target that is accepted loads a platform from a path of plain characters.
pub proof fn accepted_platforms_are_plain_paths(target: RenodeTarget, i: int)
    requires
        target.failure() is None,
        0 <= i < trim(target.platform@).len(),
    ensures
        path_char(trim(target.platform@)[i]),
{
}

/// A pin that is sampled.
#[derive(Clone, Debug, PartialEq, Eq)]
pub struct GpioSource {
    pub port: String,
    pub pin: u32,
    pub object: String,
    pub synthetic_observer: bool,
}

/// What a `GpioSource` says.
pub struct Gpio {
    pub port: Seq<char>,
    pub pin: nat,
    pub object: Seq<char>,
    pub synthetic: bool,
}

impl View for GpioSource {
    type V = Gpio;

    open spec fn view(&self) -> Gpio {
        Gpio {
            port: self.port@,
            pin: self.pin as nat,
            object: self.object@,
            synthetic: self.synthetic_observer,
        }
    }
}

pub open spec fn gpios(v: Seq<GpioSource>) -> Seq<Gpio> {
    v.map_values(|g: GpioSource| g@)
}

pub open spec fn renode_code() -> Seq<char> {
    "renode_component_invalid"@
}

/// Whether an earlier pin is mapped to the same place.
pub open spec fn mapping_taken(pins: Seq<Pin>, i: int) -> bool {
    exists|j: int| 0 <= j < i && gpio_of((#[trigger] pins[j]).name@) == gpio_of(pins[i].name@)
}

/// The pin of a board that a pin of the component stands for.
pub open spec fn gpio_source(
    component: Component,
    entries: Seq<(Seq<char>, Seq<char>)>,
    i: int,
) -> Result<Gpio, Fault> {
    let pin = component.pins@[i];
    if pin.domain != SignalDomain::Digital || pin.direction != PinDirection::Output {
        Err(
            component_fault(
                renode_code(),
                component,
                "MCU pin `"@ + pin.id@
                    + "` must be a digital Output in R6; bidirectional/input synchronization belongs to the shared co-simulation scheduler"@,
            ),
        )
    } else {
        match gpio_of(pin.name@) {
            Err(message) => Err(
                component_fault(
                    renode_code(),
                    component,
                    "pin `"@ + pin.id@ + "` has invalid GPIO mapping: "@ + message,
                ),
            ),
            Ok((port, n)) => {
                let mapping = port + "@"@ + decimal(n);
                if mapping_taken(component.pins@, i) {
                    Err(
                        component_fault(
                            renode_code(),
                            component,
                            "Renode GPIO mapping `"@ + mapping + "` appears more than once"@,
                        ),
                    )
                } else {
                    match entry_at(entries, mapping, entries.len() as int) {
                        Some(object) => Ok(Gpio { port, pin: n, object, synthetic: false }),
                        None => Ok(
                            Gpio {
                                port,
                                pin: n,
                                object: "sysbus."@ + port + ".oxsim_gpio_"@ + decimal(i as nat),
                                synthetic: true,
                            },
                        ),
                    }
                }
            },
        }
    }
}

/// The pins of a board that the pins of the component stand for.
pub open spec fn gpio_sources(component: Component, target: RenodeTarget) -> Result<
    Seq<Gpio>,
    Fault,
> {
    if component.pins@.len() == 0 {
        Err(
            component_fault(
                renode_code(),
                component,
                "mcu must expose at least one GPIO output pin in R6"@,
            ),
        )
    } else {
        collected(
            component.pins@.len() as int,
            |i: int| gpio_source(component, observers(target.gpio_observers@), i),
        )
    }
}

fn find_observer(entries: &Vec<GpioObserver>, mapping: &str) -> (r: Option<String>)
    ensures
        crate::spice_models::text_of(r) == entry_at(
            observers(entries@),
            mapping@,
            entries@.len() as int,
        ),
{
    let ghost all = observers(entries@);
    let mut i: usize = 0;
    while i < entries.len()
        invariant
            i <= entries@.len(),
            all == observers(entries@),
            forall|j: int| 0 <= j < i ==> (#[trigger] all[j]).0 != mapping@,
        decreases entries@.len() - i,
    {
        assert(all[i as int] == entries@[i as int]@);
        if text_eq(entries[i].mapping.as_str(), mapping) {
            proof {
                lemma_entry_found(all, mapping@, i as int, all.len() as int);
            }
            return Some(entries[i].object.clone());
        }
        i = i + 1;
    }
    proof {
        lemma_entry_absent(all, mapping@, all.len() as int);
    }
    None
}

fn find_mapping_taken(pins: &Vec<Pin>, i: usize, port: &str, pin: u32) -> (r: bool)
    requires
        i < pins@.len(),
        gpio_of(pins@[i as int].name@) == Ok::<(Seq<char>, nat), Seq<char>>((port@, pin as nat)),
    ensures
        r == mapping_taken(pins@, i as int),
{
    let mut j: usize = 0;
    while j < i
        invariant
            j <= i < pins@.len(),
            gpio_of(pins@[i as int].name@) == Ok::<(Seq<char>, nat), Seq<char>>(
                (port@, pin as nat),
            ),
            forall|k: int|
                0 <= k < j ==> gpio_of((#[trigger] pins@[k]).name@) != gpio_of(
                    pins@[i as int].name@,
                ),
        decreases i - j,
    {
        match parse_gpio_mapping(pins[j].name.as_str()) {
            Ok(found) => {
                if found.1 == pin && text_eq(found.0.as_str(), port) {
                    assert(gpio_of(pins@[j as int].name@) == gpio_of(pins@[i as int].name@));
                    return true;
                }
            },
            Err(_) => {},
        }
        j = j + 1;
    }
    false
}

fn compile_gpio_source(component: &Component, entries: &Vec<GpioObserver>, i: usize) -> (r: Result<
    GpioSource,
    EngineError,
>)
    requires
        i < component.pins@.len(),
    ensures
        agrees(r, gpio_source(*component, observers(entries@), i as int)),
{
    let pin = &component.pins[i];
    if pin.domain != SignalDomain::Digital || pin.direction != PinDirection::Output {
        let message = cat3(
            "MCU pin `",
            pin.id.as_str(),
            "` must be a digital Output in R6; bidirectional/input synchronization belongs to the shared co-simulation scheduler",
        );
        return Err(component_error("renode_component_invalid", component, message.as_str()));
    }
    let mapped = match parse_gpio_mapping(pin.name.as_str()) {
        Err(reason) => {
            let message = cat4("pin `", pin.id.as_str(), "` has invalid GPIO mapping: ", reason);
            return Err(component_error("renode_component_invalid", component, message.as_str()));
        },
        Ok(mapped) => mapped,
    };
    let port = mapped.0;
    let number: u32 = mapped.1;
    let mapping = cat3(port.as_str(), "@", decimal_text(number as u64).as_str());
    if find_mapping_taken(&component.pins, i, port.as_str(), number) {
        let message = cat3(
            "Renode GPIO mapping `",
            mapping.as_str(),
            "` appears more than once",
        );
        return Err(component_error("renode_component_invalid", component, message.as_str()));
    }
    match find_observer(entries, mapping.as_str()) {
        Some(object) => Ok(GpioSource { port, pin: number, object, synthetic_observer: false }),
        None => {
            let object = cat4(
                "sysbus.",
                port.as_str(),
                ".oxsim_gpio_",
                decimal_text(i as u64).as_str(),
            );
            Ok(GpioSource { port, pin: number, object, synthetic_observer: true })
        },
    }
}

pub fn compile_gpio_sources(component: &Component, target: &RenodeTarget) -> (r: Result<
    Vec<GpioSource>,
    EngineError,
>)
    ensures
        match (r, gpio_sources(*component, *target)) {
            (Ok(v), Ok(s)) => gpios(v@) == s && v@.len() == component.pins@.len() && v@.len() > 0,
            (Err(e), Err(f)) => e@ == f,
            _ => false,
        },
{
    if component.pins.len() == 0 {
        return Err(
            component_error(
                "renode_component_invalid",
                component,
                "mcu must expose at least one GPIO output pin in R6",
            ),
        );
    }
    let ghost entries = observers(target.gpio_observers@);
    let ghost f = |i: int| gpio_source(*component, entries, i);
    let mut out: Vec<GpioSource> = Vec::new();
    let mut i: usize = 0;
    assert(gpios(out@) =~= Seq::<Gpio>::empty());
    while i < component.pins.len()
        invariant
            i <= component.pins@.len(),
            component.pins@.len() > 0,
            out@.len() == i,
            entries == observers(target.gpio_observers@),
            f == (|i: int| gpio_source(*component, entries, i)),
            collected(i as int, f) == Ok::<Seq<Gpio>, Fault>(gpios(out@)),
        decreases component.pins@.len() - i,
    {
        match compile_gpio_source(component, &target.gpio_observers, i) {
            Err(e) => {
                assert(f(i as int) == Err::<Gpio, Fault>(e@));
                assert(collected(i + 1, f) == Err::<Seq<Gpio>, Fault>(e@));
                proof {
                    lemma_collected_stops(component.pins@.len() as int, f, i + 1);
                }
                return Err(e);
            },
            Ok(source) => {
                let ghost before = gpios(out@);
                assert(f(i as int) == Ok::<Gpio, Fault>(source@));
                out.push(source);
                assert(gpios(out@) =~= before.push(source@));
            },
        }
        i = i + 1;
    }
    Ok(out)
}

/// An endpoint and the pin of the component that drives it.
#[derive(Clone, Debug, PartialEq, Eq)]
pub struct DrivenEndpoint {
    pub component: String,
    pub pin: String,
    pub source: usize,
}

/// What a `DrivenEndpoint` says.
pub struct Drive {
    pub component: Seq<char>,
    pub pin: Seq<char>,
    pub source: int,
}

impl View for DrivenEndpoint {
    type V = Drive;

    open spec fn view(&self) -> Drive {
        Drive { component: self.component@, pin: self.pin@, source: self.source as int }
    }
}

pub open spec fn drives(v: Seq<DrivenEndpoint>) -> Seq<Drive> {
    v.map_values(|d: DrivenEndpoint| d@)
}

/// The pin that drives an endpoint: that of the last entry for it.
pub open spec fn driver_of(entries: Seq<Drive>, component: Seq<char>, pin: Seq<char>) -> Option<
    int,
>
    decreases entries.len(),
{
    if entries.len() == 0 {
        None
    } else if entries.last().component == component && entries.last().pin == pin {
        Some(entries.last().source)
    } else {
        driver_of(entries.drop_last(), component, pin)
    }
}

/// The last of the first `n` pins with a name.
pub open spec fn pin_place(pins: Seq<Pin>, id: Seq<char>, n: int) -> Option<int>
    decreases n,
{
    if n <= 0 {
        None
    } else if pins[n - 1].id@ == id {
        Some(n - 1)
    } else {
        pin_place(pins, id, n - 1)
    }
}

/// The pins of the component among the endpoints of a net.
pub enum Drivers {
    Absent,
    Sole(int),
    Several,
}

/// The pins of the component among the first `n` endpoints of a net.
pub open spec fn net_drivers(endpoints: Seq<NetEndpoint>, component: Component, n: int) -> Drivers
    decreases n,
{
    if n <= 0 {
        Drivers::Absent
    } else {
        let before = net_drivers(endpoints, component, n - 1);
        let endpoint = endpoints[n - 1];
        if endpoint.component@ != component.id@ {
            before
        } else {
            match pin_place(component.pins@, endpoint.pin@, component.pins@.len() as int) {
                None => before,
                Some(i) => match before {
                    Drivers::Absent => Drivers::Sole(i),
                    Drivers::Sole(k) => if k == i {
                        before
                    } else {
                        Drivers::Several
                    },
                    Drivers::Several => before,
                },
            }
        }
    }
}

/// The endpoints of a net, driven by a pin.
pub open spec fn net_drives(endpoints: Seq<NetEndpoint>, source: int) -> Seq<Drive> {
    Seq::new(
        endpoints.len(),
        |j: int|
            Drive { component: endpoints[j].component@, pin: endpoints[j].pin@, source },
    )
}

/// The pins of the component, each driven by itself.
pub open spec fn own_drives(component: Component) -> Seq<Drive> {
    Seq::new(
        component.pins@.len(),
        |i: int| Drive { component: component.id@, pin: component.pins@[i].id@, source: i },
    )
}

/// The endpoints that the component drives through the first `n` nets.
pub open spec fn drives_of(nets: Seq<Net>, component: Component, n: int) -> Result<
    Seq<Drive>,
    Fault,
>
    decreases n,
{
    if n <= 0 {
        Ok(own_drives(component))
    } else {
        match drives_of(nets, component, n - 1) {
            Err(f) => Err(f),
            Ok(before) => {
                let net = nets[n - 1];
                match net_drivers(net.endpoints@, component, net.endpoints@.len() as int) {
                    Drivers::Several => Err(
                        fault(
                            "renode_net_invalid"@,
                            "net `"@ + net.id@
                                + "` connects more than one MCU GPIO output and is ambiguous for R6 observation"@,
                        ),
                    ),
                    Drivers::Absent => Ok(before),
                    Drivers::Sole(source) => Ok(before + net_drives(net.endpoints@, source)),
                }
            },
        }
    }
}

proof fn lemma_drives_of_stops(nets: Seq<Net>, component: Component, n: int, m: int)
    requires
        0 <= m <= n,
        drives_of(nets, component, m) is Err,
    ensures
        drives_of(nets, component, n) == drives_of(nets, component, m),
    decreases n - m,
{
    if m < n {
        lemma_drives_of_stops(nets, component, n, m + 1);
    }
}

fn find_pin_place(pins: &Vec<Pin>, id: &str) -> (r: Option<usize>)
    ensures
        match (r, pin_place(pins@, id@, pins@.len() as int)) {
            (Some(i), Some(k)) => i == k && i < pins@.len(),
            (None, None) => true,
            _ => false,
        },
{
    let mut n: usize = pins.len();
    while n > 0
        invariant
            n <= pins@.len(),
            pin_place(pins@, id@, pins@.len() as int) == pin_place(pins@, id@, n as int),
        decreases n,
    {
        if text_eq(pins[n - 1].id.as_str(), id) {
            return Some(n - 1);
        }
        n = n - 1;
    }
    None
}

/// The first pin of the component on a net, and whether there is another.
fn find_net_driver(endpoints: &Vec<NetEndpoint>, component: &Component) -> (r: (
    Option<usize>,
    bool,
))
    ensures
        match net_drivers(endpoints@, *component, endpoints@.len() as int) {
            Drivers::Absent => r.0 is None && !r.1,
            Drivers::Sole(k) => r.0 is Some && r.0->Some_0 == k && !r.1,
            Drivers::Several => r.1,
        },
{
    let mut found: Option<usize> = None;
    let mut several: bool = false;
    let mut n: usize = 0;
    while n < endpoints.len()
        invariant
            n <= endpoints@.len(),
            match net_drivers(endpoints@, *component, n as int) {
                Drivers::Absent => found is None && !several,
                Drivers::Sole(k) => found is Some && found->Some_0 == k && !several,
                Drivers::Several => several && found is Some,
            },
        decreases endpoints@.len() - n,
    {
        let endpoint = &endpoints[n];
        if text_eq(endpoint.component.as_str(), component.id.as_str()) {
            match find_pin_place(&component.pins, endpoint.pin.as_str()) {
                None => {},
                Some(i) => {
                    match found {
                        None => {
                            found = Some(i);
                        },
                        Some(k) => {
                            if k != i {
                                several = true;
                            }
                        },
                    }
                },
            }
        }
        n = n + 1;
    }
    (found, several)
}

/// The endpoints that the pins of the component drive.
pub fn build_endpoint_source_map(nets: &Vec<Net>, component: &Component) -> (r: Result<
    Vec<DrivenEndpoint>,
    EngineError,
>)
    ensures
        match (r, drives_of(nets@, *component, nets@.len() as int)) {
            (Ok(v), Ok(s)) => drives(v@) == s,
            (Err(e), Err(f)) => e@ == f,
            _ => false,
        },
{
    let mut out: Vec<DrivenEndpoint> = Vec::new();
    let ghost own = own_drives(*component);
    let mut i: usize = 0;
    while i < component.pins.len()
        invariant
            i <= component.pins@.len(),
            own == own_drives(*component),
            drives(out@) =~= own.take(i as int),
        decreases component.pins@.len() - i,
    {
        let ghost before = drives(out@);
        out.push(
            DrivenEndpoint {
                component: component.id.0.clone(),
                pin: component.pins[i].id.0.clone(),
                source: i,
            },
        );
        assert(drives(out@) =~= before.push(own[i as int]));
        assert(own.take(i + 1) =~= own.take(i as int).push(own[i as int]));
        i = i + 1;
    }
    assert(own.take(i as int) =~= own);
    let mut n: usize = 0;
    while n < nets.len()
        invariant
            n <= nets@.len(),
            drives_of(nets@, *component, n as int) == Ok::<Seq<Drive>, Fault>(drives(out@)),
        decreases nets@.len() - n,
    {
        let net = &nets[n];
        let (found, several) = find_net_driver(&net.endpoints, component);
        if several {
            proof {
                lemma_drives_of_stops(nets@, *component, nets@.len() as int, n + 1);
            }
            return Err(
                fail(
                    "renode_net_invalid",
                    cat3(
                        "net `",
                        net.id.as_str(),
                        "` connects more than one MCU GPIO output and is ambiguous for R6 observation",
                    ),
                ),
            );
        }
        match found {
            None => {},
            Some(source) => {
                let ghost start = drives(out@);
                let ghost added = net_drives(net.endpoints@, source as int);
                let mut j: usize = 0;
                assert(start + added.take(0) =~= start);
                while j < net.endpoints.len()
                    invariant
                        j <= net.endpoints@.len(),
                        added == net_drives(net.endpoints@, source as int),
                        drives(out@) == start + added.take(j as int),
                    decreases net.endpoints@.len() - j,
                {
                    let endpoint = &net.endpoints[j];
                    let ghost before = drives(out@);
                    out.push(
                        DrivenEndpoint {
                            component: endpoint.component.0.clone(),
                            pin: endpoint.pin.0.clone(),
                            source,
                        },
                    );
                    assert(drives(out@) =~= before.push(added[j as int]));
                    assert(added.take(j + 1) =~= added.take(j as int).push(added[j as int]));
                    assert(drives(out@) =~= start + added.take(j + 1));
                    j = j + 1;
                }
                assert(added.take(j as int) =~= added);
            },
        }
        n = n + 1;
    }
    Ok(out)
}

/// A probe and the pin that it shows.
#[derive(Clone, Debug, PartialEq, Eq)]
pub struct RenodeProbe {
    pub signal: String,
    pub source_index: usize,
}

impl View for RenodeProbe {
    type V = (Seq<char>, int);

    open spec fn view(&self) -> (Seq<char>, int) {
        (self.signal@, self.source_index as int)
    }
}

pub open spec fn gpio_probes(v: Seq<RenodeProbe>) -> Seq<(Seq<char>, int)> {
    v.map_values(|p: RenodeProbe| p@)
}

/// One probe.
pub open spec fn gpio_probe(probe: Probe, entries: Seq<Drive>) -> Result<(Seq<char>, int), Fault> {
    let component = probe.endpoint.component@;
    let pin = probe.endpoint.pin@;
    match driver_of(entries, component, pin) {
        None => Err(
            fault(
                "renode_probe_invalid"@,
                "probe endpoint `"@ + component + "."@ + pin
                    + "` is not driven by the configured MCU GPIO outputs"@,
            ),
        ),
        Some(source) => Ok(
            (
                match probe.alias {
                    Some(alias) => alias@,
                    None => component + "."@ + pin,
                },
                source,
            ),
        ),
    }
}

fn find_driver(entries: &Vec<DrivenEndpoint>, component: &str, pin: &str) -> (r: Option<usize>)
    ensures
        match (r, driver_of(drives(entries@), component@, pin@)) {
            (Some(i), Some(k)) => i == k,
            (None, None) => true,
            _ => false,
        },
{
    let ghost all = drives(entries@);
    let mut n: usize = entries.len();
    assert(all.take(n as int) =~= all);
    while n > 0
        invariant
            n <= entries@.len(),
            all == drives(entries@),
            driver_of(all, component@, pin@) == driver_of(
                all.take(n as int),
                component@,
                pin@,
            ),
        decreases n,
    {
        let entry = &entries[n - 1];
        assert(all.take(n as int).last() == entries@[n - 1]@);
        assert(all.take(n as int).drop_last() =~= all.take(n - 1));
        if text_eq(entry.component.as_str(), component) && text_eq(entry.pin.as_str(), pin) {
            return Some(entry.source);
        }
        n = n - 1;
    }
    None
}

pub fn compile_probe(probe: &Probe, entries: &Vec<DrivenEndpoint>) -> (r: Result<
    RenodeProbe,
    EngineError,
>)
    ensures
        agrees(r, gpio_probe(*probe, drives(entries@))),
{
    let component = probe.endpoint.component.as_str();
    let pin = probe.endpoint.pin.as_str();
    match find_driver(entries, component, pin) {
        None => Err(
            fail(
                "renode_probe_invalid",
                cat5(
                    "probe endpoint `",
                    component,
                    ".",
                    pin,
                    "` is not driven by the configured MCU GPIO outputs",
                ),
            ),
        ),
        Some(source_index) => {
            let signal = match &probe.alias {
                Some(alias) => alias.clone(),
                None => cat3(component, ".", pin),
            };
            Ok(RenodeProbe { signal, source_index })
        },
    }
}

/// The probes of a request.
pub open spec fn gpio_probes_of(probes: Seq<Probe>, entries: Seq<Drive>) -> Result<
    Seq<(Seq<char>, int)>,
    Fault,
> {
    collected(probes.len() as int, |i: int| gpio_probe(probes[i], entries))
}

pub fn compile_probes(probes: &Vec<Probe>, entries: &Vec<DrivenEndpoint>) -> (r: Result<
    Vec<RenodeProbe>,
    EngineError,
>)
    ensures
        match (r, gpio_probes_of(probes@, drives(entries@))) {
            (Ok(v), Ok(s)) => gpio_probes(v@) == s,
            (Err(e), Err(f)) => e@ == f,
            _ => false,
        },
{
    let ghost all = drives(entries@);
    let ghost f = |i: int| gpio_probe(probes@[i], all);
    let mut out: Vec<RenodeProbe> = Vec::new();
    let mut i: usize = 0;
    assert(gpio_probes(out@) =~= Seq::<(Seq<char>, int)>::empty());
    while i < probes.len()
        invariant
            i <= probes@.len(),
            all == drives(entries@),
            f == (|i: int| gpio_probe(probes@[i], all)),
            collected(i as int, f) == Ok::<Seq<(Seq<char>, int)>, Fault>(gpio_probes(out@)),
        decreases probes@.len() - i,
    {
        match compile_probe(&probes[i], entries) {
            Err(e) => {
                assert(f(i as int) == Err::<(Seq<char>, int), Fault>(e@));
                assert(collected(i + 1, f) == Err::<Seq<(Seq<char>, int)>, Fault>(e@));
                proof {
                    lemma_collected_stops(probes@.len() as int, f, i + 1);
                }
                return Err(e);
            },
            Ok(probe) => {
                let ghost before = gpio_probes(out@);
                assert(f(i as int) == Ok::<(Seq<char>, int), Fault>(probe@));
                out.push(probe);
                assert(gpio_probes(out@) =~= before.push(probe@));
            },
        }
        i = i + 1;
    }
    Ok(out)
}

/// Why a step and a stop time are refused.
pub open spec fn time_failure(step: Real, stop: Real) -> Option<Fault> {
    let zero = Real { bits: 0 };
    if !step.finite() || step.at_most(zero) {
        Some(
            fault(
                "renode_time_invalid"@,
                "FirmwareTransient step must be finite and greater than zero"@,
            ),
        )
    } else if !stop.finite() || stop.at_most(zero) {
        Some(
            fault(
                "renode_time_invalid"@,
                "FirmwareTransient stop must be finite and greater than zero"@,
            ),
        )
    } else {
        None
    }
}

pub fn validate_time(step: Real, stop: Real) -> (r: Result<(), EngineError>)
    ensures
        passes(r, time_failure(step, stop)),
{
    let zero = Real { bits: 0 };
    if !step.is_finite() || step.le(zero) {
        return Err(
            EngineError::new(
                "renode_time_invalid",
                "FirmwareTransient step must be finite and greater than zero",
            ),
        );
    }
    if !stop.is_finite() || stop.le(zero) {
        return Err(
            EngineError::new(
                "renode_time_invalid",
                "FirmwareTransient stop must be finite and greater than zero",
            ),
        );
    }
    Ok(())
}

/// The time of the next sample: a step later, but not after the end.
pub open spec fn next_sample(current: Real, step: Real, stop: Real) -> Real {
    let next = later(current, step);
    if next.less(stop) {
        next
    } else {
        stop
    }
}

/// The times of the samples, going on from those that are known.
pub open spec fn sampling(step: Real, stop: Real, sources: nat, times: Seq<Real>) -> Result<
    Seq<Real>,
    Fault,
>
    decreases MAX_RENODE_SAMPLE_POINTS - times.len(),
    when sources > 0 && times.len() > 0
{
    let current = times.last();
    let next = next_sample(current, step, stop);
    if !current.less(stop) {
        Ok(times)
    } else if next.at_most(current) {
        Err(
            fault(
                "renode_time_invalid"@,
                "firmware sampling step does not advance virtual time"@,
            ),
        )
    } else if (times.len() + 1) * sources > MAX_RENODE_SAMPLE_POINTS {
        Err(
            fault(
                "execution_resource_limit"@,
                "Renode firmware run would create more than "@ + decimal(100_000)
                    + " GPIO sample points"@,
            ),
        )
    } else {
        proof {
            assert(times.len() + 1 <= (times.len() + 1) * sources) by (nonlinear_arith)
                requires
                    sources > 0,
            ;
        }
        sampling(step, stop, sources, times.push(next))
    }
}

/// The times of the samples.
pub open spec fn times_of(step: Real, stop: Real, sources: nat) -> Result<Seq<Real>, Fault> {
    sampling(step, stop, sources, seq![Real { bits: 0 }])
}

/// Times that are all finite.
pub open spec fn all_finite(times: Seq<Real>) -> bool {
    forall|i: int| 0 <= i < times.len() ==> (#[trigger] times[i]).finite()
}

pub fn sample_times(step: Real, stop: Real, source_count: usize) -> (r: Result<
    Vec<Real>,
    EngineError,
>)
    requires
        source_count > 0,
        stop.finite(),
    ensures
        match (r, times_of(step, stop, source_count as nat)) {
            (Ok(v), Ok(s)) => v@ == s && v@.len() > 0 && all_finite(v@),
            (Err(e), Err(f)) => e@ == f,
            _ => false,
        },
{
    let zero = Real { bits: 0 };
    let mut times: Vec<Real> = Vec::new();
    times.push(zero);
    assert(times@ =~= seq![zero]);
    assert(zero.finite());
    let mut current = zero;
    while current.lt(stop)
        invariant
            source_count > 0,
            stop.finite(),
            times@.len() > 0,
            times@.len() <= MAX_RENODE_SAMPLE_POINTS,
            all_finite(times@),
            current == times@.last(),
            times_of(step, stop, source_count as nat) == sampling(
                step,
                stop,
                source_count as nat,
                times@,
            ),
        decreases MAX_RENODE_SAMPLE_POINTS - times@.len(),
    {
        let later_time = add_time(current, step);
        let next = if later_time.lt(stop) {
            later_time
        } else {
            stop
        };
        if next.le(current) {
            return Err(
                EngineError::new(
                    "renode_time_invalid",
                    "firmware sampling step does not advance virtual time",
                ),
            );
        }
        let ghost n = times@.len();
        let limit: usize = MAX_RENODE_SAMPLE_POINTS / source_count;
        proof {
            let s = source_count as int;
            let all = MAX_RENODE_SAMPLE_POINTS as int;
            assert(((n + 1) * s > all) == (n + 1 > all / s)) by (nonlinear_arith)
                requires
                    s > 0,
                    all >= 0,
            ;
            assert(n + 1 <= (n + 1) * s) by (nonlinear_arith)
                requires
                    s > 0,
            ;
        }
        if times.len() + 1 > limit {
            return Err(
                fail(
                    "execution_resource_limit",
                    cat3(
                        "Renode firmware run would create more than ",
                        decimal_text(100_000).as_str(),
                        " GPIO sample points",
                    ),
                ),
            );
        }
        proof {
            if later_time.less(stop) {
                lemma_between_is_finite(current, later_time, stop);
            }
        }
        let ghost before = times@;
        times.push(next);
        current = next;
        assert(times@ =~= before.push(next));
    }
    Ok(times)
}

/// A time between finite ones is finite.
proof fn lemma_between_is_finite(before: Real, time: Real, after: Real)
    requires
        before.finite(),
        after.finite(),
        time.less(after),
        !time.at_most(before),
    ensures
        time.finite(),
{
}

/// The lines that give a pin an observer.
pub open spec fn bridge_lines(source: Gpio, i: int) -> Seq<Seq<Sign>> {
    if source.synthetic {
        let pin = decimal(source.pin);
        let index = decimal(i as nat);
        seq![
            letters(
                "machine LoadPlatformDescriptionFromString \""@ + source.port + ": { "@ + pin
                    + " -> oxsim_gpio_"@ + index + "@0 }; oxsim_gpio_"@ + index
                    + ": Miscellaneous.LED @ "@ + source.port + " "@ + pin + "\""@,
            ),
        ]
    } else {
        Seq::empty()
    }
}

/// The line that loads the firmware.
pub open spec fn load_line(firmware: FirmwareArtifact) -> Result<Seq<char>, Fault> {
    let file = "firmware."@ + firmware.spec_extension();
    match firmware.format {
        FirmwareFormat::Elf => Ok("sysbus LoadELF @"@ + file),
        FirmwareFormat::IntelHex => Ok("sysbus LoadHEX @"@ + file),
        FirmwareFormat::Binary => match firmware.load_address {
            None => Err(
                fault(
                    "firmware_artifact_invalid"@,
                    "raw binary firmware requires an explicit load_address"@,
                ),
            ),
            Some(address) => Ok(
                "sysbus LoadBinary @"@ + file + " 0x"@ + hexadecimal(address as nat),
            ),
        },
    }
}

/// The lines that set where the firmware starts.
pub open spec fn entry_lines(target: RenodeTarget) -> Seq<Seq<Sign>> {
    match target.firmware.entry_point {
        None => Seq::empty(),
        Some(entry) => seq![letters(target.cpu@ + " PC 0x"@ + hexadecimal(entry as nat))],
    }
}

/// The lines that sample one pin.
pub open spec fn sample_lines(source: Gpio, i: int, time: Real) -> Seq<Seq<Sign>> {
    seq![
        letters("log \""@ + SAMPLE_MARKER@ + decimal(i as nat) + "|"@) + fixed_figure(time)
            + letters("\""@),
        letters(source.object + " State"@),
    ]
}

/// The lines that sample all pins.
pub open spec fn all_sample_lines(sources: Seq<Gpio>, time: Real) -> Seq<Seq<Sign>> {
    crate::text::concat_upto(
        sources.len() as int,
        |i: int| sample_lines(sources[i], i, time),
    )
}

/// The lines that run up to a sample and take it.
pub open spec fn step_lines(sources: Seq<Gpio>, times: Seq<Real>, i: int) -> Seq<Seq<Sign>> {
    seq![
        letters("emulation RunFor \""@) + fixed_figure(times[i + 1].difference(times[i]))
            + letters("\""@),
    ] + all_sample_lines(sources, times[i + 1])
}

/// The lines of a script.
pub open spec fn script_lines(
    target: RenodeTarget,
    load: Seq<char>,
    sources: Seq<Gpio>,
    times: Seq<Real>,
) -> Seq<Seq<Sign>> {
    seq![
        letters("using sysbus"@),
        letters("mach create \"oxsim\""@),
        letters("machine LoadPlatformDescription @"@ + target.platform@),
    ] + crate::text::concat_upto(sources.len() as int, |i: int| bridge_lines(sources[i], i))
        + seq![letters(load)] + entry_lines(target) + all_sample_lines(sources, times[0])
        + crate::text::concat_upto(times.len() - 1, |i: int| step_lines(sources, times, i))
        + seq![letters("quit"@), letters(""@)]
}

/// The script of a run.
pub open spec fn script_of(target: RenodeTarget, sources: Seq<Gpio>, times: Seq<Real>) -> Result<
    Seq<Sign>,
    Fault,
> {
    match load_line(target.firmware) {
        Err(f) => Err(f),
        Ok(load) => Ok(stack_of(script_lines(target, load, sources, times))),
    }
}

fn push_bridges(lines: &mut Vec<Draft>, sources: &Vec<GpioSource>)
    ensures
        drafts(final(lines)@) == drafts(old(lines)@) + crate::text::concat_upto(
            sources@.len() as int,
            |i: int| bridge_lines(gpios(sources@)[i], i),
        ),
{
    let ghost all = gpios(sources@);
    let ghost f = |i: int| bridge_lines(all[i], i);
    let ghost start = drafts(lines@);
    let mut i: usize = 0;
    assert(start + crate::text::concat_upto(0, f) =~= start);
    while i < sources.len()
        invariant
            i <= sources@.len(),
            all == gpios(sources@),
            f == (|i: int| bridge_lines(all[i], i)),
            drafts(lines@) == start + crate::text::concat_upto(i as int, f),
        decreases sources@.len() - i,
    {
        let source = &sources[i];
        let ghost before = drafts(lines@);
        assert(all[i as int] == source@);
        if source.synthetic_observer {
            let pin = decimal_text(source.pin as u64);
            let index = decimal_text(i as u64);
            let start_text = cat9(
                "machine LoadPlatformDescriptionFromString \"",
                source.port.as_str(),
                ": { ",
                pin.as_str(),
                " -> oxsim_gpio_",
                index.as_str(),
                "@0 }; oxsim_gpio_",
                index.as_str(),
                ": Miscellaneous.LED @ ",
            );
            let line = cat5(
                start_text.as_str(),
                source.port.as_str(),
                " ",
                pin.as_str(),
                "\"",
            );
            push_text(lines, line.as_str());
            assert(f(i as int) == seq![letters(line@)]);
        } else {
            assert(f(i as int) == Seq::<Seq<Sign>>::empty());
        }
        assert(drafts(lines@) =~= before + f(i as int));
        assert(drafts(lines@) =~= start + crate::text::concat_upto(i + 1, f));
        i = i + 1;
    }
}

pub fn emit_samples(lines: &mut Vec<Draft>, sources: &Vec<GpioSource>, time: Real)
    ensures
        drafts(final(lines)@) == drafts(old(lines)@) + all_sample_lines(gpios(sources@), time),
{
    let ghost all = gpios(sources@);
    let ghost f = |i: int| sample_lines(all[i], i, time);
    let ghost start = drafts(lines@);
    let mut i: usize = 0;
    assert(start + crate::text::concat_upto(0, f) =~= start);
    while i < sources.len()
        invariant
            i <= sources@.len(),
            all == gpios(sources@),
            f == (|i: int| sample_lines(all[i], i, time)),
            drafts(lines@) == start + crate::text::concat_upto(i as int, f),
        decreases sources@.len() - i,
    {
        let source = &sources[i];
        let ghost before = drafts(lines@);
        assert(all[i as int] == source@);
        let index = decimal_text(i as u64);
        let mut mark = Draft::of(cat4("log \"", SAMPLE_MARKER, index.as_str(), "|").as_str());
        mark.fixed(time);
        mark.text("\"");
        let ghost marked = mark@;
        lines.push(mark);
        assert(drafts(lines@) =~= before.push(marked));
        push_text(lines, cat2(source.object.as_str(), " State").as_str());
        assert(drafts(lines@) =~= before + f(i as int));
        assert(drafts(lines@) =~= start + crate::text::concat_upto(i + 1, f));
        i = i + 1;
    }
}

fn write_load_line(firmware: &FirmwareArtifact) -> (r: Result<String, EngineError>)
    ensures
        crate::nodes::same_text(r, load_line(*firmware)),
{
    let file = cat2("firmware.", firmware.extension());
    match firmware.format {
        FirmwareFormat::Elf => Ok(cat2("sysbus LoadELF @", file.as_str())),
        FirmwareFormat::IntelHex => Ok(cat2("sysbus LoadHEX @", file.as_str())),
        FirmwareFormat::Binary => match firmware.load_address {
            None => Err(
                EngineError::new(
                    "firmware_artifact_invalid",
                    "raw binary firmware requires an explicit load_address",
                ),
            ),
            Some(address) => Ok(
                cat4("sysbus LoadBinary @", file.as_str(), " 0x", hex_text(address).as_str()),
            ),
        },
    }
}

fn push_steps(lines: &mut Vec<Draft>, sources: &Vec<GpioSource>, times: &Vec<Real>)
    requires
        times@.len() > 0,
        all_finite(times@),
    ensures
        drafts(final(lines)@) == drafts(old(lines)@) + crate::text::concat_upto(
            times@.len() - 1,
            |i: int| step_lines(gpios(sources@), times@, i),
        ),
{
    let ghost all = gpios(sources@);
    let ghost f = |i: int| step_lines(all, times@, i);
    let ghost start = drafts(lines@);
    let mut i: usize = 0;
    assert(start + crate::text::concat_upto(0, f) =~= start);
    while i < times.len() - 1
        invariant
            i <= times@.len() - 1,
            times@.len() > 0,
            all_finite(times@),
            all == gpios(sources@),
            f == (|i: int| step_lines(all, times@, i)),
            drafts(lines@) == start + crate::text::concat_upto(i as int, f),
        decreases times@.len() - i,
    {
        let ghost before = drafts(lines@);
        let mut run = Draft::of("emulation RunFor \"");
        run.fixed(times[i + 1].minus(times[i]));
        run.text("\"");
        let ghost written = run@;
        lines.push(run);
        assert(drafts(lines@) =~= before.push(written));
        emit_samples(lines, sources, times[i + 1]);
        assert(drafts(lines@) =~= before + f(i as int));
        assert(drafts(lines@) =~= start + crate::text::concat_upto(i + 1, f));
        i = i + 1;
    }
}

fn build_script(target: &RenodeTarget, sources: &Vec<GpioSource>, times: &Vec<Real>) -> (r: Result<
    Draft,
    EngineError,
>)
    requires
        times@.len() > 0,
        all_finite(times@),
    ensures
        agrees(r, script_of(*target, gpios(sources@), times@)),
{
    let load = match write_load_line(&target.firmware) {
        Err(e) => {
            return Err(e);
        },
        Ok(load) => load,
    };
    let ghost all = gpios(sources@);
    let mut lines: Vec<Draft> = Vec::new();
    assert(drafts(lines@) =~= Seq::<Seq<Sign>>::empty());
    push_text(&mut lines, "using sysbus");
    push_text(&mut lines, "mach create \"oxsim\"");
    push_text(
        &mut lines,
        cat2("machine LoadPlatformDescription @", target.platform.as_str()).as_str(),
    );
    let ghost head = seq![
        letters("using sysbus"@),
        letters("mach create \"oxsim\""@),
        letters("machine LoadPlatformDescription @"@ + target.platform@),
    ];
    assert(drafts(lines@) =~= head);
    push_bridges(&mut lines, sources);
    let ghost bridged = drafts(lines@);
    push_text(&mut lines, load.as_str());
    assert(drafts(lines@) =~= bridged + seq![letters(load@)]);
    let ghost loaded = drafts(lines@);
    match target.firmware.entry_point {
        None => {
            assert(drafts(lines@) =~= loaded + entry_lines(*target));
        },
        Some(entry) => {
            push_text(
                &mut lines,
                cat3(target.cpu.as_str(), " PC 0x", hex_text(entry).as_str()).as_str(),
            );
            assert(drafts(lines@) =~= loaded + entry_lines(*target));
        },
    }
    emit_samples(&mut lines, sources, times[0]);
    push_steps(&mut lines, sources, times);
    let ghost run = drafts(lines@);
    push_text(&mut lines, "quit");
    push_text(&mut lines, "");
    assert(drafts(lines@) =~= run + seq![letters("quit"@), letters(""@)]);
    assert(drafts(lines@) == script_lines(*target, load@, all, times@));
    Ok(stack(&lines))
}

/// The place of the first of the first `n` components with a name.
pub open spec fn component_place(components: Seq<Component>, id: Seq<char>, n: int) -> Option<int>
    decreases n,
{
    if n <= 0 {
        None
    } else {
        match component_place(components, id, n - 1) {
            Some(i) => Some(i),
            None => if components[n - 1].id@ == id {
                Some(n - 1)
            } else {
                None
            },
        }
    }
}

proof fn lemma_component_place_stays(components: Seq<Component>, id: Seq<char>, n: int, m: int)
    requires
        0 <= m <= n,
        component_place(components, id, m) is Some,
    ensures
        component_place(components, id, n) == component_place(components, id, m),
    decreases n - m,
{
    if m < n {
        lemma_component_place_stays(components, id, n, m + 1);
    }
}

fn find_component_place(components: &Vec<Component>, id: &str) -> (r: Option<usize>)
    ensures
        match (r, component_place(components@, id@, components@.len() as int)) {
            (Some(i), Some(k)) => i == k && i < components@.len(),
            (None, None) => true,
            _ => false,
        },
{
    let mut i: usize = 0;
    while i < components.len()
        invariant
            i <= components@.len(),
            component_place(components@, id@, i as int) is None,
        decreases components@.len() - i,
    {
        if text_eq(components[i].id.as_str(), id) {
            proof {
                lemma_component_place_stays(components@, id@, components@.len() as int, i + 1);
            }
            return Some(i);
        }
        i = i + 1;
    }
    None
}

/// The first of the first `n` components that is neither the target nor an
/// observer.
pub open spec fn foreign_place(components: Seq<Component>, id: Seq<char>, n: int) -> Option<int>
    decreases n,
{
    if n <= 0 {
        None
    } else {
        match foreign_place(components, id, n - 1) {
            Some(i) => Some(i),
            None => if components[n - 1].id@ != id && components[n - 1].kind@ != "logic_output"@ {
                Some(n - 1)
            } else {
                None
            },
        }
    }
}

proof fn lemma_foreign_place_stays(components: Seq<Component>, id: Seq<char>, n: int, m: int)
    requires
        0 <= m <= n,
        foreign_place(components, id, m) is Some,
    ensures
        foreign_place(components, id, n) == foreign_place(components, id, m),
    decreases n - m,
{
    if m < n {
        lemma_foreign_place_stays(components, id, n, m + 1);
    }
}

fn find_foreign_place(components: &Vec<Component>, id: &str) -> (r: Option<usize>)
    ensures
        match (r, foreign_place(components@, id@, components@.len() as int)) {
            (Some(i), Some(k)) => i == k && i < components@.len(),
            (None, None) => true,
            _ => false,
        },
{
    let mut i: usize = 0;
    while i < components.len()
        invariant
            i <= components@.len(),
            foreign_place(components@, id@, i as int) is None,
        decreases components@.len() - i,
    {
        if !text_eq(components[i].id.as_str(), id) && !text_eq(
            components[i].kind.as_str(),
            "logic_output",
        ) {
            proof {
                lemma_foreign_place_stays(components@, id@, components@.len() as int, i + 1);
            }
            return Some(i);
        }
        i = i + 1;
    }
    None
}

/// A script with what is to be read from its output.
#[derive(Clone, Debug, PartialEq, Eq)]
pub struct CompiledRenodeRequest {
    pub script: Draft,
    pub step: Real,
    pub sources: Vec<GpioSource>,
    pub probes: Vec<RenodeProbe>,
}

/// What a `CompiledRenodeRequest` says.
pub struct FirmwareRun {
    pub script: Seq<Sign>,
    pub step: Real,
    pub sources: Seq<Gpio>,
    pub probes: Seq<(Seq<char>, int)>,
}

impl View for CompiledRenodeRequest {
    type V = FirmwareRun;

    open spec fn view(&self) -> FirmwareRun {
        FirmwareRun {
            script: self.script@,
            step: self.step,
            sources: gpios(self.sources@),
            probes: gpio_probes(self.probes@),
        }
    }
}

/// The place of the component that runs the firmware of a target.
pub open spec fn mcu_place(components: Seq<Component>, target: RenodeTarget) -> Result<int, Fault> {
    let id = target.component@;
    match component_place(components, id, components.len() as int) {
        None => Err(
            fault(
                "renode_target_missing"@,
                "target MCU component `"@ + id + "` is not present in the circuit"@,
            ),
        ),
        Some(i) => if components[i].kind@ != "mcu"@ {
            Err(
                component_fault(
                    renode_code(),
                    components[i],
                    "target component must use kind `mcu`"@,
                ),
            )
        } else {
            match foreign_place(components, id, components.len() as int) {
                Some(k) => Err(
                    component_fault(
                        renode_code(),
                        components[k],
                        "R6 Renode execution accepts the target mcu plus passive logic_output observation components; cross-engine circuit scheduling is intentionally deferred to the shared co-simulation scheduler"@,
                    ),
                ),
                None => Ok(i),
            }
        },
    }
}

fn find_mcu(components: &Vec<Component>, target: &RenodeTarget) -> (r: Result<usize, EngineError>)
    ensures
        match (r, mcu_place(components@, *target)) {
            (Ok(i), Ok(k)) => i == k && i < components@.len(),
            (Err(e), Err(f)) => e@ == f,
            _ => false,
        },
{
    let id = target.component.as_str();
    let at: usize = match find_component_place(components, id) {
        None => {
            return Err(
                fail(
                    "renode_target_missing",
                    cat3("target MCU component `", id, "` is not present in the circuit"),
                ),
            );
        },
        Some(at) => at,
    };
    if !text_eq(components[at].kind.as_str(), "mcu") {
        return Err(
            component_error(
                "renode_component_invalid",
                &components[at],
                "target component must use kind `mcu`",
            ),
        );
    }
    match find_foreign_place(components, id) {
        Some(k) => Err(
            component_error(
                "renode_component_invalid",
                &components[k],
                "R6 Renode execution accepts the target mcu plus passive logic_output observation components; cross-engine circuit scheduling is intentionally deferred to the shared co-simulation scheduler",
            ),
        ),
        None => Ok(at),
    }
}

/// The run of a request on a target, once its times are accepted.
pub open spec fn firmware_run_from(
    request: SimulationRequest,
    target: RenodeTarget,
    step: Real,
    stop: Real,
) -> Result<FirmwareRun, Fault> {
    let components = request.circuit.components@;
    let nets = request.circuit.nets@;
    match mcu_place(components, target) {
        Err(f) => Err(f),
        Ok(i) => match gpio_sources(components[i], target) {
            Err(f) => Err(f),
            Ok(sources) => match drives_of(nets, components[i], nets.len() as int) {
                Err(f) => Err(f),
                Ok(entries) => match gpio_probes_of(request.probes@, entries) {
                    Err(f) => Err(f),
                    Ok(probes) => match times_of(step, stop, sources.len()) {
                        Err(f) => Err(f),
                        Ok(times) => match script_of(target, sources, times) {
                            Err(f) => Err(f),
                            Ok(script) => Ok(FirmwareRun { script, step, sources, probes }),
                        },
                    },
                },
            },
        },
    }
}

/// The run of a request on a target.
pub open spec fn firmware_run(request: SimulationRequest, target: RenodeTarget) -> Result<
    FirmwareRun,
    Fault,
> {
    match request.analysis {
        Analysis::FirmwareTransient { step, stop } => match time_failure(step, stop) {
            Some(f) => Err(f),
            None => firmware_run_from(request, target, step, stop),
        },
        _ => Err(
            fault(
                "renode_analysis_unsupported"@,
                "RenodeEngine requires Analysis::FirmwareTransient"@,
            ),
        ),
    }
}

pub fn compile_request(request: &SimulationRequest, target: &RenodeTarget) -> (r: Result<
    CompiledRenodeRequest,
    EngineError,
>)
    ensures
        agrees(r, firmware_run(*request, *target)),
{
    let (step, stop) = match &request.analysis {
        Analysis::FirmwareTransient { step, stop } => (*step, *stop),
        _ => {
            return Err(
                EngineError::new(
                    "renode_analysis_unsupported",
                    "RenodeEngine requires Analysis::FirmwareTransient",
                ),
            );
        },
    };
    match validate_time(step, stop) {
        Err(e) => {
            return Err(e);
        },
        Ok(_) => {},
    }
    let components = &request.circuit.components;
    let at: usize = match find_mcu(components, target) {
        Err(e) => {
            return Err(e);
        },
        Ok(at) => at,
    };
    let sources = match compile_gpio_sources(&components[at], target) {
        Err(e) => {
            return Err(e);
        },
        Ok(sources) => sources,
    };
    assert(gpios(sources@).len() == sources@.len());
    let entries = match build_endpoint_source_map(&request.circuit.nets, &components[at]) {
        Err(e) => {
            return Err(e);
        },
        Ok(entries) => entries,
    };
    let probes = match compile_probes(&request.probes, &entries) {
        Err(e) => {
            return Err(e);
        },
        Ok(probes) => probes,
    };
    let times = match sample_times(step, stop, sources.len()) {
        Err(e) => {
            return Err(e);
        },
        Ok(times) => times,
    };
    let script = match build_script(target, &sources, &times) {
        Err(e) => {
            return Err(e);
        },
        Ok(script) => script,
    };
    Ok(CompiledRenodeRequest { script, step, sources, probes })
}

/// A request that the target can run.
pub open spec fn takes_firmware(target: RenodeTarget, request: SimulationRequest) -> bool {
    request.analysis is FirmwareTransient && exists|i: int|
        0 <= i < request.circuit.components@.len() && (
        #[trigger] request.circuit.components@[i]).id@ == target.component@
            && request.circuit.components@[i].kind@ == "mcu"@
}

pub fn supports_request(target: &RenodeTarget, request: &SimulationRequest) -> (r: bool)
    ensures
        r == takes_firmware(*target, *request),
{
    match &request.analysis {
        Analysis::FirmwareTransient { step: _, stop: _ } => {},
        _ => {
            return false;
        },
    }
    let components = &request.circuit.components;
    let mut i: usize = 0;
    while i < components.len()
        invariant
            i <= components@.len(),
            components@ == request.circuit.components@,
            request.analysis is FirmwareTransient,
            forall|k: int|
                0 <= k < i ==> !((#[trigger] request.circuit.components@[k]).id@
                    == target.component@ && request.circuit.components@[k].kind@ == "mcu"@),
        decreases components@.len() - i,
    {
        if text_eq(components[i].id.as_str(), target.component.as_str()) && text_eq(
            components[i].kind.as_str(),
            "mcu",
        ) {
            assert(request.circuit.components@[i as int].id@ == target.component@);
            return true;
        }
        i = i + 1;
    }
    false
}

/// What a line says behind the marker of a sample.
pub open spec fn marker_of(line: Seq<char>) -> Option<Seq<char>> {
    match behind(line, SAMPLE_MARKER@) {
        None => None,
        Some(rest) => Some(peeled(trim(rest), Peel::Quotes)),
    }
}

/// What writes the time of a sample behind its marker; nothing where no time
/// stands there.
pub open spec fn marked_time(marker: Seq<char>) -> Seq<char> {
    let fields = pieces_of(marker, '|');
    if fields.len() > 1 && words_of(fields[1]).len() > 0 {
        peeled(words_of(fields[1])[0], Peel::Quotes)
    } else {
        ""@
    }
}

/// What writes the times of the samples in the first `n` lines.
pub open spec fn marked_times(lines: Seq<Seq<char>>, n: int) -> Seq<Seq<char>>
    decreases n,
{
    if n <= 0 {
        Seq::empty()
    } else {
        match marker_of(lines[n - 1]) {
            None => marked_times(lines, n - 1),
            Some(marker) => marked_times(lines, n - 1).push(marked_time(marker)),
        }
    }
}

fn find_marker(line: &Vec<char>) -> (r: Option<Vec<char>>)
    ensures
        match (r, marker_of(line@)) {
            (Some(v), Some(s)) => v@ == s,
            (None, None) => true,
            _ => false,
        },
{
    match chars_behind(line, SAMPLE_MARKER) {
        None => None,
        Some(rest) => {
            let bounds = trim_bounds(&rest);
            let trimmed = slice_chars(&rest, bounds.0, bounds.1);
            Some(peel_chars(&trimmed, Peel::Quotes))
        },
    }
}

fn find_marked_time(marker: &Vec<char>) -> (r: String)
    ensures
        r@ == marked_time(marker@),
{
    let fields = split_pieces(marker, '|');
    let ghost all = pieces_of(marker@, '|');
    assert(rows(fields@) == all);
    if fields.len() > 1 {
        assert(all[1] == fields@[1]@);
        let words = split_words(&fields[1]);
        assert(rows(words@).len() == words@.len());
        if words.len() > 0 {
            assert(words_of(fields@[1]@)[0] == words@[0]@);
            return from_chars(&peel_chars(&words[0], Peel::Quotes));
        }
    }
    "".to_owned()
}

/// The texts of the times of the samples in a log, in order. They are to be
/// read as numbers and handed to `parse_samples`.
pub fn sample_time_texts(log: &str) -> (r: Vec<String>)
    ensures
        texts(r@) == marked_times(lines_of(log@), lines_of(log@).len() as int),
{
    let lines = split_lines(&to_chars(log));
    let ghost all = rows(lines@);
    let mut out: Vec<String> = Vec::new();
    let mut i: usize = 0;
    assert(texts(out@) =~= Seq::<Seq<char>>::empty());
    while i < lines.len()
        invariant
            i <= lines@.len(),
            all == rows(lines@),
            texts(out@) == marked_times(all, i as int),
        decreases lines@.len() - i,
    {
        assert(all[i as int] == lines@[i as int]@);
        match find_marker(&lines[i]) {
            None => {},
            Some(marker) => {
                let ghost before = texts(out@);
                let text = find_marked_time(&marker);
                out.push(text);
                assert(texts(out@) =~= before.push(text@));
            },
        }
        i = i + 1;
    }
    out
}

/// The state that a line reports.
pub open spec fn state_of(line: Seq<char>) -> Option<bool> {
    let words = words_of(line);
    if words.len() == 0 {
        None
    } else {
        let token = peeled(words.last(), Peel::NonLetters);
        if token == "True"@ || token == "true"@ {
            Some(true)
        } else if token == "False"@ || token == "false"@ {
            Some(false)
        } else {
            None
        }
    }
}

pub fn parse_state_line(line: &Vec<char>) -> (r: Option<bool>)
    ensures
        r == state_of(line@),
{
    let words = split_words(line);
    assert(rows(words@).len() == words@.len());
    if words.len() == 0 {
        return None;
    }
    assert(words_of(line@).last() == words@[words@.len() - 1]@);
    let token = from_chars(&peel_chars(&words[words.len() - 1], Peel::NonLetters));
    if text_eq(token.as_str(), "True") || text_eq(token.as_str(), "true") {
        Some(true)
    } else if text_eq(token.as_str(), "False") || text_eq(token.as_str(), "false") {
        Some(false)
    } else {
        None
    }
}

/// What has been read of a log: the samples of each pin, the marker that waits
/// for its state, and how many markers there were.
pub struct Tally {
    pub samples: Seq<Seq<(Real, bool)>>,
    pub pending: Option<(int, Real)>,
    pub markers: int,
}

pub open spec fn output_fault(message: Seq<char>) -> Fault {
    fault("renode_output_invalid"@, message)
}

/// The number that writes the time of a marker, if any does.
pub open spec fn read_time(times: Seq<Option<Real>>, i: int) -> Option<Real> {
    if 0 <= i < times.len() {
        times[i]
    } else {
        None
    }
}

/// The pin and time of a marker.
pub open spec fn marked_sample(marker: Seq<char>, time: Option<Real>, sources: nat) -> Result<
    (int, Real),
    Fault,
> {
    match unsigned(pieces_of(marker, '|')[0], usize::MAX as nat) {
        None => Err(output_fault("invalid GPIO sample source marker"@)),
        Some(source) => match time {
            None => Err(output_fault("invalid GPIO sample time marker"@)),
            Some(at) => if source >= sources || !at.finite() || at.less(Real { bits: 0 }) {
                Err(
                    output_fault(
                        "Renode GPIO sample marker is outside the compiled source/time range"@,
                    ),
                )
            } else {
                Ok((source as int, at))
            },
        },
    }
}

/// What has been read after one more line.
pub open spec fn tally_step(
    before: Tally,
    line: Seq<char>,
    times: Seq<Option<Real>>,
    sources: nat,
) -> Result<Tally, Fault> {
    match marker_of(line) {
        Some(marker) => match marked_sample(marker, read_time(times, before.markers), sources) {
            Err(f) => Err(f),
            Ok(sample) => Ok(
                Tally { pending: Some(sample), markers: before.markers + 1, ..before },
            ),
        },
        None => match before.pending {
            None => Ok(before),
            Some((source, time)) => match state_of(line) {
                None => Ok(before),
                Some(state) => Ok(
                    Tally {
                        samples: before.samples.update(
                            source,
                            before.samples[source].push((time, state)),
                        ),
                        pending: None,
                        ..before
                    },
                ),
            },
        },
    }
}

/// What has been read after the first `n` lines.
pub open spec fn tallied(
    lines: Seq<Seq<char>>,
    times: Seq<Option<Real>>,
    sources: nat,
    n: int,
) -> Result<Tally, Fault>
    decreases n,
{
    if n <= 0 {
        Ok(
            Tally {
                samples: Seq::new(sources, |i: int| Seq::<(Real, bool)>::empty()),
                pending: None,
                markers: 0,
            },
        )
    } else {
        match tallied(lines, times, sources, n - 1) {
            Err(f) => Err(f),
            Ok(before) => tally_step(before, lines[n - 1], times, sources),
        }
    }
}

proof fn lemma_tallied_stops(
    lines: Seq<Seq<char>>,
    times: Seq<Option<Real>>,
    sources: nat,
    n: int,
    m: int,
)
    requires
        0 <= m <= n,
        tallied(lines, times, sources, m) is Err,
    ensures
        tallied(lines, times, sources, n) == tallied(lines, times, sources, m),
    decreases n - m,
{
    if m < n {
        lemma_tallied_stops(lines, times, sources, n, m + 1);
    }
}

/// Whether some pin has no sample.
pub open spec fn some_empty(samples: Seq<Seq<(Real, bool)>>) -> bool {
    exists|i: int| 0 <= i < samples.len() && (#[trigger] samples[i]).len() == 0
}

/// The samples in a log, pin by pin.
pub open spec fn samples_in(log: Seq<char>, times: Seq<Option<Real>>, sources: nat) -> Result<
    Seq<Seq<(Real, bool)>>,
    Fault,
> {
    match tallied(lines_of(log), times, sources, lines_of(log).len() as int) {
        Err(f) => Err(f),
        Ok(tally) => if tally.pending is Some || some_empty(tally.samples) {
            Err(
                output_fault(
                    "Renode output did not contain a complete GPIO sample stream: "@ + log_end(
                        log,
                    ),
                ),
            )
        } else {
            Ok(tally.samples)
        },
    }
}

/// The samples of all pins.
pub open spec fn sample_views(v: Seq<Vec<(Real, bool)>>) -> Seq<Seq<(Real, bool)>> {
    v.map_values(|s: Vec<(Real, bool)>| s@)
}

fn read_marker(marker: &Vec<char>, time: Option<Real>, source_count: usize) -> (r: Result<
    (usize, Real),
    EngineError,
>)
    ensures
        match (r, marked_sample(marker@, time, source_count as nat)) {
            (Ok(v), Ok(s)) => v.0 == s.0 && v.1 == s.1 && v.0 < source_count,
            (Err(e), Err(f)) => e@ == f,
            _ => false,
        },
{
    let fields = split_pieces(marker, '|');
    assert(rows(fields@).len() == fields@.len());
    assert(pieces_of(marker@, '|')[0] == fields@[0]@);
    let source: usize = match parse_unsigned(&fields[0], usize::MAX as u64) {
        None => {
            return Err(
                EngineError::new("renode_output_invalid", "invalid GPIO sample source marker"),
            );
        },
        Some(source) => source as usize,
    };
    let at = match time {
        None => {
            return Err(
                EngineError::new("renode_output_invalid", "invalid GPIO sample time marker"),
            );
        },
        Some(at) => at,
    };
    if source >= source_count || !at.is_finite() || at.lt(Real { bits: 0 }) {
        return Err(
            EngineError::new(
                "renode_output_invalid",
                "Renode GPIO sample marker is outside the compiled source/time range",
            ),
        );
    }
    Ok((source, at))
}

fn has_empty(samples: &Vec<Vec<(Real, bool)>>) -> (r: bool)
    ensures
        r == some_empty(sample_views(samples@)),
{
    let ghost all = sample_views(samples@);
    let mut i: usize = 0;
    while i < samples.len()
        invariant
            i <= samples@.len(),
            all == sample_views(samples@),
            forall|k: int| 0 <= k < i ==> (#[trigger] all[k]).len() != 0,
        decreases samples@.len() - i,
    {
        assert(all[i as int] == samples@[i as int]@);
        if samples[i].len() == 0 {
            assert(all[i as int].len() == 0);
            return true;
        }
        i = i + 1;
    }
    false
}

/// The samples in a log, pin by pin. `times` holds the numbers that the texts of
/// `sample_time_texts` write.
pub fn parse_samples(log: &str, times: &Vec<Option<Real>>, source_count: usize) -> (r: Result<
    Vec<Vec<(Real, bool)>>,
    EngineError,
>)
    ensures
        match (r, samples_in(log@, times@, source_count as nat)) {
            (Ok(v), Ok(s)) => sample_views(v@) == s && v@.len() == source_count,
            (Err(e), Err(f)) => e@ == f,
            _ => false,
        },
{
    let lines = split_lines(&to_chars(log));
    let ghost all = rows(lines@);
    let ghost count = source_count as nat;
    let mut samples: Vec<Vec<(Real, bool)>> = Vec::new();
    let mut k: usize = 0;
    while k < source_count
        invariant
            k <= source_count,
            samples@.len() == k,
            forall|j: int| 0 <= j < k ==> (#[trigger] samples@[j])@ =~= Seq::<(Real, bool)>::empty(),
        decreases source_count - k,
    {
        samples.push(Vec::new());
        k = k + 1;
    }
    let mut pending: Option<(usize, Real)> = None;
    let mut markers: usize = 0;
    let mut i: usize = 0;
    assert(sample_views(samples@) =~= Seq::new(count, |i: int| Seq::<(Real, bool)>::empty()));
    while i < lines.len()
        invariant
            i <= lines@.len(),
            all == rows(lines@),
            all == lines_of(log@),
            count == source_count,
            samples@.len() == source_count,
            markers <= i,
            pending matches Some(p) ==> p.0 < source_count,
            tallied(all, times@, count, i as int) == Ok::<Tally, Fault>(
                Tally {
                    samples: sample_views(samples@),
                    pending: match pending {
                        Some(p) => Some((p.0 as int, p.1)),
                        None => None,
                    },
                    markers: markers as int,
                },
            ),
        decreases lines@.len() - i,
    {
        assert(all[i as int] == lines@[i as int]@);
        match find_marker(&lines[i]) {
            Some(marker) => {
                let time = if markers < times.len() {
                    times[markers]
                } else {
                    None
                };
                match read_marker(&marker, time, source_count) {
                    Err(e) => {
                        proof {
                            lemma_tallied_stops(all, times@, count, all.len() as int, i + 1);
                        }
                        return Err(e);
                    },
                    Ok(sample) => {
                        pending = Some(sample);
                    },
                }
                markers = markers + 1;
            },
            None => {
                match pending {
                    None => {},
                    Some(p) => {
                        match parse_state_line(&lines[i]) {
                            None => {},
                            Some(state) => {
                                let ghost before = sample_views(samples@);
                                samples[p.0].push((p.1, state));
                                assert(sample_views(samples@) =~= before.update(
                                    p.0 as int,
                                    before[p.0 as int].push((p.1, state)),
                                ));
                                pending = None;
                            },
                        }
                    },
                }
            },
        }
        i = i + 1;
    }
    if pending.is_some() || has_empty(&samples) {
        return Err(
            fail(
                "renode_output_invalid",
                cat2(
                    "Renode output did not contain a complete GPIO sample stream: ",
                    bounded_log(log).as_str(),
                ),
            ),
        );
    }
    Ok(samples)
}

/// The level of a state.
pub open spec fn state_level(state: bool) -> LogicValue {
    if state {
        LogicValue::One
    } else {
        LogicValue::Zero
    }
}

/// The changes among the first `n` samples of a pin.
pub open spec fn changes(samples: Seq<(Real, bool)>, n: int) -> Seq<DigitalTransition>
    decreases n,
{
    if n <= 0 {
        Seq::empty()
    } else {
        let before = changes(samples, n - 1);
        let (time, state) = samples[n - 1];
        let value = state_level(state);
        if before.len() > 0 && before.last().value == value {
            before
        } else {
            before.push(DigitalTransition { time, value })
        }
    }
}

pub fn transitions_from_samples(samples: &Vec<(Real, bool)>) -> (r: Vec<DigitalTransition>)
    ensures
        r@ == changes(samples@, samples@.len() as int),
{
    let mut out: Vec<DigitalTransition> = Vec::new();
    let mut i: usize = 0;
    while i < samples.len()
        invariant
            i <= samples@.len(),
            out@ == changes(samples@, i as int),
        decreases samples@.len() - i,
    {
        let (time, state) = samples[i];
        let value = if state {
            LogicValue::One
        } else {
            LogicValue::Zero
        };
        if !(out.len() > 0 && out[out.len() - 1].value == value) {
            out.push(DigitalTransition { time, value });
        }
        i = i + 1;
    }
    out
}

/// The transitions of a pin change its level each time, and the last of them
/// is at the level of the last sample.
pub proof fn transitions_change_the_level(samples: Seq<(Real, bool)>, n: int, i: int, j: int)
    requires
        0 <= n <= samples.len(),
        0 <= i,
        j == i + 1,
        j < changes(samples, n).len(),
    ensures
        changes(samples, n)[i].value != changes(samples, n)[j].value,
        changes(samples, n).last().value == state_level(samples[n - 1].1),
    decreases n,
{
    if n > 0 {
        let before = changes(samples, n - 1);
        if j < before.len() {
            transitions_change_the_level(samples, n - 1, i, j);
        }
    }
}

/// What ends the wait for a running board.
pub open spec fn board_wait_failure(
    policy: ExecutionPolicy,
    cancelled: bool,
    elapsed_ms: u128,
    log_bytes: u64,
) -> Option<Fault> {
    if cancelled {
        Some(fault("execution_cancelled"@, "Renode execution was cancelled"@))
    } else if policy.timeout_ms != 0 && elapsed_ms >= policy.timeout_ms {
        Some(
            Fault {
                retryable: true,
                ..fault(
                    "execution_timeout"@,
                    "Renode execution exceeded timeout of "@ + decimal(policy.timeout_ms as nat)
                        + " ms"@,
                )
            },
        )
    } else {
        size_failure("Renode log"@, log_bytes, policy.max_log_bytes)
    }
}

/// Whether to wait on for a running board. A log that does not exist has no
/// bytes.
pub fn check_board_wait(
    policy: &ExecutionPolicy,
    cancelled: bool,
    elapsed_ms: u128,
    log_bytes: u64,
) -> (r: Result<(), EngineError>)
    ensures
        passes(r, board_wait_failure(*policy, cancelled, elapsed_ms, log_bytes)),
{
    if cancelled {
        return Err(EngineError::new("execution_cancelled", "Renode execution was cancelled"));
    }
    if policy.timeout_ms != 0 && elapsed_ms >= policy.timeout_ms as u128 {
        return Err(
            fail(
                "execution_timeout",
                cat3(
                    "Renode execution exceeded timeout of ",
                    decimal_text(policy.timeout_ms).as_str(),
                    " ms",
                ),
            ).retryable(true),
        );
    }
    enforce_buffer_limit("Renode log", log_bytes, policy.max_log_bytes)
}

/// Entries whose pins are all among the first `pins`.
pub open spec fn drives_known_pins(entries: Seq<Drive>, pins: int) -> bool {
    forall|i: int| 0 <= i < entries.len() ==> 0 <= (#[trigger] entries[i]).source < pins
}

proof fn lemma_pin_place_bounds(pins: Seq<Pin>, id: Seq<char>, n: int)
    requires
        0 <= n,
    ensures
        pin_place(pins, id, n) matches Some(i) ==> 0 <= i < n,
    decreases n,
{
    if n > 0 {
        lemma_pin_place_bounds(pins, id, n - 1);
    }
}

proof fn lemma_net_driver_bounds(endpoints: Seq<NetEndpoint>, component: Component, n: int)
    requires
        0 <= n,
    ensures
        net_drivers(endpoints, component, n) matches Drivers::Sole(i) ==> 0 <= i
            < component.pins@.len(),
    decreases n,
{
    if n > 0 {
        lemma_net_driver_bounds(endpoints, component, n - 1);
        lemma_pin_place_bounds(
            component.pins@,
            endpoints[n - 1].pin@,
            component.pins@.len() as int,
        );
    }
}

proof fn lemma_drives_known_pins(nets: Seq<Net>, component: Component, n: int)
    requires
        0 <= n,
        drives_of(nets, component, n) is Ok,
    ensures
        drives_known_pins(drives_of(nets, component, n)->Ok_0, component.pins@.len() as int),
    decreases n,
{
    if n > 0 {
        lemma_drives_known_pins(nets, component, n - 1);
        let net = nets[n - 1];
        lemma_net_driver_bounds(net.endpoints@, component, net.endpoints@.len() as int);
    }
}

proof fn lemma_driver_known(entries: Seq<Drive>, component: Seq<char>, pin: Seq<char>, pins: int)
    requires
        drives_known_pins(entries, pins),
    ensures
        driver_of(entries, component, pin) matches Some(i) ==> 0 <= i < pins,
    decreases entries.len(),
{
    if entries.len() > 0 {
        let rest = entries.drop_last();
        assert forall|i: int| 0 <= i < rest.len() implies 0 <= (#[trigger] rest[i]).source
            < pins by {
            assert(rest[i] == entries[i]);
        }
        assert(entries[entries.len() - 1] == entries.last());
        lemma_driver_known(rest, component, pin, pins);
    }
}

/// Every probe of a run shows a pin that is sampled.
pub proof fn probes_show_sampled_pins(request: SimulationRequest, target: RenodeTarget, i: int)
    requires
        firmware_run(request, target) is Ok,
        0 <= i < firmware_run(request, target)->Ok_0.probes.len(),
    ensures
        0 <= firmware_run(request, target)->Ok_0.probes[i].1 < firmware_run(
            request,
            target,
        )->Ok_0.sources.len(),
{
    let components = request.circuit.components@;
    let nets = request.circuit.nets@;
    let at = mcu_place(components, target)->Ok_0;
    let component = components[at];
    let entries = drives_of(nets, component, nets.len() as int)->Ok_0;
    lemma_drives_known_pins(nets, component, nets.len() as int);
    lemma_collected_at(
        component.pins@.len() as int,
        |i: int| gpio_source(component, observers(target.gpio_observers@), i),
    );
    let f = |i: int| gpio_probe(request.probes@[i], entries);
    lemma_collected_at(request.probes@.len() as int, f);
    let probe = request.probes@[i];
    assert(f(i) == Ok::<(Seq<char>, int), Fault>(
        firmware_run(request, target)->Ok_0.probes[i],
    ));
    lemma_driver_known(
        entries,
        probe.endpoint.component@,
        probe.endpoint.pin@,
        component.pins@.len() as int,
    );
}

/// The waveform of a pin ends with the level of its last sample, high for a state that
/// is on and low for one that is off, and begins with its first sample.
pub proof fn waveforms_show_the_sampled_states(samples: Seq<(Real, bool)>, n: int)
    requires
        0 < n <= samples.len(),
    ensures
        changes(samples, n).len() > 0,
        samples[n - 1].1 ==> changes(samples, n).last().value == LogicValue::One,
        !samples[n - 1].1 ==> changes(samples, n).last().value == LogicValue::Zero,
        changes(samples, n)[0].time == samples[0].0,
        n > 1 && samples[n - 1].1 != samples[n - 2].1 ==> changes(samples, n).last().time
            == samples[n - 1].0,
    decreases n,
{
    if n > 1 {
        waveforms_show_the_sampled_states(samples, n - 1);
    } else {
        assert(changes(samples, 0).len() == 0);
    }
}

} // verus!
