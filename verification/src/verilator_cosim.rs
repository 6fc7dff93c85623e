//! The protocol of an incremental HDL session: the harness that is built around
//! a module, the state lines that it answers with, and what a participant sends
//! it and keeps of it.
use crate::circuit::{PinDirection, SignalDomain};
use crate::control::{check_signal, signal_failure, ExecutionPolicy};
use crate::cosim::{CoSimulationPort, CoSimulationTime, CoSimulationValue};
use crate::fault::{fail, fault, passes, EngineError, Fault};
use crate::hdl::{is_safe_identifier, source_failure, validate_hdl_source};
use crate::lines::{rows, split_words, words_of};
use crate::model::{ModelDefinition, ModelLanguage};
use crate::nodes::{holds_text, same_text};
use crate::reading::same;
use crate::text::{
    blank, cat2, cat3, cat5, concat_upto, decimal, decimal_text, find_first, from_chars, is_blank,
    parse_unsigned, slice_chars, split_once, text_eq, texts, to_chars, unsigned,
};
use crate::validation::identifier;
use crate::verilator::{is_hdl, is_hdl_model};
use crate::waveform::LogicValue;
use vstd::prelude::*;

verus! {

/// The start of the harness: what it needs, and the start of the state line.
pub const HARNESS_HEAD: &'static str = "#include \"OxCosimModel.h\"
#include \"verilated.h\"
#include <cstdint>
#include <iostream>
#include <memory>
#include <sstream>
#include <string>

static void emit_state(VerilatedContext* contextp, OxCosimModel* top) {
  std::cout << \"STATE \" << contextp->time();";

/// The end of the state line, and the start of the program.
pub const HARNESS_MAIN: &'static str = "
  if (top->eventsPending()) std::cout << \" NEXT=\" << top->nextTimeSlot();
  else std::cout << \" NEXT=-\";
  std::cout << std::endl;
}

int main(int argc, char** argv) {
  auto contextp = std::make_unique<VerilatedContext>();
  contextp->commandArgs(argc, argv);
  auto top = std::make_unique<OxCosimModel>(contextp.get());";

/// The first state, and the start of the loop over the commands.
pub const HARNESS_LOOP: &'static str = "
  top->eval();
  emit_state(contextp.get(), top.get());
  std::string line;
  while (std::getline(std::cin, line)) {
    std::istringstream input(line);
    std::string command;
    input >> command;
    if (command == \"QUIT\") break;
    if (command == \"SET\") {
      std::size_t index = 0; unsigned value = 0; input >> index >> value;
      switch (index) {";

/// The end of the loop.
pub const HARNESS_TAIL: &'static str = "
        default: std::cerr << \"invalid SET port index\" << std::endl; return 2;
      }
      top->eval();
      emit_state(contextp.get(), top.get());
      continue;
    }
    if (command == \"ADV\") {
      std::uint64_t target = 0; input >> target;
      if (target < contextp->time()) { std::cerr << \"time moved backwards\" << std::endl; return 3; }
      std::uint64_t internal_steps = 0;
      while (top->eventsPending() && top->nextTimeSlot() <= target) {
        if (++internal_steps > 1000000ULL) { std::cerr << \"internal event limit exceeded\" << std::endl; return 5; }
        const auto next = top->nextTimeSlot();
        contextp->time(next);
        top->eval();
      }
      if (contextp->time() < target) { contextp->time(target); top->eval(); }
      emit_state(contextp.get(), top.get());
      continue;
    }
    std::cerr << \"unknown command\" << std::endl; return 4;
  }
  top->final();
  return 0;
}";

/// The level of one port.
#[derive(Clone, Debug, PartialEq, Eq)]
pub struct PortLevel {
    pub name: String,
    pub value: LogicValue,
}

/// The levels of ports by name.
#[derive(Clone, Debug, PartialEq, Eq)]
pub struct PortLevels {
    pub entries: Vec<PortLevel>,
}

impl View for PortLevels {
    type V = Seq<(Seq<char>, LogicValue)>;

    open spec fn view(&self) -> Seq<(Seq<char>, LogicValue)> {
        self.entries@.map_values(|e: PortLevel| (e.name@, e.value))
    }
}

/// Where a port stands first among levels, or their number where it does not.
pub open spec fn level_place(levels: Seq<(Seq<char>, LogicValue)>, name: Seq<char>) -> int
    decreases levels.len(),
{
    if levels.len() == 0 {
        0
    } else {
        let before = level_place(levels.drop_last(), name);
        if before < levels.len() - 1 || levels.last().0 == name {
            before
        } else {
            levels.len() as int
        }
    }
}

/// The level of a port.
pub open spec fn level_at(levels: Seq<(Seq<char>, LogicValue)>, name: Seq<char>) -> Option<
    LogicValue,
> {
    let place = level_place(levels, name);
    if place < levels.len() {
        Some(levels[place].1)
    } else {
        None
    }
}

/// Levels with that of one port set.
pub open spec fn with_level(
    levels: Seq<(Seq<char>, LogicValue)>,
    name: Seq<char>,
    value: LogicValue,
) -> Seq<(Seq<char>, LogicValue)> {
    let place = level_place(levels, name);
    if place < levels.len() {
        levels.update(place, (name, value))
    } else {
        levels.push((name, value))
    }
}

proof fn lemma_level_place_bounds(levels: Seq<(Seq<char>, LogicValue)>, name: Seq<char>)
    ensures
        0 <= level_place(levels, name) <= levels.len(),
        level_place(levels, name) < levels.len() ==> levels[level_place(levels, name)].0 == name,
        forall|j: int|
            0 <= j < level_place(levels, name) ==> (#[trigger] levels[j]).0 != name,
    decreases levels.len(),
{
    if levels.len() > 0 {
        let rest = levels.drop_last();
        lemma_level_place_bounds(rest, name);
        assert forall|j: int| 0 <= j < level_place(levels, name) implies (
        #[trigger] levels[j]).0 != name by {
            if j < rest.len() {
                assert(rest[j] == levels[j]);
            }
        }
    }
}

proof fn lemma_level_place_is(levels: Seq<(Seq<char>, LogicValue)>, name: Seq<char>, place: int)
    requires
        0 <= place <= levels.len(),
        place < levels.len() ==> levels[place].0 == name,
        forall|j: int| 0 <= j < place ==> (#[trigger] levels[j]).0 != name,
    ensures
        level_place(levels, name) == place,
{
    lemma_level_place_bounds(levels, name);
    let found = level_place(levels, name);
    if found < place {
        assert(levels[found].0 != name);
    }
    if place < found {
        assert(levels[place].0 != name);
    }
}

/// A level that is set is read back, and the levels of the other ports stay.
pub proof fn set_levels_are_read_back(
    levels: Seq<(Seq<char>, LogicValue)>,
    name: Seq<char>,
    value: LogicValue,
    other: Seq<char>,
)
    ensures
        level_at(with_level(levels, name, value), name) == Some(value),
        other != name ==> level_at(with_level(levels, name, value), other) == level_at(
            levels,
            other,
        ),
{
    let after = with_level(levels, name, value);
    lemma_level_place_bounds(levels, name);
    let place = level_place(levels, name);
    assert forall|j: int| 0 <= j < place implies (#[trigger] after[j]).0 != name by {
        assert(levels[j].0 != name);
    }
    lemma_level_place_is(after, name, place);
    if other != name {
        lemma_level_place_bounds(levels, other);
        let spot = level_place(levels, other);
        if spot < levels.len() {
            assert forall|j: int| 0 <= j < spot implies (#[trigger] after[j]).0 != other by {
                assert(levels[j].0 != other);
            }
            lemma_level_place_is(after, other, spot);
        } else {
            assert forall|j: int| 0 <= j < after.len() implies (#[trigger] after[j]).0
                != other by {
                if j < levels.len() {
                    assert(levels[j].0 != other);
                }
            }
            lemma_level_place_is(after, other, after.len() as int);
        }
    }
}

impl PortLevels {
    pub fn new() -> (r: Self)
        ensures
            r@ == Seq::<(Seq<char>, LogicValue)>::empty(),
    {
        let r = PortLevels { entries: Vec::new() };
        assert(r@ =~= Seq::<(Seq<char>, LogicValue)>::empty());
        r
    }

    fn place(&self, name: &str) -> (r: usize)
        ensures
            r == level_place(self@, name@),
            r <= self.entries@.len(),
    {
        let mut i: usize = 0;
        while i < self.entries.len()
            invariant
                i <= self.entries@.len(),
                forall|j: int| 0 <= j < i ==> (#[trigger] self@[j]).0 != name@,
            decreases self.entries@.len() - i,
        {
            assert(self@[i as int].0 == self.entries@[i as int].name@);
            if text_eq(self.entries[i].name.as_str(), name) {
                proof {
                    lemma_level_place_is(self@, name@, i as int);
                }
                return i;
            }
            i = i + 1;
        }
        proof {
            lemma_level_place_is(self@, name@, i as int);
        }
        i
    }

    pub fn get(&self, name: &str) -> (r: Option<LogicValue>)
        ensures
            r == level_at(self@, name@),
    {
        let at: usize = self.place(name);
        if at < self.entries.len() {
            assert(self@[at as int].1 == self.entries@[at as int].value);
            Some(self.entries[at].value)
        } else {
            None
        }
    }

    pub fn insert(&mut self, name: &str, value: LogicValue)
        ensures
            final(self)@ == with_level(old(self)@, name@, value),
    {
        let at: usize = self.place(name);
        let ghost before = self@;
        let entry = PortLevel { name: name.to_owned(), value };
        if at < self.entries.len() {
            self.entries.set(at, entry);
            assert(self@ =~= before.update(at as int, (name@, value)));
        } else {
            self.entries.push(entry);
            assert(self@ =~= before.push((name@, value)));
        }
    }
}

/// Whether an earlier port has the name of a port.
pub open spec fn name_taken(ports: Seq<CoSimulationPort>, i: int) -> bool {
    exists|j: int| 0 <= j < i && (#[trigger] ports[j]).name@ == ports[i].name@
}

/// Why a harness does not take a port.
pub open spec fn hdl_port_failure(ports: Seq<CoSimulationPort>, i: int) -> Option<Fault> {
    let port = ports[i];
    if port.domain != SignalDomain::Digital || port.unit is Some {
        Some(
            fault(
                "verilator_cosim_port_invalid"@,
                "Verilator co-simulation port `"@ + port.name@
                    + "` must be digital without an analog unit"@,
            ),
        )
    } else if port.direction != PinDirection::Input && port.direction != PinDirection::Output {
        Some(
            fault(
                "verilator_cosim_port_invalid"@,
                "Verilator co-simulation port `"@ + port.name@
                    + "` must be input or output in R9.2"@,
            ),
        )
    } else if !identifier(port.name@, true) {
        Some(
            fault(
                "verilator_cosim_port_invalid"@,
                "Verilator co-simulation port `"@ + port.name@
                    + "` must be a scalar HDL identifier in R9.2"@,
            ),
        )
    } else if name_taken(ports, i) {
        Some(
            fault(
                "verilator_cosim_port_duplicate"@,
                "Verilator co-simulation port `"@ + port.name@
                    + "` is declared more than once"@,
            ),
        )
    } else {
        None
    }
}

/// The first failure among the first `n` ports.
pub open spec fn hdl_ports_failure(ports: Seq<CoSimulationPort>, n: int) -> Option<Fault>
    decreases n,
{
    if n <= 0 {
        None
    } else {
        match hdl_ports_failure(ports, n - 1) {
            Some(f) => Some(f),
            None => hdl_port_failure(ports, n - 1),
        }
    }
}

proof fn lemma_hdl_ports_failure_stops(ports: Seq<CoSimulationPort>, n: int, m: int)
    requires
        0 <= m <= n,
        hdl_ports_failure(ports, m) is Some,
    ensures
        hdl_ports_failure(ports, n) == hdl_ports_failure(ports, m),
    decreases n - m,
{
    if m < n {
        lemma_hdl_ports_failure_stops(ports, n, m + 1);
    }
}

/// Why a harness does not take some ports.
pub open spec fn harness_failure(ports: Seq<CoSimulationPort>) -> Option<Fault> {
    if ports.len() == 0 {
        Some(
            fault(
                "verilator_cosim_port_missing"@,
                "Verilator co-simulation participant requires at least one scalar digital port"@,
            ),
        )
    } else {
        hdl_ports_failure(ports, ports.len() as int)
    }
}

fn find_name_taken(ports: &Vec<CoSimulationPort>, i: usize) -> (r: bool)
    requires
        i < ports@.len(),
    ensures
        r == name_taken(ports@, i as int),
{
    let mut j: usize = 0;
    while j < i
        invariant
            j <= i < ports@.len(),
            forall|k: int| 0 <= k < j ==> (#[trigger] ports@[k]).name@ != ports@[i as int].name@,
        decreases i - j,
    {
        if text_eq(ports[j].name.as_str(), ports[i].name.as_str()) {
            assert(ports@[j as int].name@ == ports@[i as int].name@);
            return true;
        }
        j = j + 1;
    }
    false
}

fn check_hdl_port(ports: &Vec<CoSimulationPort>, i: usize) -> (r: Result<(), EngineError>)
    requires
        i < ports@.len(),
    ensures
        passes(r, hdl_port_failure(ports@, i as int)),
{
    let port = &ports[i];
    let start = "Verilator co-simulation port `";
    if port.domain != SignalDomain::Digital || port.unit.is_some() {
        return Err(
            fail(
                "verilator_cosim_port_invalid",
                cat3(start, port.name.as_str(), "` must be digital without an analog unit"),
            ),
        );
    }
    if port.direction != PinDirection::Input && port.direction != PinDirection::Output {
        return Err(
            fail(
                "verilator_cosim_port_invalid",
                cat3(start, port.name.as_str(), "` must be input or output in R9.2"),
            ),
        );
    }
    if !is_safe_identifier(port.name.as_str()) {
        return Err(
            fail(
                "verilator_cosim_port_invalid",
                cat3(start, port.name.as_str(), "` must be a scalar HDL identifier in R9.2"),
            ),
        );
    }
    if find_name_taken(ports, i) {
        return Err(
            fail(
                "verilator_cosim_port_duplicate",
                cat3(start, port.name.as_str(), "` is declared more than once"),
            ),
        );
    }
    Ok(())
}

pub fn validate_cosim_ports(ports: &Vec<CoSimulationPort>) -> (r: Result<(), EngineError>)
    ensures
        passes(r, harness_failure(ports@)),
{
    if ports.len() == 0 {
        return Err(
            EngineError::new(
                "verilator_cosim_port_missing",
                "Verilator co-simulation participant requires at least one scalar digital port",
            ),
        );
    }
    let mut i: usize = 0;
    while i < ports.len()
        invariant
            i <= ports@.len(),
            ports@.len() > 0,
            hdl_ports_failure(ports@, i as int) is None,
        decreases ports@.len() - i,
    {
        match check_hdl_port(ports, i) {
            Err(e) => {
                proof {
                    lemma_hdl_ports_failure_stops(ports@, ports@.len() as int, i + 1);
                }
                return Err(e);
            },
            Ok(_) => {},
        }
        i = i + 1;
    }
    Ok(())
}

/// What the state line says of a port.
pub open spec fn shown_line(port: CoSimulationPort) -> Seq<char> {
    if port.direction == PinDirection::Output {
        "\n  std::cout << \" "@ + port.name@ + "=\" << static_cast<unsigned>(top->"@ + port.name@
            + " & 1U);"@
    } else {
        ""@
    }
}

/// The level that a port starts at.
pub open spec fn cleared_line(port: CoSimulationPort) -> Seq<char> {
    if port.direction == PinDirection::Input {
        "\n  top->"@ + port.name@ + " = 0;"@
    } else {
        ""@
    }
}

/// How a command sets a port.
pub open spec fn case_line(port: CoSimulationPort, i: int) -> Seq<char> {
    if port.direction == PinDirection::Input {
        "\n        case "@ + decimal(i as nat) + ": top->"@ + port.name@
            + " = value & 1U; break;"@
    } else {
        ""@
    }
}

/// The program around a module with some ports.
pub open spec fn harness_of(ports: Seq<CoSimulationPort>) -> Seq<char> {
    let n = ports.len() as int;
    HARNESS_HEAD@ + concat_upto(n, |i: int| shown_line(ports[i])) + HARNESS_MAIN@ + concat_upto(
        n,
        |i: int| cleared_line(ports[i]),
    ) + HARNESS_LOOP@ + concat_upto(n, |i: int| case_line(ports[i], i)) + HARNESS_TAIL@
}

fn show_lines(ports: &Vec<CoSimulationPort>) -> (r: String)
    ensures
        r@ == concat_upto(ports@.len() as int, |i: int| shown_line(ports@[i])),
{
    let ghost f = |i: int| shown_line(ports@[i]);
    let mut out = "".to_owned();
    let mut i: usize = 0;
    proof {
        reveal_strlit("");
    }
    assert(out@ =~= concat_upto(0, f));
    while i < ports.len()
        invariant
            i <= ports@.len(),
            f == (|i: int| shown_line(ports@[i])),
            out@ == concat_upto(i as int, f),
        decreases ports@.len() - i,
    {
        let port = &ports[i];
        let line = if port.direction == PinDirection::Output {
            cat5(
                "\n  std::cout << \" ",
                port.name.as_str(),
                "=\" << static_cast<unsigned>(top->",
                port.name.as_str(),
                " & 1U);",
            )
        } else {
            "".to_owned()
        };
        assert(line@ == f(i as int));
        out = cat2(out.as_str(), line.as_str());
        i = i + 1;
    }
    out
}

fn clear_lines(ports: &Vec<CoSimulationPort>) -> (r: String)
    ensures
        r@ == concat_upto(ports@.len() as int, |i: int| cleared_line(ports@[i])),
{
    let ghost f = |i: int| cleared_line(ports@[i]);
    let mut out = "".to_owned();
    let mut i: usize = 0;
    proof {
        reveal_strlit("");
    }
    assert(out@ =~= concat_upto(0, f));
    while i < ports.len()
        invariant
            i <= ports@.len(),
            f == (|i: int| cleared_line(ports@[i])),
            out@ == concat_upto(i as int, f),
        decreases ports@.len() - i,
    {
        let port = &ports[i];
        let line = if port.direction == PinDirection::Input {
            cat3("\n  top->", port.name.as_str(), " = 0;")
        } else {
            "".to_owned()
        };
        assert(line@ == f(i as int));
        out = cat2(out.as_str(), line.as_str());
        i = i + 1;
    }
    out
}

fn case_lines(ports: &Vec<CoSimulationPort>) -> (r: String)
    ensures
        r@ == concat_upto(ports@.len() as int, |i: int| case_line(ports@[i], i)),
{
    let ghost f = |i: int| case_line(ports@[i], i);
    let mut out = "".to_owned();
    let mut i: usize = 0;
    proof {
        reveal_strlit("");
    }
    assert(out@ =~= concat_upto(0, f));
    while i < ports.len()
        invariant
            i <= ports@.len(),
            f == (|i: int| case_line(ports@[i], i)),
            out@ == concat_upto(i as int, f),
        decreases ports@.len() - i,
    {
        let port = &ports[i];
        let line = if port.direction == PinDirection::Input {
            cat5(
                "\n        case ",
                decimal_text(i as u64).as_str(),
                ": top->",
                port.name.as_str(),
                " = value & 1U; break;",
            )
        } else {
            "".to_owned()
        };
        assert(line@ == f(i as int));
        out = cat2(out.as_str(), line.as_str());
        i = i + 1;
    }
    out
}

/// The program around a module: it answers each command with a state line.
pub fn generate_cosim_harness(ports: &Vec<CoSimulationPort>) -> (r: Result<String, EngineError>)
    ensures
        same_text(
            r,
            match harness_failure(ports@) {
                Some(f) => Err(f),
                None => Ok(harness_of(ports@)),
            },
        ),
{
    match validate_cosim_ports(ports) {
        Err(e) => {
            return Err(e);
        },
        Ok(_) => {},
    }
    let shown = show_lines(ports);
    let cleared = clear_lines(ports);
    let cases = case_lines(ports);
    Ok(
        crate::text::cat7(
            HARNESS_HEAD,
            shown.as_str(),
            HARNESS_MAIN,
            cleared.as_str(),
            HARNESS_LOOP,
            cases.as_str(),
            HARNESS_TAIL,
        ),
    )
}

/// What has been read of the fields of a state line.
pub struct Scan {
    pub next: Option<CoSimulationTime>,
    pub levels: Seq<(Seq<char>, LogicValue)>,
    pub seen: Seq<Seq<char>>,
    pub failure: Option<Fault>,
}

pub open spec fn protocol_fault(message: Seq<char>) -> Fault {
    fault("verilator_cosim_protocol_error"@, message)
}

/// The level that a digit writes.
pub open spec fn binary_level(raw: Seq<char>) -> Option<LogicValue> {
    if raw == "0"@ {
        Some(LogicValue::Zero)
    } else if raw == "1"@ {
        Some(LogicValue::One)
    } else {
        None
    }
}

/// One more field: the next event, the level of an output, or nothing of note.
pub open spec fn scan_step(before: Scan, line: Seq<char>, field: Seq<char>, outputs: Seq<Seq<char>>) -> Scan {
    match split_once(field, '=') {
        None => before,
        Some((name, raw)) => if name == "NEXT"@ {
            if raw == "-"@ {
                before
            } else {
                match unsigned(raw, u64::MAX as nat) {
                    None => Scan {
                        failure: Some(
                            protocol_fault("invalid Verilator NEXT time in `"@ + line + "`"@),
                        ),
                        ..before
                    },
                    Some(time) => Scan { next: Some(CoSimulationTime(time as u64)), ..before },
                }
            }
        } else if outputs.contains(name) {
            match binary_level(raw) {
                None => Scan {
                    failure: Some(
                        protocol_fault("invalid two-state Verilator output `"@ + field + "`"@),
                    ),
                    ..before
                },
                Some(value) => Scan {
                    levels: with_level(before.levels, name, value),
                    seen: if before.seen.contains(name) {
                        before.seen
                    } else {
                        before.seen.push(name)
                    },
                    ..before
                },
            }
        } else {
            before
        },
    }
}

/// What the fields from the third to the `n`-th say, up to the first that is
/// refused.
pub open spec fn scanned(
    line: Seq<char>,
    outputs: Seq<Seq<char>>,
    levels: Seq<(Seq<char>, LogicValue)>,
    n: int,
) -> Scan
    decreases n,
{
    if n <= 2 {
        Scan { next: None, levels, seen: Seq::empty(), failure: None }
    } else {
        let before = scanned(line, outputs, levels, n - 1);
        if before.failure is Some {
            before
        } else {
            scan_step(before, line, words_of(line)[n - 1], outputs)
        }
    }
}

proof fn lemma_scanned_stops(
    line: Seq<char>,
    outputs: Seq<Seq<char>>,
    levels: Seq<(Seq<char>, LogicValue)>,
    n: int,
    m: int,
)
    requires
        2 <= m <= n,
        scanned(line, outputs, levels, m).failure is Some,
    ensures
        scanned(line, outputs, levels, n) == scanned(line, outputs, levels, m),
    decreases n - m,
{
    if m < n {
        lemma_scanned_stops(line, outputs, levels, n, m + 1);
    }
}

/// What is known of a session.
pub struct Standing {
    pub time: CoSimulationTime,
    pub next: Option<CoSimulationTime>,
    pub levels: Seq<(Seq<char>, LogicValue)>,
}

/// What is known after a state line, and why it is refused if it is. The levels
/// that stand before the refused field are taken over, and so is the time where
/// the next event is not in the future.
pub open spec fn state_read(line: Seq<char>, outputs: Seq<Seq<char>>, before: Standing) -> (
    Standing,
    Option<Fault>,
) {
    let fields = words_of(line);
    if fields.len() == 0 || fields[0] != "STATE"@ {
        (
            before,
            Some(
                protocol_fault("expected Verilator STATE response, received `"@ + line + "`"@),
            ),
        )
    } else if fields.len() == 1 {
        (before, Some(protocol_fault("Verilator STATE response is missing time"@)))
    } else {
        match unsigned(fields[1], u64::MAX as nat) {
            None => (
                before,
                Some(protocol_fault("invalid Verilator STATE time in `"@ + line + "`"@)),
            ),
            Some(time) => {
                let scan = scanned(line, outputs, before.levels, fields.len() as int);
                if scan.failure is Some {
                    (Standing { levels: scan.levels, ..before }, scan.failure)
                } else if scan.seen.len() != outputs.len() {
                    (
                        Standing { levels: scan.levels, ..before },
                        Some(
                            protocol_fault(
                                "Verilator STATE response omitted one or more configured outputs: `"@
                                    + line + "`"@,
                            ),
                        ),
                    )
                } else if scan.next is Some && scan.next->Some_0.0 <= time {
                    (
                        Standing {
                            time: CoSimulationTime(time as u64),
                            levels: scan.levels,
                            ..before
                        },
                        Some(protocol_fault("Verilator reported a non-future next event"@)),
                    )
                } else {
                    (
                        Standing {
                            time: CoSimulationTime(time as u64),
                            next: scan.next,
                            levels: scan.levels,
                        },
                        None,
                    )
                }
            },
        }
    }
}

/// A state line that is accepted announces no event that is not in the future.
pub proof fn accepted_events_are_in_the_future(
    line: Seq<char>,
    outputs: Seq<Seq<char>>,
    before: Standing,
)
    requires
        state_read(line, outputs, before).1 is None,
    ensures
        match state_read(line, outputs, before).0.next {
            Some(next) => next.0 > state_read(line, outputs, before).0.time.0,
            None => true,
        },
{
}

fn protocol_error(message: String) -> (r: EngineError)
    ensures
        r@ == protocol_fault(message@),
{
    fail("verilator_cosim_protocol_error", message)
}

fn read_level(raw: &str) -> (r: Option<LogicValue>)
    ensures
        r == binary_level(raw@),
{
    if text_eq(raw, "0") {
        Some(LogicValue::Zero)
    } else if text_eq(raw, "1") {
        Some(LogicValue::One)
    } else {
        None
    }
}

fn scan_field(
    line: &str,
    field: &Vec<char>,
    output_ports: &Vec<String>,
    next: &mut Option<CoSimulationTime>,
    outputs: &mut PortLevels,
    seen: &mut Vec<String>,
) -> (r: Result<(), EngineError>)
    ensures
        ({
            let before = Scan {
                next: *old(next),
                levels: old(outputs)@,
                seen: texts(old(seen)@),
                failure: None,
            };
            let after = scan_step(before, line@, field@, texts(output_ports@));
            &&& passes(r, after.failure)
            &&& *final(next) == after.next
            &&& final(outputs)@ == after.levels
            &&& texts(final(seen)@) == after.seen
        }),
{
    let mark: usize = find_first(field, '=');
    if mark >= field.len() {
        return Ok(());
    }
    let name = from_chars(&slice_chars(field, 0, mark));
    let raw = slice_chars(field, mark + 1, field.len());
    assert(name@ =~= field@.take(mark as int));
    assert(raw@ =~= field@.skip(mark + 1));
    let raw_text = from_chars(&raw);
    if text_eq(name.as_str(), "NEXT") {
        if text_eq(raw_text.as_str(), "-") {
            return Ok(());
        }
        match parse_unsigned(&raw, u64::MAX) {
            None => {
                return Err(
                    protocol_error(cat3("invalid Verilator NEXT time in `", line, "`")),
                );
            },
            Some(time) => {
                *next = Some(CoSimulationTime(time));
            },
        }
        return Ok(());
    }
    if holds_text(output_ports, name.as_str()) {
        match read_level(raw_text.as_str()) {
            None => {
                let shown = from_chars(field);
                return Err(
                    protocol_error(
                        cat3("invalid two-state Verilator output `", shown.as_str(), "`"),
                    ),
                );
            },
            Some(value) => {
                outputs.insert(name.as_str(), value);
                if !holds_text(seen, name.as_str()) {
                    let ghost before = texts(seen@);
                    let ghost named = name@;
                    seen.push(name);
                    assert(texts(seen@) =~= before.push(named));
                }
            },
        }
    }
    Ok(())
}

/// Reads a state line.
pub fn parse_cosim_state_line(
    line: &str,
    output_ports: &Vec<String>,
    current_time: &mut CoSimulationTime,
    next_event: &mut Option<CoSimulationTime>,
    outputs: &mut PortLevels,
) -> (r: Result<(), EngineError>)
    ensures
        ({
            let before = Standing {
                time: *old(current_time),
                next: *old(next_event),
                levels: old(outputs)@,
            };
            let after = state_read(line@, texts(output_ports@), before);
            &&& passes(r, after.1)
            &&& *final(current_time) == after.0.time
            &&& *final(next_event) == after.0.next
            &&& final(outputs)@ == after.0.levels
        }),
{
    let fields = split_words(&to_chars(line));
    let ghost words = words_of(line@);
    assert(rows(fields@) == words);
    assert(forall|k: int| 0 <= k < fields@.len() ==> words[k] == #[trigger] fields@[k]@);
    if fields.len() == 0 || !text_eq(from_chars(&fields[0]).as_str(), "STATE") {
        return Err(
            protocol_error(cat3("expected Verilator STATE response, received `", line, "`")),
        );
    }
    if fields.len() == 1 {
        return Err(
            EngineError::new(
                "verilator_cosim_protocol_error",
                "Verilator STATE response is missing time",
            ),
        );
    }
    let time: u64 = match parse_unsigned(&fields[1], u64::MAX) {
        None => {
            return Err(protocol_error(cat3("invalid Verilator STATE time in `", line, "`")));
        },
        Some(time) => time,
    };
    let ghost ports = texts(output_ports@);
    let ghost start = outputs@;
    let mut seen: Vec<String> = Vec::new();
    let mut next: Option<CoSimulationTime> = None;
    let mut i: usize = 2;
    assert(texts(seen@) =~= Seq::<Seq<char>>::empty());
    while i < fields.len()
        invariant
            2 <= i <= fields@.len(),
            words == words_of(line@),
            words.len() == fields@.len(),
            forall|k: int| 0 <= k < fields@.len() ==> words[k] == #[trigger] fields@[k]@,
            ports == texts(output_ports@),
            scanned(line@, ports, start, i as int) == (Scan {
                next,
                levels: outputs@,
                seen: texts(seen@),
                failure: None,
            }),
            *current_time == *old(current_time),
            *next_event == *old(next_event),
            start == old(outputs)@,
            fields@.len() >= 2,
            words[0] == "STATE"@,
            unsigned(words[1], u64::MAX as nat) == Some(time as nat),
        decreases fields@.len() - i,
    {
        match scan_field(line, &fields[i], output_ports, &mut next, outputs, &mut seen) {
            Err(e) => {
                proof {
                    lemma_scanned_stops(line@, ports, start, fields@.len() as int, i + 1);
                }
                return Err(e);
            },
            Ok(_) => {},
        }
        i = i + 1;
    }
    if seen.len() != output_ports.len() {
        return Err(
            protocol_error(
                cat3(
                    "Verilator STATE response omitted one or more configured outputs: `",
                    line,
                    "`",
                ),
            ),
        );
    }
    *current_time = CoSimulationTime(time);
    match next {
        Some(event) => {
            if event.0 <= time {
                return Err(
                    EngineError::new(
                        "verilator_cosim_protocol_error",
                        "Verilator reported a non-future next event",
                    ),
                );
            }
        },
        None => {},
    }
    *next_event = next;
    Ok(())
}

/// A session with a running harness: what it last said, and what was sent.
#[derive(Clone, Debug, PartialEq, Eq)]
pub struct HdlSession {
    pub current_time: CoSimulationTime,
    pub next_event: Option<CoSimulationTime>,
    pub outputs: PortLevels,
    pub input_values: PortLevels,
    pub output_ports: Vec<String>,
}

/// What an `HdlSession` says.
pub struct Exchange {
    pub heard: Standing,
    pub sent: Seq<(Seq<char>, LogicValue)>,
    pub outputs: Seq<Seq<char>>,
}

impl View for HdlSession {
    type V = Exchange;

    open spec fn view(&self) -> Exchange {
        Exchange {
            heard: Standing {
                time: self.current_time,
                next: self.next_event,
                levels: self.outputs@,
            },
            sent: self.input_values@,
            outputs: texts(self.output_ports@),
        }
    }
}

/// The names of the outputs among the first `n` ports.
pub open spec fn output_names(ports: Seq<CoSimulationPort>, n: int) -> Seq<Seq<char>>
    decreases n,
{
    if n <= 0 {
        Seq::empty()
    } else if ports[n - 1].direction == PinDirection::Output {
        output_names(ports, n - 1).push(ports[n - 1].name@)
    } else {
        output_names(ports, n - 1)
    }
}

/// The inputs among the first `n` ports, at zero.
pub open spec fn input_levels(ports: Seq<CoSimulationPort>, n: int) -> Seq<
    (Seq<char>, LogicValue),
>
    decreases n,
{
    if n <= 0 {
        Seq::empty()
    } else if ports[n - 1].direction == PinDirection::Input {
        with_level(input_levels(ports, n - 1), ports[n - 1].name@, LogicValue::Zero)
    } else {
        input_levels(ports, n - 1)
    }
}

/// A session with some ports before the first state line.
pub open spec fn opened(ports: Seq<CoSimulationPort>) -> Exchange {
    Exchange {
        heard: Standing { time: CoSimulationTime(0), next: None, levels: Seq::empty() },
        sent: input_levels(ports, ports.len() as int),
        outputs: output_names(ports, ports.len() as int),
    }
}

/// The command that sets an input, or none where it is at the level already.
pub open spec fn input_command(
    session: Exchange,
    port_index: int,
    port: Seq<char>,
    time: CoSimulationTime,
    value: LogicValue,
) -> Result<Option<Seq<char>>, Fault> {
    if time != session.heard.time {
        Err(
            fault(
                "verilator_cosim_time_invalid"@,
                "Verilator co-simulation input writes must occur at the participant current time"@,
            ),
        )
    } else {
        let previous = match level_at(session.sent, port) {
            Some(level) => level,
            None => LogicValue::Zero,
        };
        if previous == value {
            Ok(None)
        } else {
            Ok(
                Some(
                    "SET "@ + decimal(port_index as nat) + " "@ + if value == LogicValue::One {
                        "1"@
                    } else {
                        "0"@
                    },
                ),
            )
        }
    }
}

/// The command that moves a session to a time, or none where it is there.
pub open spec fn advance_command(session: Exchange, target: CoSimulationTime) -> Result<
    Option<Seq<char>>,
    Fault,
> {
    if target.0 < session.heard.time.0 {
        Err(
            fault(
                "verilator_cosim_time_invalid"@,
                "Verilator co-simulation participant cannot move backwards in time"@,
            ),
        )
    } else if target == session.heard.time {
        Ok(None)
    } else {
        Ok(Some("ADV "@ + decimal(target.0 as nat)))
    }
}

/// Why a session that was moved is not where it was to be.
pub open spec fn arrival_failure(session: Exchange, target: CoSimulationTime) -> Option<Fault> {
    if session.heard.time != target {
        Some(
            protocol_fault(
                "Verilator co-simulation session advanced to "@ + decimal(
                    session.heard.time.0 as nat,
                ) + " ps instead of "@ + decimal(target.0 as nat) + " ps"@,
            ),
        )
    } else {
        None
    }
}

/// The text that an optional command writes.
pub open spec fn command_text(r: Option<String>) -> Option<Seq<char>> {
    match r {
        Some(text) => Some(text@),
        None => None,
    }
}

/// A planned command as its model says.
pub open spec fn same_command(
    r: Result<Option<String>, EngineError>,
    model: Result<Option<Seq<char>>, Fault>,
) -> bool {
    match (r, model) {
        (Ok(command), Ok(text)) => command_text(command) == text,
        (Err(e), Err(f)) => e@ == f,
        _ => false,
    }
}

impl HdlSession {
    pub fn open(ports: &Vec<CoSimulationPort>) -> (r: Self)
        ensures
            r@ == opened(ports@),
    {
        let mut input_values = PortLevels::new();
        let mut output_ports: Vec<String> = Vec::new();
        let mut i: usize = 0;
        assert(texts(output_ports@) =~= Seq::<Seq<char>>::empty());
        while i < ports.len()
            invariant
                i <= ports@.len(),
                input_values@ == input_levels(ports@, i as int),
                texts(output_ports@) == output_names(ports@, i as int),
            decreases ports@.len() - i,
        {
            let port = &ports[i];
            if port.direction == PinDirection::Input {
                input_values.insert(port.name.as_str(), LogicValue::Zero);
            }
            if port.direction == PinDirection::Output {
                let ghost before = texts(output_ports@);
                output_ports.push(port.name.clone());
                assert(texts(output_ports@) =~= before.push(port.name@));
            }
            i = i + 1;
        }
        HdlSession {
            current_time: CoSimulationTime(0),
            next_event: None,
            outputs: PortLevels::new(),
            input_values,
            output_ports,
        }
    }

    /// Takes over a state line, with the blanks around it left out.
    pub fn take_state(&mut self, line: &str) -> (r: Result<(), EngineError>)
        ensures
            ({
                let after = state_read(
                    crate::text::trim(line@),
                    old(self)@.outputs,
                    old(self)@.heard,
                );
                &&& passes(r, after.1)
                &&& final(self)@ == (Exchange { heard: after.0, ..old(self)@ })
            }),
    {
        let text = crate::text::trim_text(line);
        parse_cosim_state_line(
            text.as_str(),
            &self.output_ports,
            &mut self.current_time,
            &mut self.next_event,
            &mut self.outputs,
        )
    }

    pub fn plan_input(
        &self,
        port_index: usize,
        port: &str,
        time: CoSimulationTime,
        value: LogicValue,
    ) -> (r: Result<Option<String>, EngineError>)
        ensures
            same_command(r, input_command(self@, port_index as int, port@, time, value)),
    {
        if time.0 != self.current_time.0 {
            return Err(
                EngineError::new(
                    "verilator_cosim_time_invalid",
                    "Verilator co-simulation input writes must occur at the participant current time",
                ),
            );
        }
        let previous = match self.input_values.get(port) {
            Some(level) => level,
            None => LogicValue::Zero,
        };
        if previous == value {
            return Ok(None);
        }
        let bit = if value == LogicValue::One {
            "1"
        } else {
            "0"
        };
        Ok(Some(crate::text::cat4("SET ", decimal_text(port_index as u64).as_str(), " ", bit)))
    }

    /// Notes an input that the harness has taken.
    pub fn note_input(&mut self, port: &str, value: LogicValue)
        ensures
            final(self)@ == (Exchange { sent: with_level(old(self)@.sent, port@, value), ..old(self)@ }),
    {
        self.input_values.insert(port, value);
    }

    pub fn plan_advance(&self, target: CoSimulationTime) -> (r: Result<Option<String>, EngineError>)
        ensures
            same_command(r, advance_command(self@, target)),
    {
        if target.0 < self.current_time.0 {
            return Err(
                EngineError::new(
                    "verilator_cosim_time_invalid",
                    "Verilator co-simulation participant cannot move backwards in time",
                ),
            );
        }
        if target.0 == self.current_time.0 {
            return Ok(None);
        }
        Ok(Some(cat2("ADV ", decimal_text(target.0).as_str())))
    }

    pub fn check_arrival(&self, target: CoSimulationTime) -> (r: Result<(), EngineError>)
        ensures
            passes(r, arrival_failure(self@, target)),
    {
        if self.current_time.0 != target.0 {
            return Err(
                protocol_error(
                    cat5(
                        "Verilator co-simulation session advanced to ",
                        decimal_text(self.current_time.0).as_str(),
                        " ps instead of ",
                        decimal_text(target.0).as_str(),
                        " ps",
                    ),
                ),
            );
        }
        Ok(())
    }
}

/// An input that has been sent is not sent again.
pub proof fn inputs_are_sent_once(
    session: Exchange,
    port_index: int,
    port: Seq<char>,
    value: LogicValue,
)
    ensures
        input_command(
            Exchange { sent: with_level(session.sent, port, value), ..session },
            port_index,
            port,
            session.heard.time,
            value,
        ) == Ok::<Option<Seq<char>>, Fault>(None),
{
    set_levels_are_read_back(session.sent, port, value, port);
}

/// A session that arrived has nothing more to do, and never moved back.
pub proof fn arrived_sessions_stand_at_their_target(
    before: Exchange,
    after: Exchange,
    target: CoSimulationTime,
)
    requires
        advance_command(before, target) is Ok,
        arrival_failure(after, target) is None,
    ensures
        after.heard.time == target,
        before.heard.time.0 <= after.heard.time.0,
        advance_command(after, target) == Ok::<Option<Seq<char>>, Fault>(None),
{
}

/// A participant that runs an HDL module. The process that runs it is kept
/// elsewhere; `session` stands for it once it has answered.
#[derive(Clone, Debug, PartialEq, Eq)]
pub struct VerilatorCoSimulationParticipant {
    pub id: String,
    pub executable: String,
    pub model: ModelDefinition,
    pub ports: Vec<CoSimulationPort>,
    pub session: Option<HdlSession>,
}

/// Why a participant is refused.
pub open spec fn hdl_participant_failure(
    id: Seq<char>,
    model: ModelDefinition,
    ports: Seq<CoSimulationPort>,
) -> Option<Fault> {
    if is_blank(id) {
        Some(
            fault(
                "verilator_cosim_participant_invalid"@,
                "Verilator co-simulation participant id must not be empty"@,
            ),
        )
    } else if !is_hdl(model) {
        Some(
            fault(
                "verilator_cosim_model_invalid"@,
                "Verilator co-simulation requires an inline Verilog/SystemVerilog module model"@,
            ),
        )
    } else if !identifier(model.entry@, true) {
        Some(
            fault(
                "verilator_cosim_model_invalid"@,
                "HDL module entry `"@ + model.entry@ + "` is not a safe identifier"@,
            ),
        )
    } else {
        match source_failure(model) {
            Some(f) => Some(f),
            None => harness_failure(ports),
        }
    }
}

/// The place of the first port with a name among the first `n`.
pub open spec fn port_place(ports: Seq<CoSimulationPort>, name: Seq<char>, n: int) -> Option<int>
    decreases n,
{
    if n <= 0 {
        None
    } else {
        match port_place(ports, name, n - 1) {
            Some(i) => Some(i),
            None => if ports[n - 1].name@ == name {
                Some(n - 1)
            } else {
                None
            },
        }
    }
}

proof fn lemma_port_place_stays(ports: Seq<CoSimulationPort>, name: Seq<char>, n: int, m: int)
    requires
        0 <= m <= n,
        port_place(ports, name, m) is Some,
    ensures
        port_place(ports, name, n) == port_place(ports, name, m),
    decreases n - m,
{
    if m < n {
        lemma_port_place_stays(ports, name, n, m + 1);
    }
}

fn find_port_place(ports: &Vec<CoSimulationPort>, name: &str) -> (r: Option<usize>)
    ensures
        match (r, port_place(ports@, name@, ports@.len() as int)) {
            (Some(i), Some(k)) => i == k && i < ports@.len(),
            (None, None) => true,
            _ => false,
        },
{
    let mut i: usize = 0;
    while i < ports.len()
        invariant
            i <= ports@.len(),
            port_place(ports@, name@, i as int) is None,
        decreases ports@.len() - i,
    {
        if text_eq(ports[i].name.as_str(), name) {
            proof {
                lemma_port_place_stays(ports@, name@, ports@.len() as int, i + 1);
            }
            return Some(i);
        }
        i = i + 1;
    }
    None
}

impl VerilatorCoSimulationParticipant {
    pub open spec fn unknown_port(self, port: Seq<char>) -> Fault {
        fault(
            "verilator_cosim_port_missing"@,
            "Verilator co-simulation participant `"@ + self.id@ + "` has no port `"@ + port + "`"@,
        )
    }

    pub open spec fn unstarted(self) -> Fault {
        fault(
            "verilator_cosim_not_initialized"@,
            "Verilator co-simulation participant `"@ + self.id@ + "` is not initialized"@,
        )
    }

    /// What reading a port gives.
    pub open spec fn value_of(self, port: Seq<char>) -> Result<CoSimulationValue, Fault> {
        match port_place(self.ports@, port, self.ports@.len() as int) {
            None => Err(self.unknown_port(port)),
            Some(i) => if self.ports@[i].direction != PinDirection::Output {
                Err(
                    fault(
                        "verilator_cosim_port_direction"@,
                        "Verilator co-simulation port `"@ + port + "` is not an output"@,
                    ),
                )
            } else {
                match self.session {
                    None => Err(self.unstarted()),
                    Some(session) => match level_at(session@.heard.levels, port) {
                        None => Err(
                            protocol_fault(
                                "Verilator co-simulation output `"@ + port
                                    + "` has no cached value"@,
                            ),
                        ),
                        Some(value) => Ok(CoSimulationValue::Digital(value)),
                    },
                }
            },
        }
    }

    /// What writing a value to a port sends.
    pub open spec fn writing(
        self,
        port: Seq<char>,
        time: CoSimulationTime,
        value: CoSimulationValue,
    ) -> Result<Option<Seq<char>>, Fault> {
        match port_place(self.ports@, port, self.ports@.len() as int) {
            None => Err(self.unknown_port(port)),
            Some(i) => if self.ports@[i].direction != PinDirection::Input {
                Err(
                    fault(
                        "verilator_cosim_port_direction"@,
                        "Verilator co-simulation port `"@ + port + "` is not an input"@,
                    ),
                )
            } else {
                match value {
                    CoSimulationValue::Analog(_) => Err(
                        fault(
                            "verilator_cosim_domain_mismatch"@,
                            "Verilator co-simulation port `"@ + port
                                + "` requires a digital value"@,
                        ),
                    ),
                    CoSimulationValue::Digital(level) => if level != LogicValue::Zero && level
                        != LogicValue::One {
                        Err(
                            fault(
                                "verilator_cosim_two_state_input"@,
                                "Verilator co-simulation input `"@ + port
                                    + "` requires zero/one; use the R3 digital participant for X/Z semantics"@,
                            ),
                        )
                    } else {
                        match self.session {
                            None => Err(self.unstarted()),
                            Some(session) => input_command(session@, i, port, time, level),
                        }
                    },
                }
            },
        }
    }

    /// What moving to a time sends.
    pub open spec fn moving(self, target: CoSimulationTime) -> Result<Option<Seq<char>>, Fault> {
        match self.session {
            None => Err(self.unstarted()),
            Some(session) => advance_command(session@, target),
        }
    }

    pub fn with_executable(
        id: &str,
        executable: &str,
        model: ModelDefinition,
        ports: Vec<CoSimulationPort>,
    ) -> (r: Result<Self, EngineError>)
        ensures
            match r {
                Ok(p) => {
                    &&& hdl_participant_failure(id@, model, ports@) is None
                    &&& p.id@ == id@
                    &&& p.executable@ == executable@
                    &&& p.model == model
                    &&& p.ports == ports
                    &&& p.session is None
                },
                Err(e) => hdl_participant_failure(id@, model, ports@) == Some(e@),
            },
    {
        if blank(id) {
            return Err(
                EngineError::new(
                    "verilator_cosim_participant_invalid",
                    "Verilator co-simulation participant id must not be empty",
                ),
            );
        }
        if !is_hdl_model(&model) {
            return Err(
                EngineError::new(
                    "verilator_cosim_model_invalid",
                    "Verilator co-simulation requires an inline Verilog/SystemVerilog module model",
                ),
            );
        }
        if !is_safe_identifier(model.entry.as_str()) {
            return Err(
                fail(
                    "verilator_cosim_model_invalid",
                    cat3("HDL module entry `", model.entry.as_str(), "` is not a safe identifier"),
                ),
            );
        }
        match validate_hdl_source(&model) {
            Err(e) => {
                return Err(e);
            },
            Ok(_) => {},
        }
        match validate_cosim_ports(&ports) {
            Err(e) => {
                return Err(e);
            },
            Ok(_) => {},
        }
        Ok(
            VerilatorCoSimulationParticipant {
                id: id.to_owned(),
                executable: executable.to_owned(),
                model,
                ports,
                session: None,
            },
        )
    }

    pub fn new(id: &str, model: ModelDefinition, ports: Vec<CoSimulationPort>) -> (r: Result<
        Self,
        EngineError,
    >)
        ensures
            match r {
                Ok(p) => {
                    &&& hdl_participant_failure(id@, model, ports@) is None
                    &&& p.id@ == id@
                    &&& p.executable@ == "verilator"@
                    &&& p.model == model
                    &&& p.ports == ports
                    &&& p.session is None
                },
                Err(e) => hdl_participant_failure(id@, model, ports@) == Some(e@),
            },
    {
        VerilatorCoSimulationParticipant::with_executable(id, "verilator", model, ports)
    }

    pub fn current_time(&self) -> (r: CoSimulationTime)
        ensures
            r == match self.session {
                Some(session) => session@.heard.time,
                None => CoSimulationTime(0),
            },
    {
        match &self.session {
            Some(session) => session.current_time,
            None => CoSimulationTime(0),
        }
    }

    pub fn next_event_time(&self) -> (r: Option<CoSimulationTime>)
        ensures
            r == match self.session {
                Some(session) => session@.heard.next,
                None => None,
            },
    {
        match &self.session {
            Some(session) => session.next_event,
            None => None,
        }
    }

    fn no_port(&self, port: &str) -> (r: EngineError)
        ensures
            r@ == self.unknown_port(port@),
    {
        fail(
            "verilator_cosim_port_missing",
            cat5(
                "Verilator co-simulation participant `",
                self.id.as_str(),
                "` has no port `",
                port,
                "`",
            ),
        )
    }

    fn no_session(&self) -> (r: EngineError)
        ensures
            r@ == self.unstarted(),
    {
        fail(
            "verilator_cosim_not_initialized",
            cat3(
                "Verilator co-simulation participant `",
                self.id.as_str(),
                "` is not initialized",
            ),
        )
    }

    pub fn read_output(&self, port: &str) -> (r: Result<CoSimulationValue, EngineError>)
        ensures
            same(r, self.value_of(port@)),
    {
        let at: usize = match find_port_place(&self.ports, port) {
            None => {
                return Err(self.no_port(port));
            },
            Some(at) => at,
        };
        if self.ports[at].direction != PinDirection::Output {
            return Err(
                fail(
                    "verilator_cosim_port_direction",
                    cat3("Verilator co-simulation port `", port, "` is not an output"),
                ),
            );
        }
        match &self.session {
            None => Err(self.no_session()),
            Some(session) => match session.outputs.get(port) {
                None => Err(
                    protocol_error(
                        cat3(
                            "Verilator co-simulation output `",
                            port,
                            "` has no cached value",
                        ),
                    ),
                ),
                Some(value) => Ok(CoSimulationValue::Digital(value)),
            },
        }
    }

    pub fn plan_write(
        &self,
        port: &str,
        time: CoSimulationTime,
        value: &CoSimulationValue,
    ) -> (r: Result<Option<String>, EngineError>)
        ensures
            same_command(r, self.writing(port@, time, *value)),
    {
        let at: usize = match find_port_place(&self.ports, port) {
            None => {
                return Err(self.no_port(port));
            },
            Some(at) => at,
        };
        if self.ports[at].direction != PinDirection::Input {
            return Err(
                fail(
                    "verilator_cosim_port_direction",
                    cat3("Verilator co-simulation port `", port, "` is not an input"),
                ),
            );
        }
        let level = match value {
            CoSimulationValue::Analog(_) => {
                return Err(
                    fail(
                        "verilator_cosim_domain_mismatch",
                        cat3(
                            "Verilator co-simulation port `",
                            port,
                            "` requires a digital value",
                        ),
                    ),
                );
            },
            CoSimulationValue::Digital(level) => *level,
        };
        if level != LogicValue::Zero && level != LogicValue::One {
            return Err(
                fail(
                    "verilator_cosim_two_state_input",
                    cat3(
                        "Verilator co-simulation input `",
                        port,
                        "` requires zero/one; use the R3 digital participant for X/Z semantics",
                    ),
                ),
            );
        }
        match &self.session {
            None => Err(self.no_session()),
            Some(session) => session.plan_input(at, port, time, level),
        }
    }

    pub fn plan_advance(&self, target: CoSimulationTime) -> (r: Result<Option<String>, EngineError>)
        ensures
            same_command(r, self.moving(target)),
    {
        match &self.session {
            None => Err(self.no_session()),
            Some(session) => session.plan_advance(target),
        }
    }
}

/// Whether a session may be started.
pub fn check_hdl_start(policy: &ExecutionPolicy, cancelled: bool) -> (r: Result<(), EngineError>)
    ensures
        passes(
            r,
            signal_failure(
                *policy,
                cancelled,
                "co-simulation was cancelled before Verilator participant initialization"@,
            ),
        ),
{
    check_signal(
        policy,
        cancelled,
        "co-simulation was cancelled before Verilator participant initialization",
    )
}

/// Whether a command may be sent or an answer awaited.
pub fn check_cosim_control(policy: &ExecutionPolicy, cancelled: bool) -> (r: Result<
    (),
    EngineError,
>)
    ensures
        passes(
            r,
            signal_failure(*policy, cancelled, "Verilator co-simulation was cancelled"@),
        ),
{
    check_signal(policy, cancelled, "Verilator co-simulation was cancelled")
}

/// The name of the file that holds the module.
pub fn cosim_source_file(model: &ModelDefinition) -> (r: &'static str)
    ensures
        r@ == if model.language == ModelLanguage::Verilog {
            "oxsim_cosim_model.v"@
        } else {
            "oxsim_cosim_model.sv"@
        },
{
    match model.language {
        ModelLanguage::Verilog => "oxsim_cosim_model.v",
        _ => "oxsim_cosim_model.sv",
    }
}

} // verus!
