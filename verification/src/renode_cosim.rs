//! The protocol of an incremental firmware session: how a helper process is
//! started, the state lines that it answers with, and what a participant sends
//! it and keeps of it.
//!
//! Renode's External Control client is kept behind a small helper process. The
//! upstream client owns a fatal-error path that may terminate its host process;
//! isolation turns that into a bounded participant failure instead of allowing a
//! backend transport failure to terminate the simulation service.
use crate::circuit::{PinDirection, SignalDomain};
use crate::control::{check_signal, signal_failure, ExecutionPolicy};
use crate::cosim::{CoSimulationPort, CoSimulationTime, CoSimulationValue};
use crate::fault::{agrees, fail, fault, passes, EngineError, Fault};
use crate::hdl::{signed_decimal, signed_text};
use crate::lines::{rows, split_words, words_of};
use crate::reading::same;
use crate::renode::{is_safe_object_path, object_path};
use crate::text::{
    all_digits, blank, cat2, cat3, cat4, cat5, decimal, decimal_text, from_chars, is_blank,
    is_digit_char, parse_unsigned, text_eq, texts, to_chars, trim, trim_text, unsigned,
};
use crate::validation::{identifier, is_identifier};
use crate::verilator_cosim::{binary_level, same_command};
use crate::waveform::LogicValue;
use vstd::prelude::*;

verus! {

pub const RENODE_COSIM_DEFAULT_HELPER: &'static str = "ontologyx-renode-cosim-helper";

pub const RENODE_COSIM_TIME_QUANTUM_PS: u64 = 1_000;

/// A port and the pin of a board that it stands for.
#[derive(Clone, Debug, PartialEq, Eq)]
pub struct RenodeCoSimulationBinding {
    pub port: String,
    pub controller: String,
    pub pin: i32,
    pub direction: PinDirection,
}

impl RenodeCoSimulationBinding {
    pub fn input(port: &str, controller: &str, pin: i32) -> (r: Self)
        ensures
            r.port@ == port@,
            r.controller@ == controller@,
            r.pin == pin,
            r.direction == PinDirection::Input,
    {
        RenodeCoSimulationBinding {
            port: port.to_owned(),
            controller: controller.to_owned(),
            pin,
            direction: PinDirection::Input,
        }
    }

    pub fn output(port: &str, controller: &str, pin: i32) -> (r: Self)
        ensures
            r.port@ == port@,
            r.controller@ == controller@,
            r.pin == pin,
            r.direction == PinDirection::Output,
    {
        RenodeCoSimulationBinding {
            port: port.to_owned(),
            controller: controller.to_owned(),
            pin,
            direction: PinDirection::Output,
        }
    }

    pub fn bidirectional(port: &str, controller: &str, pin: i32) -> (r: Self)
        ensures
            r.port@ == port@,
            r.controller@ == controller@,
            r.pin == pin,
            r.direction == PinDirection::Bidirectional,
    {
        RenodeCoSimulationBinding {
            port: port.to_owned(),
            controller: controller.to_owned(),
            pin,
            direction: PinDirection::Bidirectional,
        }
    }

    /// What is wrong with the binding, if anything.
    pub open spec fn failure(self) -> Option<Fault> {
        if !identifier(self.port@, false) {
            Some(
                binding_fault(
                    "Renode co-simulation port `"@ + self.port@ + "` is not a safe identifier"@,
                ),
            )
        } else if !object_path(self.controller@) {
            Some(
                binding_fault(
                    "Renode GPIO controller `"@ + self.controller@
                        + "` must contain only identifier segments separated by dots"@,
                ),
            )
        } else if self.pin < 0 {
            Some(
                binding_fault(
                    "Renode GPIO pin for `"@ + self.port@ + "` must be non-negative"@,
                ),
            )
        } else if self.direction == PinDirection::Passive {
            Some(
                binding_fault(
                    "Renode GPIO binding `"@ + self.port@
                        + "` must be input, output, or bidirectional"@,
                ),
            )
        } else {
            None
        }
    }

    pub fn validate(&self) -> (r: Result<(), EngineError>)
        ensures
            passes(r, self.failure()),
    {
        let port = self.port.as_str();
        if !is_identifier(&to_chars(port), false) {
            return Err(
                binding_error(
                    cat3("Renode co-simulation port `", port, "` is not a safe identifier"),
                ),
            );
        }
        if !is_safe_object_path(self.controller.as_str()) {
            return Err(
                binding_error(
                    cat3(
                        "Renode GPIO controller `",
                        self.controller.as_str(),
                        "` must contain only identifier segments separated by dots",
                    ),
                ),
            );
        }
        if self.pin < 0 {
            return Err(
                binding_error(cat3("Renode GPIO pin for `", port, "` must be non-negative")),
            );
        }
        if self.direction == PinDirection::Passive {
            return Err(
                binding_error(
                    cat3(
                        "Renode GPIO binding `",
                        port,
                        "` must be input, output, or bidirectional",
                    ),
                ),
            );
        }
        Ok(())
    }
}

pub open spec fn binding_fault(message: Seq<char>) -> Fault {
    fault("renode_cosim_binding_invalid"@, message)
}

fn binding_error(message: String) -> (r: EngineError)
    ensures
        r@ == binding_fault(message@),
{
    fail("renode_cosim_binding_invalid", message)
}

/// Where a helper process is and what it connects to.
#[derive(Clone, Debug, PartialEq, Eq)]
pub struct RenodeCoSimulationConfig {
    pub helper: String,
    pub server_port: String,
    pub machine: String,
    pub quantum: CoSimulationTime,
}

pub open spec fn config_fault(message: Seq<char>) -> Fault {
    fault("renode_cosim_config_invalid"@, message)
}

/// Nothing but decimal digits, and at least one.
fn digits_only(text: &str) -> (r: bool)
    ensures
        r == (text@.len() > 0 && all_digits(text@)),
{
    let v = to_chars(text);
    let mut i: usize = 0;
    while i < v.len()
        invariant
            i <= v@.len(),
            v@ == text@,
            forall|k: int| 0 <= k < i ==> crate::text::is_ascii_digit(#[trigger] text@[k]),
        decreases v@.len() - i,
    {
        if !is_digit_char(v[i]) {
            assert(!crate::text::is_ascii_digit(text@[i as int]));
            return false;
        }
        i = i + 1;
    }
    v.len() > 0
}

impl RenodeCoSimulationConfig {
    pub fn new(server_port: &str, machine: &str) -> (r: Self)
        ensures
            r.helper@ == RENODE_COSIM_DEFAULT_HELPER@,
            r.server_port@ == server_port@,
            r.machine@ == machine@,
            r.quantum.0 == RENODE_COSIM_TIME_QUANTUM_PS,
    {
        RenodeCoSimulationConfig {
            helper: RENODE_COSIM_DEFAULT_HELPER.to_owned(),
            server_port: server_port.to_owned(),
            machine: machine.to_owned(),
            quantum: CoSimulationTime(RENODE_COSIM_TIME_QUANTUM_PS),
        }
    }

    pub fn with_helper(self, helper: &str) -> (r: Self)
        ensures
            r.helper@ == helper@,
            r == (RenodeCoSimulationConfig { helper: r.helper, ..self }),
    {
        RenodeCoSimulationConfig {
            helper: helper.to_owned(),
            server_port: self.server_port,
            machine: self.machine,
            quantum: self.quantum,
        }
    }

    pub fn with_quantum(self, quantum: CoSimulationTime) -> (r: Self)
        ensures
            r == (RenodeCoSimulationConfig { quantum, ..self }),
    {
        RenodeCoSimulationConfig {
            helper: self.helper,
            server_port: self.server_port,
            machine: self.machine,
            quantum,
        }
    }

    /// What is wrong with the configuration, if anything.
    pub open spec fn failure(self) -> Option<Fault> {
        let number = unsigned(self.server_port@, u16::MAX as nat);
        if self.helper@.len() == 0 {
            Some(config_fault("Renode co-simulation helper path must not be empty"@))
        } else if self.server_port@.len() == 0 || !all_digits(self.server_port@) {
            Some(
                config_fault(
                    "Renode External Control server port must contain only decimal digits"@,
                ),
            )
        } else if number is None || number == Some(0nat) {
            Some(
                config_fault(
                    "Renode External Control server port must be in the range 1..=65535"@,
                ),
            )
        } else if !identifier(self.machine@, false) {
            Some(config_fault("Renode machine name must be a safe identifier"@))
        } else if self.quantum.0 == 0 || self.quantum.0 % RENODE_COSIM_TIME_QUANTUM_PS != 0 {
            Some(
                fault(
                    "renode_cosim_time_resolution"@,
                    "Renode co-simulation quantum must be a non-zero whole number of nanoseconds"@,
                ),
            )
        } else {
            None
        }
    }

    pub fn validate(&self) -> (r: Result<(), EngineError>)
        ensures
            passes(r, self.failure()),
    {
        let code = "renode_cosim_config_invalid";
        if to_chars(self.helper.as_str()).len() == 0 {
            return Err(
                EngineError::new(code, "Renode co-simulation helper path must not be empty"),
            );
        }
        if !digits_only(self.server_port.as_str()) {
            return Err(
                EngineError::new(
                    code,
                    "Renode External Control server port must contain only decimal digits",
                ),
            );
        }
        let in_range = match parse_unsigned(&to_chars(self.server_port.as_str()), 65535) {
            Some(port) => port != 0,
            None => false,
        };
        if !in_range {
            return Err(
                EngineError::new(
                    code,
                    "Renode External Control server port must be in the range 1..=65535",
                ),
            );
        }
        if !is_identifier(&to_chars(self.machine.as_str()), false) {
            return Err(
                EngineError::new(code, "Renode machine name must be a safe identifier"),
            );
        }
        if self.quantum.0 == 0 || self.quantum.0 % RENODE_COSIM_TIME_QUANTUM_PS != 0 {
            return Err(
                EngineError::new(
                    "renode_cosim_time_resolution",
                    "Renode co-simulation quantum must be a non-zero whole number of nanoseconds",
                ),
            );
        }
        Ok(())
    }
}

/// How the helper calls a direction.
pub open spec fn direction_word(direction: PinDirection) -> Seq<char> {
    match direction {
        PinDirection::Input => "in"@,
        PinDirection::Output => "out"@,
        _ => "io"@,
    }
}

/// The arguments of the first `n` bindings.
pub open spec fn binding_arguments(bindings: Seq<RenodeCoSimulationBinding>, n: int) -> Seq<
    Seq<char>,
>
    decreases n,
{
    if n <= 0 {
        Seq::empty()
    } else {
        let binding = bindings[n - 1];
        binding_arguments(bindings, n - 1).push("--binding"@).push(
            binding.controller@ + ","@ + signed_decimal(binding.pin as int) + ","@
                + direction_word(binding.direction),
        )
    }
}

/// The arguments of the helper.
pub open spec fn arguments_of(
    config: RenodeCoSimulationConfig,
    bindings: Seq<RenodeCoSimulationBinding>,
) -> Seq<Seq<char>> {
    seq!["--server-port"@, config.server_port@, "--machine"@, config.machine@]
        + binding_arguments(bindings, bindings.len() as int)
}

pub fn helper_arguments(
    config: &RenodeCoSimulationConfig,
    bindings: &Vec<RenodeCoSimulationBinding>,
) -> (r: Vec<String>)
    ensures
        texts(r@) == arguments_of(*config, bindings@),
{
    let mut out: Vec<String> = Vec::new();
    out.push("--server-port".to_owned());
    out.push(config.server_port.clone());
    out.push("--machine".to_owned());
    out.push(config.machine.clone());
    let ghost head = seq!["--server-port"@, config.server_port@, "--machine"@, config.machine@];
    assert(texts(out@) =~= head + binding_arguments(bindings@, 0));
    let mut i: usize = 0;
    while i < bindings.len()
        invariant
            i <= bindings@.len(),
            texts(out@) == head + binding_arguments(bindings@, i as int),
        decreases bindings@.len() - i,
    {
        let binding = &bindings[i];
        let word = match binding.direction {
            PinDirection::Input => "in",
            PinDirection::Output => "out",
            _ => "io",
        };
        let text = cat5(
            binding.controller.as_str(),
            ",",
            signed_text(binding.pin as i64).as_str(),
            ",",
            word,
        );
        let ghost before = texts(out@);
        out.push("--binding".to_owned());
        out.push(text);
        assert(texts(out@) =~= before.push("--binding"@).push(text@));
        assert(texts(out@) =~= head + binding_arguments(bindings@, i + 1));
        i = i + 1;
    }
    out
}

pub open spec fn helper_fault(message: Seq<char>) -> Fault {
    fault("renode_cosim_protocol_error"@, message)
}

fn helper_error(message: String) -> (r: EngineError)
    ensures
        r@ == helper_fault(message@),
{
    fail("renode_cosim_protocol_error", message)
}

/// A state line: the time and the levels of all pins.
pub open spec fn board_levels(line: Seq<char>, count: nat, n: int) -> Result<Seq<LogicValue>, Fault>
    decreases n,
{
    if n <= 0 {
        Ok(Seq::empty())
    } else {
        match board_levels(line, count, n - 1) {
            Err(f) => Err(f),
            Ok(before) => {
                let fields = words_of(line);
                let level = if n + 1 < fields.len() {
                    binary_level(fields[n + 1])
                } else {
                    None
                };
                match level {
                    Some(value) => Ok(before.push(value)),
                    None => Err(
                        helper_fault(
                            "invalid Renode helper GPIO state `"@ + trim(line) + "`"@,
                        ),
                    ),
                }
            },
        }
    }
}

proof fn lemma_board_levels_stop(line: Seq<char>, count: nat, n: int, m: int)
    requires
        0 <= m <= n,
        board_levels(line, count, m) is Err,
    ensures
        board_levels(line, count, n) == board_levels(line, count, m),
    decreases n - m,
{
    if m < n {
        lemma_board_levels_stop(line, count, n, m + 1);
    }
}

/// What is known of a board.
pub struct BoardState {
    pub time: CoSimulationTime,
    pub levels: Seq<LogicValue>,
}

/// What a state line with `count` pins says.
pub open spec fn board_read(line: Seq<char>, count: nat) -> Result<BoardState, Fault> {
    let fields = words_of(line);
    if fields.len() == 0 || fields[0] != "STATE"@ {
        Err(helper_fault("expected `STATE` from Renode helper, got `"@ + trim(line) + "`"@))
    } else if fields.len() < 2 || unsigned(fields[1], u64::MAX as nat) is None {
        Err(helper_fault("invalid Renode helper time"@))
    } else {
        match board_levels(line, count, count as int) {
            Err(f) => Err(f),
            Ok(levels) => if fields.len() > count + 2 {
                Err(
                    helper_fault(
                        "Renode helper returned extra state fields: `"@ + trim(line) + "`"@,
                    ),
                )
            } else {
                Ok(
                    BoardState {
                        time: CoSimulationTime(
                            unsigned(fields[1], u64::MAX as nat)->Some_0 as u64,
                        ),
                        levels,
                    },
                )
            },
        }
    }
}

/// A session with a running helper: what it last said.
#[derive(Clone, Debug, PartialEq, Eq)]
pub struct BoardSession {
    pub current_time: CoSimulationTime,
    pub values: Vec<LogicValue>,
}

impl View for BoardSession {
    type V = BoardState;

    open spec fn view(&self) -> BoardState {
        BoardState { time: self.current_time, levels: self.values@ }
    }
}

/// The command that sets a pin, or none where it is at the level already.
pub open spec fn pin_command(
    session: BoardState,
    index: int,
    time: CoSimulationTime,
    value: LogicValue,
) -> Result<Option<Seq<char>>, Fault> {
    if time != session.time {
        Err(
            fault(
                "renode_cosim_time_invalid"@,
                "Renode co-simulation input writes must occur at the participant current time"@,
            ),
        )
    } else if index < session.levels.len() && session.levels[index] == value {
        Ok(None)
    } else {
        Ok(
            Some(
                "SET "@ + decimal(index as nat) + " "@ + if value == LogicValue::One {
                    "1"@
                } else {
                    "0"@
                },
            ),
        )
    }
}

/// The command that moves a board to a time, or none where it is there.
pub open spec fn board_command(session: BoardState, target: CoSimulationTime) -> Result<
    Option<Seq<char>>,
    Fault,
> {
    if target.0 < session.time.0 {
        Err(
            fault(
                "renode_cosim_time_invalid"@,
                "Renode co-simulation participant cannot move backwards in time"@,
            ),
        )
    } else if target == session.time {
        Ok(None)
    } else {
        Ok(Some("ADV "@ + decimal(target.0 as nat)))
    }
}

/// Why a board that was moved is not where it was to be.
pub open spec fn board_arrival_failure(session: BoardState, target: CoSimulationTime) -> Option<
    Fault,
> {
    if session.time != target {
        Some(
            helper_fault(
                "Renode helper advanced to "@ + decimal(session.time.0 as nat)
                    + " ps instead of "@ + decimal(target.0 as nat) + " ps"@,
            ),
        )
    } else {
        None
    }
}

fn read_levels(line: &str, fields: &Vec<Vec<char>>, count: usize) -> (r: Result<
    Vec<LogicValue>,
    EngineError,
>)
    requires
        rows(fields@) == words_of(line@),
    ensures
        match (r, board_levels(line@, count as nat, count as int)) {
            (Ok(v), Ok(s)) => v@ == s,
            (Err(e), Err(f)) => e@ == f,
            _ => false,
        },
{
    let ghost words = words_of(line@);
    let ghost all = count as nat;
    let mut out: Vec<LogicValue> = Vec::new();
    let mut i: usize = 0;
    while i < count
        invariant
            i <= count,
            all == count,
            words == words_of(line@),
            rows(fields@) == words,
            board_levels(line@, all, i as int) == Ok::<Seq<LogicValue>, Fault>(out@),
        decreases count - i,
    {
        assert(words.len() == fields@.len());
        let level = if fields.len() > 2 && i < fields.len() - 2 {
            assert(words[i + 2] == fields@[i + 2]@);
            let text = from_chars(&fields[i + 2]);
            if text_eq(text.as_str(), "0") {
                Some(LogicValue::Zero)
            } else if text_eq(text.as_str(), "1") {
                Some(LogicValue::One)
            } else {
                None
            }
        } else {
            None
        };
        match level {
            Some(value) => {
                out.push(value);
            },
            None => {
                proof {
                    assert(board_levels(line@, all, i + 1) is Err);
                    lemma_board_levels_stop(line@, all, count as int, i + 1);
                }
                return Err(
                    helper_error(
                        cat3(
                            "invalid Renode helper GPIO state `",
                            trim_text(line).as_str(),
                            "`",
                        ),
                    ),
                );
            },
        }
        i = i + 1;
    }
    Ok(out)
}

pub fn parse_board_state(line: &str, count: usize) -> (r: Result<BoardSession, EngineError>)
    ensures
        agrees(r, board_read(line@, count as nat)),
{
    let fields = split_words(&to_chars(line));
    let ghost words = words_of(line@);
    assert(words.len() == fields@.len());
    assert(forall|k: int| 0 <= k < fields@.len() ==> words[k] == #[trigger] fields@[k]@);
    if fields.len() == 0 || !text_eq(from_chars(&fields[0]).as_str(), "STATE") {
        return Err(
            helper_error(
                cat3("expected `STATE` from Renode helper, got `", trim_text(line).as_str(), "`"),
            ),
        );
    }
    let time: Option<u64> = if fields.len() < 2 {
        None
    } else {
        parse_unsigned(&fields[1], u64::MAX)
    };
    let time: u64 = match time {
        None => {
            return Err(
                EngineError::new("renode_cosim_protocol_error", "invalid Renode helper time"),
            );
        },
        Some(time) => time,
    };
    let values = match read_levels(line, &fields, count) {
        Err(e) => {
            return Err(e);
        },
        Ok(values) => values,
    };
    if fields.len() - 2 > count {
        return Err(
            helper_error(
                cat3(
                    "Renode helper returned extra state fields: `",
                    trim_text(line).as_str(),
                    "`",
                ),
            ),
        );
    }
    Ok(BoardSession { current_time: CoSimulationTime(time), values })
}

impl BoardSession {
    /// A session before the first state line.
    pub fn open(count: usize) -> (r: Self)
        ensures
            r@.time.0 == 0,
            r@.levels == Seq::new(count as nat, |i: int| LogicValue::Zero),
    {
        let mut values: Vec<LogicValue> = Vec::new();
        let mut i: usize = 0;
        while i < count
            invariant
                i <= count,
                values@ =~= Seq::new(i as nat, |i: int| LogicValue::Zero),
            decreases count - i,
        {
            values.push(LogicValue::Zero);
            i = i + 1;
        }
        BoardSession { current_time: CoSimulationTime(0), values }
    }

    /// Takes over a state line. One that is refused changes nothing.
    pub fn take_state(&mut self, line: &str) -> (r: Result<(), EngineError>)
        ensures
            match (r, board_read(line@, old(self)@.levels.len())) {
                (Ok(_), Ok(s)) => final(self)@ == s,
                (Err(e), Err(f)) => e@ == f && final(self)@ == old(self)@,
                _ => false,
            },
    {
        match parse_board_state(line, self.values.len()) {
            Err(e) => Err(e),
            Ok(session) => {
                *self = session;
                Ok(())
            },
        }
    }

    pub fn plan_input(&self, index: usize, time: CoSimulationTime, value: LogicValue) -> (r: Result<
        Option<String>,
        EngineError,
    >)
        ensures
            same_command(r, pin_command(self@, index as int, time, value)),
    {
        if time.0 != self.current_time.0 {
            return Err(
                EngineError::new(
                    "renode_cosim_time_invalid",
                    "Renode co-simulation input writes must occur at the participant current time",
                ),
            );
        }
        if index < self.values.len() && self.values[index] == value {
            return Ok(None);
        }
        let bit = if value == LogicValue::One {
            "1"
        } else {
            "0"
        };
        Ok(Some(cat4("SET ", decimal_text(index as u64).as_str(), " ", bit)))
    }

    pub fn plan_advance(&self, target: CoSimulationTime) -> (r: Result<Option<String>, EngineError>)
        ensures
            same_command(r, board_command(self@, target)),
    {
        if target.0 < self.current_time.0 {
            return Err(
                EngineError::new(
                    "renode_cosim_time_invalid",
                    "Renode co-simulation participant cannot move backwards in time",
                ),
            );
        }
        if target.0 == self.current_time.0 {
            return Ok(None);
        }
        Ok(Some(cat2("ADV ", decimal_text(target.0).as_str())))
    }

    pub fn check_arrival(&self, target: CoSimulationTime) -> (r: Result<(), EngineError>)
        ensures
            passes(r, board_arrival_failure(self@, target)),
    {
        if self.current_time.0 != target.0 {
            return Err(
                helper_error(
                    cat5(
                        "Renode helper advanced to ",
                        decimal_text(self.current_time.0).as_str(),
                        " ps instead of ",
                        decimal_text(target.0).as_str(),
                        " ps",
                    ),
                ),
            );
        }
        Ok(())
    }
}

/// A state line that is accepted says the level of every pin.
pub proof fn accepted_states_are_complete(line: Seq<char>, count: nat)
    requires
        board_read(line, count) is Ok,
    ensures
        board_read(line, count)->Ok_0.levels.len() == count,
        words_of(line).len() == count + 2,
{
    lemma_level_count(line, count, count as int);
}

proof fn lemma_level_count(line: Seq<char>, count: nat, n: int)
    requires
        0 <= n,
        board_levels(line, count, n) is Ok,
    ensures
        board_levels(line, count, n)->Ok_0.len() == n,
        n > 0 ==> words_of(line).len() >= n + 2,
    decreases n,
{
    if n > 0 {
        lemma_level_count(line, count, n - 1);
    }
}

/// A board that arrived has nothing more to do, and never moved back.
pub proof fn arrived_boards_stand_at_their_target(
    before: BoardState,
    after: BoardState,
    target: CoSimulationTime,
)
    requires
        board_command(before, target) is Ok,
        board_arrival_failure(after, target) is None,
    ensures
        after.time == target,
        before.time.0 <= after.time.0,
        board_command(after, target) == Ok::<Option<Seq<char>>, Fault>(None),
{
}

/// A participant that runs firmware on a board. The helper process is kept
/// elsewhere; `session` stands for it once it has answered.
#[derive(Clone, Debug, PartialEq, Eq)]
pub struct RenodeCoSimulationParticipant {
    pub id: String,
    pub config: RenodeCoSimulationConfig,
    pub bindings: Vec<RenodeCoSimulationBinding>,
    pub ports: Vec<CoSimulationPort>,
    pub session: Option<BoardSession>,
}

/// Whether an earlier binding has the port of a binding.
pub open spec fn port_taken(bindings: Seq<RenodeCoSimulationBinding>, i: int) -> bool {
    exists|j: int| 0 <= j < i && (#[trigger] bindings[j]).port@ == bindings[i].port@
}

/// The first failure among the first `n` bindings.
pub open spec fn bindings_failure(bindings: Seq<RenodeCoSimulationBinding>, n: int) -> Option<Fault>
    decreases n,
{
    if n <= 0 {
        None
    } else {
        match bindings_failure(bindings, n - 1) {
            Some(f) => Some(f),
            None => match bindings[n - 1].failure() {
                Some(f) => Some(f),
                None => if port_taken(bindings, n - 1) {
                    Some(
                        binding_fault(
                            "duplicate Renode co-simulation port `"@ + bindings[n - 1].port@
                                + "`"@,
                        ),
                    )
                } else {
                    None
                },
            },
        }
    }
}

proof fn lemma_bindings_failure_stops(bindings: Seq<RenodeCoSimulationBinding>, n: int, m: int)
    requires
        0 <= m <= n,
        bindings_failure(bindings, m) is Some,
    ensures
        bindings_failure(bindings, n) == bindings_failure(bindings, m),
    decreases n - m,
{
    if m < n {
        lemma_bindings_failure_stops(bindings, n, m + 1);
    }
}

/// Why a participant is refused.
pub open spec fn board_participant_failure(
    id: Seq<char>,
    config: RenodeCoSimulationConfig,
    bindings: Seq<RenodeCoSimulationBinding>,
) -> Option<Fault> {
    if is_blank(id) {
        Some(
            fault(
                "renode_cosim_participant_invalid"@,
                "Renode co-simulation participant id must not be empty"@,
            ),
        )
    } else {
        match config.failure() {
            Some(f) => Some(f),
            None => if bindings.len() == 0 {
                Some(
                    binding_fault("Renode co-simulation requires at least one GPIO binding"@),
                )
            } else {
                bindings_failure(bindings, bindings.len() as int)
            },
        }
    }
}

/// The ports of bindings.
pub open spec fn bound_to(
    ports: Seq<CoSimulationPort>,
    bindings: Seq<RenodeCoSimulationBinding>,
) -> bool {
    ports.len() == bindings.len() && forall|i: int|
        0 <= i < ports.len() ==> {
            &&& (#[trigger] ports[i]).name@ == bindings[i].port@
            &&& ports[i].domain == SignalDomain::Digital
            &&& ports[i].direction == bindings[i].direction
            &&& ports[i].unit is None
        }
}

/// The place of the first binding of a port among the first `n`.
pub open spec fn binding_place(
    bindings: Seq<RenodeCoSimulationBinding>,
    port: Seq<char>,
    n: int,
) -> Option<int>
    decreases n,
{
    if n <= 0 {
        None
    } else {
        match binding_place(bindings, port, n - 1) {
            Some(i) => Some(i),
            None => if bindings[n - 1].port@ == port {
                Some(n - 1)
            } else {
                None
            },
        }
    }
}

proof fn lemma_binding_place_stays(
    bindings: Seq<RenodeCoSimulationBinding>,
    port: Seq<char>,
    n: int,
    m: int,
)
    requires
        0 <= m <= n,
        binding_place(bindings, port, m) is Some,
    ensures
        binding_place(bindings, port, n) == binding_place(bindings, port, m),
    decreases n - m,
{
    if m < n {
        lemma_binding_place_stays(bindings, port, n, m + 1);
    }
}

fn find_port_taken(bindings: &Vec<RenodeCoSimulationBinding>, i: usize) -> (r: bool)
    requires
        i < bindings@.len(),
    ensures
        r == port_taken(bindings@, i as int),
{
    let mut j: usize = 0;
    while j < i
        invariant
            j <= i < bindings@.len(),
            forall|k: int|
                0 <= k < j ==> (#[trigger] bindings@[k]).port@ != bindings@[i as int].port@,
        decreases i - j,
    {
        if text_eq(bindings[j].port.as_str(), bindings[i].port.as_str()) {
            assert(bindings@[j as int].port@ == bindings@[i as int].port@);
            return true;
        }
        j = j + 1;
    }
    false
}

fn check_bindings(bindings: &Vec<RenodeCoSimulationBinding>) -> (r: Result<(), EngineError>)
    ensures
        passes(r, bindings_failure(bindings@, bindings@.len() as int)),
{
    let mut i: usize = 0;
    while i < bindings.len()
        invariant
            i <= bindings@.len(),
            bindings_failure(bindings@, i as int) is None,
        decreases bindings@.len() - i,
    {
        match bindings[i].validate() {
            Err(e) => {
                proof {
                    lemma_bindings_failure_stops(bindings@, bindings@.len() as int, i + 1);
                }
                return Err(e);
            },
            Ok(_) => {},
        }
        if find_port_taken(bindings, i) {
            proof {
                lemma_bindings_failure_stops(bindings@, bindings@.len() as int, i + 1);
            }
            return Err(
                binding_error(
                    cat3(
                        "duplicate Renode co-simulation port `",
                        bindings[i].port.as_str(),
                        "`",
                    ),
                ),
            );
        }
        i = i + 1;
    }
    Ok(())
}

impl RenodeCoSimulationParticipant {
    pub fn new(
        id: &str,
        config: RenodeCoSimulationConfig,
        bindings: Vec<RenodeCoSimulationBinding>,
    ) -> (r: Result<Self, EngineError>)
        ensures
            match r {
                Ok(p) => {
                    &&& board_participant_failure(id@, config, bindings@) is None
                    &&& p.id@ == id@
                    &&& p.config == config
                    &&& p.bindings == bindings
                    &&& bound_to(p.ports@, bindings@)
                    &&& p.session is None
                },
                Err(e) => board_participant_failure(id@, config, bindings@) == Some(e@),
            },
    {
        if blank(id) {
            return Err(
                EngineError::new(
                    "renode_cosim_participant_invalid",
                    "Renode co-simulation participant id must not be empty",
                ),
            );
        }
        match config.validate() {
            Err(e) => {
                return Err(e);
            },
            Ok(_) => {},
        }
        if bindings.len() == 0 {
            return Err(
                EngineError::new(
                    "renode_cosim_binding_invalid",
                    "Renode co-simulation requires at least one GPIO binding",
                ),
            );
        }
        match check_bindings(&bindings) {
            Err(e) => {
                return Err(e);
            },
            Ok(_) => {},
        }
        let mut ports: Vec<CoSimulationPort> = Vec::new();
        let mut i: usize = 0;
        while i < bindings.len()
            invariant
                i <= bindings@.len(),
                bound_to(ports@, bindings@.take(i as int)),
            decreases bindings@.len() - i,
        {
            let ghost before = ports@;
            ports.push(CoSimulationPort::digital(bindings[i].port.as_str(), bindings[i].direction));
            assert forall|k: int| 0 <= k < ports@.len() implies {
                &&& (#[trigger] ports@[k]).name@ == bindings@.take(i + 1)[k].port@
                &&& ports@[k].domain == SignalDomain::Digital
                &&& ports@[k].direction == bindings@.take(i + 1)[k].direction
                &&& ports@[k].unit is None
            } by {
                if k < i {
                    assert(ports@[k] == before[k]);
                    assert(bindings@.take(i as int)[k] == bindings@[k]);
                }
            }
            i = i + 1;
        }
        assert(bindings@.take(i as int) =~= bindings@);
        Ok(
            RenodeCoSimulationParticipant {
                id: id.to_owned(),
                config,
                bindings,
                ports,
                session: None,
            },
        )
    }

    pub open spec fn unknown_port(self, port: Seq<char>) -> Fault {
        fault(
            "renode_cosim_port_missing"@,
            "Renode co-simulation participant `"@ + self.id@ + "` has no port `"@ + port + "`"@,
        )
    }

    pub open spec fn unstarted(self) -> Fault {
        fault(
            "renode_cosim_not_initialized"@,
            "Renode co-simulation participant `"@ + self.id@ + "` is not initialized"@,
        )
    }

    /// What reading a port gives.
    pub open spec fn value_of(self, port: Seq<char>) -> Result<CoSimulationValue, Fault> {
        match binding_place(self.bindings@, port, self.bindings@.len() as int) {
            None => Err(self.unknown_port(port)),
            Some(i) => if self.bindings@[i].direction != PinDirection::Output
                && self.bindings@[i].direction != PinDirection::Bidirectional {
                Err(
                    fault(
                        "renode_cosim_port_direction"@,
                        "Renode co-simulation port `"@ + port + "` is not readable"@,
                    ),
                )
            } else {
                match self.session {
                    None => Err(self.unstarted()),
                    Some(session) => if i < session@.levels.len() {
                        Ok(CoSimulationValue::Digital(session@.levels[i]))
                    } else {
                        Err(helper_fault("missing GPIO state"@))
                    },
                }
            },
        }
    }

    /// What writing a value to a port sends.
    pub open spec fn writing(
        self,
        port: Seq<char>,
        time: CoSimulationTime,
        value: CoSimulationValue,
    ) -> Result<Option<Seq<char>>, Fault> {
        match binding_place(self.bindings@, port, self.bindings@.len() as int) {
            None => Err(self.unknown_port(port)),
            Some(i) => if self.bindings@[i].direction != PinDirection::Input
                && self.bindings@[i].direction != PinDirection::Bidirectional {
                Err(
                    fault(
                        "renode_cosim_port_direction"@,
                        "Renode co-simulation port `"@ + port + "` is not writable"@,
                    ),
                )
            } else {
                match value {
                    CoSimulationValue::Analog(_) => Err(
                        fault(
                            "renode_cosim_domain_mismatch"@,
                            "Renode co-simulation port `"@ + port + "` requires a digital value"@,
                        ),
                    ),
                    CoSimulationValue::Digital(level) => if level != LogicValue::Zero && level
                        != LogicValue::One {
                        Err(
                            fault(
                                "renode_cosim_two_state_input"@,
                                "Renode GPIO input `"@ + port + "` requires zero/one"@,
                            ),
                        )
                    } else {
                        match self.session {
                            None => Err(self.unstarted()),
                            Some(session) => pin_command(session@, i, time, level),
                        }
                    },
                }
            },
        }
    }

    /// What moving to a time sends.
    pub open spec fn moving(self, target: CoSimulationTime) -> Result<Option<Seq<char>>, Fault> {
        if target.0 % RENODE_COSIM_TIME_QUANTUM_PS != 0 {
            Err(
                fault(
                    "renode_cosim_time_resolution"@,
                    "Renode target "@ + decimal(target.0 as nat)
                        + " ps is not representable at the 1 ns External Control boundary"@,
                ),
            )
        } else {
            match self.session {
                None => Err(self.unstarted()),
                Some(session) => board_command(session@, target),
            }
        }
    }

    pub fn current_time(&self) -> (r: CoSimulationTime)
        ensures
            r == match self.session {
                Some(session) => session@.time,
                None => CoSimulationTime(0),
            },
    {
        match &self.session {
            Some(session) => session.current_time,
            None => CoSimulationTime(0),
        }
    }

    /// The end of the quantum that the board is in.
    pub fn next_event_time(&self) -> (r: Option<CoSimulationTime>)
        ensures
            r == match self.session {
                Some(session) => if session@.time.0 + self.config.quantum.0 <= u64::MAX {
                    Some(CoSimulationTime((session@.time.0 + self.config.quantum.0) as u64))
                } else {
                    None
                },
                None => None,
            },
    {
        match &self.session {
            Some(session) => match session.current_time.0.checked_add(self.config.quantum.0) {
                Some(time) => Some(CoSimulationTime(time)),
                None => None,
            },
            None => None,
        }
    }

    /// Takes over a session that has answered, unless its time has moved on
    /// already.
    pub fn begin(&mut self, session: BoardSession) -> (r: Result<(), EngineError>)
        ensures
            passes(
                r,
                if session@.time.0 != 0 {
                    Some(
                        fault(
                            "renode_cosim_time_origin"@,
                            "Renode External Control session must be connected before virtual time advances"@,
                        ),
                    )
                } else {
                    None
                },
            ),
            *final(self) == (RenodeCoSimulationParticipant {
                session: if session@.time.0 != 0 {
                    None
                } else {
                    Some(session)
                },
                ..*old(self)
            }),
    {
        if session.current_time.0 != 0 {
            self.session = None;
            return Err(
                EngineError::new(
                    "renode_cosim_time_origin",
                    "Renode External Control session must be connected before virtual time advances",
                ),
            );
        }
        self.session = Some(session);
        Ok(())
    }

    fn find_binding(&self, port: &str) -> (r: Result<usize, EngineError>)
        ensures
            match (r, binding_place(self.bindings@, port@, self.bindings@.len() as int)) {
                (Ok(i), Some(k)) => i == k && i < self.bindings@.len(),
                (Err(e), None) => e@ == self.unknown_port(port@),
                _ => false,
            },
    {
        let bindings = &self.bindings;
        let mut i: usize = 0;
        while i < bindings.len()
            invariant
                i <= bindings@.len(),
                bindings@ == self.bindings@,
                binding_place(bindings@, port@, i as int) is None,
            decreases bindings@.len() - i,
        {
            if text_eq(bindings[i].port.as_str(), port) {
                proof {
                    lemma_binding_place_stays(
                        bindings@,
                        port@,
                        bindings@.len() as int,
                        i + 1,
                    );
                }
                return Ok(i);
            }
            i = i + 1;
        }
        Err(
            fail(
                "renode_cosim_port_missing",
                cat5(
                    "Renode co-simulation participant `",
                    self.id.as_str(),
                    "` has no port `",
                    port,
                    "`",
                ),
            ),
        )
    }

    fn no_session(&self) -> (r: EngineError)
        ensures
            r@ == self.unstarted(),
    {
        fail(
            "renode_cosim_not_initialized",
            cat3(
                "Renode co-simulation participant `",
                self.id.as_str(),
                "` is not initialized",
            ),
        )
    }

    pub fn read_output(&self, port: &str) -> (r: Result<CoSimulationValue, EngineError>)
        ensures
            same(r, self.value_of(port@)),
    {
        let at: usize = match self.find_binding(port) {
            Err(e) => {
                return Err(e);
            },
            Ok(at) => at,
        };
        let direction = self.bindings[at].direction;
        if direction != PinDirection::Output && direction != PinDirection::Bidirectional {
            return Err(
                fail(
                    "renode_cosim_port_direction",
                    cat3("Renode co-simulation port `", port, "` is not readable"),
                ),
            );
        }
        match &self.session {
            None => Err(self.no_session()),
            Some(session) => if at < session.values.len() {
                Ok(CoSimulationValue::Digital(session.values[at]))
            } else {
                Err(EngineError::new("renode_cosim_protocol_error", "missing GPIO state"))
            },
        }
    }

    pub fn plan_write(
        &self,
        port: &str,
        time: CoSimulationTime,
        value: &CoSimulationValue,
    ) -> (r: Result<Option<String>, EngineError>)
        ensures
            same_command(r, self.writing(port@, time, *value)),
    {
        let at: usize = match self.find_binding(port) {
            Err(e) => {
                return Err(e);
            },
            Ok(at) => at,
        };
        let direction = self.bindings[at].direction;
        if direction != PinDirection::Input && direction != PinDirection::Bidirectional {
            return Err(
                fail(
                    "renode_cosim_port_direction",
                    cat3("Renode co-simulation port `", port, "` is not writable"),
                ),
            );
        }
        let level = match value {
            CoSimulationValue::Analog(_) => {
                return Err(
                    fail(
                        "renode_cosim_domain_mismatch",
                        cat3("Renode co-simulation port `", port, "` requires a digital value"),
                    ),
                );
            },
            CoSimulationValue::Digital(level) => *level,
        };
        if level != LogicValue::Zero && level != LogicValue::One {
            return Err(
                fail(
                    "renode_cosim_two_state_input",
                    cat3("Renode GPIO input `", port, "` requires zero/one"),
                ),
            );
        }
        match &self.session {
            None => Err(self.no_session()),
            Some(session) => session.plan_input(at, time, level),
        }
    }

    pub fn plan_advance(&self, target: CoSimulationTime) -> (r: Result<Option<String>, EngineError>)
        ensures
            same_command(r, self.moving(target)),
    {
        if target.0 % RENODE_COSIM_TIME_QUANTUM_PS != 0 {
            return Err(
                fail(
                    "renode_cosim_time_resolution",
                    cat3(
                        "Renode target ",
                        decimal_text(target.0).as_str(),
                        " ps is not representable at the 1 ns External Control boundary",
                    ),
                ),
            );
        }
        match &self.session {
            None => Err(self.no_session()),
            Some(session) => session.plan_advance(target),
        }
    }
}

/// Whether a command may be sent or an answer awaited.
pub fn check_renode_cosim_control(policy: &ExecutionPolicy, cancelled: bool) -> (r: Result<
    (),
    EngineError,
>)
    ensures
        passes(r, signal_failure(*policy, cancelled, "Renode co-simulation was cancelled"@)),
{
    check_signal(policy, cancelled, "Renode co-simulation was cancelled")
}

/// What ends the wait for an answer.
pub open spec fn answer_failure(policy: ExecutionPolicy, cancelled: bool, elapsed_ms: u128) -> Option<
    Fault,
> {
    if cancelled {
        Some(
            fault(
                "execution_cancelled"@,
                "Renode co-simulation was cancelled while waiting for backend state"@,
            ),
        )
    } else if policy.timeout_ms != 0 && elapsed_ms >= policy.timeout_ms {
        Some(
            fault(
                "execution_timeout"@,
                "Renode co-simulation backend did not respond within "@ + decimal(
                    policy.timeout_ms as nat,
                ) + " ms"@,
            ),
        )
    } else {
        None
    }
}

/// How many milliseconds to wait before looking again: a poll interval, or what
/// is left of the time.
pub open spec fn pause_of(policy: ExecutionPolicy, elapsed_ms: u128) -> u64 {
    if policy.timeout_ms != 0 && elapsed_ms + policy.poll_interval_ms > policy.timeout_ms {
        if elapsed_ms >= policy.timeout_ms {
            0
        } else {
            (policy.timeout_ms - elapsed_ms) as u64
        }
    } else {
        policy.poll_interval_ms
    }
}

pub fn plan_pause(policy: &ExecutionPolicy, elapsed_ms: u128) -> (r: u64)
    ensures
        r == pause_of(*policy, elapsed_ms),
{
    if policy.timeout_ms == 0 {
        return policy.poll_interval_ms;
    }
    let limit: u128 = policy.timeout_ms as u128;
    if elapsed_ms >= limit {
        return 0;
    }
    let left: u64 = (limit - elapsed_ms) as u64;
    if policy.poll_interval_ms > left {
        left
    } else {
        policy.poll_interval_ms
    }
}

/// How long to wait on for an answer.
pub fn check_answer_wait(policy: &ExecutionPolicy, cancelled: bool, elapsed_ms: u128) -> (r: Result<
    u64,
    EngineError,
>)
    ensures
        match (r, answer_failure(*policy, cancelled, elapsed_ms)) {
            (Ok(pause), None) => pause == pause_of(*policy, elapsed_ms),
            (Err(e), Some(f)) => e@ == f,
            _ => false,
        },
{
    if cancelled {
        return Err(
            EngineError::new(
                "execution_cancelled",
                "Renode co-simulation was cancelled while waiting for backend state",
            ),
        );
    }
    if policy.timeout_ms != 0 && elapsed_ms >= policy.timeout_ms as u128 {
        return Err(
            fail(
                "execution_timeout",
                cat3(
                    "Renode co-simulation backend did not respond within ",
                    decimal_text(policy.timeout_ms).as_str(),
                    " ms",
                ),
            ),
        );
    }
    Ok(plan_pause(policy, elapsed_ms))
}

/// How long to wait before a helper is started again that could not be started
/// for a reason that passes.
pub fn check_start_wait(policy: &ExecutionPolicy, elapsed_ms: u128, reason: &str) -> (r: Result<
    u64,
    EngineError,
>)
    ensures
        match r {
            Ok(pause) => !(policy.timeout_ms != 0 && elapsed_ms >= policy.timeout_ms) && pause
                == pause_of(*policy, elapsed_ms),
            Err(e) => policy.timeout_ms != 0 && elapsed_ms >= policy.timeout_ms && e@ == fault(
                "execution_timeout"@,
                "Renode co-simulation helper could not start within "@ + decimal(
                    policy.timeout_ms as nat,
                ) + " ms: "@ + reason@,
            ),
        },
{
    if policy.timeout_ms != 0 && elapsed_ms >= policy.timeout_ms as u128 {
        return Err(
            fail(
                "execution_timeout",
                cat4(
                    "Renode co-simulation helper could not start within ",
                    decimal_text(policy.timeout_ms).as_str(),
                    " ms: ",
                    reason,
                ),
            ),
        );
    }
    Ok(plan_pause(policy, elapsed_ms))
}

} // verus!
