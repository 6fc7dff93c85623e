//! What is said to a running simulator and what is understood of its answers.
use crate::circuit::PinDirection;
use crate::cosim::CoSimulationTime;
use crate::deck::{
    fields, lemma_decimal_unspaced, lemma_fields_after_blank, lemma_fields_of_word,
    lemma_letters_add, lemma_solid_letters,
};
use crate::draft::letters;
use crate::fault::Fault;
use crate::lines::words_of;
use crate::renode_cosim::{
    arguments_of, binding_arguments, board_command, board_levels, board_read, direction_word,
    pin_command, BoardState, RenodeCoSimulationBinding, RenodeCoSimulationConfig,
};
use crate::spelling::numbers_are_read_back;
use crate::text::{decimal, first_at, split_once};
use crate::verilator_cosim::{
    advance_command, binary_level, input_command, level_at, scan_step, set_levels_are_read_back,
    Exchange, Scan,
};
use crate::waveform::LogicValue;
use vstd::prelude::*;

verus! {

/// The digit of a known level.
pub open spec fn level_digit(level: LogicValue) -> Seq<char> {
    if level == LogicValue::One {
        seq!['1']
    } else {
        seq!['0']
    }
}

proof fn lemma_set(index: nat, digit: Seq<char>)
    requires
        digit == "0"@ || digit == "1"@,
    ensures
        fields(letters("SET "@ + decimal(index) + " "@ + digit)) == seq![
            letters("SET"@),
            letters(decimal(index)),
            letters(digit),
        ],
        "0"@ == seq!['0'],
        "1"@ == seq!['1'],
{
    reveal_strlit("SET ");
    reveal_strlit("SET");
    reveal_strlit(" ");
    reveal_strlit("0");
    reveal_strlit("1");
    assert("0"@ =~= seq!['0']);
    assert("1"@ =~= seq!['1']);
    assert("SET "@ =~= "SET"@ + " "@);
    let number = decimal(index);
    lemma_decimal_unspaced(index);
    lemma_letters_add("SET"@, " "@);
    lemma_letters_add("SET "@, number);
    lemma_letters_add("SET "@ + number, " "@);
    lemma_letters_add("SET "@ + number + " "@, digit);
    lemma_solid_letters("SET"@);
    lemma_solid_letters(number);
    lemma_solid_letters(digit);
    lemma_fields_of_word(letters("SET"@));
    lemma_fields_of_word(letters(number));
    lemma_fields_of_word(letters(digit));
    lemma_fields_after_blank(letters("SET"@), letters(number));
    lemma_fields_after_blank(letters("SET "@ + number), letters(digit));
    assert(fields(letters("SET "@ + number + " "@ + digit)) =~= seq![
        letters("SET"@),
        letters(number),
        letters(digit),
    ]);
}

proof fn lemma_advance(target: nat)
    ensures
        fields(letters("ADV "@ + decimal(target))) == seq![
            letters("ADV"@),
            letters(decimal(target)),
        ],
{
    reveal_strlit("ADV ");
    reveal_strlit("ADV");
    reveal_strlit(" ");
    assert("ADV "@ =~= "ADV"@ + " "@);
    let number = decimal(target);
    lemma_decimal_unspaced(target);
    lemma_letters_add("ADV"@, " "@);
    lemma_letters_add("ADV "@, number);
    lemma_solid_letters("ADV"@);
    lemma_solid_letters(number);
    lemma_fields_of_word(letters("ADV"@));
    lemma_fields_of_word(letters(number));
    lemma_fields_after_blank(letters("ADV"@), letters(number));
    assert(fields(letters("ADV "@ + number)) =~= seq![letters("ADV"@), letters(number)]);
}

/// A command that sets an input names the place of its port and the digit of its level;
/// it is sent exactly if the level is another one than the last that was sent.
pub proof fn input_commands_name_port_and_level(
    session: Exchange,
    port_index: int,
    port: Seq<char>,
    time: CoSimulationTime,
    value: LogicValue,
)
    requires
        time == session.heard.time,
        value.known(),
    ensures
        match input_command(session, port_index, port, time, value) {
            Ok(Some(command)) => fields(letters(command)) == seq![
                letters("SET"@),
                letters(decimal(port_index as nat)),
                letters(level_digit(value)),
            ] && level_at(session.sent, port) != Some(value),
            Ok(None) => level_at(session.sent, port) == Some(value) || (level_at(
                session.sent,
                port,
            ) is None && value == LogicValue::Zero),
            Err(_) => false,
        },
{
    lemma_set(
        port_index as nat,
        if value == LogicValue::One {
            "1"@
        } else {
            "0"@
        },
    );
}

/// A command that sets a pin of a board names the place of its binding and the digit of
/// its level; it is sent exactly if the pin is not at that level.
pub proof fn pin_commands_name_pin_and_level(
    session: BoardState,
    index: int,
    time: CoSimulationTime,
    value: LogicValue,
)
    requires
        time == session.time,
        value.known(),
        0 <= index < session.levels.len(),
    ensures
        match pin_command(session, index, time, value) {
            Ok(Some(command)) => fields(letters(command)) == seq![
                letters("SET"@),
                letters(decimal(index as nat)),
                letters(level_digit(value)),
            ] && session.levels[index] != value,
            Ok(None) => session.levels[index] == value,
            Err(_) => false,
        },
{
    lemma_set(
        index as nat,
        if value == LogicValue::One {
            "1"@
        } else {
            "0"@
        },
    );
}

/// A simulator is sent on exactly if its target is ahead of it, and is told that time;
/// it is never sent back.
pub proof fn advance_commands_name_the_target(
    session: Exchange,
    board: BoardState,
    target: CoSimulationTime,
)
    ensures
        match advance_command(session, target) {
            Ok(Some(command)) => session.heard.time.0 < target.0 && fields(letters(command))
                == seq![letters("ADV"@), letters(decimal(target.0 as nat))],
            Ok(None) => session.heard.time.0 == target.0,
            Err(_) => target.0 < session.heard.time.0,
        },
        match board_command(board, target) {
            Ok(Some(command)) => board.time.0 < target.0 && fields(letters(command)) == seq![
                letters("ADV"@),
                letters(decimal(target.0 as nat)),
            ],
            Ok(None) => board.time.0 == target.0,
            Err(_) => target.0 < board.time.0,
        },
{
    lemma_advance(target.0 as nat);
}

proof fn lemma_split(name: Seq<char>, raw: Seq<char>)
    requires
        !name.contains('='),
    ensures
        split_once(name + seq!['='] + raw, '=') == Some((name, raw)),
{
    let s = name + seq!['='] + raw;
    let k = name.len() as int;
    assert(s[k] == '=');
    crate::text::lemma_first_at_bounds(s, '=');
    let j = first_at(s, '=');
    if j < k {
        assert(s[j] == name[j]);
        assert(name.contains('='));
    }
    assert(j == k);
    assert(s.take(k) =~= name);
    assert(s.skip(k + 1) =~= raw);
}

/// A field with the name of an output and the digit of a level gives that level to that
/// output and leaves the others alone.
pub proof fn output_fields_give_their_level(
    before: Scan,
    line: Seq<char>,
    name: Seq<char>,
    level: LogicValue,
    outputs: Seq<Seq<char>>,
    other: Seq<char>,
)
    requires
        level.known(),
        outputs.contains(name),
        !name.contains('='),
        name != "NEXT"@,
        other != name,
    ensures
        ({
            let after = scan_step(before, line, name + seq!['='] + level_digit(level), outputs);
            &&& level_at(after.levels, name) == Some(level)
            &&& level_at(after.levels, other) == level_at(before.levels, other)
            &&& after.seen.contains(name)
            &&& after.failure == before.failure
            &&& after.next == before.next
        }),
{
    let raw = level_digit(level);
    lemma_split(name, raw);
    reveal_strlit("0");
    reveal_strlit("1");
    assert("0"@ =~= seq!['0']);
    assert("1"@ =~= seq!['1']);
    assert("0"@[0] == '0' && "1"@[0] == '1');
    set_levels_are_read_back(before.levels, name, level, other);
    let after = scan_step(before, line, name + seq!['='] + raw, outputs);
    if !before.seen.contains(name) {
        assert(after.seen[before.seen.len() as int] == name);
    }
}

/// A field with the time of the next event gives that time.
pub proof fn event_fields_give_their_time(
    before: Scan,
    line: Seq<char>,
    time: u64,
    outputs: Seq<Seq<char>>,
)
    ensures
        scan_step(before, line, "NEXT"@ + seq!['='] + decimal(time as nat), outputs) == (Scan {
            next: Some(CoSimulationTime(time)),
            ..before
        }),
{
    reveal_strlit("NEXT");
    reveal_strlit("-");
    assert forall|i: int| 0 <= i < "NEXT"@.len() implies "NEXT"@[i] != '=' by {}
    lemma_split("NEXT"@, decimal(time as nat));
    numbers_are_read_back(time as nat, u64::MAX as nat);
    assert(decimal(time as nat) != "-"@) by {
        if decimal(time as nat) == "-"@ {
            assert(!crate::text::is_ascii_digit("-"@[0]));
            crate::spelling::numbers_are_read_back(time as nat, u64::MAX as nat);
        }
    }
}

/// The level of each pin of a board is the digit at its place behind the time.
pub proof fn board_fields_give_their_levels(
    line: Seq<char>,
    count: nat,
    state: BoardState,
    i: int,
)
    requires
        board_read(line, count) == Ok::<BoardState, Fault>(state),
        0 <= i < count,
    ensures
        state.levels.len() == count,
        words_of(line).len() == count + 2,
        words_of(line)[i + 2] == level_digit(state.levels[i]),
        state.levels[i].known(),
{
    reveal_strlit("0");
    reveal_strlit("1");
    assert("0"@ =~= seq!['0']);
    assert("1"@ =~= seq!['1']);
    lemma_board_levels(line, count, count as int, state.levels);
}

proof fn lemma_board_levels(line: Seq<char>, count: nat, n: int, levels: Seq<LogicValue>)
    requires
        0 <= n,
        board_levels(line, count, n) == Ok::<Seq<LogicValue>, Fault>(levels),
    ensures
        levels.len() == n,
        n > 0 ==> words_of(line).len() > n + 1,
        forall|i: int|
            0 <= i < n ==> binary_level(words_of(line)[i + 2]) == Some(#[trigger] levels[i]),
    decreases n,
{
    if n > 0 {
        let before = board_levels(line, count, n - 1)->Ok_0;
        lemma_board_levels(line, count, n - 1, before);
        assert forall|i: int| 0 <= i < n implies binary_level(words_of(line)[i + 2]) == Some(
            #[trigger] levels[i],
        ) by {
            if i < n - 1 {
                assert(levels[i] == before[i]);
            }
        }
    }
}

/// A helper is told of each binding its controller, its pin and its direction, in the
/// order of the bindings.
pub proof fn helpers_are_told_of_each_binding(
    config: RenodeCoSimulationConfig,
    bindings: Seq<RenodeCoSimulationBinding>,
    i: int,
)
    requires
        0 <= i < bindings.len(),
    ensures
        arguments_of(config, bindings).len() == 4 + 2 * bindings.len(),
        arguments_of(config, bindings)[0] == "--server-port"@,
        arguments_of(config, bindings)[1] == config.server_port@,
        arguments_of(config, bindings)[2] == "--machine"@,
        arguments_of(config, bindings)[3] == config.machine@,
        arguments_of(config, bindings)[4 + 2 * i] == "--binding"@,
        arguments_of(config, bindings)[4 + 2 * i + 1] == bindings[i].controller@ + ","@
            + crate::hdl::signed_decimal(bindings[i].pin as int) + ","@ + match bindings[i].direction {
            PinDirection::Input => "in"@,
            PinDirection::Output => "out"@,
            _ => "io"@,
        },
{
    lemma_binding_arguments(bindings, bindings.len() as int);
}

proof fn lemma_binding_arguments(bindings: Seq<RenodeCoSimulationBinding>, n: int)
    requires
        0 <= n <= bindings.len(),
    ensures
        binding_arguments(bindings, n).len() == 2 * n,
        forall|i: int|
            0 <= i < n ==> binding_arguments(bindings, n)[2 * i] == "--binding"@
                && binding_arguments(bindings, n)[2 * i + 1] == (#[trigger] bindings[i]).controller@
                + ","@ + crate::hdl::signed_decimal(bindings[i].pin as int) + ","@ + direction_word(
                bindings[i].direction,
            ),
    decreases n,
{
    if n > 0 {
        lemma_binding_arguments(bindings, n - 1);
        let before = binding_arguments(bindings, n - 1);
        let all = binding_arguments(bindings, n);
        assert forall|i: int| 0 <= i < n implies all[2 * i] == "--binding"@ && all[2 * i + 1] == (
        #[trigger] bindings[i]).controller@ + ","@ + crate::hdl::signed_decimal(
            bindings[i].pin as int,
        ) + ","@ + direction_word(bindings[i].direction) by {
            if i < n - 1 {
                assert(all[2 * i] == before[2 * i]);
                assert(all[2 * i + 1] == before[2 * i + 1]);
            }
        }
    }
}

} // verus!
