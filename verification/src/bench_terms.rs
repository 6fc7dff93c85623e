//! What the lines of a test bench and of a firmware script say.
use crate::circuit::Component;
use crate::deck::{
    fields, lemma_fields_after_blank, lemma_fields_of_word,
    lemma_letters_add, lemma_solid_letters, lemma_unspaced_add, unspaced,
};
use crate::draft::{letters, Sign};
use crate::fault::Fault;
use crate::firmware::{FirmwareArtifact, FirmwareFormat};
use crate::hdl::{level_literal, picoseconds_of};
use crate::number::Real;
use crate::reading::{duty_of, logic_of, needed_logic, ONE_BITS};
use crate::lines::words_of;
use crate::renode::{
    load_line, next_sample, sampling, state_of, times_of, MAX_RENODE_SAMPLE_POINTS,
};
use crate::scales::{fixed_numbers_are_roundings, picoseconds_survive_seconds};
use crate::spelling::{words_are_what_stands_between_whitespace, words_follow_each_other};
use crate::text::{decimal, hexadecimal, peeled, Peel};
use crate::verilator::{
    all_bits, bit_repeated, clock_lines, clock_text, hdl_period, input_lines,
    least_repeat, needed_node, node_of_bit, port_expression, vector_nodes, Binding,
};
use crate::waveform::LogicValue;
use crate::wiring::Wire;
use crate::xspice::xspice_code;
use vstd::prelude::*;

verus! {

/// The level that a literal of one binary digit stands for.
pub open spec fn literal_level(text: Seq<char>) -> Option<LogicValue> {
    if text.len() != 4 || text[0] != '1' || text[1] != '\'' || text[2] != 'b' {
        None
    } else {
        match text[3] {
            '0' => Some(LogicValue::Zero),
            '1' => Some(LogicValue::One),
            'x' => Some(LogicValue::X),
            'z' => Some(LogicValue::Z),
            _ => None,
        }
    }
}

/// The literal of a level stands for that level.
pub proof fn literals_stand_for_their_level(level: LogicValue)
    ensures
        literal_level(level_literal(level)) == Some(level),
        unspaced(level_literal(level)),
{
    reveal_strlit("1'b0");
    reveal_strlit("1'b1");
    reveal_strlit("1'bx");
    reveal_strlit("1'bz");
}

/// Four words of a line.
proof fn lemma_four_words(a: Seq<char>, b: Seq<char>, c: Seq<char>, d: Seq<char>)
    requires
        unspaced(a),
        unspaced(b),
        unspaced(c),
        unspaced(d),
    ensures
        fields(letters(a + " "@ + b + " "@ + c + " "@ + d)) == seq![
            letters(a),
            letters(b),
            letters(c),
            letters(d),
        ],
{
    lemma_letters_add(a, " "@);
    lemma_letters_add(a + " "@, b);
    lemma_letters_add(a + " "@ + b, " "@);
    lemma_letters_add(a + " "@ + b + " "@, c);
    lemma_letters_add(a + " "@ + b + " "@ + c, " "@);
    lemma_letters_add(a + " "@ + b + " "@ + c + " "@, d);
    lemma_solid_letters(a);
    lemma_solid_letters(b);
    lemma_solid_letters(c);
    lemma_solid_letters(d);
    lemma_fields_of_word(letters(a));
    lemma_fields_of_word(letters(b));
    lemma_fields_of_word(letters(c));
    lemma_fields_of_word(letters(d));
    lemma_fields_after_blank(letters(a), letters(b));
    lemma_fields_after_blank(letters(a + " "@ + b), letters(c));
    lemma_fields_after_blank(letters(a + " "@ + b + " "@ + c), letters(d));
    assert(fields(letters(a + " "@ + b + " "@ + c + " "@ + d)) =~= seq![
        letters(a),
        letters(b),
        letters(c),
        letters(d),
    ]);
}

/// A line that declares a driver with its first level.
pub open spec fn declares_driver(line: Seq<Sign>, driver: Seq<char>, level: LogicValue) -> bool {
    exists|literal: Seq<char>|
        literal_level(literal) == Some(level) && line == letters(
            "  logic "@ + driver + " = "@ + #[trigger] (literal + ";"@),
        )
}

/// A line that puts a driver on a node.
pub open spec fn assigns(line: Seq<Sign>, node: Seq<char>, driver: Seq<char>) -> bool {
    line == letters("  assign "@ + node + " = "@ + driver + ";"@)
}

/// A constant input of a test bench drives the node of its output with the level that
/// the component gives, which is known.
pub proof fn constant_inputs_drive_their_level(
    component: Component,
    index: int,
    wires: Seq<Wire>,
    lines: Seq<Seq<Sign>>,
)
    requires
        input_lines(component, index, wires) == Ok::<Seq<Seq<Sign>>, Fault>(lines),
    ensures
        exists|level: LogicValue, node: Seq<char>, driver: Seq<char>|
            #![trigger declares_driver(lines[0], driver, level), assigns(lines[1], node, driver)]
            needed_logic(xspice_code(), component, "value"@) == Ok::<LogicValue, Fault>(level)
                && level.known() && needed_node(wires, component, "out"@) == Ok::<
                Seq<char>,
                Fault,
            >(node) && lines.len() == 2 && declares_driver(lines[0], driver, level) && assigns(
                lines[1],
                node,
                driver,
            ),
{
    let level = needed_logic(xspice_code(), component, "value"@)->Ok_0;
    let node = needed_node(wires, component, "out"@)->Ok_0;
    let driver = "ox_drv_"@ + decimal(index as nat);
    literals_stand_for_their_level(level);
    let literal = level_literal(level);
    assert("  logic "@ + driver + " = "@ + literal + ";"@ =~= "  logic "@ + driver + " = "@ + (
    literal + ";"@));
    assert(declares_driver(lines[0], driver, level));
    assert(assigns(lines[1], node, driver));
}

/// A line that waits and then changes a driver.
pub open spec fn waits(line: Seq<Sign>, ticks: nat, driver: Seq<char>, level: LogicValue) -> bool {
    exists|literal: Seq<char>|
        literal_level(literal) == Some(level) && line == letters(
            "      #"@ + decimal(ticks) + " "@ + driver + " = "@ + #[trigger] (literal + ";"@),
        )
}

/// The lines of a clock: the driver of the node of its output starts with a level,
/// waits for the time of that level, changes, waits for the other time and changes
/// back.
pub open spec fn is_bench_clock(
    component: Component,
    wires: Seq<Wire>,
    lines: Seq<Seq<Sign>>,
    initial: LogicValue,
    driver: Seq<char>,
    high: u64,
    low: u64,
    period: Real,
    duty: Real,
) -> bool {
    &&& initial.known()
    &&& hdl_period(component) == Ok::<Real, Fault>(period)
    &&& picoseconds_of(crate::kernel::share_of(period, duty), "clock high duration"@) == Ok::<
        u64,
        Fault,
    >(high)
    &&& picoseconds_of(
        crate::kernel::share_of(period, Real::of_nat(1).difference(duty)),
        "clock low duration"@,
    ) == Ok::<u64, Fault>(low)
    &&& declares_driver(lines[0], driver, initial)
    &&& needed_node(wires, component, "out"@) matches Ok(node) && assigns(lines[1], node, driver)
    &&& initial == LogicValue::One ==> waits(lines[4], high as nat, driver, LogicValue::Zero)
        && waits(lines[5], low as nat, driver, LogicValue::One)
    &&& initial == LogicValue::Zero ==> waits(lines[4], low as nat, driver, LogicValue::One)
        && waits(lines[5], high as nat, driver, LogicValue::Zero)
}

/// A clock of a test bench starts with its initial level and then alternates for ever:
/// it leaves that level after the time that belongs to it and comes back after the
/// other, where the time that belongs to high is the share of the period and the one
/// that belongs to low is the rest.
pub proof fn bench_clocks_alternate(
    component: Component,
    index: int,
    wires: Seq<Wire>,
    lines: Seq<Seq<Sign>>,
)
    requires
        clock_lines(component, index, wires) == Ok::<Seq<Seq<Sign>>, Fault>(lines),
    ensures
        lines.len() == 8,
        exists|initial: LogicValue, driver: Seq<char>, high: u64, low: u64, period: Real, duty: Real| #[trigger]
            is_bench_clock(component, wires, lines, initial, driver, high, low, period, duty),
{
    fixed_numbers_are_roundings();
    let node = needed_node(wires, component, "out"@)->Ok_0;
    let period = hdl_period(component)->Ok_0;
    let duty = duty_of(
        xspice_code(),
        component,
        "parameter `duty_cycle` must be dimensionless"@,
        "parameter `duty_cycle` must be finite and strictly between zero and one"@,
    )->Ok_0;
    let initial = match logic_of(xspice_code(), component, "initial"@)->Ok_0 {
        Some(level) => level,
        None => LogicValue::Zero,
    };
    let high = picoseconds_of(
        crate::kernel::share_of(period, duty),
        "clock high duration"@,
    )->Ok_0;
    let low = picoseconds_of(
        crate::kernel::share_of(period, (Real { bits: ONE_BITS }).difference(duty)),
        "clock low duration"@,
    )->Ok_0;
    let driver = "ox_clk_"@ + decimal(index as nat);
    assert(lines == clock_text(node, driver, initial, high, low));
    lemma_clock_text(node, driver, initial, high, low);
    assert(is_bench_clock(component, wires, lines, initial, driver, high, low, period, duty));
}

proof fn lemma_clock_text(
    node: Seq<char>,
    driver: Seq<char>,
    initial: LogicValue,
    high: u64,
    low: u64,
)
    requires
        initial.known(),
    ensures
        ({
            let lines = clock_text(node, driver, initial, high, low);
            &&& declares_driver(lines[0], driver, initial)
            &&& assigns(lines[1], node, driver)
            &&& initial == LogicValue::One ==> waits(
                lines[4],
                high as nat,
                driver,
                LogicValue::Zero,
            ) && waits(lines[5], low as nat, driver, LogicValue::One)
            &&& initial == LogicValue::Zero ==> waits(
                lines[4],
                low as nat,
                driver,
                LogicValue::One,
            ) && waits(lines[5], high as nat, driver, LogicValue::Zero)
        }),
{
    let lines = clock_text(node, driver, initial, high, low);
    literals_stand_for_their_level(initial);
    literals_stand_for_their_level(LogicValue::Zero);
    literals_stand_for_their_level(LogicValue::One);
    let literal = level_literal(initial);
    assert("  logic "@ + driver + " = "@ + literal + ";"@ =~= "  logic "@ + driver + " = "@ + (
    literal + ";"@));
    reveal_strlit(" = 1'b0;");
    reveal_strlit(" = 1'b1;");
    reveal_strlit(" = ");
    reveal_strlit("1'b0");
    reveal_strlit("1'b1");
    reveal_strlit(";");
    let falls = "      #"@ + decimal(high as nat) + " "@ + driver;
    let rises = "      #"@ + decimal(low as nat) + " "@ + driver;
    assert(falls + " = 1'b0;"@ =~= falls + " = "@ + ("1'b0"@ + ";"@));
    assert(rises + " = 1'b1;"@ =~= rises + " = "@ + ("1'b1"@ + ";"@));
    assert(waits(letters(falls + " = 1'b0;"@), high as nat, driver, LogicValue::Zero));
    assert(waits(letters(rises + " = 1'b1;"@), low as nat, driver, LogicValue::One));
}

/// A duration of a whole number of picoseconds is waited for just that long.
pub proof fn waits_are_exact(n: u64, label: Seq<char>)
    requires
        0 < n <= 0x4_0000_0000_0000,
    ensures
        picoseconds_of(crate::cosim::seconds_of(n), label) == Ok::<u64, Fault>(n),
{
    picoseconds_survive_seconds(n);
    let seconds = crate::cosim::seconds_of(n);
    let ticks = crate::cosim::ticks_of(seconds);
    fixed_numbers_are_roundings();
    assert(ticks == seconds.scaled(Real { bits: crate::cosim::TIMEBASE_BITS }));
    if ticks.at_most(Real { bits: 0 }) {
        let p = vstd::arithmetic::power2::pow2(1074);
        vstd::arithmetic::power2::lemma_pow2_pos(1074);
        assert(ticks.bits == 0);
        assert(crate::number::significand(0) == 0);
        let w = vstd::arithmetic::power2::pow2(crate::number::scale(0));
        assert(0nat * w == 0) by (nonlinear_arith);
        assert(crate::number::units(ticks.magnitude()) == 0);
        assert(0nat / p == 0 && 0nat % p == 0) by (nonlinear_arith)
            requires
                p > 0,
        ;
    }
}

proof fn lemma_node_of_bit(bits: Seq<Binding>, bit: nat, j: int, n: int)
    requires
        0 <= j < n <= bits.len(),
        bits[j].bit == Some(bit),
        forall|i: int| 0 <= i < bits.len() && i != j ==> (#[trigger] bits[i]).bit != Some(bit),
    ensures
        node_of_bit(bits, bit, n) == bits[j].node,
    decreases n,
{
    if n - 1 != j {
        assert(bits[n - 1].bit != Some(bit));
        lemma_node_of_bit(bits, bit, j, n - 1);
    }
}

proof fn lemma_no_repeat(bits: Seq<Binding>, n: int, i: int)
    requires
        0 <= i < n <= bits.len(),
        least_repeat(bits, n) is None,
        all_bits(bits),
    ensures
        !bit_repeated(bits, i),
    decreases n,
{
    assert(bits[n - 1].bit is Some);
    if i < n - 1 {
        lemma_no_repeat(bits, n - 1, i);
    }
}

/// In the list that a vector port is bound to, the node of each bit stands as many
/// places before the end as the number of the bit says.
pub proof fn vector_ports_list_the_highest_bit_first(
    component: Component,
    port: Seq<char>,
    bits: Seq<Binding>,
    j: int,
)
    requires
        port_expression(component, port, bits) is Ok,
        all_bits(bits),
        0 <= j < bits.len(),
        bits[j].bit->0 < bits.len(),
    ensures
        vector_nodes(bits)[bits.len() - 1 - bits[j].bit->0] == bits[j].node,
{
    let bit = bits[j].bit->0;
    assert(bits[j].bit is Some);
    assert(bits[0].bit is Some);
    assert(least_repeat(bits, bits.len() as int) is None);
    lemma_no_repeat(bits, bits.len() as int, j);
    assert forall|i: int| 0 <= i < bits.len() && i != j implies (#[trigger] bits[i]).bit != Some(
        bit,
    ) by {
        if bits[i].bit == Some(bit) {
            assert(bit_repeated(bits, j));
        }
    }
    lemma_node_of_bit(bits, bit, j, bits.len() as int);
}

/// The line that loads the firmware uses the command for its format and the file with
/// the extension of that format; raw bytes go to their address.
pub proof fn firmware_is_loaded_by_its_format(firmware: FirmwareArtifact, line: Seq<char>)
    requires
        load_line(firmware) == Ok::<Seq<char>, Fault>(line),
    ensures
        firmware.format == FirmwareFormat::Elf ==> fields(letters(line)) == seq![
            letters("sysbus"@),
            letters("LoadELF"@),
            letters("@firmware.elf"@),
        ],
        firmware.format == FirmwareFormat::IntelHex ==> fields(letters(line)) == seq![
            letters("sysbus"@),
            letters("LoadHEX"@),
            letters("@firmware.hex"@),
        ],
        firmware.format == FirmwareFormat::Binary ==> (firmware.load_address matches Some(address)
            && fields(letters(line)) == seq![
            letters("sysbus"@),
            letters("LoadBinary"@),
            letters("@firmware.bin"@),
            letters("0x"@ + hexadecimal(address as nat)),
        ]),
{
    reveal_strlit(" ");
    reveal_strlit("sysbus");
    reveal_strlit("firmware.");
    match firmware.format {
        FirmwareFormat::Elf => {
            reveal_strlit("sysbus LoadELF @");
            reveal_strlit("elf");
            reveal_strlit("LoadELF");
            reveal_strlit("@firmware.elf");
            assert(line =~= "sysbus"@ + " "@ + "LoadELF"@ + " "@ + "@firmware.elf"@);
            lemma_three_words("sysbus"@, "LoadELF"@, "@firmware.elf"@);
        },
        FirmwareFormat::IntelHex => {
            reveal_strlit("sysbus LoadHEX @");
            reveal_strlit("hex");
            reveal_strlit("LoadHEX");
            reveal_strlit("@firmware.hex");
            assert(line =~= "sysbus"@ + " "@ + "LoadHEX"@ + " "@ + "@firmware.hex"@);
            lemma_three_words("sysbus"@, "LoadHEX"@, "@firmware.hex"@);
        },
        FirmwareFormat::Binary => {
            let address = firmware.load_address->0 as nat;
            reveal_strlit("sysbus LoadBinary @");
            reveal_strlit("bin");
            reveal_strlit("LoadBinary");
            reveal_strlit("@firmware.bin");
            reveal_strlit(" 0x");
            reveal_strlit("0x");
            let number = "0x"@ + hexadecimal(address);
            lemma_hexadecimal_unspaced(address);
            lemma_unspaced_add("0x"@, hexadecimal(address));
            assert(line =~= "sysbus"@ + " "@ + "LoadBinary"@ + " "@ + "@firmware.bin"@ + " "@
                + number);
            lemma_four_words("sysbus"@, "LoadBinary"@, "@firmware.bin"@, number);
        },
    }
}

proof fn lemma_three_words(a: Seq<char>, b: Seq<char>, c: Seq<char>)
    requires
        unspaced(a),
        unspaced(b),
        unspaced(c),
    ensures
        fields(letters(a + " "@ + b + " "@ + c)) == seq![letters(a), letters(b), letters(c)],
{
    lemma_letters_add(a, " "@);
    lemma_letters_add(a + " "@, b);
    lemma_letters_add(a + " "@ + b, " "@);
    lemma_letters_add(a + " "@ + b + " "@, c);
    lemma_solid_letters(a);
    lemma_solid_letters(b);
    lemma_solid_letters(c);
    lemma_fields_of_word(letters(a));
    lemma_fields_of_word(letters(b));
    lemma_fields_of_word(letters(c));
    lemma_fields_after_blank(letters(a), letters(b));
    lemma_fields_after_blank(letters(a + " "@ + b), letters(c));
    assert(fields(letters(a + " "@ + b + " "@ + c)) =~= seq![letters(a), letters(b), letters(c)]);
}

proof fn lemma_hexadecimal_unspaced(n: nat)
    ensures
        unspaced(hexadecimal(n)),
    decreases n,
{
    if n >= 16 {
        lemma_hexadecimal_unspaced(n / 16);
        let before = hexadecimal(n / 16);
        assert forall|i: int| 0 <= i < hexadecimal(n).len() implies #[trigger] hexadecimal(n)[i]
            != ' ' by {
            if i < before.len() {
                assert(before[i] != ' ');
            }
        }
    }
}

/// Times that go up by a step, or less at the end.
pub open spec fn go_up(times: Seq<Real>, step: Real, stop: Real) -> bool {
    forall|i: int|
        0 < i < times.len() ==> {
            let before = times[i - 1];
            let at = #[trigger] times[i];
            &&& before.less(at)
            &&& before.less(stop)
            &&& at == crate::kernel::later(before, step) || (at == stop && !crate::kernel::later(
                before,
                step,
            ).less(stop))
        }
}

proof fn lemma_sampling(step: Real, stop: Real, sources: nat, times: Seq<Real>, all: Seq<Real>)
    requires
        sources > 0,
        times.len() > 0,
        times.len() <= MAX_RENODE_SAMPLE_POINTS,
        stop.finite(),
        go_up(times, step, stop),
        forall|i: int| 0 <= i < times.len() ==> !(#[trigger] times[i]).nan(),
        sampling(step, stop, sources, times) == Ok::<Seq<Real>, Fault>(all),
    ensures
        go_up(all, step, stop),
        all.len() >= times.len(),
        all[0] == times[0],
        !all.last().less(stop),
    decreases MAX_RENODE_SAMPLE_POINTS - times.len(),
{
    let current = times.last();
    let next = next_sample(current, step, stop);
    if current.less(stop) && !next.at_most(current) && (times.len() + 1) * sources
        <= MAX_RENODE_SAMPLE_POINTS {
        let more = times.push(next);
        assert(times.len() + 1 <= (times.len() + 1) * sources) by (nonlinear_arith)
            requires
                sources > 0,
        ;
        assert(!next.nan()) by {
            let far = crate::kernel::later(current, step);
            if far.less(stop) {
                assert(!far.nan());
            }
        }
        assert(current.less(next));
        assert forall|i: int| 0 < i < more.len() implies {
            let before = more[i - 1];
            let at = #[trigger] more[i];
            &&& before.less(at)
            &&& before.less(stop)
            &&& at == crate::kernel::later(before, step) || (at == stop && !crate::kernel::later(
                before,
                step,
            ).less(stop))
        } by {
            if i < times.len() {
                assert(times[i] == more[i]);
                assert(times[i - 1] == more[i - 1]);
            }
        }
        lemma_sampling(step, stop, sources, more, all);
    }
}

/// The samples of a firmware run begin at zero, follow each other by the step, the
/// last one perhaps sooner, and end at the stop time.
pub proof fn samples_cover_the_run(step: Real, stop: Real, sources: nat, times: Seq<Real>)
    requires
        sources > 0,
        stop.finite(),
        0 < stop.key(),
        times_of(step, stop, sources) == Ok::<Seq<Real>, Fault>(times),
    ensures
        times.len() > 0,
        times[0] == (Real { bits: 0 }),
        go_up(times, step, stop),
        !times.last().less(stop),
{
    lemma_sampling(step, stop, sources, seq![Real { bits: 0 }], times);
}

/// A line that ends with the word for on or off reports that state.
pub proof fn reported_states_are_read(before: Seq<char>)
    ensures
        state_of(before + seq![' '] + "True"@) == Some(true),
        state_of(before + seq![' '] + "False"@) == Some(false),
{
    reveal_strlit("True");
    reveal_strlit("False");
    reveal_strlit("true");
    reveal_strlit("false");
    words_follow_each_other(before, ' ', "True"@);
    words_follow_each_other(before, ' ', "False"@);
    words_are_what_stands_between_whitespace("True"@);
    words_are_what_stands_between_whitespace("False"@);
    assert(words_of(before + seq![' '] + "True"@).last() == "True"@);
    assert(words_of(before + seq![' '] + "False"@).last() == "False"@);
    assert("True"@[0] == 'T' && "True"@.last() == 'e');
    assert("False"@[0] == 'F' && "False"@.last() == 'e');
    assert(peeled("True"@, Peel::NonLetters) == "True"@);
    assert(peeled("False"@, Peel::NonLetters) == "False"@);
    assert("true"@.len() == 4 && "False"@.len() == 5);
}

} // verus!
