//! Four-state logic levels and buses of them.
use crate::fault::{agrees, fail, fault, EngineError, Fault};
use crate::text::{cat4, decimal, decimal_text};
use crate::waveform::LogicValue;
use vstd::arithmetic::power2::{lemma2_to64, lemma_pow2_pos, lemma_pow2_unfold, pow2};
use vstd::prelude::*;

verus! {

pub const MAX_DIGITAL_BUS_WIDTH: usize = 64;

impl LogicValue {
    pub open spec fn known(self) -> bool {
        self == LogicValue::Zero || self == LogicValue::One
    }

    /// What a receiver makes of a level: an undriven one is unknown to it.
    pub open spec fn buffered(self) -> LogicValue {
        if self.known() {
            self
        } else {
            LogicValue::X
        }
    }

    pub open spec fn inverted(self) -> LogicValue {
        match self {
            LogicValue::Zero => LogicValue::One,
            LogicValue::One => LogicValue::Zero,
            _ => LogicValue::X,
        }
    }

    /// Low if either is low, high if both are high.
    pub open spec fn conjoined(self, other: LogicValue) -> LogicValue {
        if self == LogicValue::Zero || other == LogicValue::Zero {
            LogicValue::Zero
        } else if self == LogicValue::One && other == LogicValue::One {
            LogicValue::One
        } else {
            LogicValue::X
        }
    }

    /// High if either is high, low if both are low.
    pub open spec fn disjoined(self, other: LogicValue) -> LogicValue {
        if self == LogicValue::One || other == LogicValue::One {
            LogicValue::One
        } else if self == LogicValue::Zero && other == LogicValue::Zero {
            LogicValue::Zero
        } else {
            LogicValue::X
        }
    }

    /// Whether two known levels differ.
    pub open spec fn exclusive(self, other: LogicValue) -> LogicValue {
        if !self.known() || !other.known() {
            LogicValue::X
        } else if self == other {
            LogicValue::Zero
        } else {
            LogicValue::One
        }
    }

    pub fn is_known(self) -> (r: bool)
        ensures
            r == self.known(),
    {
        self == LogicValue::Zero || self == LogicValue::One
    }

    pub fn logic_buffer(self) -> (r: Self)
        ensures
            r == self.buffered(),
    {
        match self {
            LogicValue::Zero => LogicValue::Zero,
            LogicValue::One => LogicValue::One,
            LogicValue::X | LogicValue::Z => LogicValue::X,
        }
    }

    pub fn logic_not(self) -> (r: Self)
        ensures
            r == self.inverted(),
    {
        match self {
            LogicValue::Zero => LogicValue::One,
            LogicValue::One => LogicValue::Zero,
            LogicValue::X | LogicValue::Z => LogicValue::X,
        }
    }

    pub fn logic_and(self, other: Self) -> (r: Self)
        ensures
            r == self.conjoined(other),
    {
        match (self.logic_buffer(), other.logic_buffer()) {
            (LogicValue::Zero, _) | (_, LogicValue::Zero) => LogicValue::Zero,
            (LogicValue::One, LogicValue::One) => LogicValue::One,
            _ => LogicValue::X,
        }
    }

    pub fn logic_or(self, other: Self) -> (r: Self)
        ensures
            r == self.disjoined(other),
    {
        match (self.logic_buffer(), other.logic_buffer()) {
            (LogicValue::One, _) | (_, LogicValue::One) => LogicValue::One,
            (LogicValue::Zero, LogicValue::Zero) => LogicValue::Zero,
            _ => LogicValue::X,
        }
    }

    pub fn logic_xor(self, other: Self) -> (r: Self)
        ensures
            r == self.exclusive(other),
    {
        match (self.logic_buffer(), other.logic_buffer()) {
            (LogicValue::Zero, LogicValue::Zero) | (LogicValue::One, LogicValue::One) => {
                LogicValue::Zero
            },
            (LogicValue::Zero, LogicValue::One) | (LogicValue::One, LogicValue::Zero) => {
                LogicValue::One
            },
            _ => LogicValue::X,
        }
    }
}

/// The two-input operations do not depend on the order of their inputs, and
/// De Morgan's laws hold with unknown and undriven levels too.
pub proof fn logic_operations_are_symmetric(a: LogicValue, b: LogicValue)
    ensures
        a.conjoined(b) == b.conjoined(a),
        a.disjoined(b) == b.disjoined(a),
        a.exclusive(b) == b.exclusive(a),
        a.conjoined(b).inverted() == a.inverted().disjoined(b.inverted()),
        a.disjoined(b).inverted() == a.inverted().conjoined(b.inverted()),
        a.inverted().inverted() == a.buffered(),
{
}

/// No operation makes a level undriven.
pub proof fn logic_operations_drive(a: LogicValue, b: LogicValue)
    ensures
        a.buffered() != LogicValue::Z,
        a.inverted() != LogicValue::Z,
        a.conjoined(b) != LogicValue::Z,
        a.disjoined(b) != LogicValue::Z,
        a.exclusive(b) != LogicValue::Z,
{
}

/// The level of a net with these driver levels: unknown without drivers, with
/// an unknown driver or with drivers that contend; otherwise the driven
/// level, or undriven if all are.
pub open spec fn resolved(levels: Seq<LogicValue>) -> LogicValue {
    if levels.len() == 0 || levels.contains(LogicValue::X) || (levels.contains(LogicValue::Zero)
        && levels.contains(LogicValue::One)) {
        LogicValue::X
    } else if levels.contains(LogicValue::Zero) {
        LogicValue::Zero
    } else if levels.contains(LogicValue::One) {
        LogicValue::One
    } else {
        LogicValue::Z
    }
}

/// The level of a net does not depend on the order of its drivers.
pub proof fn resolution_ignores_order(a: Seq<LogicValue>, b: Seq<LogicValue>)
    requires
        a.to_multiset() == b.to_multiset(),
    ensures
        resolved(a) == resolved(b),
{
    a.to_multiset_ensures();
    b.to_multiset_ensures();
    assert(a.len() == b.len());
    assert forall|v: LogicValue| a.contains(v) == b.contains(v) by {
        assert(a.contains(v) <==> a.to_multiset().count(v) > 0);
        assert(b.contains(v) <==> b.to_multiset().count(v) > 0);
    }
}

/// A driver that drives nothing leaves the level of a driven net as it is.
pub proof fn resolution_ignores_undriven(levels: Seq<LogicValue>)
    requires
        levels.len() > 0,
    ensures
        resolved(levels.push(LogicValue::Z)) == resolved(levels),
{
    let more = levels.push(LogicValue::Z);
    assert forall|v: LogicValue| v != LogicValue::Z implies more.contains(v) == levels.contains(
        v,
    ) by {
        if levels.contains(v) {
            let i = choose|i: int| 0 <= i < levels.len() && levels[i] == v;
            assert(more[i] == v);
        }
        if more.contains(v) {
            let i = choose|i: int| 0 <= i < more.len() && more[i] == v;
            assert(levels[i] == v);
        }
    }
}

/// The level of a net with these driver levels.
pub fn resolve_net(levels: &Vec<LogicValue>) -> (r: LogicValue)
    ensures
        r == resolved(levels@),
{
    if levels.len() == 0 {
        return LogicValue::X;
    }
    let mut level = LogicValue::Z;
    let mut i: usize = 0;
    while i < levels.len()
        invariant
            i <= levels@.len(),
            0 < levels@.len(),
            level == LogicValue::Zero ==> levels@.contains(LogicValue::Zero),
            level == LogicValue::One ==> levels@.contains(LogicValue::One),
            level != LogicValue::X,
            forall|j: int|
                0 <= j < i ==> #[trigger] levels@[j] == LogicValue::Z || levels@[j] == level,
        decreases levels@.len() - i,
    {
        let value = levels[i];
        assert(levels@.contains(value));
        match value {
            LogicValue::Z => {},
            LogicValue::X => {
                return LogicValue::X;
            },
            LogicValue::Zero | LogicValue::One => {
                if level == LogicValue::Z {
                    level = value;
                } else if level != value {
                    return LogicValue::X;
                }
            },
        }
        i = i + 1;
    }
    level
}

/// The low `width` bits of a number, the lowest first.
pub open spec fn bits_of(width: nat, value: nat) -> Seq<LogicValue>
    decreases width,
{
    if width == 0 {
        Seq::empty()
    } else {
        seq![
            if value % 2 == 1 {
                LogicValue::One
            } else {
                LogicValue::Zero
            },
        ] + bits_of((width - 1) as nat, value / 2)
    }
}

/// The number that a bus shows, its lowest bit first.
pub open spec fn numeric(bits: Seq<LogicValue>) -> nat
    decreases bits.len(),
{
    if bits.len() == 0 {
        0
    } else {
        2 * numeric(bits.drop_first()) + if bits[0] == LogicValue::One {
            1nat
        } else {
            0nat
        }
    }
}

pub open spec fn all_known(bits: Seq<LogicValue>) -> bool {
    forall|i: int| 0 <= i < bits.len() ==> (#[trigger] bits[i]).known()
}

pub open spec fn all_unknown(width: nat) -> Seq<LogicValue> {
    Seq::new(width, |i: int| LogicValue::X)
}

pub proof fn lemma_bits_of_len(width: nat, value: nat)
    ensures
        bits_of(width, value).len() == width,
        all_known(bits_of(width, value)),
    decreases width,
{
    if width > 0 {
        lemma_bits_of_len((width - 1) as nat, value / 2);
        let rest = bits_of((width - 1) as nat, value / 2);
        assert forall|i: int| 0 <= i < width implies (#[trigger] bits_of(width, value)[i]).known() by {
            if i > 0 {
                assert(bits_of(width, value)[i] == rest[i - 1]);
            }
        }
    }
}

/// A bus made from a number shows that number again, as far as its width
/// reaches.
pub proof fn number_survives_bus(width: nat, value: nat)
    ensures
        numeric(bits_of(width, value)) == value % pow2(width),
    decreases width,
{
    lemma2_to64();
    if width > 0 {
        let w = (width - 1) as nat;
        number_survives_bus(w, value / 2);
        lemma_pow2_unfold(width);
        lemma_pow2_pos(w);
        let p = pow2(w);
        assert(bits_of(width, value).drop_first() =~= bits_of(w, value / 2));
        assert(value % (2 * p) == 2 * ((value / 2) % p) + value % 2) by {
            vstd::arithmetic::div_mod::lemma_mod_breakdown(value as int, 2, p as int);
        }
    }
}

/// A bus of known levels is the bus made from the number that it shows.
pub proof fn bus_survives_number(bits: Seq<LogicValue>)
    requires
        all_known(bits),
    ensures
        bits_of(bits.len(), numeric(bits)) == bits,
        numeric(bits) < pow2(bits.len()),
    decreases bits.len(),
{
    lemma2_to64();
    if bits.len() > 0 {
        let rest = bits.drop_first();
        assert forall|i: int| 0 <= i < rest.len() implies (#[trigger] rest[i]).known() by {
            assert(bits[i + 1].known());
        }
        bus_survives_number(rest);
        lemma_pow2_unfold(bits.len());
        assert(bits[0].known());
        assert(numeric(bits) / 2 == numeric(rest));
        assert(bits_of(bits.len(), numeric(bits)) =~= bits);
    } else {
        assert(bits_of(0, 0) =~= bits);
    }
}

/// The next number on a bus, which starts over behind the largest; unknown if
/// any bit is.
pub open spec fn incremented(bits: Seq<LogicValue>) -> Seq<LogicValue> {
    if bits.len() <= 64 && all_known(bits) {
        bits_of(bits.len(), numeric(bits) + 1)
    } else {
        all_unknown(bits.len())
    }
}

/// Counting adds one, modulo two to the power of the width.
pub proof fn counting_wraps(bits: Seq<LogicValue>)
    requires
        bits.len() <= 64,
        all_known(bits),
    ensures
        incremented(bits).len() == bits.len(),
        all_known(incremented(bits)),
        numeric(incremented(bits)) == (numeric(bits) + 1) % pow2(bits.len()),
{
    lemma_bits_of_len(bits.len(), numeric(bits) + 1);
    number_survives_bus(bits.len(), numeric(bits) + 1);
}

/// A bus of logic levels, the lowest bit first.
#[derive(Debug, PartialEq, Eq)]
pub struct LogicVector(pub Vec<LogicValue>);

impl View for LogicVector {
    type V = Seq<LogicValue>;

    open spec fn view(&self) -> Seq<LogicValue> {
        self.0@
    }
}

impl Clone for LogicVector {
    fn clone(&self) -> (r: Self)
        ensures
            r@ == self@,
    {
        LogicVector(copy_levels(&self.0))
    }
}

/// The same levels again.
pub fn copy_levels(levels: &Vec<LogicValue>) -> (r: Vec<LogicValue>)
    ensures
        r@ == levels@,
{
    let mut out: Vec<LogicValue> = Vec::new();
    let mut i: usize = 0;
    while i < levels.len()
        invariant
            i <= levels@.len(),
            out@ == levels@.take(i as int),
        decreases levels@.len() - i,
    {
        out.push(levels[i]);
        i = i + 1;
        assert(levels@.take(i as int) =~= levels@.take(i - 1).push(levels@[i - 1]));
    }
    assert(levels@.take(i as int) =~= levels@);
    out
}

/// `width` times the same level.
pub fn fill_levels(width: usize, level: LogicValue) -> (r: Vec<LogicValue>)
    ensures
        r@ == Seq::new(width as nat, |i: int| level),
{
    let mut out: Vec<LogicValue> = Vec::new();
    let mut i: usize = 0;
    while i < width
        invariant
            i <= width,
            out@ == Seq::new(i as nat, |i: int| level),
        decreases width - i,
    {
        out.push(level);
        i = i + 1;
        assert(out@ =~= Seq::new(i as nat, |i: int| level));
    }
    out
}

/// What is wrong with a bus width, if anything.
pub open spec fn width_failure(width: usize) -> Option<Fault> {
    if width == 0 || width > MAX_DIGITAL_BUS_WIDTH {
        Some(
            fault(
                "digital_invalid_bus_width"@,
                "digital bus width must be in 1..="@ + decimal(MAX_DIGITAL_BUS_WIDTH as nat)
                    + ", got "@ + decimal(width as nat),
            ),
        )
    } else {
        None
    }
}

pub fn validate_width(width: usize) -> (r: Result<(), EngineError>)
    ensures
        crate::fault::passes(r, width_failure(width)),
{
    if width == 0 || width > MAX_DIGITAL_BUS_WIDTH {
        return Err(
            fail(
                "digital_invalid_bus_width",
                cat4(
                    "digital bus width must be in 1..=",
                    decimal_text(MAX_DIGITAL_BUS_WIDTH as u64).as_str(),
                    ", got ",
                    decimal_text(width as u64).as_str(),
                ),
            ),
        );
    }
    Ok(())
}

impl LogicVector {
    pub fn new(values: Vec<LogicValue>) -> (r: Self)
        ensures
            r@ == values@,
    {
        LogicVector(values)
    }

    pub fn width(&self) -> (r: usize)
        ensures
            r == self@.len(),
    {
        self.0.len()
    }

    pub fn from_u64(width: usize, value: u64) -> (r: Result<Self, EngineError>)
        ensures
            agrees(
                r,
                match width_failure(width) {
                    Some(f) => Err(f),
                    None => Ok(bits_of(width as nat, value as nat)),
                },
            ),
    {
        match validate_width(width) {
            Err(e) => {
                return Err(e);
            },
            Ok(_) => {},
        }
        Ok(LogicVector(number_bits(width, value)))
    }

    /// The number that the bus shows, if it is known and not too wide.
    pub fn to_u64(&self) -> (r: Option<u64>)
        ensures
            match r {
                Some(n) => self@.len() <= 64 && all_known(self@) && n == numeric(self@),
                None => self@.len() > 64 || !all_known(self@),
            },
    {
        if self.0.len() > 64 {
            return None;
        }
        let mut n: u64 = 0;
        let mut i: usize = self.0.len();
        proof {
            lemma2_to64();
            assert(self@.skip(i as int) =~= Seq::<LogicValue>::empty());
        }
        while i > 0
            invariant
                i <= self@.len() <= 64,
                n == numeric(self@.skip(i as int)),
                all_known(self@.skip(i as int)),
            decreases i,
        {
            let ghost tail = self@.skip(i as int);
            i = i - 1;
            let value = self.0[i];
            proof {
                assert(self@.skip(i as int).drop_first() =~= tail);
                assert(self@.skip(i as int)[0] == value);
            }
            if !value.is_known() {
                assert(!self@[i as int].known());
                return None;
            }
            proof {
                assert forall|j: int| 0 <= j < self@.len() - i implies (
                #[trigger] self@.skip(i as int)[j]).known() by {
                    if j > 0 {
                        assert(self@.skip(i as int)[j] == tail[j - 1]);
                    }
                }
                bus_survives_number(self@.skip(i as int));
                lemma2_to64();
                if self@.len() - i < 64 {
                    vstd::arithmetic::power2::lemma_pow2_strictly_increases(
                        (self@.len() - i) as nat,
                        64,
                    );
                }
            }
            n = 2 * n + if value == LogicValue::One {
                1
            } else {
                0
            };
        }
        assert(self@.skip(0) =~= self@);
        Some(n)
    }

    pub fn values(&self) -> (r: &Vec<LogicValue>)
        ensures
            r@ == self@,
    {
        &self.0
    }
}

/// The low `width` bits of a number.
pub fn number_bits(width: usize, value: u64) -> (r: Vec<LogicValue>)
    ensures
        r@ == bits_of(width as nat, value as nat),
{
    let mut out: Vec<LogicValue> = Vec::new();
    let mut rest: u64 = value;
    let mut i: usize = 0;
    while i < width
        invariant
            i <= width,
            bits_of(width as nat, value as nat) == out@ + bits_of((width - i) as nat, rest as nat),
        decreases width - i,
    {
        let ghost tail = bits_of((width - i - 1) as nat, (rest / 2) as nat);
        let ghost before = out@;
        let bit = if rest % 2 == 1 {
            LogicValue::One
        } else {
            LogicValue::Zero
        };
        out.push(bit);
        assert(before + (seq![bit] + tail) =~= out@ + tail);
        rest = rest / 2;
        i = i + 1;
    }
    assert(out@ + Seq::<LogicValue>::empty() =~= out@);
    out
}

/// The next number on a bus.
pub fn increment_bits(bits: &Vec<LogicValue>) -> (r: Vec<LogicValue>)
    ensures
        r@ == incremented(bits@),
{
    let vector = LogicVector::new(copy_levels(bits));
    match vector.to_u64() {
        None => fill_levels(bits.len(), LogicValue::X),
        Some(value) => {
            if value == u64::MAX {
                proof {
                    bus_survives_number(bits@);
                    lemma2_to64();
                    if bits@.len() < 64 {
                        vstd::arithmetic::power2::lemma_pow2_strictly_increases(bits@.len(), 64);
                    }
                    assert(bits@.len() == 64);
                    assert(pow2(64) == 0x1_0000_0000_0000_0000);
                    assert((value as nat + 1) % pow2(64) == 0);
                    lemma_bits_wrap(64, value as nat + 1);
                    assert(bits_of(64, 0) == bits_of(bits@.len(), numeric(bits@) + 1));
                }
                number_bits(bits.len(), 0)
            } else {
                number_bits(bits.len(), value + 1)
            }
        },
    }
}

/// A number of which no bit reaches into the bus gives the bits of zero.
proof fn lemma_bits_wrap(width: nat, value: nat)
    requires
        value % pow2(width) == 0,
    ensures
        bits_of(width, value) == bits_of(width, 0),
    decreases width,
{
    lemma2_to64();
    if width > 0 {
        let w = (width - 1) as nat;
        lemma_pow2_unfold(width);
        lemma_pow2_pos(w);
        let p = pow2(w);
        assert(value % (2 * p) == 2 * ((value / 2) % p) + value % 2) by {
            vstd::arithmetic::div_mod::lemma_mod_breakdown(value as int, 2, p as int);
        }
        lemma_bits_wrap(w, value / 2);
    }
}

/// A net is high, or low, exactly if some driver makes it so and no other driver does
/// anything else; it floats exactly if all its drivers let go; in every other case
/// its level is unknown.
pub proof fn nets_take_what_their_drivers_agree_on(levels: Seq<LogicValue>)
    ensures
        resolved(levels) == LogicValue::One <==> (exists|i: int|
            0 <= i < levels.len() && #[trigger] levels[i] == LogicValue::One) && (forall|i: int|
            0 <= i < levels.len() ==> #[trigger] levels[i] == LogicValue::One || levels[i]
                == LogicValue::Z),
        resolved(levels) == LogicValue::Zero <==> (exists|i: int|
            0 <= i < levels.len() && #[trigger] levels[i] == LogicValue::Zero) && (forall|i: int|
            0 <= i < levels.len() ==> #[trigger] levels[i] == LogicValue::Zero || levels[i]
                == LogicValue::Z),
        resolved(levels) == LogicValue::Z <==> levels.len() > 0 && (forall|i: int|
            0 <= i < levels.len() ==> #[trigger] levels[i] == LogicValue::Z),
{
    assert forall|i: int| 0 <= i < levels.len() implies levels.contains(#[trigger] levels[i]) by {}
    assert(levels.len() > 0 ==> levels.contains(levels[0]));
}

} // verus!
