//! The circuit: components with pins and parameters, and the nets that join them.
use crate::model::ModelDefinition;
use crate::number::Real;
use crate::text::{lemma_before_irreflexive, lemma_before_total, lemma_before_transitive, text_before, text_eq, text_lt};
use crate::units::Quantity;
use vstd::prelude::*;

verus! {

/// Current public circuit schema version.
pub const CIRCUIT_SCHEMA_VERSION: u16 = 1;

/// The name of a component.
#[derive(Debug, PartialEq, Eq, PartialOrd, Ord, Hash)]
pub struct ComponentId(pub String);

impl View for ComponentId {
    type V = Seq<char>;

    open spec fn view(&self) -> Seq<char> {
        self.0@
    }
}

impl Clone for ComponentId {
    fn clone(&self) -> (r: Self)
        ensures
            r == *self,
    {
        ComponentId(self.0.clone())
    }
}

impl ComponentId {
    pub fn new(value: &str) -> (r: Self)
        ensures
            r@ == value@,
    {
        ComponentId(value.to_owned())
    }

    pub fn as_str(&self) -> (r: &str)
        ensures
            r@ == self@,
    {
        self.0.as_str()
    }
}

/// The name of a pin.
#[derive(Debug, PartialEq, Eq, PartialOrd, Ord, Hash)]
pub struct PinId(pub String);

impl View for PinId {
    type V = Seq<char>;

    open spec fn view(&self) -> Seq<char> {
        self.0@
    }
}

impl Clone for PinId {
    fn clone(&self) -> (r: Self)
        ensures
            r == *self,
    {
        PinId(self.0.clone())
    }
}

impl PinId {
    pub fn new(value: &str) -> (r: Self)
        ensures
            r@ == value@,
    {
        PinId(value.to_owned())
    }

    pub fn as_str(&self) -> (r: &str)
        ensures
            r@ == self@,
    {
        self.0.as_str()
    }
}

/// The name of a net.
#[derive(Debug, PartialEq, Eq, PartialOrd, Ord, Hash)]
pub struct NetId(pub String);

impl View for NetId {
    type V = Seq<char>;

    open spec fn view(&self) -> Seq<char> {
        self.0@
    }
}

impl Clone for NetId {
    fn clone(&self) -> (r: Self)
        ensures
            r == *self,
    {
        NetId(self.0.clone())
    }
}

impl NetId {
    pub fn new(value: &str) -> (r: Self)
        ensures
            r@ == value@,
    {
        NetId(value.to_owned())
    }

    pub fn as_str(&self) -> (r: &str)
        ensures
            r@ == self@,
    {
        self.0.as_str()
    }
}

/// What a component is.
#[derive(Debug, PartialEq, Eq, PartialOrd, Ord, Hash)]
pub struct ComponentKind(pub String);

impl View for ComponentKind {
    type V = Seq<char>;

    open spec fn view(&self) -> Seq<char> {
        self.0@
    }
}

impl Clone for ComponentKind {
    fn clone(&self) -> (r: Self)
        ensures
            r == *self,
    {
        ComponentKind(self.0.clone())
    }
}

impl ComponentKind {
    pub fn new(value: &str) -> (r: Self)
        ensures
            r@ == value@,
    {
        ComponentKind(value.to_owned())
    }

    pub fn as_str(&self) -> (r: &str)
        ensures
            r@ == self@,
    {
        self.0.as_str()
    }
}

impl ComponentKind {
    pub fn resistor() -> (r: Self)
        ensures
            r@ == "resistor"@,
    {
        ComponentKind::new("resistor")
    }

    pub fn capacitor() -> (r: Self)
        ensures
            r@ == "capacitor"@,
    {
        ComponentKind::new("capacitor")
    }

    pub fn inductor() -> (r: Self)
        ensures
            r@ == "inductor"@,
    {
        ComponentKind::new("inductor")
    }

    pub fn voltage_source() -> (r: Self)
        ensures
            r@ == "voltage_source"@,
    {
        ComponentKind::new("voltage_source")
    }

    pub fn current_source() -> (r: Self)
        ensures
            r@ == "current_source"@,
    {
        ComponentKind::new("current_source")
    }

    pub fn ground() -> (r: Self)
        ensures
            r@ == "ground"@,
    {
        ComponentKind::new("ground")
    }

    pub fn logic_gate() -> (r: Self)
        ensures
            r@ == "logic_gate"@,
    {
        ComponentKind::new("logic_gate")
    }

    pub fn logic_input() -> (r: Self)
        ensures
            r@ == "logic_input"@,
    {
        ComponentKind::new("logic_input")
    }

    pub fn logic_output() -> (r: Self)
        ensures
            r@ == "logic_output"@,
    {
        ComponentKind::new("logic_output")
    }

    pub fn digital_clock() -> (r: Self)
        ensures
            r@ == "digital_clock"@,
    {
        ComponentKind::new("digital_clock")
    }

    pub fn buffer() -> (r: Self)
        ensures
            r@ == "buffer"@,
    {
        ComponentKind::new("buffer")
    }

    pub fn not_gate() -> (r: Self)
        ensures
            r@ == "not_gate"@,
    {
        ComponentKind::new("not_gate")
    }

    pub fn and_gate() -> (r: Self)
        ensures
            r@ == "and_gate"@,
    {
        ComponentKind::new("and_gate")
    }

    pub fn or_gate() -> (r: Self)
        ensures
            r@ == "or_gate"@,
    {
        ComponentKind::new("or_gate")
    }

    pub fn xor_gate() -> (r: Self)
        ensures
            r@ == "xor_gate"@,
    {
        ComponentKind::new("xor_gate")
    }

    pub fn nand_gate() -> (r: Self)
        ensures
            r@ == "nand_gate"@,
    {
        ComponentKind::new("nand_gate")
    }

    pub fn nor_gate() -> (r: Self)
        ensures
            r@ == "nor_gate"@,
    {
        ComponentKind::new("nor_gate")
    }

    pub fn xnor_gate() -> (r: Self)
        ensures
            r@ == "xnor_gate"@,
    {
        ComponentKind::new("xnor_gate")
    }

    pub fn tri_state_buffer() -> (r: Self)
        ensures
            r@ == "tri_state_buffer"@,
    {
        ComponentKind::new("tri_state_buffer")
    }

    pub fn mux2() -> (r: Self)
        ensures
            r@ == "mux2"@,
    {
        ComponentKind::new("mux2")
    }

    pub fn demux2() -> (r: Self)
        ensures
            r@ == "demux2"@,
    {
        ComponentKind::new("demux2")
    }

    pub fn decoder2_to_4() -> (r: Self)
        ensures
            r@ == "decoder2_to_4"@,
    {
        ComponentKind::new("decoder2_to_4")
    }

    pub fn d_latch() -> (r: Self)
        ensures
            r@ == "d_latch"@,
    {
        ComponentKind::new("d_latch")
    }

    pub fn sr_latch() -> (r: Self)
        ensures
            r@ == "sr_latch"@,
    {
        ComponentKind::new("sr_latch")
    }

    pub fn d_flip_flop() -> (r: Self)
        ensures
            r@ == "d_flip_flop"@,
    {
        ComponentKind::new("d_flip_flop")
    }

    pub fn jk_flip_flop() -> (r: Self)
        ensures
            r@ == "jk_flip_flop"@,
    {
        ComponentKind::new("jk_flip_flop")
    }

    pub fn t_flip_flop() -> (r: Self)
        ensures
            r@ == "t_flip_flop"@,
    {
        ComponentKind::new("t_flip_flop")
    }

    pub fn sr_flip_flop() -> (r: Self)
        ensures
            r@ == "sr_flip_flop"@,
    {
        ComponentKind::new("sr_flip_flop")
    }

    pub fn register() -> (r: Self)
        ensures
            r@ == "register"@,
    {
        ComponentKind::new("register")
    }

    pub fn counter() -> (r: Self)
        ensures
            r@ == "counter"@,
    {
        ComponentKind::new("counter")
    }

    pub fn diode() -> (r: Self)
        ensures
            r@ == "diode"@,
    {
        ComponentKind::new("diode")
    }

    pub fn bjt() -> (r: Self)
        ensures
            r@ == "bjt"@,
    {
        ComponentKind::new("bjt")
    }

    pub fn mosfet() -> (r: Self)
        ensures
            r@ == "mosfet"@,
    {
        ComponentKind::new("mosfet")
    }

    pub fn op_amp() -> (r: Self)
        ensures
            r@ == "op_amp"@,
    {
        ComponentKind::new("op_amp")
    }

    pub fn subcircuit() -> (r: Self)
        ensures
            r@ == "subcircuit"@,
    {
        ComponentKind::new("subcircuit")
    }

    pub fn adc_bridge() -> (r: Self)
        ensures
            r@ == "adc_bridge"@,
    {
        ComponentKind::new("adc_bridge")
    }

    pub fn dac_bridge() -> (r: Self)
        ensures
            r@ == "dac_bridge"@,
    {
        ComponentKind::new("dac_bridge")
    }

    pub fn hdl_module() -> (r: Self)
        ensures
            r@ == "hdl_module"@,
    {
        ComponentKind::new("hdl_module")
    }

    pub fn mcu() -> (r: Self)
        ensures
            r@ == "mcu"@,
    {
        ComponentKind::new("mcu")
    }

    pub fn is(&self, name: &str) -> (r: bool)
        ensures
            r == (self@ == name@),
    {
        text_eq(self.0.as_str(), name)
    }
}

#[derive(Clone, Copy, Debug, PartialEq, Eq, PartialOrd, Ord, Hash, Structural)]
pub enum SignalDomain {
    Analog,
    Digital,
    Mixed,
    Reference,
}

impl SignalDomain {
    /// The variant's name.
    pub open spec fn spec_name(self) -> Seq<char> {
        match self {
            SignalDomain::Analog => "Analog"@,
            SignalDomain::Digital => "Digital"@,
            SignalDomain::Mixed => "Mixed"@,
            SignalDomain::Reference => "Reference"@,
        }
    }

    pub fn name(self) -> (r: &'static str)
        ensures
            r@ == self.spec_name(),
    {
        match self {
            SignalDomain::Analog => "Analog",
            SignalDomain::Digital => "Digital",
            SignalDomain::Mixed => "Mixed",
            SignalDomain::Reference => "Reference",
        }
    }
}

#[derive(Clone, Copy, Debug, PartialEq, Eq, Hash, Structural)]
pub enum PinDirection {
    Input,
    Output,
    Bidirectional,
    Passive,
}

impl PinDirection {
    /// The variant's name.
    pub open spec fn spec_name(self) -> Seq<char> {
        match self {
            PinDirection::Input => "Input"@,
            PinDirection::Output => "Output"@,
            PinDirection::Bidirectional => "Bidirectional"@,
            PinDirection::Passive => "Passive"@,
        }
    }

    pub fn name(self) -> (r: &'static str)
        ensures
            r@ == self.spec_name(),
    {
        match self {
            PinDirection::Input => "Input",
            PinDirection::Output => "Output",
            PinDirection::Bidirectional => "Bidirectional",
            PinDirection::Passive => "Passive",
        }
    }
}

#[derive(Clone, Debug, PartialEq, Eq)]
pub struct Pin {
    pub id: PinId,
    pub name: String,
    pub domain: SignalDomain,
    pub direction: PinDirection,
}

impl Pin {
    pub fn new(id: &str, name: &str, domain: SignalDomain, direction: PinDirection) -> (r: Self)
        ensures
            r.id@ == id@,
            r.name@ == name@,
            r.domain == domain,
            r.direction == direction,
    {
        Pin { id: PinId::new(id), name: name.to_owned(), domain, direction }
    }
}

#[derive(Debug, PartialEq, Eq)]
pub enum ParameterValue {
    Boolean(bool),
    Integer(i64),
    Number(Real),
    Text(String),
    Quantity(Quantity),
}

impl Clone for ParameterValue {
    fn clone(&self) -> (r: Self)
        ensures
            r == *self,
    {
        match self {
            ParameterValue::Boolean(b) => ParameterValue::Boolean(*b),
            ParameterValue::Integer(n) => ParameterValue::Integer(*n),
            ParameterValue::Number(n) => ParameterValue::Number(*n),
            ParameterValue::Text(t) => ParameterValue::Text(t.clone()),
            ParameterValue::Quantity(q) => ParameterValue::Quantity(*q),
        }
    }
}

/// A named parameter.
#[derive(Clone, Debug, PartialEq, Eq)]
pub struct Parameter {
    pub name: String,
    pub value: ParameterValue,
}

/// The parameters of a component: each name once, in dictionary order.
#[derive(Debug, PartialEq, Eq)]
pub struct Parameters {
    entries: Vec<Parameter>,
}

/// Names that stand in dictionary order, none twice.
pub open spec fn ordered_names(s: Seq<(Seq<char>, ParameterValue)>) -> bool {
    forall|i: int, j: int| 0 <= i < j < s.len() ==> text_before(#[trigger] s[i].0, #[trigger] s[j].0)
}

/// The value of the parameter with this name.
pub open spec fn parameter_of(
    s: Seq<(Seq<char>, ParameterValue)>,
    name: Seq<char>,
) -> Option<ParameterValue>
    decreases s.len(),
{
    if s.len() == 0 {
        None
    } else if s.last().0 == name {
        Some(s.last().1)
    } else {
        parameter_of(s.drop_last(), name)
    }
}

/// How many names stand before `name`.
pub open spec fn rank_of(s: Seq<(Seq<char>, ParameterValue)>, name: Seq<char>) -> nat
    decreases s.len(),
{
    if s.len() == 0 {
        0
    } else if text_before(s.last().0, name) {
        s.len()
    } else {
        rank_of(s.drop_last(), name)
    }
}

/// The parameters after `name` was given `value`.
pub open spec fn with_entry(
    s: Seq<(Seq<char>, ParameterValue)>,
    name: Seq<char>,
    value: ParameterValue,
) -> Seq<(Seq<char>, ParameterValue)> {
    let k = rank_of(s, name) as int;
    if k < s.len() && s[k].0 == name {
        s.update(k, (name, value))
    } else {
        s.insert(k, (name, value))
    }
}

proof fn lemma_rank(s: Seq<(Seq<char>, ParameterValue)>, name: Seq<char>)
    requires
        ordered_names(s),
    ensures
        rank_of(s, name) <= s.len(),
        forall|i: int| 0 <= i < rank_of(s, name) ==> text_before(#[trigger] s[i].0, name),
        forall|i: int| rank_of(s, name) <= i < s.len() ==> !text_before(#[trigger] s[i].0, name),
    decreases s.len(),
{
    if s.len() > 0 {
        if text_before(s.last().0, name) {
            assert forall|i: int| 0 <= i < s.len() implies text_before(#[trigger] s[i].0, name) by {
                if i < s.len() - 1 {
                    lemma_before_transitive(s[i].0, s[s.len() - 1].0, name);
                }
            }
        } else {
            lemma_rank(s.drop_last(), name);
            assert forall|i: int| 0 <= i < rank_of(s, name) implies text_before(
                #[trigger] s[i].0,
                name,
            ) by {
                assert(s.drop_last()[i].0 == s[i].0);
            }
            assert forall|i: int| rank_of(s, name) <= i < s.len() implies !text_before(
                #[trigger] s[i].0,
                name,
            ) by {
                if i < s.len() - 1 {
                    assert(s.drop_last()[i].0 == s[i].0);
                }
            }
        }
    }
}

/// A name is looked up at the place where it stands, and nowhere else.
proof fn lemma_parameter_at(s: Seq<(Seq<char>, ParameterValue)>, i: int)
    requires
        ordered_names(s),
        0 <= i < s.len(),
    ensures
        parameter_of(s, s[i].0) == Some(s[i].1),
    decreases s.len(),
{
    if i < s.len() - 1 {
        assert(text_before(s[i].0, s[s.len() - 1].0));
        lemma_before_irreflexive(s[i].0);
        assert(s.drop_last()[i] == s[i]);
        lemma_parameter_at(s.drop_last(), i);
    }
}

proof fn lemma_parameter_absent(s: Seq<(Seq<char>, ParameterValue)>, name: Seq<char>)
    requires
        forall|i: int| 0 <= i < s.len() ==> (#[trigger] s[i]).0 != name,
    ensures
        parameter_of(s, name) is None,
    decreases s.len(),
{
    if s.len() > 0 {
        assert(s[s.len() - 1].0 != name);
        assert forall|i: int| 0 <= i < s.drop_last().len() implies (#[trigger] s.drop_last()[i]).0
            != name by {
            assert(s[i].0 != name);
        }
        lemma_parameter_absent(s.drop_last(), name);
    }
}

/// Setting a parameter keeps the names in order; the parameter set is then
/// found under its name, and every other name keeps what it had.
pub proof fn parameter_set_then_found(
    s: Seq<(Seq<char>, ParameterValue)>,
    name: Seq<char>,
    value: ParameterValue,
    other: Seq<char>,
)
    requires
        ordered_names(s),
    ensures
        ordered_names(with_entry(s, name, value)),
        parameter_of(with_entry(s, name, value), name) == Some(value),
        other != name ==> parameter_of(with_entry(s, name, value), other) == parameter_of(s, other),
{
    let t = with_entry(s, name, value);
    let k = rank_of(s, name) as int;
    lemma_rank(s, name);
    let replaced = k < s.len() && s[k].0 == name;
    assert forall|i: int, j: int| 0 <= i < j < t.len() implies text_before(
        #[trigger] t[i].0,
        #[trigger] t[j].0,
    ) by {
        if !replaced {
            if j == k {
                assert(t[i] == s[i]);
            } else if i == k {
                let m = j - 1;
                assert(t[j] == s[m]);
                assert(!text_before(s[m].0, name));
                if k == m {
                    lemma_before_total(s[k].0, name);
                } else {
                    assert(text_before(s[k].0, s[m].0));
                    lemma_before_total(s[m].0, name);
                    if s[m].0 == name {
                        assert(!text_before(s[k].0, name));
                    }
                }
            } else {
                let a = if i < k { i } else { i - 1 };
                let b = if j < k { j } else { j - 1 };
                assert(t[i] == s[a] && t[j] == s[b]);
            }
        }
    }
    assert(t[k] == (name, value));
    lemma_parameter_at(t, k);
    if other != name {
        if exists|i: int| 0 <= i < s.len() && (#[trigger] s[i]).0 == other {
            let i = choose|i: int| 0 <= i < s.len() && (#[trigger] s[i]).0 == other;
            lemma_parameter_at(s, i);
            let j = if replaced || i < k { i } else { i + 1 };
            assert(t[j] == s[i]);
            lemma_parameter_at(t, j);
        } else {
            lemma_parameter_absent(s, other);
            assert forall|j: int| 0 <= j < t.len() implies (#[trigger] t[j]).0 != other by {
                if j != k {
                    let i = if replaced || j < k { j } else { j - 1 };
                    assert(t[j] == s[i]);
                }
            }
            lemma_parameter_absent(t, other);
        }
    }
}

/// The names and values of a list of parameters.
pub open spec fn entry_views(v: Seq<Parameter>) -> Seq<(Seq<char>, ParameterValue)> {
    v.map_values(|p: Parameter| (p.name@, p.value))
}

impl View for Parameters {
    type V = Seq<(Seq<char>, ParameterValue)>;

    closed spec fn view(&self) -> Seq<(Seq<char>, ParameterValue)> {
        entry_views(self.entries@)
    }
}

impl Parameters {
    #[verifier::type_invariant]
    spec fn in_order(self) -> bool {
        ordered_names(entry_views(self.entries@))
    }

    pub fn new() -> (r: Self)
        ensures
            r@ == Seq::<(Seq<char>, ParameterValue)>::empty(),
    {
        let r = Parameters { entries: Vec::new() };
        assert(r@ =~= Seq::<(Seq<char>, ParameterValue)>::empty());
        r
    }

    pub fn len(&self) -> (r: usize)
        ensures
            r == self@.len(),
    {
        self.entries.len()
    }

    pub fn is_empty(&self) -> (r: bool)
        ensures
            r == (self@.len() == 0),
    {
        self.entries.len() == 0
    }

    pub fn name_at(&self, i: usize) -> (r: &str)
        requires
            i < self@.len(),
        ensures
            r@ == self@[i as int].0,
    {
        self.entries[i].name.as_str()
    }

    pub fn value_at(&self, i: usize) -> (r: &ParameterValue)
        requires
            i < self@.len(),
        ensures
            *r == self@[i as int].1,
    {
        &self.entries[i].value
    }

    pub fn get(&self, name: &str) -> (r: Option<&ParameterValue>)
        ensures
            match (r, parameter_of(self@, name@)) {
                (Some(v), Some(w)) => *v == w,
                (None, None) => true,
                _ => false,
            },
    {
        let mut i: usize = self.entries.len();
        assert(self@.take(i as int) =~= self@);
        while i > 0
            invariant
                i <= self@.len(),
                self@ == entry_views(self.entries@),
                parameter_of(self@, name@) == parameter_of(self@.take(i as int), name@),
            decreases i,
        {
            let ghost s = self@.take(i as int);
            assert(s.last() == self@[i - 1]);
            assert(s.drop_last() =~= self@.take(i - 1));
            i = i - 1;
            if text_eq(self.entries[i].name.as_str(), name) {
                return Some(&self.entries[i].value);
            }
        }
        None
    }

    pub fn contains(&self, name: &str) -> (r: bool)
        ensures
            r == parameter_of(self@, name@) is Some,
    {
        self.get(name).is_some()
    }

    /// Gives `name` this value, in place of one that it has.
    pub fn insert(&mut self, name: &str, value: ParameterValue)
        ensures
            final(self)@ == with_entry(old(self)@, name@, value),
    {
        proof {
            use_type_invariant(&*self);
            parameter_set_then_found(entry_views(self.entries@), name@, value, name@);
        }
        let mut entries: Vec<Parameter> = Vec::new();
        std::mem::swap(&mut entries, &mut self.entries);
        put(&mut entries, name, value);
        self.entries = entries;
    }
}

/// How many names stand before `name`.
fn rank(entries: &Vec<Parameter>, name: &str) -> (k: usize)
    ensures
        k == rank_of(entry_views(entries@), name@),
        k <= entries@.len(),
{
    let ghost s = entry_views(entries@);
    let mut k: usize = entries.len();
    assert(s.take(k as int) =~= s);
    while k > 0 && !text_lt(entries[k - 1].name.as_str(), name)
        invariant
            k <= s.len(),
            s == entry_views(entries@),
            rank_of(s, name@) == rank_of(s.take(k as int), name@),
        decreases k,
    {
        let ghost t = s.take(k as int);
        assert(t.last() == s[k - 1]);
        assert(t.drop_last() =~= s.take(k - 1));
        k = k - 1;
    }
    proof {
        let t = s.take(k as int);
        if k > 0 {
            assert(t.last() == s[k - 1]);
        }
    }
    k
}

fn put(entries: &mut Vec<Parameter>, name: &str, value: ParameterValue)
    ensures
        entry_views(final(entries)@) == with_entry(entry_views(old(entries)@), name@, value),
{
    let ghost s = entry_views(entries@);
    let k: usize = rank(entries, name);
    let entry = Parameter { name: name.to_owned(), value };
    if k < entries.len() && text_eq(entries[k].name.as_str(), name) {
        entries.set(k, entry);
        assert(entry_views(entries@) =~= s.update(k as int, (name@, value)));
    } else {
        entries.insert(k, entry);
        assert(entry_views(entries@) =~= s.insert(k as int, (name@, value)));
    }
}

impl Clone for Parameters {
    fn clone(&self) -> (r: Self)
        ensures
            r@ == self@,
    {
        proof {
            use_type_invariant(self);
        }
        let mut entries: Vec<Parameter> = Vec::new();
        let mut i: usize = 0;
        while i < self.entries.len()
            invariant
                i <= self.entries@.len(),
                entry_views(entries@) == entry_views(self.entries@).take(i as int),
            decreases self.entries@.len() - i,
        {
            let ghost before = entries@;
            let p = &self.entries[i];
            entries.push(Parameter { name: p.name.clone(), value: p.value.clone() });
            assert(entry_views(entries@) =~= entry_views(before).push(
                entry_views(self.entries@)[i as int],
            ));
            i = i + 1;
            assert(entry_views(self.entries@).take(i as int) =~= entry_views(self.entries@).take(
                i - 1,
            ).push(entry_views(self.entries@)[i - 1]));
        }
        assert(entry_views(entries@) =~= entry_views(self.entries@));
        Parameters { entries }
    }
}

#[derive(Clone, Debug, PartialEq, Eq)]
pub struct Component {
    pub id: ComponentId,
    pub kind: ComponentKind,
    pub pins: Vec<Pin>,
    pub parameters: Parameters,
}

impl Component {
    pub fn new(id: &str, kind: ComponentKind) -> (r: Self)
        ensures
            r.id@ == id@,
            r.kind == kind,
            r.pins@ == Seq::<Pin>::empty(),
            r.parameters@ == Seq::<(Seq<char>, ParameterValue)>::empty(),
    {
        Component { id: ComponentId::new(id), kind, pins: Vec::new(), parameters: Parameters::new() }
    }

    pub fn with_pin(self, pin: Pin) -> (r: Self)
        ensures
            r.pins@ == self.pins@.push(pin),
            r.id == self.id,
            r.kind == self.kind,
            r.parameters == self.parameters,
    {
        let mut pins = self.pins;
        pins.push(pin);
        Component { id: self.id, kind: self.kind, pins, parameters: self.parameters }
    }

    pub fn with_parameter(self, key: &str, value: ParameterValue) -> (r: Self)
        ensures
            r.parameters@ == with_entry(self.parameters@, key@, value),
            r.id == self.id,
            r.kind == self.kind,
            r.pins == self.pins,
    {
        let mut parameters = self.parameters;
        parameters.insert(key, value);
        Component { id: self.id, kind: self.kind, pins: self.pins, parameters }
    }
}

/// One pin of one component.
#[derive(Debug, PartialEq, Eq, Hash)]
pub struct NetEndpoint {
    pub component: ComponentId,
    pub pin: PinId,
}

impl View for NetEndpoint {
    type V = (Seq<char>, Seq<char>);

    open spec fn view(&self) -> (Seq<char>, Seq<char>) {
        (self.component@, self.pin@)
    }
}

impl Clone for NetEndpoint {
    fn clone(&self) -> (r: Self)
        ensures
            r == *self,
    {
        NetEndpoint { component: self.component.clone(), pin: self.pin.clone() }
    }
}

impl NetEndpoint {
    pub fn new(component: &str, pin: &str) -> (r: Self)
        ensures
            r@ == (component@, pin@),
    {
        NetEndpoint { component: ComponentId::new(component), pin: PinId::new(pin) }
    }

    /// Whether this is that pin of that component.
    pub fn is(&self, component: &str, pin: &str) -> (r: bool)
        ensures
            r == (self@ == (component@, pin@)),
    {
        text_eq(self.component.as_str(), component) && text_eq(self.pin.as_str(), pin)
    }
}

#[derive(Clone, Debug, PartialEq, Eq)]
pub struct Net {
    pub id: NetId,
    pub label: Option<String>,
    pub endpoints: Vec<NetEndpoint>,
}

impl Net {
    pub fn new(id: &str) -> (r: Self)
        ensures
            r.id@ == id@,
            r.label is None,
            r.endpoints@ == Seq::<NetEndpoint>::empty(),
    {
        Net { id: NetId::new(id), label: None, endpoints: Vec::new() }
    }

    pub fn connect(self, endpoint: NetEndpoint) -> (r: Self)
        ensures
            r.endpoints@ == self.endpoints@.push(endpoint),
            r.id == self.id,
            r.label == self.label,
    {
        let mut endpoints = self.endpoints;
        endpoints.push(endpoint);
        Net { id: self.id, label: self.label, endpoints }
    }
}

#[derive(Clone, Debug, PartialEq, Eq)]
pub struct Circuit {
    pub schema_version: u16,
    pub title: Option<String>,
    pub components: Vec<Component>,
    pub nets: Vec<Net>,
    pub models: Vec<ModelDefinition>,
}

impl Circuit {
    /// Nothing in it yet, and the current schema version.
    pub open spec fn is_new(self) -> bool {
        &&& self.schema_version == CIRCUIT_SCHEMA_VERSION
        &&& self.title is None
        &&& self.components@ == Seq::<Component>::empty()
        &&& self.nets@ == Seq::<Net>::empty()
        &&& self.models@ == Seq::<ModelDefinition>::empty()
    }

    pub fn new() -> (r: Self)
        ensures
            r.is_new(),
    {
        Circuit {
            schema_version: CIRCUIT_SCHEMA_VERSION,
            title: None,
            components: Vec::new(),
            nets: Vec::new(),
            models: Vec::new(),
        }
    }

    pub fn with_component(self, component: Component) -> (r: Self)
        ensures
            r.components@ == self.components@.push(component),
            r.schema_version == self.schema_version,
            r.title == self.title,
            r.nets == self.nets,
            r.models == self.models,
    {
        let mut c = self;
        c.components.push(component);
        c
    }

    pub fn with_net(self, net: Net) -> (r: Self)
        ensures
            r.nets@ == self.nets@.push(net),
            r.schema_version == self.schema_version,
            r.title == self.title,
            r.components == self.components,
            r.models == self.models,
    {
        let mut c = self;
        c.nets.push(net);
        c
    }

    pub fn with_model(self, model: ModelDefinition) -> (r: Self)
        ensures
            r.models@ == self.models@.push(model),
            r.schema_version == self.schema_version,
            r.title == self.title,
            r.components == self.components,
            r.nets == self.nets,
    {
        let mut c = self;
        c.models.push(model);
        c
    }
}

impl Default for Circuit {
    fn default() -> (r: Self)
        ensures
            r.is_new(),
    {
        Circuit::new()
    }
}

/// Whether some component is of a kind.
pub open spec fn has_kind(components: Seq<Component>, kind: Seq<char>) -> bool {
    exists|i: int| 0 <= i < components.len() && (#[trigger] components[i]).kind@ == kind
}

pub fn contains_kind(components: &Vec<Component>, kind: &str) -> (r: bool)
    ensures
        r == has_kind(components@, kind@),
{
    let mut i: usize = 0;
    while i < components.len()
        invariant
            i <= components@.len(),
            forall|k: int| 0 <= k < i ==> (#[trigger] components@[k]).kind@ != kind@,
        decreases components@.len() - i,
    {
        if text_eq(components[i].kind.as_str(), kind) {
            assert(components@[i as int].kind@ == kind@);
            return true;
        }
        i = i + 1;
    }
    false
}

} // verus!
