//! Inline simulator models.
use vstd::prelude::*;

verus! {

/// The name under which components refer to a model.
#[derive(Debug, PartialEq, Eq, PartialOrd, Ord, Hash)]
pub struct ModelId(pub String);

impl View for ModelId {
    type V = Seq<char>;

    open spec fn view(&self) -> Seq<char> {
        self.0@
    }
}

impl Clone for ModelId {
    fn clone(&self) -> (r: Self)
        ensures
            r == *self,
    {
        ModelId(self.0.clone())
    }
}

impl ModelId {
    pub fn new(value: &str) -> (r: Self)
        ensures
            r@ == value@,
    {
        ModelId(value.to_owned())
    }

    pub fn as_str(&self) -> (r: &str)
        ensures
            r@ == self@,
    {
        self.0.as_str()
    }
}

#[derive(Clone, Copy, Debug, PartialEq, Eq, Hash, Structural)]
pub enum ModelLanguage {
    Spice,
    Verilog,
    SystemVerilog,
}

impl ModelLanguage {
    /// The variant's name.
    pub open spec fn spec_name(self) -> Seq<char> {
        match self {
            ModelLanguage::Spice => "Spice"@,
            ModelLanguage::Verilog => "Verilog"@,
            ModelLanguage::SystemVerilog => "SystemVerilog"@,
        }
    }

    pub fn name(self) -> (r: &'static str)
        ensures
            r@ == self.spec_name(),
    {
        match self {
            ModelLanguage::Spice => "Spice",
            ModelLanguage::Verilog => "Verilog",
            ModelLanguage::SystemVerilog => "SystemVerilog",
        }
    }
}

#[derive(Clone, Copy, Debug, PartialEq, Eq, Hash, Structural)]
pub enum ModelKind {
    Device,
    Subcircuit,
    Module,
}

impl ModelKind {
    /// The variant's name.
    pub open spec fn spec_name(self) -> Seq<char> {
        match self {
            ModelKind::Device => "Device"@,
            ModelKind::Subcircuit => "Subcircuit"@,
            ModelKind::Module => "Module"@,
        }
    }

    pub fn name(self) -> (r: &'static str)
        ensures
            r@ == self.spec_name(),
    {
        match self {
            ModelKind::Device => "Device",
            ModelKind::Subcircuit => "Subcircuit",
            ModelKind::Module => "Module",
        }
    }
}

#[derive(Clone, Debug, PartialEq, Eq)]
pub struct ModelDefinition {
    pub id: ModelId,
    pub language: ModelLanguage,
    pub kind: ModelKind,
    /// Symbol used by the simulator when instantiating this model, for example
    /// `1N4148` for `.model 1N4148 D (...)` or `LM358` for `.subckt LM358 ...`.
    pub entry: String,
    /// Inline model source. Engine adapters validate this source before it is
    /// admitted to an isolated simulator process.
    pub source: String,
}

impl ModelDefinition {
    pub open spec fn holds(
        self,
        language: ModelLanguage,
        kind: ModelKind,
        id: Seq<char>,
        entry: Seq<char>,
        source: Seq<char>,
    ) -> bool {
        &&& self.language == language
        &&& self.kind == kind
        &&& self.id@ == id
        &&& self.entry@ == entry
        &&& self.source@ == source
    }

    pub fn spice_device(id: &str, entry: &str, source: &str) -> (r: Self)
        ensures
            r.holds(ModelLanguage::Spice, ModelKind::Device, id@, entry@, source@),
    {
        ModelDefinition {
            id: ModelId::new(id),
            language: ModelLanguage::Spice,
            kind: ModelKind::Device,
            entry: entry.to_owned(),
            source: source.to_owned(),
        }
    }

    pub fn spice_subcircuit(id: &str, entry: &str, source: &str) -> (r: Self)
        ensures
            r.holds(ModelLanguage::Spice, ModelKind::Subcircuit, id@, entry@, source@),
    {
        ModelDefinition {
            id: ModelId::new(id),
            language: ModelLanguage::Spice,
            kind: ModelKind::Subcircuit,
            entry: entry.to_owned(),
            source: source.to_owned(),
        }
    }

    pub fn verilog_module(id: &str, entry: &str, source: &str) -> (r: Self)
        ensures
            r.holds(ModelLanguage::Verilog, ModelKind::Module, id@, entry@, source@),
    {
        ModelDefinition {
            id: ModelId::new(id),
            language: ModelLanguage::Verilog,
            kind: ModelKind::Module,
            entry: entry.to_owned(),
            source: source.to_owned(),
        }
    }

    pub fn system_verilog_module(id: &str, entry: &str, source: &str) -> (r: Self)
        ensures
            r.holds(ModelLanguage::SystemVerilog, ModelKind::Module, id@, entry@, source@),
    {
        ModelDefinition {
            id: ModelId::new(id),
            language: ModelLanguage::SystemVerilog,
            kind: ModelKind::Module,
            entry: entry.to_owned(),
            source: source.to_owned(),
        }
    }
}

} // verus!
