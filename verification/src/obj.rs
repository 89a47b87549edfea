//! The object that a linker script is generated for, as far as the script depends on it.
use vstd::prelude::*;

verus! {

/// What an object is.
#[derive(Debug, Clone, Copy, PartialEq, Eq, Structural)]
pub enum ObjKind {
    /// Fully linked.
    Executable,
    /// Relocatable, to be linked partially.
    Relocatable,
}

/// The flags of a symbol.
#[derive(Debug, Clone, Copy, PartialEq, Eq, Structural)]
pub struct ObjSymbolFlags {
    pub exported: bool,
    pub global: bool,
    pub no_write: bool,
}

impl ObjSymbolFlags {
    /// Whether the symbol is exported.
    pub fn is_exported(&self) -> (set: bool)
        ensures
            set == self.exported,
    {
        self.exported
    }

    /// Whether the symbol is global.
    pub fn is_global(&self) -> (set: bool)
        ensures
            set == self.global,
    {
        self.global
    }

    /// Whether the symbol is left out of what is written.
    pub fn is_no_write(&self) -> (set: bool)
        ensures
            set == self.no_write,
    {
        self.no_write
    }
}

/// A symbol.
#[derive(Debug)]
pub struct ObjSymbol {
    pub name: String,
    pub flags: ObjSymbolFlags,
}

/// The part of a section that comes from a translation unit.
#[derive(Debug)]
pub struct ObjSplit {
    pub unit: String,
}

/// A section, with its splits by their addresses relative to the section.
#[derive(Debug)]
pub struct ObjSection {
    pub name: String,
    pub address: u64,
    pub align: u64,
    pub splits: Vec<(u32, ObjSplit)>,
}

/// A translation unit in link order. The order is set where the link order was taken from the
/// exception tables.
#[derive(Debug)]
pub struct ObjUnit {
    pub name: String,
    pub order: Option<i32>,
}

/// An object: its sections, symbols and units, each in order.
#[derive(Debug)]
pub struct ObjInfo {
    pub kind: ObjKind,
    pub sections: Vec<ObjSection>,
    pub symbols: Vec<ObjSymbol>,
    pub entry: Option<u64>,
    pub link_order: Vec<ObjUnit>,
    pub stack_address: Option<u32>,
    pub stack_end: Option<u32>,
    pub arena_hi: Option<u32>,
}

/// The mathematical content of an [`ObjSymbol`].
#[verifier::ext_equal]
pub struct SymbolView {
    pub name: Seq<char>,
    pub flags: ObjSymbolFlags,
}

/// The mathematical content of an [`ObjSection`]: each split is an address and the name of a unit.
#[verifier::ext_equal]
pub struct SectionView {
    pub name: Seq<char>,
    pub address: u64,
    pub align: u64,
    pub splits: Seq<(u32, Seq<char>)>,
}

/// The mathematical content of an [`ObjUnit`].
#[verifier::ext_equal]
pub struct UnitView {
    pub name: Seq<char>,
    pub order: Option<i32>,
}

/// The mathematical content of an [`ObjInfo`].
#[verifier::ext_equal]
pub struct ObjView {
    pub kind: ObjKind,
    pub sections: Seq<SectionView>,
    pub symbols: Seq<SymbolView>,
    pub entry: Option<u64>,
    pub link_order: Seq<UnitView>,
    pub stack_address: Option<u32>,
    pub stack_end: Option<u32>,
    pub arena_hi: Option<u32>,
}

impl View for ObjSymbol {
    type V = SymbolView;

    open spec fn view(&self) -> SymbolView {
        SymbolView { name: self.name@, flags: self.flags }
    }
}

impl View for ObjSection {
    type V = SectionView;

    open spec fn view(&self) -> SectionView {
        SectionView {
            name: self.name@,
            address: self.address,
            align: self.align,
            splits: Seq::new(
                self.splits@.len(),
                |i: int| (self.splits@[i].0, self.splits@[i].1.unit@),
            ),
        }
    }
}

impl View for ObjUnit {
    type V = UnitView;

    open spec fn view(&self) -> UnitView {
        UnitView { name: self.name@, order: self.order }
    }
}

impl View for ObjInfo {
    type V = ObjView;

    open spec fn view(&self) -> ObjView {
        ObjView {
            kind: self.kind,
            sections: Seq::new(self.sections@.len(), |i: int| self.sections@[i]@),
            symbols: Seq::new(self.symbols@.len(), |i: int| self.symbols@[i]@),
            entry: self.entry,
            link_order: Seq::new(self.link_order@.len(), |i: int| self.link_order@[i]@),
            stack_address: self.stack_address,
            stack_end: self.stack_end,
            arena_hi: self.arena_hi,
        }
    }
}

/// The contents of the types are their fields.
pub proof fn law_views(o: ObjInfo, section: ObjSection, symbol: ObjSymbol, unit: ObjUnit, i: int)
    ensures
        o@.kind == o.kind,
        o@.entry == o.entry,
        o@.stack_address == o.stack_address,
        o@.stack_end == o.stack_end,
        o@.arena_hi == o.arena_hi,
        o@.sections.len() == o.sections@.len(),
        o@.symbols.len() == o.symbols@.len(),
        o@.link_order.len() == o.link_order@.len(),
        0 <= i < o.sections@.len() ==> o@.sections[i] == o.sections@[i]@,
        0 <= i < o.symbols@.len() ==> o@.symbols[i] == o.symbols@[i]@,
        0 <= i < o.link_order@.len() ==> o@.link_order[i] == o.link_order@[i]@,
        section@.name == section.name@,
        section@.address == section.address,
        section@.align == section.align,
        section@.splits.len() == section.splits@.len(),
        0 <= i < section.splits@.len() ==> section@.splits[i].0 == section.splits@[i].0
            && section@.splits[i].1 == section.splits@[i].1.unit@,
        symbol@.name == symbol.name@,
        symbol@.flags == symbol.flags,
        unit@.name == unit.name@,
        unit@.order == unit.order,
{
}

} // verus!
