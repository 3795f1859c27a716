//! Data model of the linker core: symbols, relocations, sections, loaded
//! objects, the global symbol table and the linking context, together with
//! their mathematical views and well-formedness conditions.

use vstd::prelude::*;

verus! {

/// Classification of a symbol table entry.
#[derive(Clone, Copy, Debug, PartialEq, Eq, Structural)]
pub enum SymbolKind {
    Unknown,
    Text,
    Data,
    Section,
    File,
    Other,
}

/// Relocation kinds the core handles.
#[derive(Clone, Copy, Debug, PartialEq, Eq, Structural)]
pub enum RelocKind {
    /// 64-bit absolute address, 8 bytes little-endian.
    Abs64,
    /// 32-bit absolute address, 4 bytes little-endian.
    Abs32,
    /// 32-bit address relative to the patch site, 4 bytes little-endian.
    PcRel32,
}

/// How a relocation's computed value is range-checked.
#[derive(Clone, Copy, Debug, PartialEq, Eq, Structural)]
pub enum RelocEncoding {
    /// The value must fit the natural range of the relocation's width
    /// (unsigned for an absolute 32-bit word).
    Generic,
    /// The value must fit the signed 32-bit range.
    Signed,
}

/// Number of bytes a relocation of kind `k` patches.
pub open spec fn reloc_width(k: RelocKind) -> int {
    match k {
        RelocKind::Abs64 => 8,
        RelocKind::Abs32 => 4,
        RelocKind::PcRel32 => 4,
    }
}

/// Mathematical value of a [`Symbol`].
pub struct SpecSymbol {
    pub name: Seq<u8>,
    pub file: Seq<char>,
    pub address: u64,
    pub kind: SymbolKind,
    pub defined: bool,
    pub global: bool,
    pub strong: bool,
    pub section_index: Option<usize>,
    pub object_id: usize,
    pub final_address: Option<u64>,
}

/// One name occurrence in one input object.
#[derive(Debug)]
pub struct Symbol {
    /// Symbol name, a byte string from the object's string table.
    pub name: Vec<u8>,
    /// Path of the input file the symbol came from, for diagnostics.
    pub file: String,
    /// Section-relative offset for section-bound symbols, absolute value
    /// for absolute symbols, meaningless while undefined.
    pub address: u64,
    pub kind: SymbolKind,
    /// True iff the symbol has a home section or an absolute value.
    pub defined: bool,
    /// True for global and weak binding; only such symbols take part in
    /// cross-object resolution.
    pub global: bool,
    /// False only for weak symbols.
    pub strong: bool,
    /// Index into the owning object's section array, absent for undefined
    /// and absolute symbols.
    pub section_index: Option<usize>,
    /// Dense identifier of the owning object.
    pub object_id: usize,
    /// Final virtual address, filled in by the symbol finalizer.
    pub final_address: Option<u64>,
}

impl View for Symbol {
    type V = SpecSymbol;

    open spec fn view(&self) -> SpecSymbol {
        SpecSymbol {
            name: self.name@,
            file: self.file@,
            address: self.address,
            kind: self.kind,
            defined: self.defined,
            global: self.global,
            strong: self.strong,
            section_index: self.section_index,
            object_id: self.object_id,
            final_address: self.final_address,
        }
    }
}

impl DeepView for Symbol {
    type V = SpecSymbol;

    open spec fn deep_view(&self) -> SpecSymbol {
        self.view()
    }
}

/// Mathematical value of a [`Relocation`].
pub struct SpecRelocation {
    pub addend: i64,
    pub offset: u64,
    pub kind: RelocKind,
    pub encoding: RelocEncoding,
    pub section_index: usize,
    pub target_symbol: Seq<u8>,
    pub object_id: usize,
}

/// One patch site in one input section.
#[derive(Debug)]
pub struct Relocation {
    /// Constant added to the target symbol's address.
    pub addend: i64,
    /// Byte offset of the patch site within the patched section's data.
    pub offset: u64,
    pub kind: RelocKind,
    pub encoding: RelocEncoding,
    /// Index of the patched section in the owning object's section array.
    pub section_index: usize,
    /// Name of the symbol whose final address is written.
    pub target_symbol: Vec<u8>,
    /// Dense identifier of the owning object.
    pub object_id: usize,
}

impl View for Relocation {
    type V = SpecRelocation;

    open spec fn view(&self) -> SpecRelocation {
        SpecRelocation {
            addend: self.addend,
            offset: self.offset,
            kind: self.kind,
            encoding: self.encoding,
            section_index: self.section_index,
            target_symbol: self.target_symbol@,
            object_id: self.object_id,
        }
    }
}

impl DeepView for Relocation {
    type V = SpecRelocation;

    open spec fn deep_view(&self) -> SpecRelocation {
        self.view()
    }
}

/// Mathematical value of a [`Section`].
pub struct SpecSection {
    pub data: Seq<u8>,
    pub name: Seq<u8>,
    pub index: usize,
    pub input_address: u64,
    pub assigned_address: Option<u64>,
    pub object_id: usize,
}

/// One input section of one object.
#[derive(Debug)]
pub struct Section {
    /// The section's bytes, copied out of the input image; empty for
    /// zero-initialized sections.
    pub data: Vec<u8>,
    /// Section name, a byte string such as `.text`.
    pub name: Vec<u8>,
    /// Dense index within the owning object's section array.
    pub index: usize,
    /// Address as read from the input, typically 0 for relocatables.
    pub input_address: u64,
    /// Virtual address given by the layout engine; present iff the section
    /// was selected for output.
    pub assigned_address: Option<u64>,
    /// Dense identifier of the owning object.
    pub object_id: usize,
}

impl View for Section {
    type V = SpecSection;

    open spec fn view(&self) -> SpecSection {
        SpecSection {
            data: self.data@,
            name: self.name@,
            index: self.index,
            input_address: self.input_address,
            assigned_address: self.assigned_address,
            object_id: self.object_id,
        }
    }
}

impl DeepView for Section {
    type V = SpecSection;

    open spec fn deep_view(&self) -> SpecSection {
        self.view()
    }
}

/// Mathematical value of an [`ObjectFile`].
pub struct SpecObjectFile {
    pub path: Seq<char>,
    pub symbols: Seq<SpecSymbol>,
    pub relocations: Seq<SpecRelocation>,
    pub sections: Seq<SpecSection>,
}

/// One loaded input object.
#[derive(Debug)]
pub struct ObjectFile {
    /// Path the object was loaded from, for diagnostics.
    pub path: String,
    pub symbols: Vec<Symbol>,
    pub relocations: Vec<Relocation>,
    pub sections: Vec<Section>,
}

impl View for ObjectFile {
    type V = SpecObjectFile;

    open spec fn view(&self) -> SpecObjectFile {
        SpecObjectFile {
            path: self.path@,
            symbols: self.symbols.deep_view(),
            relocations: self.relocations.deep_view(),
            sections: self.sections.deep_view(),
        }
    }
}

impl DeepView for ObjectFile {
    type V = SpecObjectFile;

    open spec fn deep_view(&self) -> SpecObjectFile {
        self.view()
    }
}

/// The global symbol table: at most one entry per name.
#[derive(Debug)]
pub struct SymbolTable {
    pub entries: Vec<Symbol>,
}

impl View for SymbolTable {
    type V = Seq<SpecSymbol>;

    open spec fn view(&self) -> Seq<SpecSymbol> {
        self.entries.deep_view()
    }
}

/// The owning container of one linker invocation: all loaded objects and
/// the global symbol table.
#[derive(Debug)]
pub struct Context {
    pub object_files: Vec<ObjectFile>,
    pub global_symbols: SymbolTable,
}

/// Mathematical value of a [`Context`].
pub struct SpecContext {
    pub object_files: Seq<SpecObjectFile>,
    pub global_symbols: Seq<SpecSymbol>,
}

impl View for Context {
    type V = SpecContext;

    open spec fn view(&self) -> SpecContext {
        SpecContext {
            object_files: self.object_files.deep_view(),
            global_symbols: self.global_symbols@,
        }
    }
}

/// Basic shape of a symbol record: an undefined symbol has no home section
/// and is global (locals are never undefined at resolution time).
pub open spec fn sym_inv(s: SpecSymbol) -> bool {
    !s.defined ==> s.section_index is None && s.global
}

/// A symbol's references into the section array of its owning object are in
/// bounds, and a section-bound symbol's offset lies within its section's
/// data whenever that section has bytes.
pub open spec fn sym_in_sections(s: SpecSymbol, sections: Seq<SpecSection>) -> bool {
    s.section_index matches Some(si) ==> si < sections.len() && (
        sections[si as int].data.len() != 0 ==> s.address <= sections[si as int].data.len()
    )
}

/// A relocation patches bytes that exist in its section.
pub open spec fn reloc_in_sections(r: SpecRelocation, sections: Seq<SpecSection>) -> bool {
    &&& r.section_index < sections.len()
    &&& r.offset + reloc_width(r.kind) <= sections[r.section_index as int].data.len()
    &&& r.target_symbol.len() > 0
}

/// Well-formedness of a loaded object with dense identifier `oid`.
pub open spec fn obj_wf(o: SpecObjectFile, oid: usize) -> bool {
    &&& forall|i: int| 0 <= i < o.sections.len() ==>
        (#[trigger] o.sections[i]).index == i && o.sections[i].object_id == oid
    &&& forall|i: int| 0 <= i < o.symbols.len() ==>
        (#[trigger] o.symbols[i]).object_id == oid
        && sym_inv(o.symbols[i])
        && sym_in_sections(o.symbols[i], o.sections)
        && (o.symbols[i].global ==> o.symbols[i].name.len() > 0)
    &&& forall|i: int| 0 <= i < o.relocations.len() ==>
        (#[trigger] o.relocations[i]).object_id == oid
        && reloc_in_sections(o.relocations[i], o.sections)
}

/// A symbol copied into the global table stays meaningful against the
/// context's object array.
pub open spec fn sym_in_files(s: SpecSymbol, files: Seq<SpecObjectFile>) -> bool {
    &&& s.object_id < files.len()
    &&& sym_in_sections(s, files[s.object_id as int].sections)
}

/// Well-formedness of the global symbol table: one entry per name, every
/// entry a named global obeying the symbol shape invariant.
pub open spec fn table_wf(t: Seq<SpecSymbol>) -> bool {
    &&& forall|i: int, j: int| 0 <= i < j < t.len() ==> t[i].name != t[j].name
    &&& forall|i: int| 0 <= i < t.len() ==>
        (#[trigger] t[i]).global && t[i].name.len() > 0 && sym_inv(t[i])
}

/// Well-formedness of a whole linking context.
pub open spec fn ctx_wf(c: SpecContext) -> bool {
    &&& forall|o: int| 0 <= o < c.object_files.len() ==>
        obj_wf(#[trigger] c.object_files[o], o as usize)
    &&& table_wf(c.global_symbols)
    &&& forall|i: int| 0 <= i < c.global_symbols.len() ==>
        sym_in_files(#[trigger] c.global_symbols[i], c.object_files)
}

impl Symbol {
    /// Builds a symbol record; the final address starts unset.
    pub fn new(
        name: Vec<u8>,
        file: String,
        address: u64,
        kind: SymbolKind,
        defined: bool,
        global: bool,
        strong: bool,
        section_index: Option<usize>,
        object_id: usize,
    ) -> (r: Symbol)
        ensures
            r@ == (SpecSymbol {
                name: name@,
                file: file@,
                address,
                kind,
                defined,
                global,
                strong,
                section_index,
                object_id,
                final_address: None,
            }),
    {
        Symbol {
            name,
            file,
            address,
            kind,
            defined,
            global,
            strong,
            section_index,
            object_id,
            final_address: None,
        }
    }

    /// A field-identical copy of the symbol.
    pub fn duplicate(&self) -> (r: Symbol)
        ensures
            r@ == self@,
    {
        Symbol {
            name: crate::byteops::clone_bytes(&self.name),
            file: self.file.clone(),
            address: self.address,
            kind: self.kind,
            defined: self.defined,
            global: self.global,
            strong: self.strong,
            section_index: self.section_index,
            object_id: self.object_id,
            final_address: self.final_address,
        }
    }
}

impl Relocation {
    /// Builds a relocation record.
    pub fn new(
        addend: i64,
        offset: u64,
        kind: RelocKind,
        encoding: RelocEncoding,
        section_index: usize,
        target_symbol: Vec<u8>,
        object_id: usize,
    ) -> (r: Relocation)
        ensures
            r@ == (SpecRelocation {
                addend,
                offset,
                kind,
                encoding,
                section_index,
                target_symbol: target_symbol@,
                object_id,
            }),
    {
        Relocation { addend, offset, kind, encoding, section_index, target_symbol, object_id }
    }
}

impl Section {
    /// Builds a section record; the assigned address starts unset.
    pub fn new(
        data: Vec<u8>,
        name: Vec<u8>,
        index: usize,
        input_address: u64,
        object_id: usize,
    ) -> (r: Section)
        ensures
            r@ == (SpecSection {
                data: data@,
                name: name@,
                index,
                input_address,
                assigned_address: None,
                object_id,
            }),
    {
        Section { data, name, index, input_address, assigned_address: None, object_id }
    }
}

impl SymbolTable {
    /// An empty table.
    pub fn new() -> (r: SymbolTable)
        ensures
            r@ == Seq::<SpecSymbol>::empty(),
    {
        let r = SymbolTable { entries: Vec::new() };
        proof {
            assert(r@ =~= Seq::<SpecSymbol>::empty());
        }
        r
    }
}

impl Context {
    /// A context with no objects and an empty symbol table.
    pub fn new() -> (r: Context)
        ensures
            r@.object_files == Seq::<SpecObjectFile>::empty(),
            r@.global_symbols == Seq::<SpecSymbol>::empty(),
    {
        let r = Context { object_files: Vec::new(), global_symbols: SymbolTable::new() };
        proof {
            assert(r@.object_files =~= Seq::<SpecObjectFile>::empty());
        }
        r
    }
}

} // verus!

