//! The loader: parsing of a 64-bit little-endian relocatable object image
//! into an [`ObjectFile`] record.
//!
//! The mathematical side of this module defines, directly over the byte
//! sequence of the input, which images are well-formed and what object
//! record a well-formed image denotes; the executable parser is proved to
//! return exactly that record, or the right error kind.

use vstd::prelude::*;
use crate::byteops::{u16le, u32le, u64le, as_signed64, read_u16, read_u32, read_u64, read_i64};
use crate::common::{
    Context, ObjectFile, Relocation, RelocEncoding, RelocKind, Section, SpecObjectFile,
    SpecRelocation, SpecSection, SpecSymbol, Symbol, SymbolKind, obj_wf, reloc_in_sections,
    reloc_width, sym_in_sections, sym_inv,
};
use crate::error::LinkerError;

verus! {

/// Section header type of a zero-initialized section (`.bss`): it has no
/// bytes in the image.
pub const SEC_TYPE_NOBITS: u32 = 8;

/// Section header type of a symbol table.
pub const SEC_TYPE_SYMTAB: u32 = 2;

/// Section header type of a relocation table with explicit addends.
pub const SEC_TYPE_RELA: u32 = 4;

/// Reserved symbol section index marking an absolute symbol.
pub const SYM_SHNDX_ABSOLUTE: u16 = 0xfff1;

/// Machine tag of the one architecture whose relocation kinds the core
/// handles (x86-64).
pub const MACHINE_X86_64: u16 = 62;

// ---------------------------------------------------------------------
// File header.
// ---------------------------------------------------------------------

/// The image is long enough for a header and starts with the magic of a
/// 64-bit little-endian object of the expected family.
pub open spec fn magic_ok(b: Seq<u8>) -> bool {
    &&& b.len() >= 64
    &&& b[0] == 0x7f
    &&& b[1] == 0x45
    &&& b[2] == 0x4c
    &&& b[3] == 0x46
    &&& b[4] == 2
    &&& b[5] == 1
}

/// Top-level kind of the object; 1 is "relocatable".
pub open spec fn e_type(b: Seq<u8>) -> u16 {
    u16le(b, 16)
}

/// Architecture tag.
pub open spec fn e_machine(b: Seq<u8>) -> u16 {
    u16le(b, 18)
}

/// File offset of the section header table.
pub open spec fn sh_off(b: Seq<u8>) -> u64 {
    u64le(b, 40)
}

/// Size of one section header.
pub open spec fn sh_entsize(b: Seq<u8>) -> u16 {
    u16le(b, 58)
}

/// Number of section headers.
pub open spec fn sh_num(b: Seq<u8>) -> u16 {
    u16le(b, 60)
}

/// Index of the section holding the section name string table.
pub open spec fn sh_strndx(b: Seq<u8>) -> u16 {
    u16le(b, 62)
}

/// The section header table itself is plausible: standard entry size, in
/// bounds, and the name string table index refers to a section.
pub open spec fn sh_table_ok(b: Seq<u8>) -> bool {
    sh_num(b) == 0 || {
        &&& sh_entsize(b) == 64
        &&& sh_off(b) + 64 * sh_num(b) <= b.len()
        &&& sh_strndx(b) < sh_num(b)
    }
}

// ---------------------------------------------------------------------
// Section headers.
// ---------------------------------------------------------------------

/// File offset of section header `i`.
pub open spec fn sec_hdr(b: Seq<u8>, i: int) -> int {
    sh_off(b) + 64 * i
}

/// Offset of section `i`'s name in the section name string table.
pub open spec fn sec_name_off(b: Seq<u8>, i: int) -> u32 {
    u32le(b, sec_hdr(b, i) + 0)
}

/// Type tag of section `i`.
pub open spec fn sec_type(b: Seq<u8>, i: int) -> u32 {
    u32le(b, sec_hdr(b, i) + 4)
}

/// Input virtual address of section `i`.
pub open spec fn sec_addr(b: Seq<u8>, i: int) -> u64 {
    u64le(b, sec_hdr(b, i) + 16)
}

/// File offset of section `i`'s bytes.
pub open spec fn sec_offset(b: Seq<u8>, i: int) -> u64 {
    u64le(b, sec_hdr(b, i) + 24)
}

/// Byte size of section `i`.
pub open spec fn sec_size(b: Seq<u8>, i: int) -> u64 {
    u64le(b, sec_hdr(b, i) + 32)
}

/// Companion section index of section `i` (for a symbol table: its string
/// table).
pub open spec fn sec_link(b: Seq<u8>, i: int) -> u32 {
    u32le(b, sec_hdr(b, i) + 40)
}

/// Extra section index of section `i` (for a relocation table: the section
/// it patches).
pub open spec fn sec_info(b: Seq<u8>, i: int) -> u32 {
    u32le(b, sec_hdr(b, i) + 44)
}

/// Section `i`'s bytes lie inside the image (zero-initialized sections
/// have none).
pub open spec fn sec_extent_ok(b: Seq<u8>, i: int) -> bool {
    sec_type(b, i) == SEC_TYPE_NOBITS || sec_offset(b, i) + sec_size(b, i) <= b.len()
}

/// The bytes of section `i`.
pub open spec fn sec_data(b: Seq<u8>, i: int) -> Seq<u8> {
    if sec_type(b, i) == SEC_TYPE_NOBITS {
        Seq::empty()
    } else {
        b.subrange(sec_offset(b, i) as int, sec_offset(b, i) + sec_size(b, i))
    }
}

// ---------------------------------------------------------------------
// String tables.
// ---------------------------------------------------------------------

/// Position of the first NUL byte of `t` at or after `off`; `t.len()` if
/// there is none.
pub open spec fn find_nul(t: Seq<u8>, off: int) -> int
    recommends
        0 <= off <= t.len(),
    decreases t.len() - off,
{
    if off < 0 || off >= t.len() {
        t.len() as int
    } else if t[off] == 0 {
        off
    } else {
        find_nul(t, off + 1)
    }
}

/// A NUL-terminated string starts at `off` in table `t`.
pub open spec fn name_ok(t: Seq<u8>, off: int) -> bool {
    0 <= off <= t.len() && find_nul(t, off) < t.len()
}

/// The NUL-terminated string at `off` in table `t`, without the NUL.
pub open spec fn strz(t: Seq<u8>, off: int) -> Seq<u8> {
    t.subrange(off, find_nul(t, off))
}

/// The section name string table.
pub open spec fn shstrtab(b: Seq<u8>) -> Seq<u8> {
    sec_data(b, sh_strndx(b) as int)
}

/// Every section header is in bounds and carries a resolvable name.
pub open spec fn sections_ok(b: Seq<u8>) -> bool {
    &&& forall|i: int| 0 <= i < sh_num(b) ==> #[trigger] sec_extent_ok(b, i)
    &&& forall|i: int| 0 <= i < sh_num(b) ==>
        name_ok(shstrtab(b), #[trigger] sec_name_off(b, i) as int)
}

/// Sum of the byte sizes of the first `k` sections' data.
pub open spec fn sum_sizes(b: Seq<u8>, k: int) -> int
    decreases k,
{
    if k <= 0 {
        0
    } else {
        sum_sizes(b, k - 1) + sec_data(b, k - 1).len()
    }
}

/// All section bytes together fit in the image: a simple global bound that
/// keeps later address arithmetic inside 64 bits.
pub open spec fn sizes_ok(b: Seq<u8>) -> bool {
    sum_sizes(b, sh_num(b) as int) <= b.len()
}

/// The section record denoted by header `i` of an object with id `oid`.
pub open spec fn spec_section_at(b: Seq<u8>, i: int, oid: usize) -> SpecSection {
    SpecSection {
        data: sec_data(b, i),
        name: strz(shstrtab(b), sec_name_off(b, i) as int),
        index: i as usize,
        input_address: sec_addr(b, i),
        assigned_address: None,
        object_id: oid,
    }
}

/// The section array denoted by the image.
pub open spec fn spec_sections(b: Seq<u8>, oid: usize) -> Seq<SpecSection> {
    Seq::new(sh_num(b) as nat, |i: int| spec_section_at(b, i, oid))
}

// ---------------------------------------------------------------------
// Symbol table.
// ---------------------------------------------------------------------

/// Index of the first symbol table section, or -1 if there is none.
pub open spec fn find_symtab(b: Seq<u8>, i: int) -> int
    recommends
        0 <= i,
    decreases sh_num(b) - i,
{
    if i < 0 || i >= sh_num(b) {
        -1
    } else if sec_type(b, i) == SEC_TYPE_SYMTAB {
        i
    } else {
        find_symtab(b, i + 1)
    }
}

/// Index of the object's symbol table section, or -1.
pub open spec fn symtab_index(b: Seq<u8>) -> int {
    find_symtab(b, 0)
}

/// The symbol name string table (the symbol table's companion section).
pub open spec fn strtab(b: Seq<u8>) -> Seq<u8> {
    sec_data(b, sec_link(b, symtab_index(b)) as int)
}

/// Number of symbol table entries, the zero entry included.
pub open spec fn sym_count(b: Seq<u8>) -> int {
    sec_size(b, symtab_index(b)) as int / 24
}

/// File offset of symbol entry `j`.
pub open spec fn sym_base(b: Seq<u8>, j: int) -> int {
    sec_offset(b, symtab_index(b)) + 24 * j
}

/// Name offset of symbol entry `j`.
pub open spec fn st_name(b: Seq<u8>, j: int) -> u32 {
    u32le(b, sym_base(b, j) + 0)
}

/// Packed binding and kind of symbol entry `j`.
pub open spec fn st_info(b: Seq<u8>, j: int) -> u8 {
    b[sym_base(b, j) + 4]
}

/// Binding of symbol entry `j`: 0 local, 1 global, 2 weak.
pub open spec fn st_bind(b: Seq<u8>, j: int) -> int {
    st_info(b, j) as int / 16
}

/// Kind tag of symbol entry `j`.
pub open spec fn st_type(b: Seq<u8>, j: int) -> int {
    st_info(b, j) as int % 16
}

/// Home section field of symbol entry `j`: 0 undefined, 0xfff1 absolute.
pub open spec fn st_shndx(b: Seq<u8>, j: int) -> u16 {
    u16le(b, sym_base(b, j) + 6)
}

/// Value of symbol entry `j`.
pub open spec fn st_value(b: Seq<u8>, j: int) -> u64 {
    u64le(b, sym_base(b, j) + 8)
}

/// The symbol kind denoted by a kind tag.
pub open spec fn kind_of(t: int) -> SymbolKind {
    if t == 0 {
        SymbolKind::Unknown
    } else if t == 1 {
        SymbolKind::Data
    } else if t == 2 {
        SymbolKind::Text
    } else if t == 3 {
        SymbolKind::Section
    } else if t == 4 {
        SymbolKind::File
    } else {
        SymbolKind::Other
    }
}

/// Validity of symbol entry `j`: known binding, resolvable name (non-empty
/// for globals), home section index meaningful, and a section-relative
/// value that stays inside its section's bytes.
pub open spec fn sym_entry_ok(b: Seq<u8>, j: int) -> bool {
    &&& st_bind(b, j) <= 2
    &&& name_ok(strtab(b), st_name(b, j) as int)
    &&& (st_bind(b, j) >= 1 ==> strz(strtab(b), st_name(b, j) as int).len() > 0)
    &&& (st_shndx(b, j) == 0 || st_shndx(b, j) == SYM_SHNDX_ABSOLUTE || st_shndx(b, j) < sh_num(b))
    &&& (0 < st_shndx(b, j) && st_shndx(b, j) < sh_num(b) ==> (
        sec_data(b, st_shndx(b, j) as int).len() != 0
            ==> st_value(b, j) <= sec_data(b, st_shndx(b, j) as int).len()
    ))
}

/// Whether entry `j` is carried over into the object record: the zero
/// entry is dropped, and so are undefined locals, which cannot take part
/// in resolution.
pub open spec fn sym_keep(b: Seq<u8>, j: int) -> bool {
    j >= 1 && (st_shndx(b, j) != 0 || st_bind(b, j) >= 1)
}

/// The symbol record denoted by entry `j`.
pub open spec fn spec_symbol_at(b: Seq<u8>, j: int, path: Seq<char>, oid: usize) -> SpecSymbol {
    SpecSymbol {
        name: strz(strtab(b), st_name(b, j) as int),
        file: path,
        address: st_value(b, j),
        kind: kind_of(st_type(b, j)),
        defined: st_shndx(b, j) != 0,
        global: st_bind(b, j) >= 1,
        strong: st_bind(b, j) != 2,
        section_index: if 0 < st_shndx(b, j) && st_shndx(b, j) < sh_num(b) {
            Some(st_shndx(b, j) as usize)
        } else {
            None
        },
        object_id: oid,
        final_address: None,
    }
}

/// The kept symbol records among the first `k` entries, in table order.
pub open spec fn spec_symbols_upto(b: Seq<u8>, path: Seq<char>, oid: usize, k: int) -> Seq<
    SpecSymbol,
>
    decreases k,
{
    if k <= 0 {
        Seq::empty()
    } else if sym_keep(b, k - 1) {
        spec_symbols_upto(b, path, oid, k - 1).push(spec_symbol_at(b, k - 1, path, oid))
    } else {
        spec_symbols_upto(b, path, oid, k - 1)
    }
}

/// The symbol array denoted by the image.
pub open spec fn spec_symbols(b: Seq<u8>, path: Seq<char>, oid: usize) -> Seq<SpecSymbol> {
    if symtab_index(b) >= 0 {
        spec_symbols_upto(b, path, oid, sym_count(b))
    } else {
        Seq::empty()
    }
}

/// Validity of the symbol table as a whole.
pub open spec fn symtab_ok(b: Seq<u8>) -> bool {
    symtab_index(b) >= 0 ==> {
        &&& sec_link(b, symtab_index(b)) < sh_num(b)
        &&& sec_size(b, symtab_index(b)) as int % 24 == 0
        &&& forall|j: int| 0 <= j < sym_count(b) ==> sym_entry_ok(b, j)
    }
}

// ---------------------------------------------------------------------
// Relocation tables.
// ---------------------------------------------------------------------

/// Whether section `i` is a relocation table with explicit addends.
pub open spec fn is_rela(b: Seq<u8>, i: int) -> bool {
    sec_type(b, i) == SEC_TYPE_RELA
}

/// Number of entries of relocation table `i`.
pub open spec fn rela_count(b: Seq<u8>, i: int) -> int {
    sec_size(b, i) as int / 24
}

/// File offset of entry `k` of relocation table `i`.
pub open spec fn rela_base(b: Seq<u8>, i: int, k: int) -> int {
    sec_offset(b, i) + 24 * k
}

/// Patch offset of the entry.
pub open spec fn r_offset(b: Seq<u8>, i: int, k: int) -> u64 {
    u64le(b, rela_base(b, i, k) + 0)
}

/// Packed symbol index and relocation type of the entry.
pub open spec fn r_info(b: Seq<u8>, i: int, k: int) -> u64 {
    u64le(b, rela_base(b, i, k) + 8)
}

/// Symbol table index of the entry's target.
pub open spec fn r_sym(b: Seq<u8>, i: int, k: int) -> int {
    r_info(b, i, k) as int / 0x1_0000_0000
}

/// Relocation type tag of the entry.
pub open spec fn r_type(b: Seq<u8>, i: int, k: int) -> int {
    r_info(b, i, k) as int % 0x1_0000_0000
}

/// Explicit addend of the entry.
pub open spec fn r_addend(b: Seq<u8>, i: int, k: int) -> int {
    as_signed64(u64le(b, rela_base(b, i, k) + 16))
}

/// Type tags the core handles: absolute-64, PC-relative-32, absolute-32
/// unsigned, absolute-32 signed.
pub open spec fn rtype_supported(t: int) -> bool {
    t == 1 || t == 2 || t == 10 || t == 11
}

/// Relocation kind denoted by a supported type tag.
pub open spec fn rtype_kind(t: int) -> RelocKind {
    if t == 1 {
        RelocKind::Abs64
    } else if t == 2 {
        RelocKind::PcRel32
    } else {
        RelocKind::Abs32
    }
}

/// Range check denoted by a supported type tag.
pub open spec fn rtype_encoding(t: int) -> RelocEncoding {
    if t == 11 {
        RelocEncoding::Signed
    } else {
        RelocEncoding::Generic
    }
}

/// Validity of entry `k` of relocation table `i`: supported type, a real
/// global target symbol, and a patch site whose bytes exist in the patched
/// section.
pub open spec fn rela_entry_ok(b: Seq<u8>, i: int, k: int) -> bool {
    &&& rtype_supported(r_type(b, i, k))
    &&& 1 <= r_sym(b, i, k) < sym_count(b)
    &&& st_bind(b, r_sym(b, i, k)) >= 1
    &&& r_offset(b, i, k) + reloc_width(rtype_kind(r_type(b, i, k)))
        <= sec_data(b, sec_info(b, i) as int).len()
}

/// Validity of relocation table `i` as a whole.
pub open spec fn rela_sec_ok(b: Seq<u8>, i: int) -> bool {
    &&& symtab_index(b) >= 0
    &&& sec_size(b, i) as int % 24 == 0
    &&& sec_info(b, i) < sh_num(b)
    &&& forall|k: int| 0 <= k < rela_count(b, i) ==> rela_entry_ok(b, i, k)
}

/// Validity of all relocation tables.
pub open spec fn relas_ok(b: Seq<u8>) -> bool {
    forall|i: int| 0 <= i < sh_num(b) && is_rela(b, i) ==> rela_sec_ok(b, i)
}

/// The relocation record denoted by entry `k` of relocation table `i`.
pub open spec fn spec_reloc_at(b: Seq<u8>, i: int, k: int, oid: usize) -> SpecRelocation {
    SpecRelocation {
        addend: r_addend(b, i, k) as i64,
        offset: r_offset(b, i, k),
        kind: rtype_kind(r_type(b, i, k)),
        encoding: rtype_encoding(r_type(b, i, k)),
        section_index: sec_info(b, i) as usize,
        target_symbol: strz(strtab(b), st_name(b, r_sym(b, i, k)) as int),
        object_id: oid,
    }
}

/// The relocation records of table `i`, in table order.
pub open spec fn spec_relocs_sec(b: Seq<u8>, i: int, oid: usize) -> Seq<SpecRelocation> {
    if is_rela(b, i) {
        Seq::new(rela_count(b, i) as nat, |k: int| spec_reloc_at(b, i, k, oid))
    } else {
        Seq::empty()
    }
}

/// The relocation records of the first `n` sections, concatenated in
/// section order.
pub open spec fn spec_relocs_upto(b: Seq<u8>, oid: usize, n: int) -> Seq<SpecRelocation>
    decreases n,
{
    if n <= 0 {
        Seq::empty()
    } else {
        spec_relocs_upto(b, oid, n - 1) + spec_relocs_sec(b, n - 1, oid)
    }
}

/// The relocation array denoted by the image.
pub open spec fn spec_relocs(b: Seq<u8>, oid: usize) -> Seq<SpecRelocation> {
    spec_relocs_upto(b, oid, sh_num(b) as int)
}

// ---------------------------------------------------------------------
// The parse function.
// ---------------------------------------------------------------------

/// What an input image denotes.
pub enum ParseOutcome {
    /// A well-formed relocatable object.
    Object(SpecObjectFile),
    /// Not a valid object of the expected family.
    Malformed,
    /// A valid object, but not a relocatable one.
    NotRelocatable,
}

/// The full parse: which object record, if any, the image `b` denotes when
/// loaded from `path` as object number `oid`.
pub open spec fn parse_spec(b: Seq<u8>, path: Seq<char>, oid: usize) -> ParseOutcome {
    if !magic_ok(b) {
        ParseOutcome::Malformed
    } else if e_type(b) != 1 {
        ParseOutcome::NotRelocatable
    } else if e_machine(b) != MACHINE_X86_64 {
        ParseOutcome::Malformed
    } else if !sh_table_ok(b) {
        ParseOutcome::Malformed
    } else if !sections_ok(b) {
        ParseOutcome::Malformed
    } else if !sizes_ok(b) {
        ParseOutcome::Malformed
    } else if !symtab_ok(b) {
        ParseOutcome::Malformed
    } else if !relas_ok(b) {
        ParseOutcome::Malformed
    } else {
        ParseOutcome::Object(SpecObjectFile {
            path,
            symbols: spec_symbols(b, path, oid),
            relocations: spec_relocs(b, oid),
            sections: spec_sections(b, oid),
        })
    }
}

/// Sum of the data lengths of a section array.
pub open spec fn sum_section_data(secs: Seq<SpecSection>) -> int
    decreases secs.len(),
{
    if secs.len() == 0 {
        0
    } else {
        sum_section_data(secs.drop_last()) + secs.last().data.len()
    }
}

// ---------------------------------------------------------------------
// Supporting lemmas.
// ---------------------------------------------------------------------

/// Prefix sums of section sizes grow with the prefix.
pub proof fn lemma_sum_sizes_mono(b: Seq<u8>, k1: int, k2: int)
    requires
        k1 <= k2,
    ensures
        sum_sizes(b, k1) <= sum_sizes(b, k2),
    decreases k2 - k1,
{
    if k1 < k2 {
        lemma_sum_sizes_mono(b, k1, k2 - 1);
    }
}

/// The sum of the data lengths of the first `k` denoted sections equals
/// the prefix sum read off the headers.
pub proof fn lemma_sum_section_data_eq(b: Seq<u8>, oid: usize, k: int)
    requires
        0 <= k <= sh_num(b),
    ensures
        sum_section_data(spec_sections(b, oid).take(k)) == sum_sizes(b, k),
    decreases k,
{
    if k == 0 {
        assert(spec_sections(b, oid).take(0) =~= Seq::<SpecSection>::empty());
    } else {
        lemma_sum_section_data_eq(b, oid, k - 1);
        let s = spec_sections(b, oid);
        assert(s.take(k).drop_last() =~= s.take(k - 1));
        assert(s.take(k).last() == spec_section_at(b, k - 1, oid));
    }
}

/// Every symbol record denoted by a valid image is well-formed with
/// respect to the denoted section array.
proof fn lemma_symbols_wf(b: Seq<u8>, path: Seq<char>, oid: usize, k: int)
    requires
        symtab_index(b) >= 0,
        forall|j: int| 0 <= j < sym_count(b) ==> sym_entry_ok(b, j),
        0 <= k <= sym_count(b),
    ensures
        forall|idx: int| 0 <= idx < spec_symbols_upto(b, path, oid, k).len() ==> {
            let s = #[trigger] spec_symbols_upto(b, path, oid, k)[idx];
            &&& s.object_id == oid
            &&& sym_inv(s)
            &&& sym_in_sections(s, spec_sections(b, oid))
            &&& (s.global ==> s.name.len() > 0)
            &&& s.final_address is None
        },
    decreases k,
{
    if k > 0 {
        lemma_symbols_wf(b, path, oid, k - 1);
        if sym_keep(b, k - 1) {
            let s = spec_symbol_at(b, k - 1, path, oid);
            assert(sym_entry_ok(b, k - 1));
            assert(sym_inv(s));
            assert(sym_in_sections(s, spec_sections(b, oid)));
        }
    }
}

/// Every relocation record denoted by a valid image is well-formed with
/// respect to the denoted section array.
proof fn lemma_relocs_wf(b: Seq<u8>, oid: usize, n: int)
    requires
        symtab_ok(b),
        relas_ok(b),
        0 <= n <= sh_num(b),
    ensures
        forall|idx: int| 0 <= idx < spec_relocs_upto(b, oid, n).len() ==> {
            let r = #[trigger] spec_relocs_upto(b, oid, n)[idx];
            &&& r.object_id == oid
            &&& reloc_in_sections(r, spec_sections(b, oid))
        },
    decreases n,
{
    if n > 0 {
        lemma_relocs_wf(b, oid, n - 1);
        if is_rela(b, n - 1) {
            assert(rela_sec_ok(b, n - 1));
            assert forall|k: int| 0 <= k < rela_count(b, n - 1) implies {
                let r = #[trigger] spec_relocs_sec(b, n - 1, oid)[k];
                r.object_id == oid && reloc_in_sections(r, spec_sections(b, oid))
            } by {
                assert(rela_entry_ok(b, n - 1, k));
                assert(sym_entry_ok(b, r_sym(b, n - 1, k)));
            }
        }
    }
}

/// A well-formed image denotes a well-formed object record.
pub proof fn lemma_parse_object_wf(b: Seq<u8>, path: Seq<char>, oid: usize)
    requires
        parse_spec(b, path, oid) is Object,
    ensures
        obj_wf(parse_spec(b, path, oid)->Object_0, oid),
{
    if symtab_index(b) >= 0 {
        lemma_symbols_wf(b, path, oid, sym_count(b));
    }
    lemma_relocs_wf(b, oid, sh_num(b) as int);
}

// ---------------------------------------------------------------------
// Executable parsing helpers.
// ---------------------------------------------------------------------

/// Builds a parse error carrying the input's path.
fn mk_parse_err(path: &String, msg: &str) -> (e: LinkerError)
    ensures
        e matches LinkerError::ParseError(p, _) && p@ == path@,
{
    LinkerError::ParseError(path.clone(), msg.to_string())
}

/// A copy of `b[off .. off + n]`.
fn copy_range(b: &Vec<u8>, off: usize, n: usize) -> (r: Vec<u8>)
    requires
        off + n <= b.len(),
    ensures
        r@ == b@.subrange(off as int, off + n),
{
    let mut r: Vec<u8> = Vec::new();
    let mut j: usize = 0;
    while j < n
        invariant
            off + n <= b.len(),
            0 <= j <= n,
            r@.len() == j,
            forall|q: int| 0 <= q < j ==> r@[q] == b@[off + q],
        decreases n - j,
    {
        r.push(b[off + j]);
        j += 1;
    }
    proof {
        assert(r@ =~= b@.subrange(off as int, off + n));
    }
    r
}

/// Position of the first NUL of `tab` at or after `off`.
fn scan_nul(tab: &Vec<u8>, off: usize) -> (r: usize)
    requires
        off <= tab.len(),
    ensures
        r == find_nul(tab@, off as int),
        off <= r <= tab.len(),
{
    let mut j: usize = off;
    loop
        invariant
            off <= j <= tab.len(),
            find_nul(tab@, off as int) == find_nul(tab@, j as int),
        decreases tab.len() - j,
    {
        if j >= tab.len() {
            return j;
        }
        if tab[j] == 0 {
            return j;
        }
        j += 1;
    }
}

/// The NUL-terminated string at `off` of `tab`, or `None` if there is no
/// such string.
fn read_strz(tab: &Vec<u8>, off: usize) -> (r: Option<Vec<u8>>)
    ensures
        match r {
            Some(v) => name_ok(tab@, off as int) && v@ == strz(tab@, off as int),
            None => !name_ok(tab@, off as int),
        },
{
    if off > tab.len() {
        return None;
    }
    let e = scan_nul(tab, off);
    if e >= tab.len() {
        None
    } else {
        Some(copy_range(tab, off, e - off))
    }
}

/// File offset of section header `i`, proved in bounds.
fn sec_hdr_base(b: &Vec<u8>, i: usize) -> (r: usize)
    requires
        magic_ok(b@),
        sh_table_ok(b@),
        i < sh_num(b@),
    ensures
        r == sec_hdr(b@, i as int),
        r + 64 <= b.len(),
{
    let n = b.len();
    let shoff = read_u64(b, 40);
    proof {
        assert(sh_num(b@) > 0);
        assert(sh_off(b@) + 64 * (sh_num(b@) as int) <= n);
        assert(64 * (i as int) + 64 <= 64 * (sh_num(b@) as int));
    }
    shoff as usize + 64 * i
}

/// Length of section `i`'s bytes.
fn sec_data_len(b: &Vec<u8>, i: usize) -> (r: u64)
    requires
        magic_ok(b@),
        sh_table_ok(b@),
        i < sh_num(b@),
        sec_extent_ok(b@, i as int),
    ensures
        r == sec_data(b@, i as int).len(),
{
    let base = sec_hdr_base(b, i);
    let typ = read_u32(b, base + 4);
    if typ == SEC_TYPE_NOBITS {
        0
    } else {
        read_u64(b, base + 32)
    }
}

/// A copy of section `i`'s bytes.
fn read_sec_data(b: &Vec<u8>, i: usize) -> (r: Vec<u8>)
    requires
        magic_ok(b@),
        sh_table_ok(b@),
        i < sh_num(b@),
        sec_extent_ok(b@, i as int),
    ensures
        r@ == sec_data(b@, i as int),
{
    let base = sec_hdr_base(b, i);
    let typ = read_u32(b, base + 4);
    if typ == SEC_TYPE_NOBITS {
        let r: Vec<u8> = Vec::new();
        proof {
            assert(r@ =~= sec_data(b@, i as int));
        }
        r
    } else {
        let off = read_u64(b, base + 24);
        let size = read_u64(b, base + 32);
        copy_range(b, off as usize, size as usize)
    }
}

/// Checks the bounds of every section header and builds the section
/// array, or reports that some header is bad.
fn build_sections(b: &Vec<u8>, oid: usize) -> (r: Option<Vec<Section>>)
    requires
        magic_ok(b@),
        sh_table_ok(b@),
    ensures
        match r {
            Some(v) => sections_ok(b@) && v.deep_view() == spec_sections(b@, oid),
            None => !sections_ok(b@),
        },
{
    let shnum = read_u16(b, 60) as usize;
    if shnum == 0 {
        let v: Vec<Section> = Vec::new();
        proof {
            assert(v.deep_view() =~= spec_sections(b@, oid));
        }
        return Some(v);
    }
    // Every section's bytes must lie inside the image.
    let len64 = b.len() as u64;
    let mut i: usize = 0;
    while i < shnum
        invariant
            magic_ok(b@),
            sh_table_ok(b@),
            shnum == sh_num(b@),
            len64 == b.len(),
            0 <= i <= shnum,
            forall|q: int| 0 <= q < i ==> sec_extent_ok(b@, q),
        decreases shnum - i,
    {
        let base = sec_hdr_base(b, i);
        let typ = read_u32(b, base + 4);
        if typ != SEC_TYPE_NOBITS {
            let off = read_u64(b, base + 24);
            let size = read_u64(b, base + 32);
            if !(off <= len64 && size <= len64 - off) {
                assert(!sec_extent_ok(b@, i as int));
                return None;
            }
        }
        i += 1;
    }
    // The section name string table, needed to name every section.
    let strndx = read_u16(b, 62) as usize;
    let shstr = read_sec_data(b, strndx);
    // Build the records.
    let mut secs: Vec<Section> = Vec::new();
    let mut i: usize = 0;
    while i < shnum
        invariant
            magic_ok(b@),
            sh_table_ok(b@),
            shnum == sh_num(b@),
            shstr@ == shstrtab(b@),
            0 <= i <= shnum,
            forall|q: int| 0 <= q < sh_num(b@) ==> sec_extent_ok(b@, q),
            forall|q: int| 0 <= q < i ==> name_ok(shstrtab(b@), #[trigger] sec_name_off(b@, q) as int),
            secs.deep_view() == Seq::new(i as nat, |q: int| spec_section_at(b@, q, oid)),
        decreases shnum - i,
    {
        let base = sec_hdr_base(b, i);
        let name_off = read_u32(b, base + 0);
        let name = match read_strz(&shstr, name_off as usize) {
            Some(n) => n,
            None => {
                proof {
                    assert(!name_ok(shstrtab(b@), sec_name_off(b@, i as int) as int));
                }
                return None;
            },
        };
        let addr = read_u64(b, base + 16);
        let data = read_sec_data(b, i);
        let ghost old_deep = secs.deep_view();
        let sec = Section::new(data, name, i, addr, oid);
        secs.push(sec);
        proof {
            assert(secs.deep_view() =~= old_deep.push(sec@));
            assert(sec@ == spec_section_at(b@, i as int, oid));
            assert(secs.deep_view() =~= Seq::new(
                (i + 1) as nat,
                |q: int| spec_section_at(b@, q, oid),
            ));
        }
        i += 1;
    }
    proof {
        assert(secs.deep_view() =~= spec_sections(b@, oid));
    }
    Some(secs)
}

/// Checks that all section bytes together fit in the image.
fn check_sizes(b: &Vec<u8>) -> (r: bool)
    requires
        magic_ok(b@),
        sh_table_ok(b@),
        forall|q: int| 0 <= q < sh_num(b@) ==> sec_extent_ok(b@, q),
    ensures
        r == sizes_ok(b@),
{
    let shnum = read_u16(b, 60) as usize;
    let mut remaining = b.len() as u64;
    let mut i: usize = 0;
    while i < shnum
        invariant
            magic_ok(b@),
            sh_table_ok(b@),
            forall|q: int| 0 <= q < sh_num(b@) ==> sec_extent_ok(b@, q),
            shnum == sh_num(b@),
            0 <= i <= shnum,
            sum_sizes(b@, i as int) + remaining == b@.len(),
        decreases shnum - i,
    {
        let l = sec_data_len(b, i);
        if l > remaining {
            proof {
                lemma_sum_sizes_mono(b@, i + 1, shnum as int);
            }
            return false;
        }
        remaining = remaining - l;
        i += 1;
    }
    true
}

/// Finds the symbol table section, if any.
fn find_symtab_exec(b: &Vec<u8>) -> (r: Option<usize>)
    requires
        magic_ok(b@),
        sh_table_ok(b@),
    ensures
        match r {
            Some(i) => symtab_index(b@) == i && i < sh_num(b@) && sec_type(b@, i as int)
                == SEC_TYPE_SYMTAB,
            None => symtab_index(b@) == -1,
        },
{
    let shnum = read_u16(b, 60) as usize;
    let mut i: usize = 0;
    while i < shnum
        invariant
            magic_ok(b@),
            sh_table_ok(b@),
            shnum == sh_num(b@),
            0 <= i <= shnum,
            find_symtab(b@, 0) == find_symtab(b@, i as int),
        decreases shnum - i,
    {
        let base = sec_hdr_base(b, i);
        let typ = read_u32(b, base + 4);
        if typ == SEC_TYPE_SYMTAB {
            return Some(i);
        }
        i += 1;
    }
    None
}

/// The symbol kind denoted by a kind tag.
fn kind_exec(t: u8) -> (r: SymbolKind)
    ensures
        r == kind_of(t as int),
{
    if t == 0 {
        SymbolKind::Unknown
    } else if t == 1 {
        SymbolKind::Data
    } else if t == 2 {
        SymbolKind::Text
    } else if t == 3 {
        SymbolKind::Section
    } else if t == 4 {
        SymbolKind::File
    } else {
        SymbolKind::Other
    }
}

/// Validates the symbol table and builds the kept symbol records, or
/// reports that the table is bad.
fn build_symbols(b: &Vec<u8>, path: &String, oid: usize) -> (r: Option<Vec<Symbol>>)
    requires
        magic_ok(b@),
        sh_table_ok(b@),
        sections_ok(b@),
    ensures
        match r {
            Some(v) => symtab_ok(b@) && v.deep_view() == spec_symbols(b@, path@, oid),
            None => !symtab_ok(b@),
        },
{
    let shnum = read_u16(b, 60) as usize;
    let sti = match find_symtab_exec(b) {
        Some(i) => i,
        None => {
            let v: Vec<Symbol> = Vec::new();
            proof {
                assert(v.deep_view() =~= spec_symbols(b@, path@, oid));
            }
            return Some(v);
        },
    };
    let blen = b.len();
    let base = sec_hdr_base(b, sti);
    proof {
        assert(sec_extent_ok(b@, sti as int));
        assert(b@.len() == blen);
    }
    let link = read_u32(b, base + 40);
    if link as usize >= shnum {
        return None;
    }
    let size = read_u64(b, base + 32);
    if size % 24 != 0 {
        return None;
    }
    let strs = read_sec_data(b, link as usize);
    let symoff = read_u64(b, base + 24) as usize;
    let count = (size / 24) as usize;
    proof {
        assert(sec_offset(b@, sti as int) + sec_size(b@, sti as int) <= b@.len());
        assert(24 * (count as int) == size as int);
    }
    let mut syms: Vec<Symbol> = Vec::new();
    let mut j: usize = 0;
    while j < count
        invariant
            magic_ok(b@),
            sh_table_ok(b@),
            sections_ok(b@),
            shnum == sh_num(b@),
            symtab_index(b@) == sti,
            sti < sh_num(b@),
            sec_link(b@, sti as int) < sh_num(b@),
            sec_size(b@, sti as int) as int % 24 == 0,
            strs@ == strtab(b@),
            symoff == sec_offset(b@, sti as int),
            count == sym_count(b@),
            symoff + 24 * count <= b.len(),
            0 <= j <= count,
            forall|q: int| 0 <= q < j ==> sym_entry_ok(b@, q),
            syms.deep_view() == spec_symbols_upto(b@, path@, oid, j as int),
        decreases count - j,
    {
        let sb = symoff + 24 * j;
        let name_off = read_u32(b, sb + 0);
        let info = b[sb + 4];
        let shndx = read_u16(b, sb + 6);
        let value = read_u64(b, sb + 8);
        let bind = info / 16;
        let typ = info % 16;
        if bind > 2 {
            proof {
                assert(!sym_entry_ok(b@, j as int));
            }
            return None;
        }
        let name = match read_strz(&strs, name_off as usize) {
            Some(n) => n,
            None => {
                proof {
                    assert(!sym_entry_ok(b@, j as int));
                }
                return None;
            },
        };
        if bind >= 1 && name.len() == 0 {
            proof {
                assert(!sym_entry_ok(b@, j as int));
            }
            return None;
        }
        if !(shndx == 0 || shndx == SYM_SHNDX_ABSOLUTE || (shndx as usize) < shnum) {
            proof {
                assert(!sym_entry_ok(b@, j as int));
            }
            return None;
        }
        if 0 < shndx && (shndx as usize) < shnum {
            let dl = sec_data_len(b, shndx as usize);
            if dl != 0 && value > dl {
                proof {
                    assert(!sym_entry_ok(b@, j as int));
                }
                return None;
            }
        }
        proof {
            assert(sym_entry_ok(b@, j as int));
        }
        if j >= 1 && (shndx != 0 || bind >= 1) {
            let section_index: Option<usize> = if 0 < shndx && (shndx as usize) < shnum {
                Some(shndx as usize)
            } else {
                None
            };
            let ghost old_deep = syms.deep_view();
            let sym = Symbol::new(
                name,
                path.clone(),
                value,
                kind_exec(typ),
                shndx != 0,
                bind >= 1,
                bind != 2,
                section_index,
                oid,
            );
            proof {
                assert(sym@ == spec_symbol_at(b@, j as int, path@, oid));
            }
            syms.push(sym);
            proof {
                assert(syms.deep_view() =~= old_deep.push(sym@));
                assert(syms.deep_view() == spec_symbols_upto(b@, path@, oid, j + 1));
            }
        } else {
            proof {
                assert(syms.deep_view() == spec_symbols_upto(b@, path@, oid, j + 1));
            }
        }
        j += 1;
    }
    Some(syms)
}

/// Validates every relocation table and builds the relocation records in
/// section order, or reports that some table is bad.
fn build_relocs(b: &Vec<u8>, oid: usize) -> (r: Option<Vec<Relocation>>)
    requires
        magic_ok(b@),
        sh_table_ok(b@),
        sections_ok(b@),
        symtab_ok(b@),
    ensures
        match r {
            Some(v) => relas_ok(b@) && v.deep_view() == spec_relocs(b@, oid),
            None => !relas_ok(b@),
        },
{
    let shnum = read_u16(b, 60) as usize;
    let symtab = find_symtab_exec(b);
    let mut relocs: Vec<Relocation> = Vec::new();
    let mut i: usize = 0;
    while i < shnum
        invariant
            magic_ok(b@),
            sh_table_ok(b@),
            sections_ok(b@),
            symtab_ok(b@),
            shnum == sh_num(b@),
            match symtab {
                Some(s) => symtab_index(b@) == s && s < sh_num(b@) && sec_type(b@, s as int)
                    == SEC_TYPE_SYMTAB,
                None => symtab_index(b@) == -1,
            },
            0 <= i <= shnum,
            forall|q: int| 0 <= q < i && is_rela(b@, q) ==> rela_sec_ok(b@, q),
            relocs.deep_view() == spec_relocs_upto(b@, oid, i as int),
        decreases shnum - i,
    {
        let base = sec_hdr_base(b, i);
        let typ = read_u32(b, base + 4);
        if typ == SEC_TYPE_RELA {
            let sti = match symtab {
                Some(s) => s,
                None => {
                    proof {
                        assert(!rela_sec_ok(b@, i as int));
                    }
                    return None;
                },
            };
            let blen = b.len();
            let stbase = sec_hdr_base(b, sti);
            proof {
                assert(sec_extent_ok(b@, sti as int));
                assert(sec_extent_ok(b@, i as int));
                assert(b@.len() == blen);
            }
            let stlink = read_u32(b, stbase + 40);
            let strs = read_sec_data(b, stlink as usize);
            let symoff = read_u64(b, stbase + 24) as usize;
            let scount = (read_u64(b, stbase + 32) / 24) as usize;
            proof {
                assert(sec_offset(b@, sti as int) + sec_size(b@, sti as int) <= b@.len());
                assert(24 * (scount as int) == sec_size(b@, sti as int) as int);
            }
            let size = read_u64(b, base + 32);
            if size % 24 != 0 {
                proof {
                    assert(!rela_sec_ok(b@, i as int));
                }
                return None;
            }
            let info = read_u32(b, base + 44);
            if info as usize >= shnum {
                proof {
                    assert(!rela_sec_ok(b@, i as int));
                }
                return None;
            }
            let dl = sec_data_len(b, info as usize);
            let roff = read_u64(b, base + 24) as usize;
            let rcount = (size / 24) as usize;
            proof {
                assert(sec_offset(b@, i as int) + sec_size(b@, i as int) <= b@.len());
                assert(24 * (rcount as int) == size as int);
            }
            let mut k: usize = 0;
            while k < rcount
                invariant
                    magic_ok(b@),
                    sh_table_ok(b@),
                    sections_ok(b@),
                    symtab_ok(b@),
                    shnum == sh_num(b@),
                    i < shnum,
                    symtab_index(b@) == sti,
                    sti < sh_num(b@),
                    strs@ == strtab(b@),
                    symoff == sec_offset(b@, symtab_index(b@)),
                    scount == sym_count(b@),
                    symoff + 24 * scount <= b.len(),
                    is_rela(b@, i as int),
                    size == sec_size(b@, i as int),
                    size as int % 24 == 0,
                    info == sec_info(b@, i as int),
                    info < sh_num(b@),
                    dl == sec_data(b@, info as int).len(),
                    roff == sec_offset(b@, i as int),
                    rcount == rela_count(b@, i as int),
                    roff + 24 * rcount <= b.len(),
                    0 <= k <= rcount,
                    forall|q: int| 0 <= q < k ==> rela_entry_ok(b@, i as int, q),
                    relocs.deep_view() == spec_relocs_upto(b@, oid, i as int) + Seq::new(
                        k as nat,
                        |q: int| spec_reloc_at(b@, i as int, q, oid),
                    ),
                decreases rcount - k,
            {
                let rb = roff + 24 * k;
                let ro = read_u64(b, rb + 0);
                let rinfo = read_u64(b, rb + 8);
                let ra = read_i64(b, rb + 16);
                let rsym = rinfo / 0x1_0000_0000;
                let rtyp = rinfo % 0x1_0000_0000;
                if !(rtyp == 1 || rtyp == 2 || rtyp == 10 || rtyp == 11) {
                    proof {
                        assert(!rela_entry_ok(b@, i as int, k as int));
                        assert(!rela_sec_ok(b@, i as int));
                    }
                    return None;
                }
                if !(1 <= rsym && rsym < scount as u64) {
                    proof {
                        assert(!rela_entry_ok(b@, i as int, k as int));
                        assert(!rela_sec_ok(b@, i as int));
                    }
                    return None;
                }
                let tinfo = b[symoff + 24 * (rsym as usize) + 4];
                if tinfo / 16 < 1 {
                    proof {
                        assert(!rela_entry_ok(b@, i as int, k as int));
                        assert(!rela_sec_ok(b@, i as int));
                    }
                    return None;
                }
                let kind = if rtyp == 1 {
                    RelocKind::Abs64
                } else if rtyp == 2 {
                    RelocKind::PcRel32
                } else {
                    RelocKind::Abs32
                };
                let encoding = if rtyp == 11 {
                    RelocEncoding::Signed
                } else {
                    RelocEncoding::Generic
                };
                let w: u64 = if rtyp == 1 {
                    8
                } else {
                    4
                };
                if !(ro <= dl && w <= dl - ro) {
                    proof {
                        assert(!rela_entry_ok(b@, i as int, k as int));
                        assert(!rela_sec_ok(b@, i as int));
                    }
                    return None;
                }
                let tname_off = read_u32(b, symoff + 24 * (rsym as usize) + 0);
                let tname = match read_strz(&strs, tname_off as usize) {
                    Some(n) => n,
                    None => {
                        proof {
                            assert(sym_entry_ok(b@, rsym as int));
                        }
                        unreached()
                    },
                };
                proof {
                    assert(rela_entry_ok(b@, i as int, k as int));
                }
                let ghost old_deep = relocs.deep_view();
                let rel = Relocation::new(ra, ro, kind, encoding, info as usize, tname, oid);
                proof {
                    assert(rel@ == spec_reloc_at(b@, i as int, k as int, oid));
                }
                relocs.push(rel);
                proof {
                    assert(relocs.deep_view() =~= old_deep.push(rel@));
                    assert(relocs.deep_view() =~= spec_relocs_upto(b@, oid, i as int) + Seq::new(
                        (k + 1) as nat,
                        |q: int| spec_reloc_at(b@, i as int, q, oid),
                    ));
                }
                k += 1;
            }
            proof {
                assert(rela_sec_ok(b@, i as int));
                assert(spec_relocs_sec(b@, i as int, oid) =~= Seq::new(
                    rela_count(b@, i as int) as nat,
                    |q: int| spec_reloc_at(b@, i as int, q, oid),
                ));
                assert(relocs.deep_view() =~= spec_relocs_upto(b@, oid, i + 1));
            }
        } else {
            proof {
                assert(relocs.deep_view() =~= spec_relocs_upto(b@, oid, i + 1));
            }
        }
        i += 1;
    }
    Some(relocs)
}

// ---------------------------------------------------------------------
// The loader's entry points.
// ---------------------------------------------------------------------

impl ObjectFile {
    /// Parses one relocatable object image, loaded from `path`, into the
    /// record it denotes, as object number `object_id`.
    ///
    /// Returns exactly the record the image denotes; a malformed image is
    /// a parse error, and a well-formed image of the wrong top-level kind
    /// is an invalid-file-type error.
    pub fn new(path: &String, data: &Vec<u8>, object_id: usize) -> (r: Result<
        ObjectFile,
        LinkerError,
    >)
        ensures
            match parse_spec(data@, path@, object_id) {
                ParseOutcome::Object(o) => {
                    &&& r matches Ok(f) && f@ == o
                    &&& obj_wf(o, object_id)
                    &&& forall|idx: int| 0 <= idx < o.symbols.len() ==>
                        (#[trigger] o.symbols[idx]).final_address is None
                    &&& forall|idx: int| 0 <= idx < o.sections.len() ==>
                        (#[trigger] o.sections[idx]).assigned_address is None
                    &&& sum_section_data(o.sections) <= data@.len()
                },
                ParseOutcome::Malformed => r matches Err(LinkerError::ParseError(p, _)) && p@
                    == path@,
                ParseOutcome::NotRelocatable => r matches Err(LinkerError::InvalidFileType(p))
                    && p@ == path@,
            },
    {
        if data.len() < 64 {
            return Err(mk_parse_err(path, "image too short for an object header"));
        }
        if !(data[0] == 0x7f && data[1] == 0x45 && data[2] == 0x4c && data[3] == 0x46) {
            return Err(mk_parse_err(path, "bad magic number"));
        }
        if data[4] != 2 {
            return Err(mk_parse_err(path, "not a 64-bit object"));
        }
        if data[5] != 1 {
            return Err(mk_parse_err(path, "not a little-endian object"));
        }
        if read_u16(data, 16) != 1 {
            return Err(LinkerError::InvalidFileType(path.clone()));
        }
        if read_u16(data, 18) != MACHINE_X86_64 {
            return Err(mk_parse_err(path, "unexpected machine"));
        }
        let shnum = read_u16(data, 60);
        if shnum != 0 {
            if read_u16(data, 58) != 64 {
                return Err(mk_parse_err(path, "unexpected section header size"));
            }
            let shoff = read_u64(data, 40);
            let len64 = data.len() as u64;
            if !(shoff <= len64 && 64 * (shnum as u64) <= len64 - shoff) {
                return Err(mk_parse_err(path, "section header table out of bounds"));
            }
            if !(read_u16(data, 62) < shnum) {
                return Err(mk_parse_err(path, "bad section name table index"));
            }
        }
        let sections = match build_sections(data, object_id) {
            Some(s) => s,
            None => {
                return Err(mk_parse_err(path, "bad section header"));
            },
        };
        if !check_sizes(data) {
            return Err(mk_parse_err(path, "section bytes exceed the image"));
        }
        let symbols = match build_symbols(data, path, object_id) {
            Some(s) => s,
            None => {
                return Err(mk_parse_err(path, "bad symbol table"));
            },
        };
        let relocations = match build_relocs(data, object_id) {
            Some(s) => s,
            None => {
                return Err(mk_parse_err(path, "bad relocation table"));
            },
        };
        let f = ObjectFile { path: path.clone(), symbols, relocations, sections };
        proof {
            let b = data@;
            let o = (ParseOutcome::Object(SpecObjectFile {
                path: path@,
                symbols: spec_symbols(b, path@, object_id),
                relocations: spec_relocs(b, object_id),
                sections: spec_sections(b, object_id),
            }))->Object_0;
            assert(f@ == o);
            if symtab_index(b) >= 0 {
                lemma_symbols_wf(b, path@, object_id, sym_count(b));
            }
            lemma_relocs_wf(b, object_id, sh_num(b) as int);
            lemma_sum_section_data_eq(b, object_id, sh_num(b) as int);
            assert(spec_sections(b, object_id).take(sh_num(b) as int) =~= spec_sections(
                b,
                object_id,
            ));
            assert(obj_wf(o, object_id));
        }
        Ok(f)
    }
}

/// Parses the image loaded from `path` and appends the resulting object
/// to the context, giving it the next dense identifier. On failure the
/// context is unchanged.
pub fn load_object_file(path: &String, data: &Vec<u8>, context: &mut Context) -> (r: Result<
    (),
    LinkerError,
>)
    ensures
        match parse_spec(data@, path@, old(context)@.object_files.len() as usize) {
            ParseOutcome::Object(o) => {
                &&& r is Ok
                &&& final(context)@.object_files == old(context)@.object_files.push(o)
                &&& final(context)@.global_symbols == old(context)@.global_symbols
                &&& obj_wf(o, old(context)@.object_files.len() as usize)
                &&& sum_section_data(o.sections) <= data@.len()
            },
            ParseOutcome::Malformed => r matches Err(LinkerError::ParseError(p, _)) && p@ == path@
                && final(context)@ == old(context)@,
            ParseOutcome::NotRelocatable => r matches Err(LinkerError::InvalidFileType(p)) && p@
                == path@ && final(context)@ == old(context)@,
        },
{
    let oid = context.object_files.len();
    match ObjectFile::new(path, data, oid) {
        Ok(f) => {
            let ghost old_files = context.object_files.deep_view();
            context.object_files.push(f);
            proof {
                assert(context.object_files.deep_view() =~= old_files.push(f@));
            }
            Ok(())
        },
        Err(e) => Err(e),
    }
}

} // verus!
