//! The symbol finalizer and the relocator.
//!
//! After layout, every defined global symbol's final virtual address is
//! its section's assigned address plus its section-relative value (or its
//! own value, for absolute symbols); a table entry still undefined at
//! this point is a fatal undefined-symbol error. The relocator then
//! patches every relocation of every placed section with bytes computed
//! from the target's final address, the addend and the patch site.

use vstd::prelude::*;
use vstd::bytes::{
    spec_u32_to_le_bytes, spec_u64_to_le_bytes, u32_to_le_bytes, u64_to_le_bytes,
};
use crate::byteops::{clone_bytes, splice, write_bytes_at};
use crate::common::{
    ObjectFile, RelocEncoding, RelocKind, Section, SpecObjectFile, SpecRelocation, SpecSection,
    SpecSymbol, SymbolTable, reloc_width, sym_in_files,
};
use crate::error::LinkerError;
use crate::resolve::find_name;

verus! {

// ---------------------------------------------------------------------
// The symbol finalizer.
// ---------------------------------------------------------------------

/// Whether an object holds a relocation that references `name`.
pub open spec fn obj_references(f: SpecObjectFile, name: Seq<u8>) -> bool {
    exists|j: int| 0 <= j < f.relocations.len() && (#[trigger] f.relocations[j]).target_symbol
        == name
}

/// Index of the first object at or after `o` whose relocations reference
/// `name`, or -1.
pub open spec fn find_referencing(files: Seq<SpecObjectFile>, name: Seq<u8>, o: int) -> int
    recommends
        0 <= o,
    decreases files.len() - o,
{
    if o < 0 || o >= files.len() {
        -1
    } else if obj_references(files[o], name) {
        o
    } else {
        find_referencing(files, name, o + 1)
    }
}

/// The path reported for an undefined symbol: the first object whose
/// relocations reference it, else the object that declared it.
pub open spec fn undef_path(files: Seq<SpecObjectFile>, s: SpecSymbol) -> Seq<char> {
    let o = find_referencing(files, s.name, 0);
    if o >= 0 {
        files[o].path
    } else {
        s.file
    }
}

/// A failure of the finalizer.
pub enum FinErr {
    /// An undefined global survived resolution: referencing path, name.
    Undef(Seq<char>, Seq<u8>),
    /// A defined symbol lives in a section not selected for output:
    /// owning path, section index.
    Orphan(Seq<char>, usize),
}

/// One table entry bound to its final address, or the failure it causes.
pub open spec fn finalize_sym(files: Seq<SpecObjectFile>, s: SpecSymbol) -> Result<
    SpecSymbol,
    FinErr,
> {
    if !s.defined {
        Err(FinErr::Undef(undef_path(files, s), s.name))
    } else {
        match s.section_index {
            Some(si) => {
                match files[s.object_id as int].sections[si as int].assigned_address {
                    Some(a) => Ok(
                        SpecSymbol {
                            final_address: Some((a + s.address) as u64),
                            ..s
                        },
                    ),
                    None => Err(FinErr::Orphan(files[s.object_id as int].path, si)),
                }
            },
            None => Ok(SpecSymbol { final_address: Some(s.address), ..s }),
        }
    }
}

/// The table with its first `k` entries finalized, or the first failure.
pub open spec fn finalize_upto(files: Seq<SpecObjectFile>, t: Seq<SpecSymbol>, k: int) -> Result<
    Seq<SpecSymbol>,
    FinErr,
>
    decreases k,
{
    if k <= 0 {
        Ok(t)
    } else {
        match finalize_upto(files, t, k - 1) {
            Err(e) => Err(e),
            Ok(t2) => match finalize_sym(files, t2[k - 1]) {
                Ok(s2) => Ok(t2.update(k - 1, s2)),
                Err(e) => Err(e),
            },
        }
    }
}

/// The whole finalized table, or the first failure.
pub open spec fn finalize_spec(files: Seq<SpecObjectFile>, t: Seq<SpecSymbol>) -> Result<
    Seq<SpecSymbol>,
    FinErr,
> {
    finalize_upto(files, t, t.len() as int)
}

/// A failure while finalizing a prefix decides the whole run.
pub proof fn lemma_finalize_err(files: Seq<SpecObjectFile>, t: Seq<SpecSymbol>, k1: int, k2: int)
    requires
        0 <= k1 <= k2,
        finalize_upto(files, t, k1) is Err,
    ensures
        finalize_upto(files, t, k2) == finalize_upto(files, t, k1),
    decreases k2,
{
    if k2 > k1 {
        lemma_finalize_err(files, t, k1, k2 - 1);
    }
}

/// Entries at or past `k` are untouched by the first `k` steps.
pub proof fn lemma_finalize_frame(files: Seq<SpecObjectFile>, t: Seq<SpecSymbol>, k: int)
    requires
        0 <= k <= t.len(),
        finalize_upto(files, t, k) is Ok,
    ensures
        finalize_upto(files, t, k)->Ok_0.len() == t.len(),
        forall|q: int| k <= q < t.len() ==> finalize_upto(files, t, k)->Ok_0[q] == t[q],
    decreases k,
{
    if k > 0 {
        lemma_finalize_frame(files, t, k - 1);
    }
}

/// Whether one object's relocations reference `name`.
fn obj_references_exec(f: &ObjectFile, name: &Vec<u8>) -> (r: bool)
    ensures
        r == obj_references(f@, name@),
{
    let n = f.relocations.len();
    let mut j: usize = 0;
    while j < n
        invariant
            n == f.relocations.len(),
            0 <= j <= n,
            forall|q: int| 0 <= q < j ==> (#[trigger] f@.relocations[q]).target_symbol != name@,
        decreases n - j,
    {
        if crate::resolve::bytes_eq(&f.relocations[j].target_symbol, name) {
            proof {
                assert(f@.relocations[j as int].target_symbol == name@);
            }
            return true;
        }
        proof {
            assert(f@.relocations[j as int].target_symbol != name@);
        }
        j += 1;
    }
    false
}

/// First object whose relocations reference `name`, if any.
fn find_referencing_exec(files: &Vec<ObjectFile>, name: &Vec<u8>) -> (r: Option<usize>)
    ensures
        match r {
            Some(o) => find_referencing(files.deep_view(), name@, 0) == o && o < files@.len(),
            None => find_referencing(files.deep_view(), name@, 0) == -1,
        },
{
    let n = files.len();
    let mut o: usize = 0;
    while o < n
        invariant
            n == files.len(),
            0 <= o <= n,
            find_referencing(files.deep_view(), name@, 0) == find_referencing(
                files.deep_view(),
                name@,
                o as int,
            ),
        decreases n - o,
    {
        if obj_references_exec(&files[o], name) {
            return Some(o);
        }
        o += 1;
    }
    None
}

/// Binds every table entry to its final address, in table order. Fails
/// on the first entry that is still undefined, or whose home section was
/// not selected for output.
pub fn finalize_symbols(table: &mut SymbolTable, files: &Vec<ObjectFile>) -> (r: Result<
    (),
    LinkerError,
>)
    requires
        forall|i: int| 0 <= i < old(table)@.len() ==> sym_in_files(
            #[trigger] old(table)@[i],
            files.deep_view(),
        ),
        forall|o: int, s: int|
            0 <= o < files.deep_view().len() && 0 <= s < files.deep_view()[o].sections.len() && (
            #[trigger] files.deep_view()[o].sections[s]).assigned_address is Some ==> {
                let sec = files.deep_view()[o].sections[s];
                sec.data.len() > 0 && sec.assigned_address->0 + sec.data.len() <= u64::MAX
            },
    ensures
        match finalize_spec(files.deep_view(), old(table)@) {
            Ok(t) => r is Ok && final(table)@ == t,
            Err(FinErr::Undef(p, n)) => r matches Err(LinkerError::UndefinedSymbol(ep, en))
                && ep@ == p && en@ == n,
            Err(FinErr::Orphan(p, s)) => r matches Err(LinkerError::OrphanSection(ep, es))
                && ep@ == p && es == s,
        },
{
    let n = table.entries.len();
    let mut idx: usize = 0;
    while idx < n
        invariant
            n == old(table)@.len(),
            table@.len() == n,
            0 <= idx <= n,
            forall|i: int| 0 <= i < old(table)@.len() ==> sym_in_files(
                #[trigger] old(table)@[i],
                files.deep_view(),
            ),
            forall|o: int, s: int|
                0 <= o < files.deep_view().len() && 0 <= s < files.deep_view()[o].sections.len()
                    && (#[trigger] files.deep_view()[o].sections[s]).assigned_address is Some
                    ==> {
                    let sec = files.deep_view()[o].sections[s];
                    sec.data.len() > 0 && sec.assigned_address->0 + sec.data.len() <= u64::MAX
                },
            finalize_upto(files.deep_view(), old(table)@, idx as int) == Ok::<_, FinErr>(table@),
        decreases n - idx,
    {
        proof {
            lemma_finalize_frame(files.deep_view(), old(table)@, idx as int);
            assert(table@[idx as int] == old(table)@[idx as int]);
        }
        let defined = table.entries[idx].defined;
        if !defined {
            let name = clone_bytes(&table.entries[idx].name);
            let path = match find_referencing_exec(files, &name) {
                Some(o) => files[o].path.clone(),
                None => table.entries[idx].file.clone(),
            };
            proof {
                lemma_finalize_err(
                    files.deep_view(),
                    old(table)@,
                    idx + 1,
                    old(table)@.len() as int,
                );
            }
            return Err(LinkerError::UndefinedSymbol(path, name));
        }
        let sec_idx = table.entries[idx].section_index;
        match sec_idx {
            Some(si) => {
                let oid = table.entries[idx].object_id;
                proof {
                    assert(sym_in_files(old(table)@[idx as int], files.deep_view()));
                }
                match files[oid].sections[si].assigned_address {
                    Some(a) => {
                        let value = table.entries[idx].address;
                        proof {
                            assert(files.deep_view()[oid as int].sections[si as int]
                                == files[oid as int]@.sections[si as int]);
                        }
                        let mut e = table.entries[idx].duplicate();
                        e.final_address = Some(a + value);
                        let ghost old_deep = table@;
                        table.entries.set(idx, e);
                        proof {
                            assert(table@ =~= old_deep.update(
                                idx as int,
                                finalize_sym(files.deep_view(), old_deep[idx as int])->Ok_0,
                            ));
                        }
                    },
                    None => {
                        let path = files[oid].path.clone();
                        proof {
                            lemma_finalize_err(
                                files.deep_view(),
                                old(table)@,
                                idx + 1,
                                old(table)@.len() as int,
                            );
                        }
                        return Err(LinkerError::OrphanSection(path, si));
                    },
                }
            },
            None => {
                let value = table.entries[idx].address;
                let mut e = table.entries[idx].duplicate();
                e.final_address = Some(value);
                let ghost old_deep = table@;
                table.entries.set(idx, e);
                proof {
                    assert(table@ =~= old_deep.update(
                        idx as int,
                        finalize_sym(files.deep_view(), old_deep[idx as int])->Ok_0,
                    ));
                }
            },
        }
        idx += 1;
    }
    Ok(())
}

// ---------------------------------------------------------------------
// The relocator.
// ---------------------------------------------------------------------

/// `v` reduced to a 64-bit word, two's complement.
pub open spec fn wrap64(v: int) -> u64
    recommends
        -0x1_0000_0000_0000_0000 < v < 0x2_0000_0000_0000_0000,
{
    if v < 0 {
        (v + 0x1_0000_0000_0000_0000) as u64
    } else if v < 0x1_0000_0000_0000_0000 {
        v as u64
    } else {
        (v - 0x1_0000_0000_0000_0000) as u64
    }
}

/// `v` reduced to a 32-bit word, two's complement.
pub open spec fn wrap32(v: int) -> u32
    recommends
        -0x8000_0000 <= v < 0x1_0000_0000,
{
    if v < 0 {
        (v + 0x1_0000_0000) as u32
    } else {
        v as u32
    }
}

/// The target's final address, if the table binds the name.
pub open spec fn reloc_target(t: Seq<SpecSymbol>, name: Seq<u8>) -> Option<u64> {
    let i = find_name(t, name);
    if i >= 0 && t[i].final_address is Some {
        Some(t[i].final_address->0)
    } else {
        None
    }
}

/// A failure of the relocator.
pub enum RelErr {
    /// The target name has no bound address.
    Undef(Seq<u8>),
    /// The computed value does not fit: section, offset, kind.
    Overflow(usize, u64, RelocKind),
}

/// The patched bytes of one relocation, or its failure: the write value
/// is computed from the target address `S`, the addend `A` and the patch
/// site `P`, range-checked as the kind and encoding demand, and spliced
/// over the patch site little-endian.
pub open spec fn apply_one(data: Seq<u8>, r: SpecRelocation, a: int, t: Seq<SpecSymbol>) -> Result<
    Seq<u8>,
    RelErr,
> {
    match reloc_target(t, r.target_symbol) {
        None => Err(RelErr::Undef(r.target_symbol)),
        Some(s_addr) => {
            let v = s_addr + r.addend as int;
            match r.kind {
                RelocKind::Abs64 => Ok(
                    splice(data, r.offset as int, spec_u64_to_le_bytes(wrap64(v))),
                ),
                RelocKind::Abs32 => {
                    if r.encoding is Signed {
                        if -0x8000_0000 <= v < 0x8000_0000 {
                            Ok(splice(data, r.offset as int, spec_u32_to_le_bytes(wrap32(v))))
                        } else {
                            Err(RelErr::Overflow(r.section_index, r.offset, r.kind))
                        }
                    } else {
                        if 0 <= v < 0x1_0000_0000 {
                            Ok(splice(data, r.offset as int, spec_u32_to_le_bytes(wrap32(v))))
                        } else {
                            Err(RelErr::Overflow(r.section_index, r.offset, r.kind))
                        }
                    }
                },
                RelocKind::PcRel32 => {
                    let pv = v - (a + r.offset);
                    if -0x8000_0000 <= pv < 0x8000_0000 {
                        Ok(splice(data, r.offset as int, spec_u32_to_le_bytes(wrap32(pv))))
                    } else {
                        Err(RelErr::Overflow(r.section_index, r.offset, r.kind))
                    }
                },
            }
        },
    }
}

/// Section `si`'s data after the first `k` relocations of the object
/// that touch it, applied in table order; `a` is its assigned address.
pub open spec fn apply_relocs(
    data: Seq<u8>,
    relocs: Seq<SpecRelocation>,
    si: usize,
    a: int,
    t: Seq<SpecSymbol>,
    k: int,
) -> Result<Seq<u8>, RelErr>
    decreases k,
{
    if k <= 0 {
        Ok(data)
    } else {
        match apply_relocs(data, relocs, si, a, t, k - 1) {
            Err(e) => Err(e),
            Ok(d2) => {
                if relocs[k - 1].section_index == si {
                    apply_one(d2, relocs[k - 1], a, t)
                } else {
                    Ok(d2)
                }
            },
        }
    }
}

/// A failure while applying a prefix decides the whole run.
pub proof fn lemma_apply_relocs_err(
    data: Seq<u8>,
    relocs: Seq<SpecRelocation>,
    si: usize,
    a: int,
    t: Seq<SpecSymbol>,
    k1: int,
    k2: int,
)
    requires
        0 <= k1 <= k2,
        apply_relocs(data, relocs, si, a, t, k1) is Err,
    ensures
        apply_relocs(data, relocs, si, a, t, k2) == apply_relocs(data, relocs, si, a, t, k1),
    decreases k2,
{
    if k2 > k1 {
        lemma_apply_relocs_err(data, relocs, si, a, t, k1, k2 - 1);
    }
}

/// One section after relocation: placed sections get their patched data,
/// the rest are untouched.
pub open spec fn relocate_section(f: SpecObjectFile, si: int, t: Seq<SpecSymbol>) -> Result<
    SpecSection,
    RelErr,
> {
    let sec = f.sections[si];
    match sec.assigned_address {
        Some(a) => {
            match apply_relocs(sec.data, f.relocations, si as usize, a as int, t, f.relocations.len() as int) {
                Ok(d2) => Ok(SpecSection { data: d2, ..sec }),
                Err(e) => Err(e),
            }
        },
        None => Ok(sec),
    }
}

/// The first `k` sections of one object after relocation.
pub open spec fn relocate_obj_upto(f: SpecObjectFile, t: Seq<SpecSymbol>, k: int) -> Result<
    Seq<SpecSection>,
    RelErr,
>
    decreases k,
{
    if k <= 0 {
        Ok(Seq::empty())
    } else {
        match relocate_obj_upto(f, t, k - 1) {
            Err(e) => Err(e),
            Ok(secs) => match relocate_section(f, k - 1, t) {
                Ok(s2) => Ok(secs.push(s2)),
                Err(e) => Err(e),
            },
        }
    }
}

/// One whole object after relocation.
pub open spec fn relocate_obj(f: SpecObjectFile, t: Seq<SpecSymbol>) -> Result<
    SpecObjectFile,
    RelErr,
> {
    match relocate_obj_upto(f, t, f.sections.len() as int) {
        Ok(secs) => Ok(SpecObjectFile { sections: secs, ..f }),
        Err(e) => Err(e),
    }
}

/// The first `k` objects after relocation; a failure carries the
/// failing object's path.
pub open spec fn relocate_upto(files: Seq<SpecObjectFile>, t: Seq<SpecSymbol>, k: int) -> Result<
    Seq<SpecObjectFile>,
    (Seq<char>, RelErr),
>
    decreases k,
{
    if k <= 0 {
        Ok(files)
    } else {
        match relocate_upto(files, t, k - 1) {
            Err(e) => Err(e),
            Ok(fs) => match relocate_obj(fs[k - 1], t) {
                Ok(f2) => Ok(fs.update(k - 1, f2)),
                Err(e) => Err((fs[k - 1].path, e)),
            },
        }
    }
}

/// All objects after relocation.
pub open spec fn relocate_spec(files: Seq<SpecObjectFile>, t: Seq<SpecSymbol>) -> Result<
    Seq<SpecObjectFile>,
    (Seq<char>, RelErr),
> {
    relocate_upto(files, t, files.len() as int)
}

/// A failure while relocating a prefix of the objects decides the run.
pub proof fn lemma_relocate_err(files: Seq<SpecObjectFile>, t: Seq<SpecSymbol>, k1: int, k2: int)
    requires
        0 <= k1 <= k2,
        relocate_upto(files, t, k1) is Err,
    ensures
        relocate_upto(files, t, k2) == relocate_upto(files, t, k1),
    decreases k2,
{
    if k2 > k1 {
        lemma_relocate_err(files, t, k1, k2 - 1);
    }
}

/// Objects at or past `k` are untouched by the first `k` steps.
pub proof fn lemma_relocate_frame(files: Seq<SpecObjectFile>, t: Seq<SpecSymbol>, k: int)
    requires
        0 <= k <= files.len(),
        relocate_upto(files, t, k) is Ok,
    ensures
        relocate_upto(files, t, k)->Ok_0.len() == files.len(),
        forall|q: int| k <= q < files.len() ==> relocate_upto(files, t, k)->Ok_0[q] == files[q],
    decreases k,
{
    if k > 0 {
        lemma_relocate_frame(files, t, k - 1);
    }
}

/// `v` reduced to a 64-bit word.
fn wrap64_exec(v: i128) -> (r: u64)
    requires
        -0x1_0000_0000_0000_0000 < v < 0x2_0000_0000_0000_0000,
    ensures
        r == wrap64(v as int),
{
    if v < 0 {
        (v + 0x1_0000_0000_0000_0000) as u64
    } else if v <= 0xffff_ffff_ffff_ffff {
        v as u64
    } else {
        (v - 0x1_0000_0000_0000_0000) as u64
    }
}

/// `v` reduced to a 32-bit word.
fn wrap32_exec(v: i128) -> (r: u32)
    requires
        -0x8000_0000 <= v < 0x1_0000_0000,
    ensures
        r == wrap32(v as int),
{
    if v < 0 {
        (v + 0x1_0000_0000) as u32
    } else {
        v as u32
    }
}

/// Applies every relocation of every placed section, in object order and
/// relocation-table order, patching the section bytes in place. Fails on
/// a target without a bound address, or on a value out of range for its
/// relocation's width and signedness.
pub fn apply_relocations(files: &mut Vec<ObjectFile>, table: &SymbolTable) -> (r: Result<
    (),
    LinkerError,
>)
    requires
        forall|o: int, j: int|
            0 <= o < old(files).deep_view().len() && 0 <= j < old(
                files,
            ).deep_view()[o].relocations.len() ==> crate::common::reloc_in_sections(
                #[trigger] old(files).deep_view()[o].relocations[j],
                old(files).deep_view()[o].sections,
            ),
        forall|o: int, s: int|
            0 <= o < old(files).deep_view().len() && 0 <= s < old(
                files,
            ).deep_view()[o].sections.len() && (
            #[trigger] old(files).deep_view()[o].sections[s]).assigned_address is Some ==> {
                let sec = old(files).deep_view()[o].sections[s];
                sec.assigned_address->0 + sec.data.len() <= u64::MAX
            },
    ensures
        match relocate_spec(old(files).deep_view(), table@) {
            Ok(fs) => r is Ok && final(files).deep_view() == fs,
            Err((p, RelErr::Undef(n))) => r matches Err(LinkerError::UndefinedSymbol(ep, en))
                && ep@ == p && en@ == n,
            Err((p, RelErr::Overflow(s, off, k))) => r matches Err(
                LinkerError::RelocationOverflow(ep, es, eo, ek),
            ) && ep@ == p && es == s && eo == off && ek == k,
        },
{
    let ghost files0 = old(files).deep_view();
    let ghost t = table@;
    let n = files.len();
    let mut o: usize = 0;
    while o < n
        invariant
            files0 == old(files).deep_view(),
            t == table@,
            n == files0.len(),
            files.deep_view().len() == n,
            files@.len() == n,
            0 <= o <= n,
            relocate_upto(files0, t, o as int) == Ok::<_, (Seq<char>, RelErr)>(
                files.deep_view(),
            ),
            forall|oo: int, j: int|
                0 <= oo < files0.len() && 0 <= j < files0[oo].relocations.len()
                    ==> crate::common::reloc_in_sections(
                    #[trigger] files0[oo].relocations[j],
                    files0[oo].sections,
                ),
            forall|oo: int, s: int|
                0 <= oo < files0.len() && 0 <= s < files0[oo].sections.len() && (
                #[trigger] files0[oo].sections[s]).assigned_address is Some ==> {
                    let sec = files0[oo].sections[s];
                    sec.assigned_address->0 + sec.data.len() <= u64::MAX
                },
        decreases n - o,
    {
        proof {
            lemma_relocate_frame(files0, t, o as int);
            assert(files.deep_view()[o as int] == files0[o as int]);
        }
        let ns = files[o].sections.len();
        let mut new_secs: Vec<Section> = Vec::new();
        let mut si: usize = 0;
        proof {
            assert(new_secs.deep_view() =~= relocate_obj_upto(files0[o as int], t, 0)->Ok_0);
        }
        while si < ns
            invariant
                files0 == old(files).deep_view(),
                t == table@,
                n == files0.len(),
                o < n,
                files.deep_view().len() == n,
                files@.len() == n,
                files.deep_view()[o as int] == files0[o as int],
                relocate_upto(files0, t, o as int) == Ok::<_, (Seq<char>, RelErr)>(
                    files.deep_view(),
                ),
                ns == files0[o as int].sections.len(),
                0 <= si <= ns,
                relocate_obj_upto(files0[o as int], t, si as int) == Ok::<_, RelErr>(
                    new_secs.deep_view(),
                ),
                forall|oo: int, j: int|
                    0 <= oo < files0.len() && 0 <= j < files0[oo].relocations.len()
                        ==> crate::common::reloc_in_sections(
                        #[trigger] files0[oo].relocations[j],
                        files0[oo].sections,
                    ),
                forall|oo: int, s: int|
                    0 <= oo < files0.len() && 0 <= s < files0[oo].sections.len() && (
                    #[trigger] files0[oo].sections[s]).assigned_address is Some ==> {
                        let sec = files0[oo].sections[s];
                        sec.assigned_address->0 + sec.data.len() <= u64::MAX
                    },
            decreases ns - si,
        {
            let ghost spec_sec = files0[o as int].sections[si as int];
            let sec_assigned = files[o].sections[si].assigned_address;
            let sec_name = clone_bytes(&files[o].sections[si].name);
            let sec_index = files[o].sections[si].index;
            let sec_input = files[o].sections[si].input_address;
            let sec_oid = files[o].sections[si].object_id;
            let mut data = clone_bytes(&files[o].sections[si].data);
            match sec_assigned {
                None => {
                    let ghost before = new_secs.deep_view();
                    new_secs.push(
                        Section {
                            data,
                            name: sec_name,
                            index: sec_index,
                            input_address: sec_input,
                            assigned_address: None,
                            object_id: sec_oid,
                        },
                    );
                    proof {
                        assert(new_secs.deep_view() =~= before.push(spec_sec));
                    }
                },
                Some(a) => {
                    let nr = files[o].relocations.len();
                    let mut ri: usize = 0;
                    while ri < nr
                        invariant
                            files0 == old(files).deep_view(),
                            t == table@,
                            n == files0.len(),
                            o < n,
                            files.deep_view().len() == n,
                            files@.len() == n,
                            files.deep_view()[o as int] == files0[o as int],
                            relocate_upto(files0, t, o as int) == Ok::<_, (Seq<char>, RelErr)>(
                                files.deep_view(),
                            ),
                            ns == files0[o as int].sections.len(),
                            si < ns,
                            spec_sec == files0[o as int].sections[si as int],
                            spec_sec.assigned_address == Some(a),
                            relocate_obj_upto(files0[o as int], t, si as int) == Ok::<_, RelErr>(
                                new_secs.deep_view(),
                            ),
                            nr == files0[o as int].relocations.len(),
                            0 <= ri <= nr,
                            apply_relocs(
                                spec_sec.data,
                                files0[o as int].relocations,
                                si,
                                a as int,
                                t,
                                ri as int,
                            ) == Ok::<_, RelErr>(data@),
                            data@.len() == spec_sec.data.len(),
                            forall|oo: int, j: int|
                                0 <= oo < files0.len() && 0 <= j < files0[oo].relocations.len()
                                    ==> crate::common::reloc_in_sections(
                                    #[trigger] files0[oo].relocations[j],
                                    files0[oo].sections,
                                ),
                            forall|oo: int, s: int|
                                0 <= oo < files0.len() && 0 <= s < files0[oo].sections.len() && (
                                #[trigger] files0[oo].sections[s]).assigned_address is Some
                                    ==> {
                                    let sec = files0[oo].sections[s];
                                    sec.assigned_address->0 + sec.data.len() <= u64::MAX
                                },
                        decreases nr - ri,
                    {
                        let ghost spec_rel = files0[o as int].relocations[ri as int];
                        let applies = files[o].relocations[ri].section_index == si;
                        if applies {
                            proof {
                                assert(crate::common::reloc_in_sections(
                                    spec_rel,
                                    files0[o as int].sections,
                                ));
                            }
                            let s_addr_opt = table.get(&files[o].relocations[ri].target_symbol);
                            let s_addr = match s_addr_opt {
                                Some(sym) => {
                                    match sym.final_address {
                                        Some(sa) => sa,
                                        None => {
                                            proof {
                                                relocate_fail_lemmas(
                                                    files0,
                                                    t,
                                                    o as int,
                                                    si,
                                                    ri as int,
                                                    a,
                                                    data@,
                                                );
                                            }
                                            return Err(
                                                LinkerError::UndefinedSymbol(
                                                    files[o].path.clone(),
                                                    clone_bytes(
                                                        &files[o].relocations[ri].target_symbol,
                                                    ),
                                                ),
                                            );
                                        },
                                    }
                                },
                                None => {
                                    proof {
                                        relocate_fail_lemmas(
                                            files0,
                                            t,
                                            o as int,
                                            si,
                                            ri as int,
                                            a,
                                            data@,
                                        );
                                    }
                                    return Err(
                                        LinkerError::UndefinedSymbol(
                                            files[o].path.clone(),
                                            clone_bytes(&files[o].relocations[ri].target_symbol),
                                        ),
                                    );
                                },
                            };
                            let addend = files[o].relocations[ri].addend;
                            let offset = files[o].relocations[ri].offset;
                            let kind = files[o].relocations[ri].kind;
                            let encoding = files[o].relocations[ri].encoding;
                            let dlen = data.len();
                            let ghost d_prev = data@;
                            proof {
                                assert(reloc_target(t, spec_rel.target_symbol) == Some(s_addr));
                                assert(offset + reloc_width(kind) <= dlen);
                                assert(spec_sec.assigned_address->0 + spec_sec.data.len()
                                    <= u64::MAX);
                            }
                            let v: i128 = s_addr as i128 + addend as i128;
                            match kind {
                                RelocKind::Abs64 => {
                                    let w = wrap64_exec(v);
                                    let bytes = u64_to_le_bytes(w);
                                    write_bytes_at(&mut data, offset as usize, &bytes);
                                },
                                RelocKind::Abs32 => {
                                    let ok = match encoding {
                                        RelocEncoding::Signed => v >= -0x8000_0000
                                            && v < 0x8000_0000,
                                        RelocEncoding::Generic => v >= 0 && v < 0x1_0000_0000,
                                    };
                                    if !ok {
                                        proof {
                                            relocate_fail_lemmas(
                                                files0,
                                                t,
                                                o as int,
                                                si,
                                                ri as int,
                                                a,
                                                data@,
                                            );
                                        }
                                        return Err(
                                            LinkerError::RelocationOverflow(
                                                files[o].path.clone(),
                                                si,
                                                offset,
                                                kind,
                                            ),
                                        );
                                    }
                                    let w = wrap32_exec(v);
                                    let bytes = u32_to_le_bytes(w);
                                    write_bytes_at(&mut data, offset as usize, &bytes);
                                },
                                RelocKind::PcRel32 => {
                                    let p = a + offset;
                                    let pv: i128 = v - p as i128;
                                    if !(pv >= -0x8000_0000 && pv < 0x8000_0000) {
                                        proof {
                                            relocate_fail_lemmas(
                                                files0,
                                                t,
                                                o as int,
                                                si,
                                                ri as int,
                                                a,
                                                data@,
                                            );
                                        }
                                        return Err(
                                            LinkerError::RelocationOverflow(
                                                files[o].path.clone(),
                                                si,
                                                offset,
                                                kind,
                                            ),
                                        );
                                    }
                                    let w = wrap32_exec(pv);
                                    let bytes = u32_to_le_bytes(w);
                                    write_bytes_at(&mut data, offset as usize, &bytes);
                                },
                            }
                            proof {
                                assert(apply_one(d_prev, spec_rel, a as int, t) == Ok::<_, RelErr>(
                                    data@,
                                ));
                            }
                        }
                        ri += 1;
                    }
                    let ghost before = new_secs.deep_view();
                    new_secs.push(
                        Section {
                            data,
                            name: sec_name,
                            index: sec_index,
                            input_address: sec_input,
                            assigned_address: Some(a),
                            object_id: sec_oid,
                        },
                    );
                    proof {
                        assert(new_secs.deep_view() =~= before.push(
                            relocate_section(files0[o as int], si as int, t)->Ok_0,
                        ));
                    }
                },
            }
            si += 1;
        }
        let ghost pre = files.deep_view();
        let ghost pre_shallow = files@;
        let mut f = files.remove(o);
        f.sections = new_secs;
        let ghost f_snap = f;
        files.insert(o, f);
        proof {
            assert(files@ =~= pre_shallow.update(o as int, f_snap));
            assert(f_snap@.sections =~= relocate_obj_upto(files0[o as int], t, ns as int)->Ok_0);
            assert(f_snap@ == relocate_obj(files0[o as int], t)->Ok_0);
            assert forall|q: int| 0 <= q < n && q != o as int implies #[trigger] files.deep_view()[q]
                == pre[q] by {
                assert(files@[q] == pre_shallow[q]);
            }
            assert(files.deep_view() =~= pre.update(o as int, f_snap@));
            assert(relocate_upto(files0, t, o + 1) == Ok::<_, (Seq<char>, RelErr)>(
                files.deep_view(),
            ));
        }
        o += 1;
    }
    Ok(())
}

/// Lifts a failing relocation step to a failure of the whole run.
proof fn relocate_fail_lemmas(
    files0: Seq<SpecObjectFile>,
    t: Seq<SpecSymbol>,
    o: int,
    si: usize,
    ri: int,
    a: u64,
    data: Seq<u8>,
)
    requires
        0 <= o < files0.len(),
        si < files0[o].sections.len(),
        0 <= ri < files0[o].relocations.len(),
        files0[o].sections[si as int].assigned_address == Some(a),
        relocate_upto(files0, t, o) is Ok,
        relocate_obj_upto(files0[o], t, si as int) is Ok,
        apply_relocs(files0[o].sections[si as int].data, files0[o].relocations, si, a as int, t, ri)
            == Ok::<_, RelErr>(data),
        files0[o].relocations[ri].section_index == si,
        apply_relocs(files0[o].sections[si as int].data, files0[o].relocations, si, a as int, t, ri + 1)
            is Err,
    ensures
        relocate_spec(files0, t) is Err,
        relocate_spec(files0, t)->Err_0 == (
            files0[o].path,
            apply_relocs(
                files0[o].sections[si as int].data,
                files0[o].relocations,
                si,
                a as int,
                t,
                ri + 1,
            )->Err_0,
        ),
{
    let relocs = files0[o].relocations;
    let d0 = files0[o].sections[si as int].data;
    lemma_apply_relocs_err(d0, relocs, si, a as int, t, ri + 1, relocs.len() as int);
    assert(relocate_section(files0[o], si as int, t) is Err);
    lemma_relocate_frame(files0, t, o);
    assert(relocate_obj_upto(files0[o], t, si + 1) is Err);
    lemma_relocate_obj_err(files0[o], t, si + 1, files0[o].sections.len() as int);
    assert(relocate_obj(files0[o], t) is Err);
    assert(relocate_upto(files0, t, o + 1) is Err);
    lemma_relocate_err(files0, t, o + 1, files0.len() as int);
}

/// Finalizing changes nothing about a table entry but its final
/// address, so a well-formed table stays well-formed.
pub proof fn lemma_finalize_wf(files: Seq<SpecObjectFile>, t: Seq<SpecSymbol>, k: int)
    requires
        0 <= k <= t.len(),
        finalize_upto(files, t, k) is Ok,
    ensures
        ({
            let t2 = finalize_upto(files, t, k)->Ok_0;
            &&& t2.len() == t.len()
            &&& forall|q: int| 0 <= q < t.len() ==> {
                let s2 = #[trigger] t2[q];
                s2.name == t[q].name && s2.global == t[q].global && s2.defined == t[q].defined
                    && s2.section_index == t[q].section_index && s2.address == t[q].address
                    && s2.object_id == t[q].object_id
            }
        }),
    decreases k,
{
    if k > 0 {
        lemma_finalize_wf(files, t, k - 1);
        lemma_finalize_frame(files, t, k - 1);
    }
}

/// Patching bytes in bounds never changes a section's length.
pub proof fn lemma_apply_relocs_len(
    data: Seq<u8>,
    relocs: Seq<SpecRelocation>,
    si: usize,
    a: int,
    t: Seq<SpecSymbol>,
    k: int,
)
    requires
        0 <= k <= relocs.len(),
        forall|j: int| 0 <= j < relocs.len() && (#[trigger] relocs[j]).section_index == si
            ==> relocs[j].offset + reloc_width(relocs[j].kind) <= data.len(),
        apply_relocs(data, relocs, si, a, t, k) is Ok,
    ensures
        apply_relocs(data, relocs, si, a, t, k)->Ok_0.len() == data.len(),
    decreases k,
{
    vstd::bytes::lemma_auto_spec_u64_to_from_le_bytes();
    vstd::bytes::lemma_auto_spec_u32_to_from_le_bytes();
    if k > 0 {
        if apply_relocs(data, relocs, si, a, t, k - 1) is Err {
            lemma_apply_relocs_err(data, relocs, si, a, t, k - 1, k);
            assert(false);
        }
        lemma_apply_relocs_len(data, relocs, si, a, t, k - 1);
    }
}

/// Relocation only rewrites section bytes: every other field of every
/// section, and every section's length, is unchanged.
pub proof fn lemma_relocate_obj_shape(f: SpecObjectFile, t: Seq<SpecSymbol>, k: int)
    requires
        0 <= k <= f.sections.len(),
        f.sections.len() <= usize::MAX,
        forall|j: int| 0 <= j < f.relocations.len() ==> crate::common::reloc_in_sections(
            #[trigger] f.relocations[j],
            f.sections,
        ),
        relocate_obj_upto(f, t, k) is Ok,
    ensures
        ({
            let secs = relocate_obj_upto(f, t, k)->Ok_0;
            &&& secs.len() == k
            &&& forall|q: int| 0 <= q < k ==> {
                let y = #[trigger] secs[q];
                let x = f.sections[q];
                y.name == x.name && y.index == x.index && y.input_address == x.input_address
                    && y.assigned_address == x.assigned_address && y.object_id == x.object_id
                    && y.data.len() == x.data.len()
            }
        }),
    decreases k,
{
    if k > 0 {
        if relocate_obj_upto(f, t, k - 1) is Err {
            lemma_relocate_obj_err(f, t, k - 1, k);
            assert(false);
        }
        lemma_relocate_obj_shape(f, t, k - 1);
        let sec = f.sections[k - 1];
        match sec.assigned_address {
            Some(a) => {
                assert forall|j: int|
                    0 <= j < f.relocations.len() && (#[trigger] f.relocations[j]).section_index
                        == (k - 1) as usize implies f.relocations[j].offset + reloc_width(
                    f.relocations[j].kind,
                ) <= sec.data.len() by {
                    assert(crate::common::reloc_in_sections(f.relocations[j], f.sections));
                }
                lemma_apply_relocs_len(
                    sec.data,
                    f.relocations,
                    (k - 1) as usize,
                    a as int,
                    t,
                    f.relocations.len() as int,
                );
            },
            None => {},
        }
    }
}

/// Relocating all objects preserves every object's shape: paths,
/// symbols, relocations, and every section field but the bytes.
pub proof fn lemma_relocate_shape(files: Seq<SpecObjectFile>, t: Seq<SpecSymbol>, k: int)
    requires
        0 <= k <= files.len(),
        forall|o: int| 0 <= o < files.len() ==> (#[trigger] files[o]).sections.len()
            <= usize::MAX,
        forall|o: int, j: int|
            0 <= o < files.len() && 0 <= j < files[o].relocations.len()
                ==> crate::common::reloc_in_sections(
                #[trigger] files[o].relocations[j],
                files[o].sections,
            ),
        relocate_upto(files, t, k) is Ok,
    ensures
        ({
            let fs = relocate_upto(files, t, k)->Ok_0;
            &&& fs.len() == files.len()
            &&& forall|o: int| 0 <= o < files.len() ==> {
                let y = #[trigger] fs[o];
                y.path == files[o].path && y.symbols == files[o].symbols && y.relocations
                    == files[o].relocations && y.sections.len() == files[o].sections.len()
            }
            &&& forall|o: int, s: int|
                0 <= o < files.len() && 0 <= s < files[o].sections.len() ==> {
                    let y = #[trigger] fs[o].sections[s];
                    let x = files[o].sections[s];
                    y.name == x.name && y.index == x.index && y.input_address == x.input_address
                        && y.assigned_address == x.assigned_address && y.object_id == x.object_id
                        && y.data.len() == x.data.len()
                }
        }),
    decreases k,
{
    if k > 0 {
        if relocate_upto(files, t, k - 1) is Err {
            lemma_relocate_err(files, t, k - 1, k);
            assert(false);
        }
        lemma_relocate_shape(files, t, k - 1);
        lemma_relocate_frame(files, t, k - 1);
        lemma_relocate_obj_shape(files[k - 1], t, files[k - 1].sections.len() as int);
    }
}

/// Round trip on trivial relocations: after an absolute-64 relocation
/// whose target's final address is `x`, the eight little-endian bytes at
/// the patch site encode `x` plus the addend (as a 64-bit word).
pub proof fn lemma_abs64_roundtrip(
    data: Seq<u8>,
    r: SpecRelocation,
    a: int,
    t: Seq<SpecSymbol>,
    d2: Seq<u8>,
    x: u64,
)
    requires
        r.kind == RelocKind::Abs64,
        reloc_target(t, r.target_symbol) == Some(x),
        r.offset + 8 <= data.len(),
        apply_one(data, r, a, t) == Ok::<_, RelErr>(d2),
    ensures
        d2.subrange(r.offset as int, r.offset + 8) == spec_u64_to_le_bytes(
            wrap64(x + r.addend),
        ),
        vstd::bytes::spec_u64_from_le_bytes(d2.subrange(r.offset as int, r.offset + 8)) == wrap64(
            x + r.addend,
        ),
{
    vstd::bytes::lemma_auto_spec_u64_to_from_le_bytes();
    let bytes = spec_u64_to_le_bytes(wrap64(x + r.addend));
    assert(d2 == splice(data, r.offset as int, bytes));
    assert(d2.subrange(r.offset as int, r.offset + 8) =~= bytes);
}

/// A failure while relocating a prefix of one object's sections decides
/// the object.
pub proof fn lemma_relocate_obj_err(f: SpecObjectFile, t: Seq<SpecSymbol>, k1: int, k2: int)
    requires
        0 <= k1 <= k2,
        relocate_obj_upto(f, t, k1) is Err,
    ensures
        relocate_obj_upto(f, t, k2) == relocate_obj_upto(f, t, k1),
    decreases k2,
{
    if k2 > k1 {
        lemma_relocate_obj_err(f, t, k1, k2 - 1);
    }
}

} // verus!
