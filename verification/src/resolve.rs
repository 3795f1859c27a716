//! The symbol resolver: merging each loaded object's global symbols into
//! the global symbol table under strong/weak and defined/undefined rules.
//!
//! The rules, for a candidate `C` meeting an existing entry `E` of the
//! same name: with no entry, `C` is inserted; a defined candidate
//! replaces an undefined entry; a strong defined candidate replaces a
//! weak defined entry; two strong defined symbols of one name are a
//! multiple-definition failure; in every other case the existing entry is
//! kept. Local symbols bypass the table entirely.

use vstd::prelude::*;
use crate::common::{
    Context, ObjectFile, SpecObjectFile, SpecSymbol, Symbol, SymbolTable, sym_inv, table_wf,
};
use crate::error::LinkerError;

verus! {

/// Index of the first entry of `t` named `name` at or after `i`, or -1.
pub open spec fn find_name_from(t: Seq<SpecSymbol>, name: Seq<u8>, i: int) -> int
    recommends
        0 <= i,
    decreases t.len() - i,
{
    if i < 0 || i >= t.len() {
        -1
    } else if t[i].name == name {
        i
    } else {
        find_name_from(t, name, i + 1)
    }
}

/// Index of the first entry of `t` named `name`, or -1.
pub open spec fn find_name(t: Seq<SpecSymbol>, name: Seq<u8>) -> int {
    find_name_from(t, name, 0)
}

/// `name` has a defined entry in `t`.
pub open spec fn defined_in(t: Seq<SpecSymbol>, name: Seq<u8>) -> bool {
    find_name(t, name) >= 0 && t[find_name(t, name)].defined
}

/// What one candidate does to the table: the new table, or `None` on a
/// multiple-definition conflict.
pub open spec fn resolve_step(t: Seq<SpecSymbol>, c: SpecSymbol) -> Option<Seq<SpecSymbol>> {
    let i = find_name(t, c.name);
    if i == -1 {
        Some(t.push(c))
    } else if !c.defined {
        Some(t)
    } else if !t[i].defined {
        Some(t.update(i, c))
    } else if t[i].strong {
        if c.strong {
            None
        } else {
            Some(t)
        }
    } else {
        if c.strong {
            Some(t.update(i, c))
        } else {
            Some(t)
        }
    }
}

/// The table after merging the first `k` symbols of an object's symbol
/// array, or the name of the first conflict.
pub open spec fn resolve_syms(t: Seq<SpecSymbol>, syms: Seq<SpecSymbol>, k: int) -> Result<
    Seq<SpecSymbol>,
    Seq<u8>,
>
    decreases k,
{
    if k <= 0 {
        Ok(t)
    } else {
        match resolve_syms(t, syms, k - 1) {
            Err(n) => Err(n),
            Ok(t2) => {
                let c = syms[k - 1];
                if c.global {
                    match resolve_step(t2, c) {
                        Some(t3) => Ok(t3),
                        None => Err(c.name),
                    }
                } else {
                    Ok(t2)
                }
            },
        }
    }
}

/// The table after merging one whole object.
pub open spec fn resolve_object_spec(t: Seq<SpecSymbol>, o: SpecObjectFile) -> Result<
    Seq<SpecSymbol>,
    Seq<u8>,
> {
    resolve_syms(t, o.symbols, o.symbols.len() as int)
}

// ---------------------------------------------------------------------
// Facts about name search.
// ---------------------------------------------------------------------

/// What a search result means: either no entry bears the name, or the
/// result is the first entry that does.
pub proof fn lemma_find_name_props(t: Seq<SpecSymbol>, name: Seq<u8>, i: int)
    requires
        0 <= i <= t.len(),
    ensures
        ({
            let r = find_name_from(t, name, i);
            if r == -1 {
                forall|q: int| i <= q < t.len() ==> (#[trigger] t[q]).name != name
            } else {
                &&& i <= r < t.len()
                &&& t[r].name == name
                &&& forall|q: int| i <= q < r ==> (#[trigger] t[q]).name != name
            }
        }),
    decreases t.len() - i,
{
    if i < t.len() && t[i].name != name {
        lemma_find_name_props(t, name, i + 1);
    }
}

/// A first occurrence determines the search result.
pub proof fn lemma_find_name_first(t: Seq<SpecSymbol>, name: Seq<u8>, i: int, r: int)
    requires
        0 <= i <= r < t.len(),
        t[r].name == name,
        forall|q: int| i <= q < r ==> (#[trigger] t[q]).name != name,
    ensures
        find_name_from(t, name, i) == r,
    decreases r - i,
{
    if i < r {
        lemma_find_name_first(t, name, i + 1, r);
    }
}

/// Searching for an absent name fails.
pub proof fn lemma_find_name_absent(t: Seq<SpecSymbol>, name: Seq<u8>, i: int)
    requires
        0 <= i <= t.len(),
        forall|q: int| i <= q < t.len() ==> (#[trigger] t[q]).name != name,
    ensures
        find_name_from(t, name, i) == -1,
    decreases t.len() - i,
{
    if i < t.len() {
        lemma_find_name_absent(t, name, i + 1);
    }
}

// ---------------------------------------------------------------------
// One resolution step preserves the table's invariants.
// ---------------------------------------------------------------------

/// A step keeps the table well-formed, and every entry of the new table
/// is either an old entry or the candidate itself.
pub proof fn lemma_step_preserves(t: Seq<SpecSymbol>, c: SpecSymbol, t2: Seq<SpecSymbol>)
    requires
        table_wf(t),
        c.global,
        c.name.len() > 0,
        sym_inv(c),
        resolve_step(t, c) == Some(t2),
    ensures
        table_wf(t2),
        forall|q: int| 0 <= q < t2.len() ==> (exists|p: int|
            0 <= p < t.len() && #[trigger] t2[q] == t[p]) || t2[q] == c,
    decreases 0int,
{
    lemma_find_name_props(t, c.name, 0);
    let i = find_name(t, c.name);
    if i == -1 {
        assert forall|q1: int, q2: int| 0 <= q1 < q2 < t2.len() implies t2[q1].name != t2[q2].name
        by {
            if q2 == t.len() as int {
                assert(t[q1].name != c.name);
            }
        }
        assert forall|q: int| 0 <= q < t2.len() implies (exists|p: int|
            0 <= p < t.len() && #[trigger] t2[q] == t[p]) || t2[q] == c by {
            if q < t.len() {
                assert(t2[q] == t[q]);
            }
        }
    } else {
        if t2 == t.update(i, c) {
            assert forall|q1: int, q2: int| 0 <= q1 < q2 < t2.len() implies t2[q1].name
                != t2[q2].name by {
                assert(t[q1].name != t[q2].name);
            }
            assert forall|q: int| 0 <= q < t2.len() implies (exists|p: int|
                0 <= p < t.len() && #[trigger] t2[q] == t[p]) || t2[q] == c by {
                if q != i {
                    assert(t2[q] == t[q]);
                }
            }
        } else {
            assert(t2 == t);
            assert forall|q: int| 0 <= q < t2.len() implies (exists|p: int|
                0 <= p < t.len() && #[trigger] t2[q] == t[p]) || t2[q] == c by {
                assert(t2[q] == t[q]);
            }
        }
    }
}

/// Merging a whole symbol array keeps the table well-formed, and every
/// entry of the result is an old entry or one of the merged symbols.
pub proof fn lemma_resolve_syms_preserves(t: Seq<SpecSymbol>, syms: Seq<SpecSymbol>, k: int, t2: Seq<SpecSymbol>)
    requires
        table_wf(t),
        0 <= k <= syms.len(),
        forall|j: int| 0 <= j < syms.len() && (#[trigger] syms[j]).global ==> syms[j].name.len()
            > 0 && sym_inv(syms[j]),
        resolve_syms(t, syms, k) == Ok::<_, Seq<u8>>(t2),
    ensures
        table_wf(t2),
        forall|q: int| 0 <= q < t2.len() ==> (exists|p: int|
            0 <= p < t.len() && #[trigger] t2[q] == t[p]) || (exists|j: int|
            0 <= j < k && t2[q] == syms[j]),
    decreases k,
{
    if k > 0 {
        let prev = resolve_syms(t, syms, k - 1);
        let tmid = prev->Ok_0;
        lemma_resolve_syms_preserves(t, syms, k - 1, tmid);
        let c = syms[k - 1];
        if c.global && resolve_step(tmid, c) is Some {
            let t3 = resolve_step(tmid, c)->Some_0;
            lemma_step_preserves(tmid, c, t3);
            assert forall|q: int| 0 <= q < t2.len() implies (exists|p: int|
                0 <= p < t.len() && #[trigger] t2[q] == t[p]) || (exists|j: int|
                0 <= j < k && t2[q] == syms[j]) by {
                if t2[q] == c {
                    assert(t2[q] == syms[k - 1]);
                } else {
                    let p0 = choose|p0: int| 0 <= p0 < tmid.len() && t2[q] == tmid[p0];
                }
            }
        }
    }
}

/// One resolution step never un-defines a name: once the table holds a
/// defined entry for `name`, it still does after any candidate.
pub proof fn lemma_step_defined_mono(t: Seq<SpecSymbol>, c: SpecSymbol, t2: Seq<SpecSymbol>, name: Seq<u8>)
    requires
        resolve_step(t, c) == Some(t2),
        defined_in(t, name),
    ensures
        defined_in(t2, name),
{
    lemma_find_name_props(t, name, 0);
    lemma_find_name_props(t, c.name, 0);
    let r0 = find_name(t, name);
    let i = find_name(t, c.name);
    if i == -1 {
        assert(t2 == t.push(c));
        assert forall|q: int| 0 <= q < r0 implies (#[trigger] t2[q]).name != name by {
            assert(t2[q] == t[q]);
        }
        lemma_find_name_first(t2, name, 0, r0);
    } else if t2 == t.update(i, c) {
        if c.name == name {
            assert(r0 == i) by {
                lemma_find_name_first(t, name, 0, i);
            }
            assert forall|q: int| 0 <= q < i implies (#[trigger] t2[q]).name != name by {
                assert(t2[q] == t[q]);
            }
            lemma_find_name_first(t2, name, 0, i);
            assert(t2[i] == c);
            assert(c.defined);
        } else {
            assert(t[i].name == c.name);
            assert(r0 != i);
            assert(t2[r0].name == name);
            assert forall|q: int| 0 <= q < r0 implies (#[trigger] t2[q]).name != name by {
                if q != i {
                    assert(t2[q] == t[q]);
                } else {
                    assert(t2[q].name == c.name);
                }
            }
            lemma_find_name_first(t2, name, 0, r0);
            assert(t2[r0] == t[r0]);
        }
    } else {
        assert(t2 == t);
    }
}

/// Merging a whole symbol array never un-defines a name.
pub proof fn lemma_resolve_syms_defined_mono(
    t: Seq<SpecSymbol>,
    syms: Seq<SpecSymbol>,
    k: int,
    name: Seq<u8>,
)
    requires
        0 <= k,
        resolve_syms(t, syms, k) is Ok,
        defined_in(t, name),
    ensures
        defined_in(resolve_syms(t, syms, k)->Ok_0, name),
    decreases k,
{
    if k > 0 {
        lemma_resolve_syms_defined_mono(t, syms, k - 1, name);
        let tmid = resolve_syms(t, syms, k - 1)->Ok_0;
        let c = syms[k - 1];
        if c.global {
            lemma_step_defined_mono(tmid, c, resolve_step(tmid, c)->Some_0, name);
        }
    }
}

/// A conflict while merging a prefix is the result of merging any longer
/// prefix too.
pub proof fn lemma_resolve_syms_err(t: Seq<SpecSymbol>, syms: Seq<SpecSymbol>, k1: int, k2: int)
    requires
        0 <= k1 <= k2,
        resolve_syms(t, syms, k1) is Err,
    ensures
        resolve_syms(t, syms, k2) == resolve_syms(t, syms, k1),
    decreases k2,
{
    if k2 > k1 {
        lemma_resolve_syms_err(t, syms, k1, k2 - 1);
    }
}

// ---------------------------------------------------------------------
// Executable table operations.
// ---------------------------------------------------------------------

/// Compares two byte strings.
pub fn bytes_eq(a: &Vec<u8>, b: &Vec<u8>) -> (r: bool)
    ensures
        r == (a@ == b@),
{
    if a.len() != b.len() {
        proof {
            assert(a@ != b@);
        }
        return false;
    }
    let n = a.len();
    let mut i: usize = 0;
    while i < n
        invariant
            n == a.len() == b.len(),
            0 <= i <= n,
            forall|q: int| 0 <= q < i ==> a@[q] == b@[q],
        decreases n - i,
    {
        if a[i] != b[i] {
            proof {
                assert(a@[i as int] != b@[i as int]);
            }
            return false;
        }
        i += 1;
    }
    proof {
        assert(a@ =~= b@);
    }
    true
}

impl SymbolTable {
    /// Index of the entry named `name`, if any.
    pub fn get_index(&self, name: &Vec<u8>) -> (r: Option<usize>)
        ensures
            match r {
                Some(i) => find_name(self@, name@) == i && i < self@.len(),
                None => find_name(self@, name@) == -1,
            },
    {
        let n = self.entries.len();
        let mut i: usize = 0;
        while i < n
            invariant
                n == self.entries.len(),
                0 <= i <= n,
                find_name(self@, name@) == find_name_from(self@, name@, i as int),
            decreases n - i,
        {
            if bytes_eq(&self.entries[i].name, name) {
                proof {
                    assert(self@[i as int].name == name@);
                }
                return Some(i);
            }
            proof {
                assert(self@[i as int].name != name@);
            }
            i += 1;
        }
        None
    }

    /// The entry named `name`, if any.
    pub fn get(&self, name: &Vec<u8>) -> (r: Option<&Symbol>)
        ensures
            match r {
                Some(s) => find_name(self@, name@) >= 0 && s@ == self@[find_name(self@, name@)],
                None => find_name(self@, name@) == -1,
            },
    {
        match self.get_index(name) {
            Some(i) => Some(&self.entries[i]),
            None => None,
        }
    }

    /// Merges one global candidate symbol into the table under the
    /// resolution rules; a strong-strong collision of defined symbols is
    /// a multiple-definition failure and leaves the table unchanged.
    pub fn merge(&mut self, sym: &Symbol) -> (r: Result<(), LinkerError>)
        requires
            sym@.global,
        ensures
            match resolve_step(old(self)@, sym@) {
                Some(t) => r is Ok && final(self)@ == t,
                None => r matches Err(LinkerError::MultipleDefinitions(n)) && n@ == sym@.name
                    && final(self)@ == old(self)@,
            },
    {
        match self.get_index(&sym.name) {
            None => {
                let ghost old_deep = self@;
                self.entries.push(sym.duplicate());
                proof {
                    assert(self@ =~= old_deep.push(sym@));
                }
                Ok(())
            },
            Some(i) => {
                if !sym.defined {
                    Ok(())
                } else if !self.entries[i].defined {
                    let ghost old_deep = self@;
                    self.entries.set(i, sym.duplicate());
                    proof {
                        assert(self@ =~= old_deep.update(i as int, sym@));
                    }
                    Ok(())
                } else if self.entries[i].strong {
                    if sym.strong {
                        Err(LinkerError::MultipleDefinitions(crate::byteops::clone_bytes(
                            &sym.name,
                        )))
                    } else {
                        Ok(())
                    }
                } else {
                    if sym.strong {
                        let ghost old_deep = self@;
                        self.entries.set(i, sym.duplicate());
                        proof {
                            assert(self@ =~= old_deep.update(i as int, sym@));
                        }
                        Ok(())
                    } else {
                        Ok(())
                    }
                }
            },
        }
    }
}

/// Merges every global symbol of one loaded object into the table, in
/// symbol-table order; local symbols are skipped. Fails with the name of
/// the first multiple-definition conflict.
pub fn resolve_object(table: &mut SymbolTable, obj: &ObjectFile) -> (r: Result<(), LinkerError>)
    ensures
        match resolve_object_spec(old(table)@, obj@) {
            Ok(t) => r is Ok && final(table)@ == t,
            Err(n) => r matches Err(LinkerError::MultipleDefinitions(m)) && m@ == n,
        },
{
    let n = obj.symbols.len();
    let mut j: usize = 0;
    while j < n
        invariant
            n == obj.symbols.len(),
            0 <= j <= n,
            resolve_syms(old(table)@, obj@.symbols, j as int) == Ok::<_, Seq<u8>>(table@),
        decreases n - j,
    {
        proof {
            assert(obj@.symbols[j as int] == obj.symbols[j as int]@);
        }
        if obj.symbols[j].global {
            match table.merge(&obj.symbols[j]) {
                Ok(()) => {},
                Err(e) => {
                    proof {
                        lemma_resolve_syms_err(
                            old(table)@,
                            obj@.symbols,
                            j + 1,
                            obj@.symbols.len() as int,
                        );
                    }
                    return Err(e);
                },
            }
        }
        j += 1;
    }
    Ok(())
}

impl Symbol {
    /// Whether this symbol's name would not collide with an existing
    /// strong defined entry of the global table.
    pub fn is_unique_in(&self, context: &Context) -> (r: bool)
        ensures
            r == {
                let i = find_name(context@.global_symbols, self@.name);
                !(i >= 0 && context@.global_symbols[i].strong
                    && context@.global_symbols[i].defined)
            },
    {
        if let Some(existing_sym) = context.global_symbols.get(&self.name) {
            !(existing_sym.strong && existing_sym.defined)
        } else {
            true
        }
    }
}

} // verus!
