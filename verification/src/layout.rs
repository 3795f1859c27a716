//! The layout engine: walking a fixed, ordered list of output section
//! names and assigning each matching non-empty input section a virtual
//! address from a cursor that starts at the image base.
//!
//! For each output name in order, objects are visited in load order; in
//! each object at most the first section bearing the name is placed, and
//! only if it has bytes. Size-0 sections do not advance the cursor.

use vstd::prelude::*;
use crate::common::{
    Context, ObjectFile, Section, SpecObjectFile, SpecSection, SpecSymbol,
};
use crate::byteops::clone_bytes;
use crate::object::sum_section_data;

verus! {

/// Index of the first section of `secs` named `name` at or after `i`, or -1.
pub open spec fn find_section_from(secs: Seq<SpecSection>, name: Seq<u8>, i: int) -> int
    recommends
        0 <= i,
    decreases secs.len() - i,
{
    if i < 0 || i >= secs.len() {
        -1
    } else if secs[i].name == name {
        i
    } else {
        find_section_from(secs, name, i + 1)
    }
}

/// One object under one output name: the object with its first matching
/// non-empty section placed at `cursor`, and the advanced cursor.
pub open spec fn layout_obj(f: SpecObjectFile, name: Seq<u8>, cursor: int) -> (SpecObjectFile, int) {
    let s = find_section_from(f.sections, name, 0);
    if s >= 0 && f.sections[s].data.len() > 0 {
        let sec = f.sections[s];
        let sec2 = SpecSection {
            data: sec.data,
            name: sec.name,
            index: sec.index,
            input_address: sec.input_address,
            assigned_address: Some(cursor as u64),
            object_id: sec.object_id,
        };
        let f2 = SpecObjectFile {
            path: f.path,
            symbols: f.symbols,
            relocations: f.relocations,
            sections: f.sections.update(s, sec2),
        };
        (f2, cursor + sec.data.len())
    } else {
        (f, cursor)
    }
}

/// One output name over the first `o` objects, in load order.
pub open spec fn layout_pass(files: Seq<SpecObjectFile>, name: Seq<u8>, o: int, cursor: int) -> (
    Seq<SpecObjectFile>,
    int,
)
    decreases o,
{
    if o <= 0 {
        (files, cursor)
    } else {
        let (fs, cur) = layout_pass(files, name, o - 1, cursor);
        let (f2, cur2) = layout_obj(fs[o - 1], name, cur);
        (fs.update(o - 1, f2), cur2)
    }
}

/// The first `n` output names, in list order, over all objects.
pub open spec fn layout_names(
    files: Seq<SpecObjectFile>,
    names: Seq<Seq<u8>>,
    n: int,
    cursor: int,
) -> (Seq<SpecObjectFile>, int)
    decreases n,
{
    if n <= 0 {
        (files, cursor)
    } else {
        let (fs, cur) = layout_names(files, names, n - 1, cursor);
        layout_pass(fs, names[n - 1], fs.len() as int, cur)
    }
}

/// The whole layout: every output name over every object, the cursor
/// starting at the image base.
pub open spec fn layout_spec(files: Seq<SpecObjectFile>, names: Seq<Seq<u8>>, base: u64) -> (
    Seq<SpecObjectFile>,
    int,
) {
    layout_names(files, names, names.len() as int, base as int)
}

// ---------------------------------------------------------------------
// Sums of section lengths.
// ---------------------------------------------------------------------

/// What an assigned section contributes to the placed total.
pub open spec fn assigned_len(s: SpecSection) -> int {
    if s.assigned_address is Some {
        s.data.len() as int
    } else {
        0
    }
}

/// Sum of the lengths of the assigned sections of one object.
pub open spec fn obj_assigned(secs: Seq<SpecSection>) -> int
    decreases secs.len(),
{
    if secs.len() == 0 {
        0
    } else {
        obj_assigned(secs.drop_last()) + assigned_len(secs.last())
    }
}

/// Sum of the lengths of the assigned sections of all objects.
pub open spec fn total_assigned(files: Seq<SpecObjectFile>) -> int
    decreases files.len(),
{
    if files.len() == 0 {
        0
    } else {
        total_assigned(files.drop_last()) + obj_assigned(files.last().sections)
    }
}

/// Sum of the lengths of all sections of all objects.
pub open spec fn total_data(files: Seq<SpecObjectFile>) -> int
    decreases files.len(),
{
    if files.len() == 0 {
        0
    } else {
        total_data(files.drop_last()) + sum_section_data(files.last().sections)
    }
}

/// The assigned total never exceeds the data total.
pub proof fn lemma_obj_assigned_le(secs: Seq<SpecSection>)
    ensures
        0 <= obj_assigned(secs) <= sum_section_data(secs),
    decreases secs.len(),
{
    if secs.len() > 0 {
        lemma_obj_assigned_le(secs.drop_last());
    }
}

/// The assigned total over all objects never exceeds the data total.
pub proof fn lemma_total_assigned_le(files: Seq<SpecObjectFile>)
    ensures
        0 <= total_assigned(files) <= total_data(files),
    decreases files.len(),
{
    if files.len() > 0 {
        lemma_total_assigned_le(files.drop_last());
        lemma_obj_assigned_le(files.last().sections);
    }
}

/// How one updated section changes an object's assigned sum.
pub proof fn lemma_obj_assigned_update(secs: Seq<SpecSection>, i: int, s2: SpecSection)
    requires
        0 <= i < secs.len(),
    ensures
        obj_assigned(secs.update(i, s2)) == obj_assigned(secs) - assigned_len(secs[i])
            + assigned_len(s2),
    decreases secs.len(),
{
    let u = secs.update(i, s2);
    if i == secs.len() - 1 {
        assert(u.drop_last() =~= secs.drop_last());
    } else {
        assert(u.drop_last() =~= secs.drop_last().update(i, s2));
        lemma_obj_assigned_update(secs.drop_last(), i, s2);
    }
}

/// An updated section with the same bytes leaves the data sum unchanged.
pub proof fn lemma_sum_data_update(secs: Seq<SpecSection>, i: int, s2: SpecSection)
    requires
        0 <= i < secs.len(),
        s2.data == secs[i].data,
    ensures
        sum_section_data(secs.update(i, s2)) == sum_section_data(secs),
    decreases secs.len(),
{
    let u = secs.update(i, s2);
    if i == secs.len() - 1 {
        assert(u.drop_last() =~= secs.drop_last());
    } else {
        assert(u.drop_last() =~= secs.drop_last().update(i, s2));
        lemma_sum_data_update(secs.drop_last(), i, s2);
    }
}

/// How one updated object changes the assigned total.
pub proof fn lemma_total_assigned_update(files: Seq<SpecObjectFile>, o: int, f2: SpecObjectFile)
    requires
        0 <= o < files.len(),
    ensures
        total_assigned(files.update(o, f2)) == total_assigned(files) - obj_assigned(
            files[o].sections,
        ) + obj_assigned(f2.sections),
    decreases files.len(),
{
    let u = files.update(o, f2);
    if o == files.len() - 1 {
        assert(u.drop_last() =~= files.drop_last());
    } else {
        assert(u.drop_last() =~= files.drop_last().update(o, f2));
        lemma_total_assigned_update(files.drop_last(), o, f2);
    }
}

/// An updated object with unchanged section bytes leaves the data total
/// unchanged.
pub proof fn lemma_total_data_update(files: Seq<SpecObjectFile>, o: int, f2: SpecObjectFile)
    requires
        0 <= o < files.len(),
        sum_section_data(f2.sections) == sum_section_data(files[o].sections),
    ensures
        total_data(files.update(o, f2)) == total_data(files),
    decreases files.len(),
{
    let u = files.update(o, f2);
    if o == files.len() - 1 {
        assert(u.drop_last() =~= files.drop_last());
    } else {
        assert(u.drop_last() =~= files.drop_last().update(o, f2));
        lemma_total_data_update(files.drop_last(), o, f2);
    }
}

/// A single section's contribution is bounded by the object's data sum.
pub proof fn lemma_section_le_sum(secs: Seq<SpecSection>, i: int)
    requires
        0 <= i < secs.len(),
    ensures
        secs[i].data.len() <= sum_section_data(secs),
    decreases secs.len(),
{
    lemma_sum_data_nonneg(secs.drop_last());
    if i < secs.len() - 1 {
        lemma_section_le_sum(secs.drop_last(), i);
    }
}

/// Section data sums are nonnegative.
pub proof fn lemma_sum_data_nonneg(secs: Seq<SpecSection>)
    ensures
        sum_section_data(secs) >= 0,
    decreases secs.len(),
{
    if secs.len() > 0 {
        lemma_sum_data_nonneg(secs.drop_last());
    }
}

// ---------------------------------------------------------------------
// The layout invariant: what §-placement guarantees.
// ---------------------------------------------------------------------

/// Bounds and mutual disjointness of everything placed so far: every
/// assigned section lies at or above the image base and ends at or below
/// the cursor, and no two distinct assigned sections overlap.
pub open spec fn layout_inv(files: Seq<SpecObjectFile>, base: int, cursor: int) -> bool {
    &&& base <= cursor
    &&& forall|o: int, s: int|
        0 <= o < files.len() && 0 <= s < files[o].sections.len() && (
        #[trigger] files[o].sections[s]).assigned_address is Some ==> {
            let a = files[o].sections[s].assigned_address->0 as int;
            base <= a && a + files[o].sections[s].data.len() <= cursor
        }
    &&& forall|o1: int, s1: int, o2: int, s2: int|
        0 <= o1 < files.len() && 0 <= s1 < files[o1].sections.len() && 0 <= o2 < files.len() && 0
            <= s2 < files[o2].sections.len() && !(o1 == o2 && s1 == s2) && (
        #[trigger] files[o1].sections[s1]).assigned_address is Some && (
        #[trigger] files[o2].sections[s2]).assigned_address is Some ==> {
            let a1 = files[o1].sections[s1].assigned_address->0 as int;
            let l1 = files[o1].sections[s1].data.len() as int;
            let a2 = files[o2].sections[s2].assigned_address->0 as int;
            let l2 = files[o2].sections[s2].data.len() as int;
            a1 + l1 <= a2 || a2 + l2 <= a1
        }
}

/// What stands of placed sections from layout onward: every assigned
/// section lies at or above the image base, and no two distinct
/// assigned sections overlap.
pub open spec fn placed_disjoint(files: Seq<SpecObjectFile>, base: int) -> bool {
    &&& forall|o: int, s: int|
        0 <= o < files.len() && 0 <= s < files[o].sections.len() && (
        #[trigger] files[o].sections[s]).assigned_address is Some
            ==> base <= files[o].sections[s].assigned_address->0
    &&& forall|o1: int, s1: int, o2: int, s2: int|
        0 <= o1 < files.len() && 0 <= s1 < files[o1].sections.len() && 0 <= o2 < files.len() && 0
            <= s2 < files[o2].sections.len() && !(o1 == o2 && s1 == s2) && (
        #[trigger] files[o1].sections[s1]).assigned_address is Some && (
        #[trigger] files[o2].sections[s2]).assigned_address is Some ==> {
            let a1 = files[o1].sections[s1].assigned_address->0 as int;
            let l1 = files[o1].sections[s1].data.len() as int;
            let a2 = files[o2].sections[s2].assigned_address->0 as int;
            let l2 = files[o2].sections[s2].data.len() as int;
            a1 + l1 <= a2 || a2 + l2 <= a1
        }
}

/// The layout engine only fills in assigned addresses: everything else
/// about the objects is unchanged.
pub open spec fn files_similar(f1: Seq<SpecObjectFile>, f2: Seq<SpecObjectFile>) -> bool {
    &&& f1.len() == f2.len()
    &&& forall|o: int| 0 <= o < f1.len() ==> {
        &&& (#[trigger] f2[o]).path == f1[o].path
        &&& f2[o].symbols == f1[o].symbols
        &&& f2[o].relocations == f1[o].relocations
        &&& f2[o].sections.len() == f1[o].sections.len()
    }
    &&& forall|o: int, s: int|
        0 <= o < f1.len() && 0 <= s < f1[o].sections.len() ==> {
            let x = f1[o].sections[s];
            let y = #[trigger] f2[o].sections[s];
            y.data == x.data && y.name == x.name && y.index == x.index && y.input_address
                == x.input_address && y.object_id == x.object_id
        }
}

// ---------------------------------------------------------------------
// Executable search and layout.
// ---------------------------------------------------------------------

/// Index of the first section of `file` named `name`, if any.
pub fn find_section(file: &ObjectFile, name: &Vec<u8>) -> (r: Option<usize>)
    ensures
        match r {
            Some(i) => find_section_from(file@.sections, name@, 0) == i && i
                < file@.sections.len(),
            None => find_section_from(file@.sections, name@, 0) == -1,
        },
{
    let n = file.sections.len();
    let mut i: usize = 0;
    while i < n
        invariant
            n == file.sections.len(),
            0 <= i <= n,
            find_section_from(file@.sections, name@, 0) == find_section_from(
                file@.sections,
                name@,
                i as int,
            ),
        decreases n - i,
    {
        if crate::resolve::bytes_eq(&file.sections[i].name, name) {
            proof {
                assert(file@.sections[i as int].name == name@);
            }
            return Some(i);
        }
        proof {
            assert(file@.sections[i as int].name != name@);
        }
        i += 1;
    }
    None
}

/// What a section search result means.
pub proof fn lemma_find_section_props(secs: Seq<SpecSection>, name: Seq<u8>, i: int)
    requires
        0 <= i <= secs.len(),
    ensures
        ({
            let r = find_section_from(secs, name, i);
            if r == -1 {
                forall|q: int| i <= q < secs.len() ==> (#[trigger] secs[q]).name != name
            } else {
                &&& i <= r < secs.len()
                &&& secs[r].name == name
                &&& forall|q: int| i <= q < r ==> (#[trigger] secs[q]).name != name
            }
        }),
    decreases secs.len() - i,
{
    if i < secs.len() && secs[i].name != name {
        lemma_find_section_props(secs, name, i + 1);
    }
}

/// Walks the output names in order and the objects in load order,
/// assigning the cursor to each placed section. Returns the final
/// cursor. Requires fresh objects (nothing assigned yet), distinct
/// output names, and room for every byte above the image base.
pub fn perform_layout(context: &mut Context, output_sections: &Vec<Vec<u8>>, image_base: u64) -> (r:
    u64)
    requires
        forall|o: int, s: int|
            0 <= o < old(context)@.object_files.len() && 0 <= s < old(
                context,
            )@.object_files[o].sections.len() ==> (
            #[trigger] old(context)@.object_files[o].sections[s]).assigned_address is None,
        forall|i: int, j: int| 0 <= i < j < output_sections@.len() ==>
            output_sections.deep_view()[i] != output_sections.deep_view()[j],
        image_base + total_data(old(context)@.object_files) <= u64::MAX,
    ensures
        final(context)@.object_files == layout_spec(
            old(context)@.object_files,
            output_sections.deep_view(),
            image_base,
        ).0,
        r as int == layout_spec(
            old(context)@.object_files,
            output_sections.deep_view(),
            image_base,
        ).1,
        final(context)@.global_symbols == old(context)@.global_symbols,
        files_similar(old(context)@.object_files, final(context)@.object_files),
        layout_inv(final(context)@.object_files, image_base as int, r as int),
        forall|o: int, s: int|
            0 <= o < final(context)@.object_files.len() && 0 <= s
                < final(context)@.object_files[o].sections.len() && (
            #[trigger] final(context)@.object_files[o].sections[s]).assigned_address is Some
                ==> final(context)@.object_files[o].sections[s].data.len() > 0,
        r as int == image_base + total_assigned(final(context)@.object_files),
        total_assigned(final(context)@.object_files) <= total_data(old(context)@.object_files),
{
    let ghost files0 = old(context)@.object_files;
    let ghost names = output_sections.deep_view();
    let nn = output_sections.len();
    let mut cursor: u64 = image_base;
    let mut ni: usize = 0;
    proof {
        lemma_total_assigned_empty(files0);
    }
    while ni < nn
        invariant
            nn == output_sections.len(),
            0 <= ni <= nn,
            names == output_sections.deep_view(),
            forall|i: int, j: int| 0 <= i < j < names.len() ==> names[i] != names[j],
            image_base + total_data(files0) <= u64::MAX,
            (context@.object_files, cursor as int) == layout_names(
                files0,
                names,
                ni as int,
                image_base as int,
            ),
            context@.global_symbols == old(context)@.global_symbols,
            files_similar(files0, context@.object_files),
            cursor as int == image_base + total_assigned(context@.object_files),
            total_data(context@.object_files) == total_data(files0),
            forall|o: int, s: int|
                0 <= o < context@.object_files.len() && 0 <= s
                    < context@.object_files[o].sections.len() && (
                #[trigger] context@.object_files[o].sections[s]).assigned_address is Some
                    ==> exists|q: int|
                    0 <= q < ni && context@.object_files[o].sections[s].name == names[q],
            forall|o: int, s: int|
                0 <= o < context@.object_files.len() && 0 <= s
                    < context@.object_files[o].sections.len() && (
                #[trigger] context@.object_files[o].sections[s]).assigned_address is Some
                    ==> context@.object_files[o].sections[s].data.len() > 0,
            layout_inv(context@.object_files, image_base as int, cursor as int),
        decreases nn - ni,
    {
        let ghost fs1 = context@.object_files;
        let ghost cur1 = cursor as int;
        let name = &output_sections[ni];
        proof {
            assert(name@ == names[ni as int]);
        }
        let no = context.object_files.len();
        let mut oi: usize = 0;
        while oi < no
            invariant
                nn == output_sections.len(),
                ni < nn,
                names == output_sections.deep_view(),
                name@ == names[ni as int],
                forall|i: int, j: int| 0 <= i < j < names.len() ==> names[i] != names[j],
                image_base + total_data(files0) <= u64::MAX,
                no == fs1.len(),
                0 <= oi <= no,
                (context@.object_files, cursor as int) == layout_pass(
                    fs1,
                    name@,
                    oi as int,
                    cur1,
                ),
                context@.object_files.len() == no,
                context@.global_symbols == old(context)@.global_symbols,
                files_similar(files0, context@.object_files),
                cursor as int == image_base + total_assigned(context@.object_files),
                total_data(context@.object_files) == total_data(files0),
                // sections of objects not yet visited in this pass are as at pass start
                forall|o: int| oi <= o < no ==> (#[trigger] context@.object_files[o]) == fs1[o],
                // at pass start, nothing named `name` was assigned yet
                forall|o: int, s: int|
                    0 <= o < no && 0 <= s < fs1[o].sections.len() && (
                    #[trigger] fs1[o].sections[s]).name == name@ ==>
                    fs1[o].sections[s].assigned_address is None,
                // tracking which names can be assigned so far
                forall|o: int, s: int|
                    0 <= o < context@.object_files.len() && 0 <= s
                        < context@.object_files[o].sections.len() && (
                    #[trigger] context@.object_files[o].sections[s]).assigned_address is Some
                        ==> exists|q: int|
                        0 <= q <= ni && context@.object_files[o].sections[s].name == names[q],
                forall|o: int, s: int|
                    0 <= o < context@.object_files.len() && 0 <= s
                        < context@.object_files[o].sections.len() && (
                    #[trigger] context@.object_files[o].sections[s]).assigned_address is Some
                        ==> context@.object_files[o].sections[s].data.len() > 0,
                layout_inv(context@.object_files, image_base as int, cursor as int),
            decreases no - oi,
        {
            let found = find_section(&context.object_files[oi], name);
            match found {
                Some(si) => {
                    if context.object_files[oi].sections[si].data.len() > 0 {
                        let ghost pre = context@.object_files;
                        let ghost pre_shallow = context.object_files@;
                        let sec_data;
                        let sec_name;
                        let sec_index;
                        let sec_input;
                        let sec_oid;
                        {
                            let sec = &context.object_files[oi].sections[si];
                            sec_data = clone_bytes(&sec.data);
                            sec_name = clone_bytes(&sec.name);
                            sec_index = sec.index;
                            sec_input = sec.input_address;
                            sec_oid = sec.object_id;
                        }
                        let new_sec = Section {
                            data: sec_data,
                            name: sec_name,
                            index: sec_index,
                            input_address: sec_input,
                            assigned_address: Some(cursor),
                            object_id: sec_oid,
                        };
                        let ghost len = pre[oi as int].sections[si as int].data.len() as int;
                        let ghost f2 = SpecObjectFile {
                            path: pre[oi as int].path,
                            symbols: pre[oi as int].symbols,
                            relocations: pre[oi as int].relocations,
                            sections: pre[oi as int].sections.update(si as int, new_sec@),
                        };
                        proof {
                            lemma_find_section_props(pre[oi as int].sections, name@, 0);
                            // the placed section was still unassigned
                            assert(pre[oi as int] == fs1[oi as int]);
                            assert(pre[oi as int].sections[si as int].name == name@);
                            assert(fs1[oi as int].sections[si as int].assigned_address is None);
                            // how the sums change
                            lemma_obj_assigned_update(
                                pre[oi as int].sections,
                                si as int,
                                new_sec@,
                            );
                            lemma_sum_data_update(pre[oi as int].sections, si as int, new_sec@);
                            lemma_total_assigned_update(pre, oi as int, f2);
                            lemma_total_data_update(pre, oi as int, f2);
                            lemma_total_assigned_le(pre.update(oi as int, f2));
                        }
                        let mut f = context.object_files.remove(oi);
                        f.sections.set(si, new_sec);
                        context.object_files.insert(oi, f);
                        let ghost post = context@.object_files;
                        proof {
                            assert(post.len() == pre_shallow.len());
                            assert forall|q: int| 0 <= q < post.len() && q != oi as int implies
                                #[trigger] post[q] == pre[q] by {
                                assert(context.object_files@[q] == pre_shallow[q]);
                            }
                            assert(context.object_files@[oi as int].sections.deep_view() =~= pre[
                                oi as int].sections.update(si as int, new_sec@));
                            assert(post[oi as int] == f2);
                            assert(post =~= pre.update(oi as int, f2));
                        }
                        cursor = cursor + context.object_files[oi].sections[si].data.len() as u64;
                        proof {
                            assert((context@.object_files, cursor as int) == layout_pass(
                                fs1,
                                name@,
                                oi + 1,
                                cur1,
                            ));
                            // names assigned so far
                            assert forall|o: int, s: int|
                                0 <= o < post.len() && 0 <= s < post[o].sections.len() && (
                            #[trigger] post[o].sections[s]).assigned_address is Some implies
                                exists|q: int| 0 <= q <= ni && post[o].sections[s].name
                                    == names[q] by {
                                if o == oi as int && s == si as int {
                                    assert(post[o].sections[s].name == names[ni as int]);
                                } else {
                                    assert(post[o].sections[s] == pre[o].sections[s]);
                                }
                            }
                            // placed sections have bytes
                            assert forall|ao: int, as_: int|
                                0 <= ao < post.len() && 0 <= as_ < post[ao].sections.len() && (
                            #[trigger] post[ao].sections[as_]).assigned_address is Some implies
                                post[ao].sections[as_].data.len() > 0 by {
                                if !(ao == oi as int && as_ == si as int) {
                                    assert(post[ao].sections[as_] == pre[ao].sections[as_]);
                                }
                            }
                            // everything else about the objects is unchanged
                            assert forall|o: int, s: int|
                                0 <= o < files0.len() && 0 <= s
                                    < files0[o].sections.len() implies {
                                let x = files0[o].sections[s];
                                let y = #[trigger] post[o].sections[s];
                                y.data == x.data && y.name == x.name && y.index == x.index
                                    && y.input_address == x.input_address && y.object_id
                                    == x.object_id
                            } by {
                                if !(o == oi as int && s == si as int) {
                                    assert(post[o].sections[s] == pre[o].sections[s]);
                                }
                            }
                            // bounds of every assigned section
                            assert forall|o: int, s: int|
                                0 <= o < post.len() && 0 <= s < post[o].sections.len() && (
                            #[trigger] post[o].sections[s]).assigned_address is Some implies {
                                let a = post[o].sections[s].assigned_address->0 as int;
                                image_base <= a && a + post[o].sections[s].data.len()
                                    <= cursor as int
                            } by {
                                if !(o == oi as int && s == si as int) {
                                    assert(post[o].sections[s] == pre[o].sections[s]);
                                }
                            }
                            // pairwise disjointness
                            assert forall|o1: int, s1: int, o2: int, s2: int|
                                0 <= o1 < post.len() && 0 <= s1 < post[o1].sections.len() && 0
                                    <= o2 < post.len() && 0 <= s2 < post[o2].sections.len() && !(
                                o1 == o2 && s1 == s2) && (
                            #[trigger] post[o1].sections[s1]).assigned_address is Some && (
                            #[trigger] post[o2].sections[s2]).assigned_address is Some implies {
                                let a1 = post[o1].sections[s1].assigned_address->0 as int;
                                let l1 = post[o1].sections[s1].data.len() as int;
                                let a2 = post[o2].sections[s2].assigned_address->0 as int;
                                let l2 = post[o2].sections[s2].data.len() as int;
                                a1 + l1 <= a2 || a2 + l2 <= a1
                            } by {
                                if !(o1 == oi as int && s1 == si as int) {
                                    assert(post[o1].sections[s1] == pre[o1].sections[s1]);
                                }
                                if !(o2 == oi as int && s2 == si as int) {
                                    assert(post[o2].sections[s2] == pre[o2].sections[s2]);
                                }
                            }
                        }
                    } else {
                        proof {
                            assert((context@.object_files, cursor as int) == layout_pass(
                                fs1,
                                name@,
                                oi + 1,
                                cur1,
                            )) by {
                                assert(context@.object_files =~= context@.object_files.update(
                                    oi as int,
                                    context@.object_files[oi as int],
                                ));
                            }
                        }
                    }
                },
                None => {
                    proof {
                        assert((context@.object_files, cursor as int) == layout_pass(
                            fs1,
                            name@,
                            oi + 1,
                            cur1,
                        )) by {
                            assert(context@.object_files =~= context@.object_files.update(
                                oi as int,
                                context@.object_files[oi as int],
                            ));
                        }
                    }
                },
            }
            oi += 1;
        }
        ni += 1;
    }
    proof {
        lemma_total_assigned_le(context@.object_files);
    }
    cursor
}

/// A fresh object array has nothing assigned.
proof fn lemma_total_assigned_empty(files: Seq<SpecObjectFile>)
    ensures
        (forall|o: int, s: int|
            0 <= o < files.len() && 0 <= s < files[o].sections.len() ==> (
            #[trigger] files[o].sections[s]).assigned_address is None) ==> total_assigned(files)
            == 0,
    decreases files.len(),
{
    if files.len() > 0 {
        lemma_total_assigned_empty(files.drop_last());
        if forall|o: int, s: int|
            0 <= o < files.len() && 0 <= s < files[o].sections.len() ==> (
            #[trigger] files[o].sections[s]).assigned_address is None {
            lemma_obj_assigned_none(files.last().sections);
            assert(files.drop_last().len() == files.len() - 1);
            assert forall|o: int, s: int|
                0 <= o < files.drop_last().len() && 0 <= s
                    < files.drop_last()[o].sections.len() implies (
            #[trigger] files.drop_last()[o].sections[s]).assigned_address is None by {
                assert(files.drop_last()[o] == files[o]);
            }
        }
    }
}

/// An object with nothing assigned contributes nothing.
proof fn lemma_obj_assigned_none(secs: Seq<SpecSection>)
    ensures
        (forall|s: int| 0 <= s < secs.len() ==> (#[trigger] secs[s]).assigned_address is None)
            ==> obj_assigned(secs) == 0,
    decreases secs.len(),
{
    if secs.len() > 0 {
        lemma_obj_assigned_none(secs.drop_last());
        assert forall|s: int| 0 <= s < secs.drop_last().len() implies (#[trigger] secs.drop_last()[s]).assigned_address
            == secs[s].assigned_address by {}
    }
}

} // verus!
