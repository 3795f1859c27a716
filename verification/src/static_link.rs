//! The whole static link: load and resolve every input in order, lay out
//! the output sections, bind every global symbol to its final address,
//! apply the relocations, and assemble the output section images.
//!
//! The pipeline is a pure function of the ordered input byte streams and
//! the configuration: the contract of [`statically_link_files`] pins the
//! result to [`link_spec`], so two runs over identical inputs produce
//! bit-identical output images.

use vstd::prelude::*;
use crate::byteops::clone_bytes;
use crate::common::{
    Context, ObjectFile, RelocKind, SpecContext, SpecObjectFile, SpecSymbol, obj_wf,
    reloc_in_sections, sym_in_files, table_wf,
};
use crate::error::LinkerError;
use crate::layout::{
    files_similar, find_section_from, layout_inv, layout_spec, perform_layout, placed_disjoint,
    total_data,
};
use crate::object::{ParseOutcome, parse_spec};
use crate::reloc::{
    FinErr, RelErr, apply_relocations, finalize_spec, finalize_symbols, relocate_spec,
};
use crate::resolve::{defined_in, resolve_object, resolve_object_spec};

verus! {

/// The linking mode the caller asks for; only static linking is
/// implemented.
#[derive(Clone, Copy, Debug, PartialEq, Eq, Structural)]
pub enum LinkMode {
    Static,
    Dynamic,
}

/// Mathematical value of a [`LinkConfig`].
pub struct SpecLinkConfig {
    pub image_base: u64,
    pub output_sections: Seq<Seq<u8>>,
    pub mode: LinkMode,
}

/// What one linker invocation is asked to do.
#[derive(Debug)]
pub struct LinkConfig {
    /// Starting virtual address of the first placed section.
    pub image_base: u64,
    /// Ordered list of output section names.
    pub output_sections: Vec<Vec<u8>>,
    pub mode: LinkMode,
}

impl View for LinkConfig {
    type V = SpecLinkConfig;

    open spec fn view(&self) -> SpecLinkConfig {
        SpecLinkConfig {
            image_base: self.image_base,
            output_sections: self.output_sections.deep_view(),
            mode: self.mode,
        }
    }
}

/// The name of the executable code output section.
pub open spec fn text_name() -> Seq<u8> {
    seq![0x2eu8, 0x74u8, 0x65u8, 0x78u8, 0x74u8]
}

/// The name of the initialized data output section.
pub open spec fn data_name() -> Seq<u8> {
    seq![0x2eu8, 0x64u8, 0x61u8, 0x74u8, 0x61u8]
}

/// The default image base.
pub const DEFAULT_IMAGE_BASE: u64 = 0x400000;

impl LinkConfig {
    /// The default static configuration: image base 0x400000, output
    /// sections `.text` then `.data`.
    pub fn default_static() -> (r: LinkConfig)
        ensures
            r@.image_base == DEFAULT_IMAGE_BASE,
            r@.output_sections.len() == 2,
            r@.output_sections[0] == text_name(),
            r@.output_sections[1] == data_name(),
            r@.mode == LinkMode::Static,
    {
        let text: Vec<u8> = vec![0x2eu8, 0x74u8, 0x65u8, 0x78u8, 0x74u8];
        let data: Vec<u8> = vec![0x2eu8, 0x64u8, 0x61u8, 0x74u8, 0x61u8];
        let mut names: Vec<Vec<u8>> = Vec::new();
        proof {
            assert(text@ =~= text_name());
            assert(data@ =~= data_name());
        }
        names.push(text);
        names.push(data);
        let r = LinkConfig {
            image_base: DEFAULT_IMAGE_BASE,
            output_sections: names,
            mode: LinkMode::Static,
        };
        proof {
            assert(r@.output_sections[0] == text_name());
            assert(r@.output_sections[1] == data_name());
        }
        r
    }
}

/// Mathematical value of a [`LinkInput`].
pub struct SpecLinkInput {
    pub path: Seq<char>,
    pub data: Seq<u8>,
}

/// One input handed to the linker: the path it was read from, for
/// diagnostics, and its whole byte image.
#[derive(Debug)]
pub struct LinkInput {
    pub path: String,
    pub data: Vec<u8>,
}

impl View for LinkInput {
    type V = SpecLinkInput;

    open spec fn view(&self) -> SpecLinkInput {
        SpecLinkInput { path: self.path@, data: self.data@ }
    }
}

impl DeepView for LinkInput {
    type V = SpecLinkInput;

    open spec fn deep_view(&self) -> SpecLinkInput {
        self.view()
    }
}

/// Mathematical value of an [`OutputSection`].
pub struct SpecOutputSection {
    pub name: Seq<u8>,
    pub address: u64,
    pub data: Seq<u8>,
}

/// One output section handed to the writer: its name, its assigned base
/// address, and the concatenated relocated bytes of its input sections.
#[derive(Debug)]
pub struct OutputSection {
    pub name: Vec<u8>,
    pub address: u64,
    pub data: Vec<u8>,
}

impl View for OutputSection {
    type V = SpecOutputSection;

    open spec fn view(&self) -> SpecOutputSection {
        SpecOutputSection { name: self.name@, address: self.address, data: self.data@ }
    }
}

impl DeepView for OutputSection {
    type V = SpecOutputSection;

    open spec fn deep_view(&self) -> SpecOutputSection {
        self.view()
    }
}

/// Mathematical value of a [`LinkOutput`].
pub struct SpecLinkOutput {
    pub sections: Seq<SpecOutputSection>,
    pub context: SpecContext,
}

/// The result of a successful link: the output section images, and the
/// final context with every symbol bound and every section relocated.
#[derive(Debug)]
pub struct LinkOutput {
    pub sections: Vec<OutputSection>,
    pub context: Context,
}

impl View for LinkOutput {
    type V = SpecLinkOutput;

    open spec fn view(&self) -> SpecLinkOutput {
        SpecLinkOutput { sections: self.sections.deep_view(), context: self.context@ }
    }
}

/// A fatal failure of the pipeline, with the fields its diagnostic
/// carries (free-form cause text aside).
pub enum LinkFail {
    /// The input at this path is not a valid object.
    Parse(Seq<char>),
    /// The input at this path is valid but not relocatable.
    InvalidType(Seq<char>),
    /// Two strong definitions of this name.
    MultipleDefs(Seq<u8>),
    /// This name is referenced (from the object at this path) but never
    /// defined.
    Undefined(Seq<char>, Seq<u8>),
    /// A defined symbol's home section was not selected for output.
    Orphan(Seq<char>, usize),
    /// A relocation value out of range: path, section, offset, kind.
    Overflow(Seq<char>, usize, u64, RelocKind),
    /// The caller asked for a mode the core does not implement.
    BadMode,
}

/// Sum of the lengths of the input byte images.
pub open spec fn total_input_len(inputs: Seq<SpecLinkInput>) -> int
    decreases inputs.len(),
{
    if inputs.len() == 0 {
        0
    } else {
        total_input_len(inputs.drop_last()) + inputs.last().data.len()
    }
}

/// The loader and resolver over the first `k` inputs: the loaded
/// objects, with dense identifiers in input order, and the resolved
/// global symbol table; or the first failure.
pub open spec fn load_resolve(inputs: Seq<SpecLinkInput>, k: int) -> Result<
    (Seq<SpecObjectFile>, Seq<SpecSymbol>),
    LinkFail,
>
    decreases k,
{
    if k <= 0 {
        Ok((Seq::empty(), Seq::empty()))
    } else {
        match load_resolve(inputs, k - 1) {
            Err(e) => Err(e),
            Ok((files, t)) => {
                match parse_spec(inputs[k - 1].data, inputs[k - 1].path, files.len() as usize) {
                    ParseOutcome::Malformed => Err(LinkFail::Parse(inputs[k - 1].path)),
                    ParseOutcome::NotRelocatable => Err(LinkFail::InvalidType(inputs[k - 1].path)),
                    ParseOutcome::Object(o) => {
                        match resolve_object_spec(t, o) {
                            Ok(t2) => Ok((files.push(o), t2)),
                            Err(n) => Err(LinkFail::MultipleDefs(n)),
                        }
                    },
                }
            },
        }
    }
}

/// The failure `link_spec` reports when loading or resolving fails.
pub open spec fn load_resolve_fail(inputs: Seq<SpecLinkInput>, config: SpecLinkConfig) -> Result<
    SpecLinkOutput,
    LinkFail,
> {
    Err(load_resolve(inputs, inputs.len() as int)->Err_0)
}

/// A failure while loading a prefix of the inputs decides the run.
pub proof fn lemma_load_resolve_err(inputs: Seq<SpecLinkInput>, k1: int, k2: int)
    requires
        0 <= k1 <= k2,
        load_resolve(inputs, k1) is Err,
    ensures
        load_resolve(inputs, k2) == load_resolve(inputs, k1),
    decreases k2,
{
    if k2 > k1 {
        lemma_load_resolve_err(inputs, k1, k2 - 1);
    }
}

/// The concatenated data and first assigned address of the sections
/// named `name` among the first `o` objects, in load order.
pub open spec fn out_sec_for(files: Seq<SpecObjectFile>, name: Seq<u8>, o: int) -> (
    Seq<u8>,
    Option<u64>,
)
    decreases o,
{
    if o <= 0 {
        (Seq::empty(), None::<u64>)
    } else {
        let (d, addr) = out_sec_for(files, name, o - 1);
        let s = find_section_from(files[o - 1].sections, name, 0);
        if s >= 0 && files[o - 1].sections[s].assigned_address is Some {
            (
                d + files[o - 1].sections[s].data,
                if addr is Some {
                    addr
                } else {
                    files[o - 1].sections[s].assigned_address
                },
            )
        } else {
            (d, addr)
        }
    }
}

/// The output sections for the first `n` output names, in list order;
/// a name with no placed section contributes no output section.
pub open spec fn build_output_spec(
    files: Seq<SpecObjectFile>,
    names: Seq<Seq<u8>>,
    n: int,
) -> Seq<SpecOutputSection>
    decreases n,
{
    if n <= 0 {
        Seq::empty()
    } else {
        let prev = build_output_spec(files, names, n - 1);
        let (d, addr) = out_sec_for(files, names[n - 1], files.len() as int);
        match addr {
            Some(a) => prev.push(SpecOutputSection { name: names[n - 1], address: a, data: d }),
            None => prev,
        }
    }
}

/// The whole pipeline as a function of the inputs and the
/// configuration.
pub open spec fn link_spec(inputs: Seq<SpecLinkInput>, config: SpecLinkConfig) -> Result<
    SpecLinkOutput,
    LinkFail,
> {
    if config.mode != LinkMode::Static {
        Err(LinkFail::BadMode)
    } else {
        match load_resolve(inputs, inputs.len() as int) {
            Err(e) => Err(e),
            Ok((files, t)) => {
                let (files2, _cur) = layout_spec(files, config.output_sections, config.image_base);
                match finalize_spec(files2, t) {
                    Err(FinErr::Undef(p, n)) => Err(LinkFail::Undefined(p, n)),
                    Err(FinErr::Orphan(p, s)) => Err(LinkFail::Orphan(p, s)),
                    Ok(t2) => {
                        match relocate_spec(files2, t2) {
                            Err((p, RelErr::Undef(n))) => Err(LinkFail::Undefined(p, n)),
                            Err((p, RelErr::Overflow(s, off, k))) => Err(
                                LinkFail::Overflow(p, s, off, k),
                            ),
                            Ok(files3) => Ok(
                                SpecLinkOutput {
                                    sections: build_output_spec(
                                        files3,
                                        config.output_sections,
                                        config.output_sections.len() as int,
                                    ),
                                    context: SpecContext {
                                        object_files: files3,
                                        global_symbols: t2,
                                    },
                                },
                            ),
                        }
                    },
                }
            },
        }
    }
}

/// Appends the bytes of `src` to `dst`.
fn append_bytes(dst: &mut Vec<u8>, src: &Vec<u8>)
    ensures
        final(dst)@ == old(dst)@ + src@,
{
    let n = src.len();
    let mut i: usize = 0;
    while i < n
        invariant
            n == src.len(),
            dst@.len() == old(dst)@.len() + i,
            0 <= i <= n,
            forall|q: int| 0 <= q < old(dst)@.len() ==> dst@[q] == old(dst)@[q],
            forall|q: int| 0 <= q < i ==> dst@[old(dst)@.len() + q] == src@[q],
        decreases n - i,
    {
        dst.push(src[i]);
        i += 1;
    }
    proof {
        assert(dst@ =~= old(dst)@ + src@);
    }
}

/// Assembles the output section images: for each output name in order,
/// the concatenated relocated bytes of its placed input sections, based
/// at the first placed section's address.
fn build_output(files: &Vec<ObjectFile>, names: &Vec<Vec<u8>>) -> (r: Vec<OutputSection>)
    ensures
        r.deep_view() == build_output_spec(files.deep_view(), names.deep_view(), names@.len() as int),
{
    let nn = names.len();
    let mut out: Vec<OutputSection> = Vec::new();
    let mut ni: usize = 0;
    proof {
        assert(out.deep_view() =~= build_output_spec(files.deep_view(), names.deep_view(), 0));
    }
    while ni < nn
        invariant
            nn == names@.len(),
            0 <= ni <= nn,
            out.deep_view() == build_output_spec(
                files.deep_view(),
                names.deep_view(),
                ni as int,
            ),
        decreases nn - ni,
    {
        let name = &names[ni];
        proof {
            assert(name@ == names.deep_view()[ni as int]);
        }
        let no = files.len();
        let mut data: Vec<u8> = Vec::new();
        let mut addr: Option<u64> = None;
        let mut oi: usize = 0;
        proof {
            assert((data@, addr) == out_sec_for(files.deep_view(), name@, 0));
        }
        while oi < no
            invariant
                nn == names@.len(),
                ni < nn,
                name@ == names.deep_view()[ni as int],
                no == files@.len(),
                0 <= oi <= no,
                (data@, addr) == out_sec_for(files.deep_view(), name@, oi as int),
            decreases no - oi,
        {
            match crate::layout::find_section(&files[oi], name) {
                Some(si) => {
                    match files[oi].sections[si].assigned_address {
                        Some(a) => {
                            append_bytes(&mut data, &files[oi].sections[si].data);
                            if addr.is_none() {
                                addr = Some(a);
                            }
                        },
                        None => {},
                    }
                },
                None => {},
            }
            oi += 1;
        }
        match addr {
            Some(a) => {
                let ghost before = out.deep_view();
                out.push(OutputSection { name: clone_bytes(name), address: a, data });
                proof {
                    assert(out.deep_view() =~= before.push(
                        SpecOutputSection {
                            name: name@,
                            address: a,
                            data: out_sec_for(
                                files.deep_view(),
                                name@,
                                files@.len() as int,
                            ).0,
                        },
                    ));
                }
            },
            None => {},
        }
        ni += 1;
    }
    out
}

/// Runs the pipeline: load and resolve each input in order, lay out the
/// output sections, bind every global symbol, apply every relocation,
/// and assemble the output images. The result — success or the exact
/// failure — is pinned to [`link_spec`] over the input views alone, so
/// linking is deterministic. On success the returned context's symbol
/// table holds at most one entry per name.
#[verifier::rlimit(100)]
pub fn link(inputs: &Vec<LinkInput>, config: &LinkConfig) -> (r: Result<LinkOutput, LinkerError>)
    requires
        config@.image_base + total_input_len(inputs.deep_view()) <= u64::MAX,
        forall|i: int, j: int| 0 <= i < j < config@.output_sections.len() ==>
            config@.output_sections[i] != config@.output_sections[j],
    ensures
        match link_spec(inputs.deep_view(), config@) {
            Ok(out) => r matches Ok(lo) && lo@ == out && table_wf(lo@.context.global_symbols)
                && placed_disjoint(lo@.context.object_files, config@.image_base as int),
            Err(LinkFail::Parse(p)) => r matches Err(LinkerError::ParseError(ep, _)) && ep@ == p,
            Err(LinkFail::InvalidType(p)) => r matches Err(LinkerError::InvalidFileType(ep))
                && ep@ == p,
            Err(LinkFail::MultipleDefs(n)) => r matches Err(LinkerError::MultipleDefinitions(en))
                && en@ == n,
            Err(LinkFail::Undefined(p, n)) => r matches Err(LinkerError::UndefinedSymbol(ep, en))
                && ep@ == p && en@ == n,
            Err(LinkFail::Orphan(p, s)) => r matches Err(LinkerError::OrphanSection(ep, es))
                && ep@ == p && es == s,
            Err(LinkFail::Overflow(p, s, off, k)) => r matches Err(
                LinkerError::RelocationOverflow(ep, es, eo, ek),
            ) && ep@ == p && es == s && eo == off && ek == k,
            Err(LinkFail::BadMode) => r matches Err(LinkerError::UnsupportedMode),
        },
{
    let ghost sinputs = inputs.deep_view();
    let ghost sconfig = config@;
    let is_static = match config.mode {
        LinkMode::Static => true,
        LinkMode::Dynamic => false,
    };
    if !is_static {
        return Err(LinkerError::UnsupportedMode);
    }
    proof {
        assert(sconfig.mode == LinkMode::Static);
    }
    let mut context = Context::new();
    let n = inputs.len();
    let mut i: usize = 0;
    proof {
        assert(load_resolve(sinputs, 0) == Ok::<_, LinkFail>((
            context@.object_files,
            context@.global_symbols,
        )));
    }
    while i < n
        invariant
            sinputs == inputs.deep_view(),
            sconfig == config@,
            sconfig.mode == LinkMode::Static,
            n == sinputs.len(),
            0 <= i <= n,
            context@.object_files.len() == i,
            load_resolve(sinputs, i as int) == Ok::<_, LinkFail>((
                context@.object_files,
                context@.global_symbols,
            )),
            forall|o: int| 0 <= o < i ==> obj_wf(#[trigger] context@.object_files[o], o as usize),
            forall|o: int| 0 <= o < i ==> (#[trigger] context@.object_files[o]).sections.len()
                <= usize::MAX,
            table_wf(context@.global_symbols),
            forall|q: int| 0 <= q < context@.global_symbols.len() ==> sym_in_files(
                #[trigger] context@.global_symbols[q],
                context@.object_files,
            ),
            forall|o: int, s: int|
                0 <= o < i && 0 <= s < context@.object_files[o].sections.len() ==> (
                #[trigger] context@.object_files[o].sections[s]).assigned_address is None,
            total_data(context@.object_files) <= total_input_len(sinputs.take(i as int)),
        decreases n - i,
    {
        let oid = context.object_files.len();
        proof {
            assert(inputs.deep_view()[i as int] == inputs@[i as int]@);
        }
        let f = match ObjectFile::new(&inputs[i].path, &inputs[i].data, oid) {
            Ok(f) => f,
            Err(e) => {
                proof {
                    assert(load_resolve(sinputs, i + 1) is Err);
                    lemma_load_resolve_err(sinputs, i + 1, n as int);
                    assert(link_spec(sinputs, sconfig) == load_resolve_fail(sinputs, sconfig));
                }
                return Err(e);
            },
        };
        let ghost o = f@;
        match resolve_object(&mut context.global_symbols, &f) {
            Ok(()) => {},
            Err(e) => {
                proof {
                    assert(load_resolve(sinputs, i + 1) is Err);
                    lemma_load_resolve_err(sinputs, i + 1, n as int);
                    assert(link_spec(sinputs, sconfig) == load_resolve_fail(sinputs, sconfig));
                }
                return Err(e);
            },
        }
        proof {
            crate::resolve::lemma_resolve_syms_preserves(
                load_resolve(sinputs, i as int)->Ok_0.1,
                o.symbols,
                o.symbols.len() as int,
                context@.global_symbols,
            );
        }
        let ns_check = f.sections.len();
        proof {
            assert(o.sections.len() == ns_check);
        }
        let ghost files_before = context@.object_files;
        context.object_files.push(f);
        proof {
            assert(context@.object_files =~= files_before.push(o));
            // the new object is well-formed under its id
            assert forall|q: int| 0 <= q <= i implies obj_wf(
                #[trigger] context@.object_files[q],
                q as usize,
            ) by {
                if q < i {
                    assert(context@.object_files[q] == files_before[q]);
                }
            }
            assert forall|q: int| 0 <= q <= i implies (#[trigger] context@.object_files[q]).sections.len()
                <= usize::MAX by {
                if q < i {
                    assert(context@.object_files[q] == files_before[q]);
                }
            }
            // table entries still point into the (extended) object array
            assert forall|q: int| 0 <= q < context@.global_symbols.len() implies sym_in_files(
                #[trigger] context@.global_symbols[q],
                context@.object_files,
            ) by {
                let e = context@.global_symbols[q];
                if exists|p: int| 0 <= p < load_resolve(sinputs, i as int)->Ok_0.1.len()
                    && e == load_resolve(sinputs, i as int)->Ok_0.1[p] {
                    let p = choose|p: int|
                        0 <= p < load_resolve(sinputs, i as int)->Ok_0.1.len() && e
                            == load_resolve(sinputs, i as int)->Ok_0.1[p];
                    assert(sym_in_files(e, files_before));
                    assert(context@.object_files[e.object_id as int] == files_before[
                        e.object_id as int]);
                } else {
                    let j = choose|j: int|
                        0 <= j < o.symbols.len() && e == o.symbols[j];
                    assert(obj_wf(o, i as usize));
                    assert(e.object_id == i);
                    assert(context@.object_files[i as int] == o);
                }
            }
            // the data total grows by at most this input's length
            assert(total_data(context@.object_files.drop_last()) == total_data(files_before)) by {
                assert(context@.object_files.drop_last() =~= files_before);
            }
            assert(sinputs.take(i + 1).drop_last() =~= sinputs.take(i as int));
        }
        i += 1;
    }
    proof {
        assert(sinputs.take(n as int) =~= sinputs);
    }
    let end = perform_layout(&mut context, &config.output_sections, config.image_base);
    let ghost files1 = load_resolve(sinputs, n as int)->Ok_0.0;
    let ghost t1 = load_resolve(sinputs, n as int)->Ok_0.1;
    let ghost files2 = context@.object_files;
    proof {
        // symbols and relocations keep their meaning across layout
        assert(files_similar(files1, files2));
        assert forall|q: int| 0 <= q < context@.global_symbols.len() implies sym_in_files(
            #[trigger] context@.global_symbols[q],
            files2,
        ) by {
            let e = context@.global_symbols[q];
            assert(sym_in_files(e, files1));
            if e.section_index is Some {
                let si = e.section_index->0;
                assert(files2[e.object_id as int].sections[si as int].data == files1[
                    e.object_id as int].sections[si as int].data);
            }
        }
        assert forall|o: int, s: int|
            0 <= o < files2.len() && 0 <= s < files2[o].sections.len() && (
        #[trigger] files2[o].sections[s]).assigned_address is Some implies {
            let sec = files2[o].sections[s];
            sec.data.len() > 0 && sec.assigned_address->0 + sec.data.len() <= u64::MAX
        } by {
            assert(layout_inv(files2, config@.image_base as int, end as int));
        }
    }
    match finalize_symbols(&mut context.global_symbols, &context.object_files) {
        Ok(()) => {},
        Err(e) => {
            return Err(e);
        },
    }
    let ghost t2 = context@.global_symbols;
    proof {
        crate::reloc::lemma_finalize_wf(files2, t1, t1.len() as int);
        assert(table_wf(t2));
        assert forall|o: int, j: int|
            0 <= o < files2.len() && 0 <= j < files2[o].relocations.len() implies
            reloc_in_sections(#[trigger] files2[o].relocations[j], files2[o].sections) by {
            assert(obj_wf(files1[o], o as usize));
            assert(files2[o].relocations == files1[o].relocations);
            assert(reloc_in_sections(files1[o].relocations[j], files1[o].sections));
            assert(files2[o].sections[files1[o].relocations[j].section_index as int].data
                == files1[o].sections[files1[o].relocations[j].section_index as int].data);
        }
    }
    match apply_relocations(&mut context.object_files, &context.global_symbols) {
        Ok(()) => {},
        Err(e) => {
            return Err(e);
        },
    }
    let ghost files3 = context@.object_files;
    proof {
        assert forall|o: int| 0 <= o < files2.len() implies (#[trigger] files2[o]).sections.len()
            <= usize::MAX by {
            assert(files2[o].sections.len() == files1[o].sections.len());
        }
        crate::reloc::lemma_relocate_shape(files2, t2, files2.len() as int);
        assert(layout_inv(files2, config@.image_base as int, end as int));
        assert(placed_disjoint(files3, config@.image_base as int)) by {
            assert forall|o: int, s: int|
                0 <= o < files3.len() && 0 <= s < files3[o].sections.len() && (
            #[trigger] files3[o].sections[s]).assigned_address is Some implies config@.image_base
                <= files3[o].sections[s].assigned_address->0 by {
                assert(files3[o].sections[s].assigned_address == files2[o].sections[
                    s].assigned_address);
            }
            assert forall|o1: int, s1: int, o2: int, s2: int|
                0 <= o1 < files3.len() && 0 <= s1 < files3[o1].sections.len() && 0 <= o2
                    < files3.len() && 0 <= s2 < files3[o2].sections.len() && !(o1 == o2 && s1
                    == s2) && (#[trigger] files3[o1].sections[s1]).assigned_address is Some && (
            #[trigger] files3[o2].sections[s2]).assigned_address is Some implies {
                let a1 = files3[o1].sections[s1].assigned_address->0 as int;
                let l1 = files3[o1].sections[s1].data.len() as int;
                let a2 = files3[o2].sections[s2].assigned_address->0 as int;
                let l2 = files3[o2].sections[s2].data.len() as int;
                a1 + l1 <= a2 || a2 + l2 <= a1
            } by {
                assert(files3[o1].sections[s1].assigned_address == files2[o1].sections[
                    s1].assigned_address);
                assert(files3[o1].sections[s1].data.len() == files2[o1].sections[s1].data.len());
                assert(files3[o2].sections[s2].assigned_address == files2[o2].sections[
                    s2].assigned_address);
                assert(files3[o2].sections[s2].data.len() == files2[o2].sections[s2].data.len());
            }
        }
    }
    let sections = build_output(&context.object_files, &config.output_sections);
    Ok(LinkOutput { sections, context })
}

/// Longer input prefixes sum to at least as much.
pub proof fn lemma_total_input_mono(inputs: Seq<SpecLinkInput>, k1: int, k2: int)
    requires
        0 <= k1 <= k2 <= inputs.len(),
    ensures
        total_input_len(inputs.take(k1)) <= total_input_len(inputs.take(k2)),
    decreases k2,
{
    if k2 > k1 {
        lemma_total_input_mono(inputs, k1, k2 - 1);
        assert(inputs.take(k2).drop_last() =~= inputs.take(k2 - 1));
    }
}

/// Links the given inputs with the default static configuration.
pub fn statically_link_files(input_files: &Vec<LinkInput>) -> (r: Result<LinkOutput, LinkerError>)
    requires
        DEFAULT_IMAGE_BASE + total_input_len(input_files.deep_view()) <= u64::MAX,
    ensures
        match link_spec(input_files.deep_view(), default_config()) {
            Ok(out) => r matches Ok(lo) && lo@ == out && table_wf(lo@.context.global_symbols)
                && placed_disjoint(lo@.context.object_files, DEFAULT_IMAGE_BASE as int),
            Err(LinkFail::Parse(p)) => r matches Err(LinkerError::ParseError(ep, _)) && ep@ == p,
            Err(LinkFail::InvalidType(p)) => r matches Err(LinkerError::InvalidFileType(ep))
                && ep@ == p,
            Err(LinkFail::MultipleDefs(n)) => r matches Err(LinkerError::MultipleDefinitions(en))
                && en@ == n,
            Err(LinkFail::Undefined(p, n)) => r matches Err(LinkerError::UndefinedSymbol(ep, en))
                && ep@ == p && en@ == n,
            Err(LinkFail::Orphan(p, s)) => r matches Err(LinkerError::OrphanSection(ep, es))
                && ep@ == p && es == s,
            Err(LinkFail::Overflow(p, s, off, k)) => r matches Err(
                LinkerError::RelocationOverflow(ep, es, eo, ek),
            ) && ep@ == p && es == s && eo == off && ek == k,
            Err(LinkFail::BadMode) => r matches Err(LinkerError::UnsupportedMode),
        },
{
    let config = LinkConfig::default_static();
    proof {
        assert(config@.output_sections =~= default_config().output_sections);
        assert(config@ == default_config());
        assert(text_name() != data_name()) by {
            assert(text_name()[1] != data_name()[1]);
        }
        assert forall|i: int, j: int| 0 <= i < j < config@.output_sections.len() implies
            config@.output_sections[i] != config@.output_sections[j] by {
            assert(config@.output_sections[0] == text_name());
            assert(config@.output_sections[1] == data_name());
        }
    }
    link(input_files, &config)
}

/// The default static configuration, mathematically.
pub open spec fn default_config() -> SpecLinkConfig {
    SpecLinkConfig {
        image_base: DEFAULT_IMAGE_BASE,
        output_sections: seq![text_name(), data_name()],
        mode: LinkMode::Static,
    }
}

/// After resolution completes without error, the global symbol table
/// holds at most one entry per name, every entry a named global.
pub proof fn lemma_resolution_unique(inputs: Seq<SpecLinkInput>, k: int)
    requires
        0 <= k,
        load_resolve(inputs, k) is Ok,
    ensures
        table_wf(load_resolve(inputs, k)->Ok_0.1),
    decreases k,
{
    if k > 0 {
        if load_resolve(inputs, k - 1) is Err {
            lemma_load_resolve_err(inputs, k - 1, k);
            assert(false);
        }
        lemma_resolution_unique(inputs, k - 1);
        let (files, t) = load_resolve(inputs, k - 1)->Ok_0;
        match parse_spec(inputs[k - 1].data, inputs[k - 1].path, files.len() as usize) {
            ParseOutcome::Object(o) => {
                crate::object::lemma_parse_object_wf(
                    inputs[k - 1].data,
                    inputs[k - 1].path,
                    files.len() as usize,
                );
                crate::resolve::lemma_resolve_syms_preserves(
                    t,
                    o.symbols,
                    o.symbols.len() as int,
                    load_resolve(inputs, k)->Ok_0.1,
                );
            },
            _ => {
                assert(false);
            },
        }
    }
}

/// Loading a prefix of a longer input list gives the same objects and
/// table as loading that prefix alone.
pub proof fn lemma_load_resolve_prefix(
    inputs: Seq<SpecLinkInput>,
    more: Seq<SpecLinkInput>,
    k: int,
)
    requires
        0 <= k <= inputs.len(),
    ensures
        load_resolve(inputs + more, k) == load_resolve(inputs, k),
    decreases k,
{
    if k > 0 {
        lemma_load_resolve_prefix(inputs, more, k - 1);
        assert((inputs + more)[k - 1] == inputs[k - 1]);
    }
}

/// Loading further inputs never un-defines a name in the table.
pub proof fn lemma_load_resolve_defined_mono(
    inputs: Seq<SpecLinkInput>,
    k1: int,
    k2: int,
    name: Seq<u8>,
)
    requires
        0 <= k1 <= k2,
        load_resolve(inputs, k2) is Ok,
        load_resolve(inputs, k1) is Ok,
        defined_in(load_resolve(inputs, k1)->Ok_0.1, name),
    ensures
        defined_in(load_resolve(inputs, k2)->Ok_0.1, name),
    decreases k2,
{
    if k2 > k1 {
        if load_resolve(inputs, k2 - 1) is Err {
            lemma_load_resolve_err(inputs, k2 - 1, k2);
            assert(false);
        }
        lemma_load_resolve_defined_mono(inputs, k1, k2 - 1, name);
        let t = load_resolve(inputs, k2 - 1)->Ok_0.1;
        match parse_spec(
            inputs[k2 - 1].data,
            inputs[k2 - 1].path,
            load_resolve(inputs, k2 - 1)->Ok_0.0.len() as usize,
        ) {
            ParseOutcome::Object(o) => {
                crate::resolve::lemma_resolve_syms_defined_mono(
                    t,
                    o.symbols,
                    o.symbols.len() as int,
                    name,
                );
            },
            _ => {
                assert(false);
            },
        }
    }
}

/// Undefined-reference detection is monotone: a name that resolution
/// over some inputs leaves defined is still defined after resolution
/// over those inputs followed by more, so adding inputs can only turn
/// undefined-symbol failures into successes for that name, never the
/// reverse.
pub proof fn lemma_undefined_monotone(
    inputs: Seq<SpecLinkInput>,
    more: Seq<SpecLinkInput>,
    name: Seq<u8>,
)
    requires
        load_resolve(inputs, inputs.len() as int) is Ok,
        defined_in(load_resolve(inputs, inputs.len() as int)->Ok_0.1, name),
        load_resolve(inputs + more, (inputs + more).len() as int) is Ok,
    ensures
        defined_in(load_resolve(inputs + more, (inputs + more).len() as int)->Ok_0.1, name),
{
    lemma_load_resolve_prefix(inputs, more, inputs.len() as int);
    lemma_load_resolve_defined_mono(
        inputs + more,
        inputs.len() as int,
        (inputs + more).len() as int,
        name,
    );
}

/// Linking is deterministic: the pipeline's result is a function of the
/// ordered input byte streams and the configuration alone, so identical
/// inputs yield bit-identical output images.
pub proof fn lemma_link_deterministic(
    inputs1: Seq<SpecLinkInput>,
    config1: SpecLinkConfig,
    inputs2: Seq<SpecLinkInput>,
    config2: SpecLinkConfig,
)
    requires
        inputs1 == inputs2,
        config1 == config2,
    ensures
        link_spec(inputs1, config1) == link_spec(inputs2, config2),
{
}

} // verus!
