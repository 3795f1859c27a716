//! End-to-end tests of the link pipeline over hand-built relocatable
//! object images.

use cold::error::LinkerError;
use cold::common::ObjectFile;
use cold::static_link::{statically_link_files, link, LinkConfig, LinkInput, LinkMode};

fn p16(b: &mut Vec<u8>, v: u16) {
    b.extend_from_slice(&v.to_le_bytes());
}

fn p32(b: &mut Vec<u8>, v: u32) {
    b.extend_from_slice(&v.to_le_bytes());
}

fn p64(b: &mut Vec<u8>, v: u64) {
    b.extend_from_slice(&v.to_le_bytes());
}

/// One symbol of a test object: name, binding (0 local, 1 global,
/// 2 weak), home section index (0 undefined, 0xfff1 absolute), value.
struct Sym(&'static str, u8, u16, u64);

/// One relocation of a test object patching `.text`: offset, type tag
/// (1 abs64, 2 pcrel32, 10 abs32, 11 abs32-signed), symbol table index,
/// addend.
struct Rela(u64, u32, u32, i64);

/// Builds a 64-bit little-endian relocatable object image with a
/// `.text` and a `.data` section, a symbol table and one relocation
/// table patching `.text`.
fn build_obj(e_type: u16, text: &[u8], data_sec: &[u8], syms: &[Sym], relas: &[Rela]) -> Vec<u8> {
    let shstr = b"\0.text\0.data\0.symtab\0.strtab\0.shstrtab\0.rela.text\0".to_vec();
    let mut strtab: Vec<u8> = vec![0];
    let mut name_offs: Vec<u32> = Vec::new();
    for s in syms {
        name_offs.push(strtab.len() as u32);
        strtab.extend_from_slice(s.0.as_bytes());
        strtab.push(0);
    }
    let mut symtab: Vec<u8> = vec![0; 24];
    for (i, s) in syms.iter().enumerate() {
        p32(&mut symtab, name_offs[i]);
        symtab.push(s.1 << 4);
        symtab.push(0);
        p16(&mut symtab, s.2);
        p64(&mut symtab, s.3);
        p64(&mut symtab, 0);
    }
    let mut rela: Vec<u8> = Vec::new();
    for r in relas {
        p64(&mut rela, r.0);
        p64(&mut rela, ((r.2 as u64) << 32) | r.1 as u64);
        p64(&mut rela, r.3 as u64);
    }
    let text_off = 64u64;
    let data_off = text_off + text.len() as u64;
    let symtab_off = data_off + data_sec.len() as u64;
    let strtab_off = symtab_off + symtab.len() as u64;
    let shstr_off = strtab_off + strtab.len() as u64;
    let rela_off = shstr_off + shstr.len() as u64;
    let shoff = rela_off + rela.len() as u64;

    let mut b: Vec<u8> = Vec::new();
    b.extend_from_slice(&[0x7f, 0x45, 0x4c, 0x46, 2, 1, 1, 0]);
    b.extend_from_slice(&[0; 8]);
    p16(&mut b, e_type);
    p16(&mut b, 62);
    p32(&mut b, 1);
    p64(&mut b, 0);
    p64(&mut b, 0);
    p64(&mut b, shoff);
    p32(&mut b, 0);
    p16(&mut b, 64);
    p16(&mut b, 0);
    p16(&mut b, 0);
    p16(&mut b, 64);
    p16(&mut b, 7);
    p16(&mut b, 5);
    assert_eq!(b.len(), 64);
    b.extend_from_slice(text);
    b.extend_from_slice(data_sec);
    b.extend_from_slice(&symtab);
    b.extend_from_slice(&strtab);
    b.extend_from_slice(&shstr);
    b.extend_from_slice(&rela);
    assert_eq!(b.len() as u64, shoff);
    // (name offset, type, file offset, size, link, info, entsize)
    let hdrs: [(u32, u32, u64, u64, u32, u32, u64); 7] = [
        (0, 0, 0, 0, 0, 0, 0),
        (1, 1, text_off, text.len() as u64, 0, 0, 0),
        (7, 1, data_off, data_sec.len() as u64, 0, 0, 0),
        (13, 2, symtab_off, symtab.len() as u64, 4, 0, 24),
        (21, 3, strtab_off, strtab.len() as u64, 0, 0, 0),
        (29, 3, shstr_off, shstr.len() as u64, 0, 0, 0),
        (39, 4, rela_off, rela.len() as u64, 3, 1, 24),
    ];
    for h in hdrs {
        p32(&mut b, h.0);
        p32(&mut b, h.1);
        p64(&mut b, 0);
        p64(&mut b, 0);
        p64(&mut b, h.2);
        p64(&mut b, h.3);
        p32(&mut b, h.4);
        p32(&mut b, h.5);
        p64(&mut b, 0);
        p64(&mut b, h.6);
    }
    b
}

fn input(path: &str, data: Vec<u8>) -> LinkInput {
    LinkInput { path: path.to_string(), data }
}

#[test]
fn parse_extracts_the_object() {
    let bytes = build_obj(
        1,
        &[0x90; 8],
        &[1, 2, 3],
        &[Sym("f", 1, 1, 4), Sym("ext", 1, 0, 0)],
        &[Rela(0, 1, 2, 7)],
    );
    let f = ObjectFile::new(&"x.o".to_string(), &bytes, 3).unwrap();
    assert_eq!(f.sections.len(), 7);
    assert_eq!(f.sections[1].name, b".text".to_vec());
    assert_eq!(f.sections[1].data, vec![0x90; 8]);
    assert_eq!(f.sections[2].name, b".data".to_vec());
    assert_eq!(f.sections[2].data, vec![1, 2, 3]);
    assert!(f.sections[1].assigned_address.is_none());
    assert_eq!(f.symbols.len(), 2);
    assert_eq!(f.symbols[0].name, b"f".to_vec());
    assert_eq!(f.symbols[0].address, 4);
    assert!(f.symbols[0].defined && f.symbols[0].global && f.symbols[0].strong);
    assert_eq!(f.symbols[0].section_index, Some(1));
    assert_eq!(f.symbols[0].object_id, 3);
    assert!(!f.symbols[1].defined);
    assert_eq!(f.symbols[1].section_index, None);
    assert_eq!(f.relocations.len(), 1);
    assert_eq!(f.relocations[0].target_symbol, b"ext".to_vec());
    assert_eq!(f.relocations[0].addend, 7);
    assert_eq!(f.relocations[0].section_index, 1);
}

#[test]
fn parse_rejects_short_image() {
    let r = ObjectFile::new(&"x.o".to_string(), &vec![0x7f, 0x45], 0);
    assert!(matches!(r, Err(LinkerError::ParseError(p, _)) if p == "x.o"));
}

#[test]
fn parse_rejects_bad_magic() {
    let mut bytes = build_obj(1, &[], &[], &[], &[]);
    bytes[0] = 0x7e;
    let r = ObjectFile::new(&"x.o".to_string(), &bytes, 0);
    assert!(matches!(r, Err(LinkerError::ParseError(_, _))));
}

#[test]
fn non_relocatable_input_is_refused() {
    let bytes = build_obj(2, &[0x90; 4], &[], &[], &[]);
    let r = statically_link_files(&vec![input("a.o", bytes)]);
    assert!(matches!(r, Err(LinkerError::InvalidFileType(p)) if p == "a.o"));
}

#[test]
fn unsupported_mode_is_refused() {
    let config = LinkConfig {
        image_base: 0x400000,
        output_sections: Vec::new(),
        mode: LinkMode::Dynamic,
    };
    let r = link(&Vec::new(), &config);
    assert!(matches!(r, Err(LinkerError::UnsupportedMode)));
}

#[test]
fn single_object_hello() {
    let text: Vec<u8> = (0..16).collect();
    let bytes = build_obj(1, &text, &[], &[Sym("_start", 1, 1, 0)], &[]);
    let out = statically_link_files(&vec![input("hello.o", bytes)]).unwrap();
    let start = out
        .context
        .global_symbols
        .entries
        .iter()
        .find(|e| e.name == b"_start".to_vec())
        .unwrap();
    assert_eq!(start.final_address, Some(0x400000));
    assert_eq!(out.sections.len(), 1);
    assert_eq!(out.sections[0].name, b".text".to_vec());
    assert_eq!(out.sections[0].address, 0x400000);
    assert_eq!(out.sections[0].data, text);
}

#[test]
fn two_object_merge() {
    let a = build_obj(1, &[0x90; 32], &[], &[Sym("main", 1, 1, 0)], &[]);
    let b = build_obj(
        1,
        &[0x90; 16],
        &[],
        &[Sym("helper", 1, 1, 0), Sym("main", 1, 0, 0)],
        &[Rela(4, 2, 2, -4)],
    );
    let out = statically_link_files(&vec![input("a.o", a), input("b.o", b)]).unwrap();
    let entries = &out.context.global_symbols.entries;
    let main = entries.iter().find(|e| e.name == b"main".to_vec()).unwrap();
    let helper = entries.iter().find(|e| e.name == b"helper".to_vec()).unwrap();
    assert_eq!(main.final_address, Some(0x400000));
    assert_eq!(helper.final_address, Some(0x400020));
    assert_eq!(out.sections[0].address, 0x400000);
    assert_eq!(out.sections[0].data.len(), 48);
    // patch site at offset 4 of b.o's .text, i.e. offset 36 of the image
    assert_eq!(&out.sections[0].data[36..40], &[0xd8, 0xff, 0xff, 0xff]);
}

#[test]
fn weak_override_either_order() {
    let a = build_obj(1, &[0x90; 32], &[], &[Sym("dup", 2, 1, 1)], &[]);
    let b = build_obj(1, &[0x90; 16], &[], &[Sym("dup", 1, 1, 2)], &[]);
    let out1 =
        statically_link_files(&vec![input("a.o", a.clone()), input("b.o", b.clone())]).unwrap();
    let d1 = out1
        .context
        .global_symbols
        .entries
        .iter()
        .find(|e| e.name == b"dup".to_vec())
        .unwrap();
    assert!(d1.strong);
    assert_eq!(d1.address, 2);
    assert_eq!(d1.file, "b.o");
    assert_eq!(d1.final_address, Some(0x400020 + 2));
    let out2 = statically_link_files(&vec![input("b.o", b), input("a.o", a)]).unwrap();
    let d2 = out2
        .context
        .global_symbols
        .entries
        .iter()
        .find(|e| e.name == b"dup".to_vec())
        .unwrap();
    assert!(d2.strong);
    assert_eq!(d2.address, 2);
    assert_eq!(d2.file, "b.o");
    assert_eq!(d2.final_address, Some(0x400000 + 2));
}

#[test]
fn multiple_strong_definitions_fail() {
    let a = build_obj(1, &[0x90; 8], &[], &[Sym("f", 1, 1, 0)], &[]);
    let b = build_obj(1, &[0x90; 8], &[], &[Sym("f", 1, 1, 0)], &[]);
    let r = statically_link_files(&vec![input("a.o", a), input("b.o", b)]);
    assert!(matches!(r, Err(LinkerError::MultipleDefinitions(n)) if n == b"f".to_vec()));
}

#[test]
fn undefined_symbol_fails() {
    let a = build_obj(
        1,
        &[0x90; 8],
        &[],
        &[Sym("main", 1, 1, 0), Sym("missing", 1, 0, 0)],
        &[Rela(0, 1, 2, 0)],
    );
    let r = statically_link_files(&vec![input("a.o", a)]);
    assert!(matches!(r, Err(LinkerError::UndefinedSymbol(p, n))
        if p == "a.o" && n == b"missing".to_vec()));
}

#[test]
fn adding_an_input_defines_the_missing_symbol() {
    let a = build_obj(
        1,
        &[0x90; 8],
        &[],
        &[Sym("main", 1, 1, 0), Sym("missing", 1, 0, 0)],
        &[Rela(0, 1, 2, 0)],
    );
    let b = build_obj(1, &[0x90; 8], &[], &[Sym("missing", 1, 1, 4)], &[]);
    assert!(statically_link_files(&vec![input("a.o", a.clone())]).is_err());
    let out = statically_link_files(&vec![input("a.o", a), input("b.o", b)]).unwrap();
    let m = out
        .context
        .global_symbols
        .entries
        .iter()
        .find(|e| e.name == b"missing".to_vec())
        .unwrap();
    assert_eq!(m.final_address, Some(0x400008 + 4));
}

#[test]
fn empty_text_does_not_advance_the_cursor() {
    let a = build_obj(1, &[], &[], &[], &[]);
    let b = build_obj(1, &[7; 16], &[], &[Sym("helper", 1, 1, 0)], &[]);
    let out = statically_link_files(&vec![input("a.o", a), input("b.o", b)]).unwrap();
    assert_eq!(out.sections.len(), 1);
    assert_eq!(out.sections[0].address, 0x400000);
    assert_eq!(out.sections[0].data, vec![7; 16]);
    let helper = out
        .context
        .global_symbols
        .entries
        .iter()
        .find(|e| e.name == b"helper".to_vec())
        .unwrap();
    assert_eq!(helper.final_address, Some(0x400000));
}

#[test]
fn data_section_follows_text() {
    let a = build_obj(1, &[0x90; 8], &[1, 2, 3, 4], &[Sym("v", 1, 2, 1)], &[]);
    let out = statically_link_files(&vec![input("a.o", a)]).unwrap();
    assert_eq!(out.sections.len(), 2);
    assert_eq!(out.sections[0].name, b".text".to_vec());
    assert_eq!(out.sections[0].address, 0x400000);
    assert_eq!(out.sections[1].name, b".data".to_vec());
    assert_eq!(out.sections[1].address, 0x400008);
    assert_eq!(out.sections[1].data, vec![1, 2, 3, 4]);
    let v = out
        .context
        .global_symbols
        .entries
        .iter()
        .find(|e| e.name == b"v".to_vec())
        .unwrap();
    assert_eq!(v.final_address, Some(0x400008 + 1));
}

#[test]
fn absolute_symbol_keeps_its_value() {
    let a = build_obj(1, &[0x90; 8], &[], &[Sym("abs", 1, 0xfff1, 0x1234)], &[]);
    let out = statically_link_files(&vec![input("a.o", a)]).unwrap();
    let s = out
        .context
        .global_symbols
        .entries
        .iter()
        .find(|e| e.name == b"abs".to_vec())
        .unwrap();
    assert_eq!(s.final_address, Some(0x1234));
}

#[test]
fn orphan_section_symbol_fails() {
    // `.strtab` has bytes but is never selected for output.
    let a = build_obj(1, &[0x90; 8], &[], &[Sym("odd", 1, 4, 0)], &[]);
    let r = statically_link_files(&vec![input("a.o", a)]);
    assert!(matches!(r, Err(LinkerError::OrphanSection(p, s)) if p == "a.o" && s == 4));
}

#[test]
fn abs64_relocation_writes_target_plus_addend() {
    let a = build_obj(
        1,
        &[0; 16],
        &[],
        &[Sym("s", 1, 1, 8)],
        &[Rela(0, 1, 1, 5)],
    );
    let out = statically_link_files(&vec![input("a.o", a)]).unwrap();
    let expect = (0x400008u64 + 5).to_le_bytes();
    assert_eq!(&out.sections[0].data[0..8], &expect);
}

#[test]
fn pcrel32_extremes_fit_and_one_past_overflows() {
    for (addend, ok) in [
        (-2147483648i64, true),
        (-2147483649i64, false),
        (2147483647i64, true),
        (2147483648i64, false),
    ] {
        let a = build_obj(
            1,
            &[0; 8],
            &[],
            &[Sym("s", 1, 1, 0)],
            &[Rela(0, 2, 1, addend)],
        );
        let r = statically_link_files(&vec![input("a.o", a)]);
        if ok {
            let out = r.unwrap();
            let expect = (addend as i32 as u32).to_le_bytes();
            assert_eq!(&out.sections[0].data[0..4], &expect);
        } else {
            assert!(matches!(
                r,
                Err(LinkerError::RelocationOverflow(p, s, off, _))
                    if p == "a.o" && s == 1 && off == 0
            ));
        }
    }
}

#[test]
fn abs32_unsigned_range_is_enforced() {
    // type 10: the value must fit an unsigned 32-bit word
    let ok = build_obj(
        1,
        &[0; 8],
        &[],
        &[Sym("s", 1, 1, 0)],
        &[Rela(0, 10, 1, 0xffff_ffff - 0x400000)],
    );
    let out = statically_link_files(&vec![input("a.o", ok)]).unwrap();
    assert_eq!(&out.sections[0].data[0..4], &[0xff, 0xff, 0xff, 0xff]);
    let over = build_obj(
        1,
        &[0; 8],
        &[],
        &[Sym("s", 1, 1, 0)],
        &[Rela(0, 10, 1, 0x1_0000_0000 - 0x400000)],
    );
    let r = statically_link_files(&vec![input("a.o", over)]);
    assert!(matches!(r, Err(LinkerError::RelocationOverflow(_, _, _, _))));
    let neg = build_obj(
        1,
        &[0; 8],
        &[],
        &[Sym("s", 1, 1, 0)],
        &[Rela(0, 10, 1, -0x400001)],
    );
    let r2 = statically_link_files(&vec![input("a.o", neg)]);
    assert!(matches!(r2, Err(LinkerError::RelocationOverflow(_, _, _, _))));
}

#[test]
fn abs32_signed_range_is_enforced() {
    // type 11: the value must fit a signed 32-bit word
    let neg = build_obj(
        1,
        &[0; 8],
        &[],
        &[Sym("s", 1, 1, 0)],
        &[Rela(0, 11, 1, -0x400001)],
    );
    let out = statically_link_files(&vec![input("a.o", neg)]).unwrap();
    assert_eq!(&out.sections[0].data[0..4], &[0xff, 0xff, 0xff, 0xff]);
    let over = build_obj(
        1,
        &[0; 8],
        &[],
        &[Sym("s", 1, 1, 0)],
        &[Rela(0, 11, 1, 0x8000_0000 - 0x400000)],
    );
    let r = statically_link_files(&vec![input("a.o", over)]);
    assert!(matches!(r, Err(LinkerError::RelocationOverflow(_, _, _, _))));
}

#[test]
fn a_custom_section_list_selects_only_its_names() {
    let a = build_obj(1, &[0x90; 8], &[1, 2, 3], &[], &[]);
    let config = LinkConfig {
        image_base: 0x400000,
        output_sections: vec![b".data".to_vec()],
        mode: LinkMode::Static,
    };
    let out = link(&vec![input("a.o", a)], &config).unwrap();
    assert_eq!(out.sections.len(), 1);
    assert_eq!(out.sections[0].name, b".data".to_vec());
    assert_eq!(out.sections[0].address, 0x400000);
    assert_eq!(out.sections[0].data, vec![1, 2, 3]);
}

#[test]
fn linking_is_deterministic() {
    let a = build_obj(1, &[0x90; 32], &[9, 9], &[Sym("main", 1, 1, 0)], &[]);
    let b = build_obj(
        1,
        &[0x90; 16],
        &[],
        &[Sym("helper", 1, 1, 0), Sym("main", 1, 0, 0)],
        &[Rela(4, 2, 2, -4)],
    );
    let mk = || vec![input("a.o", a.clone()), input("b.o", b.clone())];
    let o1 = statically_link_files(&mk()).unwrap();
    let o2 = statically_link_files(&mk()).unwrap();
    assert_eq!(o1.sections.len(), o2.sections.len());
    for (s1, s2) in o1.sections.iter().zip(o2.sections.iter()) {
        assert_eq!(s1.name, s2.name);
        assert_eq!(s1.address, s2.address);
        assert_eq!(s1.data, s2.data);
    }
}

#[test]
fn resolved_table_has_unique_names() {
    let a = build_obj(1, &[0x90; 8], &[], &[Sym("x", 1, 1, 0), Sym("y", 2, 1, 1)], &[]);
    let b = build_obj(1, &[0x90; 8], &[], &[Sym("y", 1, 1, 0), Sym("z", 1, 0, 0)], &[]);
    let out = statically_link_files(&vec![input("a.o", a), input("b.o", b.clone())]);
    // `z` stays undefined, so the link fails; resolution itself is
    // exercised through a set that does resolve.
    assert!(out.is_err());
    let c = build_obj(1, &[0x90; 8], &[], &[Sym("z", 1, 1, 2)], &[]);
    let out2 = statically_link_files(&vec![
        input("a.o", build_obj(1, &[0x90; 8], &[], &[Sym("x", 1, 1, 0), Sym("y", 2, 1, 1)], &[])),
        input("b.o", b),
        input("c.o", c),
    ])
    .unwrap();
    let entries = &out2.context.global_symbols.entries;
    for i in 0..entries.len() {
        for j in (i + 1)..entries.len() {
            assert_ne!(entries[i].name, entries[j].name);
        }
    }
}
