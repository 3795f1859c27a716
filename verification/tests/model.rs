//! Unit tests of the data model: the resolution rules row by row, the
//! uniqueness probe, and the byte-level primitives.

use cold::byteops::{clone_bytes, read_i64, read_u16, read_u32, read_u64, write_bytes_at};
use cold::common::{Context, Relocation, RelocEncoding, RelocKind, Section, Symbol, SymbolKind, SymbolTable};
use cold::error::LinkerError;

fn sym(name: &str, defined: bool, strong: bool) -> Symbol {
    Symbol::new(
        name.as_bytes().to_vec(),
        "t.o".to_string(),
        0,
        SymbolKind::Unknown,
        defined,
        true,
        strong,
        if defined { Some(1) } else { None },
        0,
    )
}

#[test]
fn resolution_inserts_into_an_empty_table() {
    let mut t = SymbolTable::new();
    assert!(t.merge(&sym("a", true, true)).is_ok());
    assert!(t.merge(&sym("b", false, true)).is_ok());
    assert_eq!(t.entries.len(), 2);
}

#[test]
fn resolution_defined_replaces_undefined() {
    let mut t = SymbolTable::new();
    t.merge(&sym("a", false, true)).unwrap();
    t.merge(&sym("a", true, true)).unwrap();
    assert_eq!(t.entries.len(), 1);
    assert!(t.entries[0].defined);
}

#[test]
fn resolution_undefined_keeps_undefined() {
    let mut t = SymbolTable::new();
    t.merge(&sym("a", false, true)).unwrap();
    t.merge(&sym("a", false, false)).unwrap();
    assert_eq!(t.entries.len(), 1);
    assert!(!t.entries[0].defined);
    assert!(t.entries[0].strong);
}

#[test]
fn resolution_strong_replaces_weak() {
    let mut t = SymbolTable::new();
    let mut weak = sym("a", true, false);
    weak.address = 1;
    let mut strong = sym("a", true, true);
    strong.address = 2;
    t.merge(&weak).unwrap();
    t.merge(&strong).unwrap();
    assert_eq!(t.entries.len(), 1);
    assert_eq!(t.entries[0].address, 2);
    assert!(t.entries[0].strong);
}

#[test]
fn resolution_first_weak_wins() {
    let mut t = SymbolTable::new();
    let mut w1 = sym("a", true, false);
    w1.address = 1;
    let mut w2 = sym("a", true, false);
    w2.address = 2;
    t.merge(&w1).unwrap();
    t.merge(&w2).unwrap();
    assert_eq!(t.entries[0].address, 1);
}

#[test]
fn resolution_two_strongs_conflict() {
    let mut t = SymbolTable::new();
    t.merge(&sym("a", true, true)).unwrap();
    let r = t.merge(&sym("a", true, true));
    assert!(matches!(r, Err(LinkerError::MultipleDefinitions(n)) if n == b"a".to_vec()));
    assert_eq!(t.entries.len(), 1);
}

#[test]
fn resolution_weak_does_not_replace_strong() {
    let mut t = SymbolTable::new();
    let mut strong = sym("a", true, true);
    strong.address = 1;
    let mut weak = sym("a", true, false);
    weak.address = 2;
    t.merge(&strong).unwrap();
    t.merge(&weak).unwrap();
    assert_eq!(t.entries[0].address, 1);
}

#[test]
fn resolution_undefined_does_not_replace_defined() {
    let mut t = SymbolTable::new();
    t.merge(&sym("a", true, false)).unwrap();
    t.merge(&sym("a", false, true)).unwrap();
    assert!(t.entries[0].defined);
}

#[test]
fn is_unique_in_reports_strong_defined_collisions() {
    let mut t = SymbolTable::new();
    t.merge(&sym("s", true, true)).unwrap();
    t.merge(&sym("w", true, false)).unwrap();
    t.merge(&sym("u", false, true)).unwrap();
    let context = Context { object_files: Vec::new(), global_symbols: t };
    assert!(!sym("s", true, true).is_unique_in(&context));
    assert!(sym("w", true, true).is_unique_in(&context));
    assert!(sym("u", true, true).is_unique_in(&context));
    assert!(sym("fresh", true, true).is_unique_in(&context));
}

#[test]
fn symbol_new_fills_every_field() {
    let s = Symbol::new(
        b"n".to_vec(),
        "p.o".to_string(),
        7,
        SymbolKind::Text,
        true,
        true,
        false,
        Some(3),
        9,
    );
    assert_eq!(s.name, b"n".to_vec());
    assert_eq!(s.file, "p.o");
    assert_eq!(s.address, 7);
    assert_eq!(s.kind, SymbolKind::Text);
    assert!(s.defined && s.global && !s.strong);
    assert_eq!(s.section_index, Some(3));
    assert_eq!(s.object_id, 9);
    assert_eq!(s.final_address, None);
    let d = s.duplicate();
    assert_eq!(d.name, s.name);
    assert_eq!(d.address, s.address);
}

#[test]
fn section_and_relocation_constructors() {
    let sec = Section::new(vec![1, 2], b".text".to_vec(), 1, 0, 4);
    assert_eq!(sec.data, vec![1, 2]);
    assert_eq!(sec.index, 1);
    assert_eq!(sec.assigned_address, None);
    assert_eq!(sec.object_id, 4);
    let r = Relocation::new(-3, 8, RelocKind::PcRel32, RelocEncoding::Generic, 1, b"t".to_vec(), 4);
    assert_eq!(r.addend, -3);
    assert_eq!(r.offset, 8);
    assert_eq!(r.kind, RelocKind::PcRel32);
    assert_eq!(r.target_symbol, b"t".to_vec());
}

#[test]
fn little_endian_reads() {
    let b: Vec<u8> = vec![0x01, 0x02, 0x03, 0x04, 0x05, 0x06, 0x07, 0x08, 0xff];
    assert_eq!(read_u16(&b, 0), 0x0201);
    assert_eq!(read_u32(&b, 1), 0x05040302);
    assert_eq!(read_u64(&b, 0), 0x0807060504030201);
    let neg: Vec<u8> = vec![0xff; 8];
    assert_eq!(read_i64(&neg, 0), -1);
    let min: Vec<u8> = vec![0, 0, 0, 0, 0, 0, 0, 0x80];
    assert_eq!(read_i64(&min, 0), i64::MIN);
}

#[test]
fn byte_splicing_overwrites_in_place() {
    let mut b: Vec<u8> = vec![0; 8];
    let src: Vec<u8> = vec![9, 8, 7];
    write_bytes_at(&mut b, 2, &src);
    assert_eq!(b, vec![0, 0, 9, 8, 7, 0, 0, 0]);
    let c = clone_bytes(&b);
    assert_eq!(c, b);
}
