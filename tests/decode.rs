use clangd_parser::clangd::{get_strings, resolve, ChunkKind, ClangdFile, ClangdUtility, ParseError, RawChunk};
use clangd_parser::cmdl::Cmdl;
use clangd_parser::refs::Refs;
use clangd_parser::rela::{Rela, RelationKind};
use clangd_parser::srcs::{SourceFlags, Srcs};
use clangd_parser::symbols::{
    Symbol, SymbolFlags, SymbolKind, SymbolLanguage, SymbolLocation,
};

fn encode_varint(mut v: u32) -> Vec<u8> {
    let mut out = Vec::new();
    loop {
        if v < 0x80 {
            out.push(v as u8);
            return out;
        }
        out.push((v & 0x7f) as u8 | 0x80);
        v >>= 7;
    }
}

fn pool(items: &[&str]) -> Vec<String> {
    items.iter().map(|s| s.to_string()).collect()
}

/// A symbol record with every string index 0 and every number 0, and one
/// header whose packed value is `packed`.
fn symbol_with_header(id: u8, packed: u32) -> Vec<u8> {
    let mut b = vec![id; 8];
    b.extend_from_slice(&[13, 2]);
    b.extend_from_slice(&[0, 0, 0]);
    b.extend_from_slice(&[0, 0, 0, 0, 0]);
    b.extend_from_slice(&[0, 0, 0, 0, 0]);
    b.push(0);
    b.push(0);
    b.extend_from_slice(&[0, 0, 0, 0, 0]);
    b.push(1);
    b.push(0);
    b.extend(encode_varint(packed));
    b
}

#[test]
fn varint_single_byte() {
    assert_eq!(ClangdFile::get_varint(&[0x7f], 0), Some((1, 127)));
    assert_eq!(ClangdFile::get_varint(&[0x00, 0x05], 0), Some((1, 0)));
}

#[test]
fn varint_two_bytes() {
    assert_eq!(ClangdFile::get_varint(&[0x80, 0x01], 0), Some((2, 128)));
    assert_eq!(ClangdFile::get_varint(&[0xac, 0x02], 0), Some((2, 300)));
}

#[test]
fn varint_at_offset() {
    assert_eq!(ClangdFile::get_varint(&[9, 9, 0xac, 0x02], 2), Some((2, 300)));
}

#[test]
fn varint_largest_value() {
    assert_eq!(ClangdFile::get_varint(&[0xff, 0xff, 0xff, 0xff, 0x0f], 0), Some((5, u32::MAX)));
}

#[test]
fn varint_stops_after_five_bytes() {
    let buf = [0xff, 0xff, 0xff, 0xff, 0xff, 0xff, 0x01];
    assert_eq!(ClangdFile::get_varint(&buf, 0), Some((5, u32::MAX)));
}

#[test]
fn varint_truncated_is_none() {
    assert_eq!(ClangdFile::get_varint(&[0x80], 0), None);
    assert_eq!(ClangdFile::get_varint(&[], 0), None);
    assert_eq!(ClangdFile::get_varint(&[1], 1), None);
}

#[test]
fn varint_round_trip_of_encoder() {
    let values = [0u32, 1, 127, 128, 255, 16383, 16384, 2097151, 2097152, 268435455, 268435456, u32::MAX];
    for v in values {
        let mut b = encode_varint(v);
        let n = b.len();
        b.extend_from_slice(&[0xff, 0x00]);
        assert_eq!(ClangdFile::get_varint(&b, 0), Some((n, v)));
    }
}

#[test]
fn resolve_in_and_out_of_range() {
    let p = pool(&["a", "bc"]);
    assert_eq!(resolve(&p, 1), "bc");
    assert_eq!(resolve(&p, 2), "");
    assert_eq!(resolve(&p, u32::MAX), "");
    assert_eq!(resolve(&Vec::new(), 0), "");
}

#[test]
fn resolve_strips_trailing_nuls() {
    let p = pool(&["a\0", "b\0\0", "\0", "c\0d"]);
    assert_eq!(resolve(&p, 0), "a");
    assert_eq!(resolve(&p, 1), "b");
    assert_eq!(resolve(&p, 2), "");
    assert_eq!(resolve(&p, 3), "c\0d");
    assert_eq!(ClangdFile::get_string(&[0], 0, &p), Some((1, "a".to_string())));
    let (_, loc) = SymbolLocation::get_location(&[1, 1, 2, 3, 4], 0, &p).unwrap();
    assert_eq!(loc.file_uri, "b");
}

#[test]
fn get_string_resolves_index() {
    let p = pool(&["zero", "one"]);
    assert_eq!(ClangdFile::get_string(&[1], 0, &p), Some((1, "one".to_string())));
    assert_eq!(ClangdFile::get_string(&[5], 0, &p), Some((1, String::new())));
}

#[test]
fn strings_split_on_nul() {
    assert_eq!(get_strings(b"abc\0de\0f"), pool(&["abc", "de"]));
    assert_eq!(get_strings(b"\0\0"), pool(&["", ""]));
    assert_eq!(get_strings(b""), Vec::<String>::new());
}

#[test]
fn string_chunk_raw() {
    let mut data = vec![0, 0, 0, 0];
    data.extend_from_slice(b"x\0yz\0");
    assert_eq!(ClangdFile::consume_string(&data).unwrap(), pool(&["x", "yz"]));
}

#[test]
fn string_chunk_compressed() {
    let mut enc = libflate::zlib::Encoder::new(Vec::new()).unwrap();
    std::io::Write::write_all(&mut enc, b"int\0main\0").unwrap();
    let packed = enc.finish().into_result().unwrap();
    let mut data = vec![9, 0, 0, 0];
    data.extend_from_slice(&packed);
    assert_eq!(ClangdFile::consume_string(&data).unwrap(), pool(&["int", "main"]));
}

#[test]
fn string_chunk_bad_blob() {
    let data = vec![3, 0, 0, 0, 1, 2, 3];
    assert!(matches!(ClangdFile::consume_string(&data), Err(ParseError::DecompressError)));
}

#[test]
fn string_chunk_short_prefix() {
    assert!(matches!(ClangdFile::consume_string(&[0, 0]), Err(ParseError::DecodeError)));
    assert!(matches!(ClangdFile::consume_string(&[]), Err(ParseError::DecodeError)));
}

#[test]
fn empty_payloads_give_empty_records() {
    let p = pool(&["a"]);
    assert!(Symbol::parse(&[], &p).unwrap().is_empty());
    assert!(Rela::parse(&[]).unwrap().is_empty());
    assert!(Refs::parse(&[], &p).unwrap().is_empty());
    assert!(Srcs::parse(&[], &p).unwrap().is_empty());
    assert!(Cmdl::parse(&[], &p).unwrap().is_empty());
}

#[test]
fn relation_overridden_by() {
    let mut data = vec![1u8; 8];
    data.push(1);
    data.extend_from_slice(&[2u8; 8]);
    assert_eq!(data.len(), 17);
    let r = Rela::parse(&data).unwrap();
    assert_eq!(r.len(), 1);
    assert_eq!(r[0].subject, [1u8; 8]);
    assert_eq!(r[0].predicate, RelationKind::OverriddenBy);
    assert_eq!(r[0].object, [2u8; 8]);
}

#[test]
fn relation_unknown_tag_is_base_of() {
    let mut data = vec![3u8; 8];
    data.push(7);
    data.extend_from_slice(&[4u8; 8]);
    data.extend_from_slice(&[5u8; 8]);
    data.push(0);
    data.extend_from_slice(&[6u8; 8]);
    let r = Rela::parse(&data).unwrap();
    assert_eq!(r.len(), 2);
    assert_eq!(r[0].predicate, RelationKind::BaseOf);
    assert_eq!(r[1].subject, [5u8; 8]);
    assert_eq!(r[1].predicate, RelationKind::BaseOf);
}

#[test]
fn relation_truncated_is_error() {
    let data = vec![1u8; 16];
    assert!(matches!(Rela::parse(&data), Err(ParseError::DecodeError)));
    let data = vec![1u8; 18];
    assert!(matches!(Rela::parse(&data), Err(ParseError::DecodeError)));
}

#[test]
fn source_is_tu() {
    let p = pool(&["a.cpp"]);
    let data = vec![1, 0, 1, 2, 3, 4, 5, 6, 7, 8, 0];
    let s = Srcs::parse(&data, &p).unwrap();
    assert_eq!(s.len(), 1);
    assert_eq!(s[0].flags, SourceFlags::IsTU);
    assert_eq!(s[0].uri, "a.cpp");
    assert_eq!(s[0].digest, [1, 2, 3, 4, 5, 6, 7, 8]);
    assert!(s[0].direct_includes.is_empty());
}

#[test]
fn source_with_includes() {
    let p = pool(&["a.cpp", "b.h", "c.h"]);
    let data = vec![3, 0, 0, 0, 0, 0, 0, 0, 0, 0, 2, 1, 2];
    let s = Srcs::parse(&data, &p).unwrap();
    assert_eq!(s[0].flags, SourceFlags::NoFlags);
    assert_eq!(s[0].direct_includes, pool(&["b.h", "c.h"]));
}

#[test]
fn source_missing_include_is_error() {
    let p = pool(&["a.cpp"]);
    let data = vec![2, 0, 0, 0, 0, 0, 0, 0, 0, 0, 2, 0];
    assert!(matches!(Srcs::parse(&data, &p), Err(ParseError::DecodeError)));
}

#[test]
fn command_lines() {
    let p = pool(&["/build", "clang", "-c", "a.cpp"]);
    let data = vec![0, 3, 1, 2, 3, 0, 1, 1];
    let c = Cmdl::parse(&data, &p).unwrap();
    assert_eq!(c.len(), 2);
    assert_eq!(c[0].directory, "/build");
    assert_eq!(c[0].cmdl, pool(&["clang", "-c", "a.cpp"]));
    assert_eq!(c[1].cmdl, pool(&["clang"]));
}

#[test]
fn references_record() {
    let p = pool(&["file:///a.cpp"]);
    let mut data = vec![7u8; 8];
    data.push(2);
    data.push(12);
    data.extend_from_slice(&[0, 1, 2, 1, 9]);
    data.extend_from_slice(&[8u8; 8]);
    data.push(13);
    data.extend_from_slice(&[0, 3, 4, 3, 0x80, 0x01]);
    data.extend_from_slice(&[9u8; 8]);
    let r = Refs::parse(&data, &p).unwrap();
    assert_eq!(r.len(), 1);
    assert_eq!(r[0].id, [7u8; 8]);
    assert_eq!(r[0].refs.len(), 2);
    assert_eq!(r[0].refs[0].kind, SymbolKind::Function);
    assert_eq!(r[0].refs[0].location.file_uri, "file:///a.cpp");
    assert_eq!(r[0].refs[0].location.end.column, 9);
    assert_eq!(r[0].refs[0].container_id, [8u8; 8]);
    assert_eq!(r[0].refs[1].kind, SymbolKind::Variable);
    assert_eq!(r[0].refs[1].location.end.column, 128);
}

#[test]
fn references_truncated_is_error() {
    let p = pool(&["f"]);
    let mut data = vec![7u8; 8];
    data.push(1);
    data.push(12);
    assert!(matches!(Refs::parse(&data, &p), Err(ParseError::DecodeError)));
}

#[test]
fn location_fields() {
    let p = pool(&["u"]);
    let data = [0, 1, 2, 0xac, 0x02, 4];
    let (n, loc) = SymbolLocation::get_location(&data, 0, &p).unwrap();
    assert_eq!(n, 6);
    assert_eq!(loc.file_uri, "u");
    assert_eq!(loc.start.line, 1);
    assert_eq!(loc.start.column, 2);
    assert_eq!(loc.end.line, 300);
    assert_eq!(loc.end.column, 4);
    assert!(SymbolLocation::get_location(&data[..5], 0, &p).is_none());
}

#[test]
fn symbol_record() {
    let p = pool(&["foo", "ns::", "file:///src/a.h", "a.h", "int"]);
    let mut b = vec![0xabu8; 8];
    b.extend_from_slice(&[13, 2]);
    b.extend_from_slice(&[0, 1, 9]);
    b.extend_from_slice(&[2, 1, 2, 3, 4]);
    b.extend_from_slice(&[2, 5, 6, 7, 8]);
    b.extend_from_slice(&[0xac, 0x02]);
    b.push(8);
    b.extend_from_slice(&[9, 9, 9, 4, 4]);
    b.push(1);
    b.extend_from_slice(&[3, 13]);
    let s = Symbol::parse(&b, &p).unwrap();
    assert_eq!(s.len(), 1);
    let s = &s[0];
    assert_eq!(s.id, [0xab; 8]);
    assert_eq!(s.syminfo.kind, SymbolKind::Variable);
    assert_eq!(s.syminfo.lang, SymbolLanguage::CXX);
    assert_eq!(s.name, "foo");
    assert_eq!(s.scope, "ns::");
    assert_eq!(s.template_specialization_args, "");
    assert_eq!(s.definition.file_uri, "file:///src/a.h");
    assert_eq!(s.definition.start.line, 1);
    assert_eq!(s.canonical_declaration.end.column, 8);
    assert_eq!(s.references, 300);
    assert_eq!(s.flags, SymbolFlags::VisibleOutsideFile);
    assert_eq!(s.return_t, "int");
    assert_eq!(s.t, "int");
    assert_eq!(s.headers.len(), 1);
    assert_eq!(s.headers[0].name, "a.h");
    assert_eq!(s.headers[0].refs, 3);
    assert_eq!(s.headers[0].supported_directives, 1);
}

#[test]
fn symbols_back_to_back() {
    let p = pool(&["x"]);
    let mut b = symbol_with_header(1, 5);
    b.extend(symbol_with_header(2, 6));
    let s = Symbol::parse(&b, &p).unwrap();
    assert_eq!(s.len(), 2);
    assert_eq!(s[1].id, [2u8; 8]);
    assert_eq!(s[1].headers[0].refs, 1);
    assert_eq!(s[1].headers[0].supported_directives, 2);
}

#[test]
fn symbol_truncated_is_error() {
    let p = pool(&["x"]);
    let b = symbol_with_header(1, 5);
    assert!(matches!(Symbol::parse(&b[..b.len() - 1], &p), Err(ParseError::DecodeError)));
    let mut b2 = b.clone();
    b2.push(0);
    assert!(matches!(Symbol::parse(&b2, &p), Err(ParseError::DecodeError)));
}

#[test]
fn header_packing_all_small_values() {
    let p = pool(&["x"]);
    for v in 0u32..4096 {
        let s = Symbol::parse(&symbol_with_header(1, v), &p).unwrap();
        let h = &s[0].headers[0];
        assert_eq!(h.refs, (v >> 2) as usize);
        assert_eq!(h.supported_directives, (v & 0x3) as usize);
        assert_eq!(((h.refs as u32) << 2) | h.supported_directives as u32, v);
    }
}

#[test]
fn tags_map_to_variants() {
    assert_eq!(SymbolKind::from(29), SymbolKind::NonTypeTemplateParm);
    assert_eq!(SymbolKind::from(30), SymbolKind::Unknown);
    assert_eq!(SymbolLanguage::from(3), SymbolLanguage::Swift);
    assert_eq!(SymbolLanguage::from(4), SymbolLanguage::C);
    assert_eq!(SymbolFlags::from(4), SymbolFlags::ImplementationDetail);
    assert_eq!(SymbolFlags::from(3), SymbolFlags::NoFlags);
    assert_eq!(SourceFlags::from(2), SourceFlags::HadErrors);
    assert_eq!(SourceFlags::from(3), SourceFlags::NoFlags);
}

fn chunk(kind: ChunkKind, data: Vec<u8>) -> RawChunk {
    RawChunk { kind, data }
}

#[test]
fn file_decodes_strings_first() {
    let mut stri = vec![0, 0, 0, 0];
    stri.extend_from_slice(b"x\0a.cpp\0");
    let chunks = vec![
        chunk(ChunkKind::Meta, vec![1, 0, 0, 0]),
        chunk(ChunkKind::Symb, symbol_with_header(4, 1)),
        chunk(ChunkKind::Srcs, vec![1, 1, 0, 0, 0, 0, 0, 0, 0, 0, 0]),
        chunk(ChunkKind::Other, vec![1, 2, 3]),
        chunk(ChunkKind::Stri, stri),
    ];
    let f = ClangdFile::consume_riff(*b"CdIx", &chunks).unwrap();
    assert_eq!(f.string, pool(&["x", "a.cpp"]));
    assert_eq!(f.meta.version, [1, 0, 0, 0]);
    assert_eq!(f.symbols.data.len(), 1);
    assert_eq!(f.symbols.data[0].name, "x");
    assert_eq!(f.sources.data[0].uri, "a.cpp");
    assert_eq!(f.file_type.ftype, *b"CdIx");
}

#[test]
fn empty_metadata_leaves_default_version() {
    let chunks = vec![chunk(ChunkKind::Meta, vec![])];
    let f = ClangdFile::consume_riff(*b"CdIx", &chunks).unwrap();
    assert_eq!(f.meta.version, [0, 0, 0, 0]);
}

#[test]
fn file_of_other_type_is_refused() {
    let chunks = vec![chunk(ChunkKind::Rela, vec![])];
    assert!(matches!(ClangdFile::consume_riff(*b"WAVE", &chunks), Err(ParseError::IncompatibleFile)));
}

#[test]
fn file_with_bad_chunk_fails() {
    let chunks = vec![chunk(ChunkKind::Rela, vec![1, 2, 3])];
    assert!(matches!(ClangdFile::consume_riff(*b"CdIx", &chunks), Err(ParseError::DecodeError)));
    let chunks = vec![chunk(ChunkKind::Meta, vec![1, 2])];
    assert!(matches!(ClangdFile::consume_riff(*b"CdIx", &chunks), Err(ParseError::DecodeError)));
}
