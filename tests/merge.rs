use clangd_parser::clangd::ClangdFile;
use clangd_parser::database::{file_key, merge_files, sort_files, ClangdDatabase};
use clangd_parser::post_process;
use clangd_parser::symbols::{Symbol, SymbolKind};

fn symbol(id: u8, name: &str) -> Symbol {
    let mut s = Symbol::default();
    s.id = [id; 8];
    s.name = name.to_string();
    s
}

fn file(syms: Vec<Symbol>) -> ClangdFile {
    let mut f = ClangdFile::default();
    f.symbols.data = syms;
    f
}

fn ids_and_names(db: &ClangdDatabase) -> (Vec<([u8; 8], String)>, Vec<(String, [u8; 8])>) {
    (
        db.id.iter().map(|(k, s)| (*k, s.name.clone())).collect(),
        db.name.iter().map(|(k, s)| (k.clone(), s.id)).collect(),
    )
}

#[test]
fn file_keys() {
    assert_eq!(file_key("foo.cpp.0123ABCD.idx"), "foo.cpp");
    assert_eq!(file_key("a.h"), "a.h");
    assert_eq!(file_key("noext"), "noext");
    assert_eq!(file_key(""), "");
}

#[test]
fn first_file_wins_on_same_id() {
    let files = vec![
        ("a.cpp.1.idx".to_string(), file(vec![symbol(1, "first")])),
        ("b.cpp.2.idx".to_string(), file(vec![symbol(1, "second")])),
    ];
    let db = merge_files(files);
    assert_eq!(db.id.len(), 1);
    assert_eq!(db.id[0].1.name, "first");
    assert_eq!(db.name.len(), 2);
    assert_eq!(db.file.len(), 2);
    assert_eq!(db.file[0].0, "a.cpp");
    assert_eq!(db.get_symbol_by_id(&[1; 8]).unwrap().name, "first");
    assert_eq!(db.get_symbol_by_name(&"second".to_string()).unwrap().id, [1; 8]);
    assert!(db.get_symbol_by_name(&"third".to_string()).is_none());
    assert!(db.get_symbol_by_id(&[2; 8]).is_none());
    assert!(db.get_file(&"b.cpp".to_string()).is_some());
    assert!(db.get_file(&"c.cpp".to_string()).is_none());
}

#[test]
fn first_file_wins_whatever_the_order_given() {
    let files = vec![
        ("b.cpp.2.idx".to_string(), file(vec![symbol(1, "second")])),
        ("a.cpp.1.idx".to_string(), file(vec![symbol(1, "first")])),
    ];
    let db = merge_files(files);
    assert_eq!(db.id[0].1.name, "first");
}

#[test]
fn same_key_keeps_first_file() {
    let files = vec![
        ("a.cpp.2.idx".to_string(), file(vec![symbol(2, "two")])),
        ("a.cpp.1.idx".to_string(), file(vec![symbol(1, "one")])),
    ];
    let db = merge_files(files);
    assert_eq!(db.file.len(), 1);
    assert_eq!(db.file[0].1.symbols.data[0].name, "one");
    assert_eq!(db.id.len(), 2);
}

#[test]
fn merge_is_order_independent() {
    let make = |order: &[usize]| {
        let all = [
            ("c.cpp.3.idx", vec![symbol(1, "c1"), symbol(2, "shared")]),
            ("a.cpp.1.idx", vec![symbol(2, "a2"), symbol(3, "shared")]),
            ("b.cpp.2.idx", vec![symbol(1, "b1"), symbol(4, "b4")]),
        ];
        let files: Vec<(String, ClangdFile)> =
            order.iter().map(|&i| (all[i].0.to_string(), file(all[i].1.clone()))).collect();
        ids_and_names(&merge_files(files))
    };
    let base = make(&[0, 1, 2]);
    for order in [[0, 2, 1], [1, 0, 2], [1, 2, 0], [2, 0, 1], [2, 1, 0]] {
        assert_eq!(make(&order), base);
    }
    let (ids, names) = base;
    assert_eq!(ids[0], ([2; 8], "a2".to_string()));
    assert_eq!(ids[1], ([3; 8], "shared".to_string()));
    assert_eq!(ids[2], ([1; 8], "b1".to_string()));
    assert_eq!(names[0], ("a2".to_string(), [2; 8]));
    assert_eq!(names[1], ("shared".to_string(), [3; 8]));
}

#[test]
fn files_sorted_by_name() {
    let files = vec![
        ("b".to_string(), file(vec![])),
        ("ab".to_string(), file(vec![])),
        ("a".to_string(), file(vec![])),
    ];
    let names: Vec<String> = sort_files(files).into_iter().map(|(n, _)| n).collect();
    assert_eq!(names, vec!["a", "ab", "b"]);
}

#[test]
fn variables_noted_in_their_header() {
    let mut v = symbol(5, "counter");
    v.syminfo.kind = SymbolKind::Variable;
    v.canonical_declaration.file_uri = "file:///src/defs.h".to_string();
    let mut w = symbol(6, "other");
    w.syminfo.kind = SymbolKind::Variable;
    w.canonical_declaration.file_uri = "file:///src/main.cpp".to_string();
    let mut f = symbol(7, "func");
    f.canonical_declaration.file_uri = "file:///src/defs.h".to_string();
    let files = vec![
        ("defs.h.1.idx".to_string(), file(vec![v, w, f])),
        ("main.cpp.2.idx".to_string(), file(vec![])),
    ];
    let mut db = merge_files(files);
    post_process(&mut db);
    assert_eq!(db.file[0].0, "defs.h");
    assert_eq!(db.file[0].1.variable_declarations, vec![[5u8; 8]]);
    assert!(db.file[1].1.variable_declarations.is_empty());
}

#[test]
fn variable_declared_in_bare_header_name() {
    let mut v = symbol(5, "counter");
    v.syminfo.kind = SymbolKind::Variable;
    v.canonical_declaration.file_uri = "defs.h".to_string();
    let mut db = merge_files(vec![("defs.h.1.idx".to_string(), file(vec![v]))]);
    post_process(&mut db);
    assert_eq!(db.file[0].1.variable_declarations, vec![[5u8; 8]]);
}
