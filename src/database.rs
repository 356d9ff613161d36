use vstd::prelude::*;

use crate::clangd::{id_views, push_char, ClangdFile, FileView};
use crate::symbols::{
    header_views, Symbol, SymbolId, SymbolIncludedHeader, SymbolKind, SymbolLocation,
    SymbolView,
};

verus! {

pub type ClangdFileMap = Vec<(String, ClangdFile)>;

pub type ClangdIdMap = Vec<(SymbolId, Symbol)>;

pub type ClangdNameMap = Vec<(String, Symbol)>;

/// The merged database of an index directory: files by key, symbols by id and
/// symbols by name. Each key appears once, and entries keep the order in
/// which they were first met.
#[derive(Debug, Clone)]
pub struct ClangdDatabase {
    pub file: ClangdFileMap,
    pub id: ClangdIdMap,
    pub name: ClangdNameMap,
}

pub struct DbView {
    pub file: Seq<(Seq<char>, FileView)>,
    pub id: Seq<(Seq<u8>, SymbolView)>,
    pub name: Seq<(Seq<char>, SymbolView)>,
}

impl View for ClangdDatabase {
    type V = DbView;

    open spec fn view(&self) -> DbView {
        DbView {
            file: self.file@.map_values(|e: (String, ClangdFile)| (e.0@, e.1@)),
            id: self.id@.map_values(|e: (SymbolId, Symbol)| (e.0@, e.1@)),
            name: self.name@.map_values(|e: (String, Symbol)| (e.0@, e.1@)),
        }
    }
}

pub open spec fn has_key<K, V>(m: Seq<(K, V)>, k: K) -> bool {
    exists|i: int| 0 <= i < m.len() && (#[trigger] m[i]).0 == k
}

/// Each key appears at most once.
pub open spec fn unique_keys<K, V>(m: Seq<(K, V)>) -> bool {
    forall|i: int, j: int| 0 <= i < j < m.len() ==> (#[trigger] m[i]).0 != (#[trigger] m[j]).0
}

proof fn lemma_insert_new_unique<K, V>(m: Seq<(K, V)>, k: K, v: V)
    requires
        unique_keys(m),
    ensures
        unique_keys(insert_new(m, k, v)),
{
    if !has_key(m, k) {
        let r = m.push((k, v));
        assert forall|i: int, j: int| 0 <= i < j < r.len() implies (#[trigger] r[i]).0 != (#[trigger] r[j]).0 by {
            if j == m.len() {
                assert(r[i] == m[i]);
            } else {
                assert(r[i] == m[i] && r[j] == m[j]);
            }
        }
    }
}

/// Adds `k` with `v` unless `k` is there already: the first value stays.
pub open spec fn insert_new<K, V>(m: Seq<(K, V)>, k: K, v: V) -> Seq<(K, V)> {
    if has_key(m, k) {
        m
    } else {
        m.push((k, v))
    }
}

/// Adds the symbols, in order, to the id and the name mappings.
pub open spec fn add_symbols(db: DbView, syms: Seq<SymbolView>) -> DbView
    decreases syms.len(),
{
    if syms.len() == 0 {
        db
    } else {
        let s = syms.last();
        let d = add_symbols(db, syms.drop_last());
        DbView { file: d.file, id: insert_new(d.id, s.id, s), name: insert_new(d.name, s.name, s) }
    }
}

/// Adds one decoded file under `key`, and its symbols.
pub open spec fn add_file(db: DbView, key: Seq<char>, f: FileView) -> DbView {
    let d = add_symbols(db, f.symbols);
    DbView { file: insert_new(d.file, key, f), id: d.id, name: d.name }
}

/// First seen wins: adding a file keeps every entry already in each mapping,
/// in its place; new entries only come after them.
pub proof fn lemma_add_file_keeps_entries(db: DbView, key: Seq<char>, f: FileView)
    ensures
        db.file.is_prefix_of(add_file(db, key, f).file),
        db.id.is_prefix_of(add_file(db, key, f).id),
        db.name.is_prefix_of(add_file(db, key, f).name),
{
    lemma_add_symbols_keeps_entries(db, f.symbols);
    let d = add_symbols(db, f.symbols);
    assert(d.file.is_prefix_of(insert_new(d.file, key, f)));
}

proof fn lemma_add_symbols_keeps_entries(db: DbView, syms: Seq<SymbolView>)
    ensures
        add_symbols(db, syms).file == db.file,
        db.id.is_prefix_of(add_symbols(db, syms).id),
        db.name.is_prefix_of(add_symbols(db, syms).name),
    decreases syms.len(),
{
    if syms.len() > 0 {
        let s = syms.last();
        lemma_add_symbols_keeps_entries(db, syms.drop_last());
        let d = add_symbols(db, syms.drop_last());
        assert(d.id.is_prefix_of(insert_new(d.id, s.id, s)));
        assert(d.name.is_prefix_of(insert_new(d.name, s.name, s)));
    }
}

pub open spec fn empty_db() -> DbView {
    DbView { file: Seq::empty(), id: Seq::empty(), name: Seq::empty() }
}

/// The position of the second '.' in `name` at or after `i`, where `dots` of
/// them were seen before `i`; the length of `name` where there is none.
pub open spec fn key_end(name: Seq<char>, i: int, dots: nat) -> int
    decreases name.len() - i,
{
    if i < 0 || i >= name.len() {
        name.len() as int
    } else if name[i] == '.' {
        if dots >= 1 {
            i
        } else {
            key_end(name, i + 1, dots + 1)
        }
    } else {
        key_end(name, i + 1, dots)
    }
}

/// The key of an index file's name: the name up to its second '.', which
/// drops the suffix that tells apart files of the same base name.
pub open spec fn file_key_of(name: Seq<char>) -> Seq<char> {
    name.subrange(0, key_end(name, 0, 0))
}

/// Merges named decoded files in the order given, first seen wins.
pub open spec fn merge_in_order(files: Seq<(Seq<char>, FileView)>) -> DbView
    decreases files.len(),
{
    if files.len() == 0 {
        empty_db()
    } else {
        let (name, f) = files.last();
        add_file(merge_in_order(files.drop_last()), file_key_of(name), f)
    }
}

/// The key under which an index file of this name is merged.
pub fn file_key(name: &str) -> (r: String)
    ensures
        r@ == file_key_of(name@),
{
    let n = name.unicode_len();
    let mut key = String::new();
    let mut i: usize = 0;
    let mut dots: usize = 0;
    while i < n
        invariant
            n == name@.len(),
            i <= n,
            dots <= 1,
            key@ == name@.subrange(0, i as int),
            key_end(name@, 0, 0) == key_end(name@, i as int, dots as nat),
        decreases n - i,
    {
        let c = name.get_char(i);
        if c == '.' {
            if dots >= 1 {
                return key;
            }
            dots = dots + 1;
        }
        push_char(&mut key, c);
        assert(key@ =~= name@.subrange(0, i + 1));
        i = i + 1;
    }
    assert(name@.subrange(0, n as int) =~= name@);
    key
}

fn same_id(a: &SymbolId, b: &SymbolId) -> (r: bool)
    ensures
        r == (a@ == b@),
{
    let mut i: usize = 0;
    while i < 8
        invariant
            i <= 8,
            a@.subrange(0, i as int) == b@.subrange(0, i as int),
        decreases 8 - i,
    {
        if a[i] != b[i] {
            assert(a@[i as int] != b@[i as int]);
            return false;
        }
        assert(a@.subrange(0, i + 1) =~= a@.subrange(0, i as int).push(a@[i as int]));
        assert(b@.subrange(0, i + 1) =~= b@.subrange(0, i as int).push(b@[i as int]));
        i = i + 1;
    }
    assert(a@ =~= a@.subrange(0, 8));
    assert(b@ =~= b@.subrange(0, 8));
    true
}

fn copy_location(l: &SymbolLocation) -> (r: SymbolLocation)
    ensures
        r@ == l@,
{
    SymbolLocation { start: l.start, end: l.end, file_uri: l.file_uri.clone() }
}

fn copy_symbol(s: &Symbol) -> (r: Symbol)
    ensures
        r@ == s@,
{
    let mut headers: Vec<SymbolIncludedHeader> = Vec::new();
    let mut i: usize = 0;
    while i < s.headers.len()
        invariant
            i <= s.headers.len(),
            headers@.len() == i,
            forall|k: int| 0 <= k < i ==> headers@[k]@ == s.headers@[k]@,
        decreases s.headers.len() - i,
    {
        let h = &s.headers[i];
        headers.push(
            SymbolIncludedHeader {
                name: h.name.clone(),
                refs: h.refs,
                supported_directives: h.supported_directives,
            },
        );
        i = i + 1;
    }
    assert(header_views(headers@) =~= header_views(s.headers@));
    Symbol {
        id: s.id,
        syminfo: s.syminfo,
        name: s.name.clone(),
        scope: s.scope.clone(),
        definition: copy_location(&s.definition),
        canonical_declaration: copy_location(&s.canonical_declaration),
        references: s.references,
        flags: s.flags,
        origin: s.origin,
        signature: s.signature.clone(),
        template_specialization_args: s.template_specialization_args.clone(),
        completion_snippet_suffix: s.completion_snippet_suffix.clone(),
        documentation: s.documentation.clone(),
        return_t: s.return_t.clone(),
        t: s.t.clone(),
        headers,
    }
}

impl ClangdDatabase {
    /// Each mapping holds each key once.
    pub open spec fn wf(&self) -> bool {
        unique_keys(self@.file) && unique_keys(self@.id) && unique_keys(self@.name)
    }

    /// An empty database.
    pub fn new() -> (r: ClangdDatabase)
        ensures
            r@ == empty_db(),
            r.wf(),
    {
        let r = ClangdDatabase { file: Vec::new(), id: Vec::new(), name: Vec::new() };
        assert(r@.file =~= Seq::empty());
        assert(r@.id =~= Seq::empty());
        assert(r@.name =~= Seq::empty());
        r
    }

    /// Whether the file mapping has `key`.
    pub fn has_file(&self, key: &String) -> (r: bool)
        ensures
            r == has_key(self@.file, key@),
    {
        let mut i: usize = 0;
        while i < self.file.len()
            invariant
                i <= self.file.len(),
                forall|j: int| 0 <= j < i ==> self@.file[j].0 != key@,
            decreases self.file.len() - i,
        {
            if self.file[i].0 == *key {
                assert(self@.file[i as int].0 == key@);
                return true;
            }
            i = i + 1;
        }
        false
    }

    /// Whether the id mapping has `id`.
    pub fn has_id(&self, id: &SymbolId) -> (r: bool)
        ensures
            r == has_key(self@.id, id@),
    {
        let mut i: usize = 0;
        while i < self.id.len()
            invariant
                i <= self.id.len(),
                forall|j: int| 0 <= j < i ==> self@.id[j].0 != id@,
            decreases self.id.len() - i,
        {
            if same_id(&self.id[i].0, id) {
                assert(self@.id[i as int].0 == id@);
                return true;
            }
            i = i + 1;
        }
        false
    }

    /// Whether the name mapping has `name`.
    pub fn has_name(&self, name: &String) -> (r: bool)
        ensures
            r == has_key(self@.name, name@),
    {
        let mut i: usize = 0;
        while i < self.name.len()
            invariant
                i <= self.name.len(),
                forall|j: int| 0 <= j < i ==> self@.name[j].0 != name@,
            decreases self.name.len() - i,
        {
            if self.name[i].0 == *name {
                assert(self@.name[i as int].0 == name@);
                return true;
            }
            i = i + 1;
        }
        false
    }

    /// Adds a symbol to the id and the name mappings, under keys that are not
    /// there yet.
    pub fn add_symbol(&mut self, s: &Symbol)
        requires
            old(self).wf(),
        ensures
            final(self).wf(),
            final(self)@ == (DbView {
                file: old(self)@.file,
                id: insert_new(old(self)@.id, s@.id, s@),
                name: insert_new(old(self)@.name, s@.name, s@),
            }),
    {
        proof {
            lemma_insert_new_unique(self@.id, s@.id, s@);
            lemma_insert_new_unique(self@.name, s@.name, s@);
        }
        if !self.has_id(&s.id) {
            let ghost before = self@.id;
            self.id.push((s.id, copy_symbol(s)));
            assert(self@.id =~= before.push((s@.id, s@)));
        }
        if !self.has_name(&s.name) {
            let ghost before = self@.name;
            self.name.push((s.name.clone(), copy_symbol(s)));
            assert(self@.name =~= before.push((s@.name, s@)));
        }
    }

    /// Adds a decoded file under the key of `name`, unless a file is there
    /// under that key already, and adds its symbols.
    pub fn add_file(&mut self, name: &str, f: ClangdFile)
        requires
            old(self).wf(),
        ensures
            final(self).wf(),
            final(self)@ == add_file(old(self)@, file_key_of(name@), f@),
    {
        let key = file_key(name);
        let ghost start = self@;
        let ghost syms = f@.symbols;
        let mut i: usize = 0;
        assert(syms.subrange(0, 0) =~= Seq::<SymbolView>::empty());
        while i < f.symbols.data.len()
            invariant
                i <= f.symbols.data.len(),
                syms == f@.symbols,
                self.wf(),
                self@ == add_symbols(start, syms.subrange(0, i as int)),
            decreases f.symbols.data.len() - i,
        {
            self.add_symbol(&f.symbols.data[i]);
            assert(syms.subrange(0, i + 1).drop_last() =~= syms.subrange(0, i as int));
            i = i + 1;
        }
        assert(syms.subrange(0, syms.len() as int) =~= syms);
        proof {
            lemma_insert_new_unique(self@.file, key@, f@);
        }
        if !self.has_file(&key) {
            let ghost before = self@.file;
            self.file.push((key, f));
            assert(self@.file =~= before.push((key@, f@)));
        }
    }
}

/// Lexicographic order of names, character by character.
pub open spec fn name_lt(a: Seq<char>, b: Seq<char>) -> bool
    decreases a.len(),
{
    if b.len() == 0 {
        false
    } else if a.len() == 0 {
        true
    } else if a[0] != b[0] {
        a[0] < b[0]
    } else {
        name_lt(a.drop_first(), b.drop_first())
    }
}

/// Puts `x` before the first entry whose name is greater than its own.
pub open spec fn insert_sorted(s: Seq<(Seq<char>, FileView)>, x: (Seq<char>, FileView)) -> Seq<
    (Seq<char>, FileView),
>
    decreases s.len(),
{
    if s.len() == 0 {
        seq![x]
    } else if name_lt(x.0, s[0].0) {
        seq![x] + s
    } else {
        seq![s[0]] + insert_sorted(s.drop_first(), x)
    }
}

/// The named files ordered by name; files of equal names keep their order.
pub open spec fn sort_by_name(s: Seq<(Seq<char>, FileView)>) -> Seq<(Seq<char>, FileView)>
    decreases s.len(),
{
    if s.len() == 0 {
        s
    } else {
        insert_sorted(sort_by_name(s.drop_last()), s.last())
    }
}

/// The database that a directory of named decoded files merges into: the
/// files are taken in the order of their names, and the first entry met under
/// each key stays.
pub open spec fn merged(files: Seq<(Seq<char>, FileView)>) -> DbView {
    merge_in_order(sort_by_name(files))
}

/// No later entry has a name that orders before an earlier one.
pub open spec fn sorted_by_name(s: Seq<(Seq<char>, FileView)>) -> bool {
    forall|i: int, j: int| 0 <= i < j < s.len() ==> !name_lt(#[trigger] s[j].0, #[trigger] s[i].0)
}

/// No two entries have the same name.
pub open spec fn distinct_names(s: Seq<(Seq<char>, FileView)>) -> bool {
    forall|i: int, j: int| 0 <= i < s.len() && 0 <= j < s.len() && i != j ==> #[trigger] s[i].0 != #[trigger] s[j].0
}

proof fn lemma_name_lt_irreflexive(a: Seq<char>)
    ensures
        !name_lt(a, a),
    decreases a.len(),
{
    if a.len() > 0 {
        lemma_name_lt_irreflexive(a.drop_first());
    }
}

proof fn lemma_name_lt_transitive(a: Seq<char>, b: Seq<char>, c: Seq<char>)
    requires
        name_lt(a, b),
        name_lt(b, c),
    ensures
        name_lt(a, c),
    decreases a.len(),
{
    if a.len() > 0 && b.len() > 0 && c.len() > 0 && a[0] == b[0] && b[0] == c[0] {
        lemma_name_lt_transitive(a.drop_first(), b.drop_first(), c.drop_first());
    }
}

proof fn lemma_name_lt_total(a: Seq<char>, b: Seq<char>)
    requires
        a != b,
    ensures
        name_lt(a, b) || name_lt(b, a),
    decreases a.len(),
{
    if a.len() > 0 && b.len() > 0 && a[0] == b[0] {
        if a.drop_first() == b.drop_first() {
            assert(a =~= seq![a[0]] + a.drop_first());
            assert(b =~= seq![b[0]] + b.drop_first());
        }
        lemma_name_lt_total(a.drop_first(), b.drop_first());
    } else if a.len() == 0 && b.len() == 0 {
        assert(a =~= b);
    }
}

proof fn lemma_insert_sorted(s: Seq<(Seq<char>, FileView)>, x: (Seq<char>, FileView))
    ensures
        insert_sorted(s, x).len() == s.len() + 1,
        forall|y: (Seq<char>, FileView)| #[trigger] insert_sorted(s, x).contains(y) <==> (y == x || s.contains(y)),
        sorted_by_name(s) ==> sorted_by_name(insert_sorted(s, x)),
        distinct_names(s) && (forall|i: int| 0 <= i < s.len() ==> #[trigger] s[i].0 != x.0) ==> distinct_names(
            insert_sorted(s, x),
        ),
    decreases s.len(),
{
    let r = insert_sorted(s, x);
    if s.len() == 0 {
        assert(r =~= seq![x]);
        assert forall|y: (Seq<char>, FileView)| #[trigger] r.contains(y) <==> (y == x || s.contains(y)) by {
            if y == x {
                assert(r[0] == y);
            }
        }
    } else if name_lt(x.0, s[0].0) {
        assert(r =~= seq![x] + s);
        assert forall|y: (Seq<char>, FileView)| #[trigger] r.contains(y) <==> (y == x || s.contains(y)) by {
            if r.contains(y) {
                let i = choose|i: int| 0 <= i < r.len() && r[i] == y;
                if i > 0 {
                    assert(s[i - 1] == y);
                }
            }
            if s.contains(y) {
                let i = choose|i: int| 0 <= i < s.len() && s[i] == y;
                assert(r[i + 1] == y);
            }
            if y == x {
                assert(r[0] == y);
            }
        }
        if sorted_by_name(s) {
            assert forall|i: int, j: int| 0 <= i < j < r.len() implies !name_lt(#[trigger] r[j].0, #[trigger] r[i].0) by {
                if i == 0 {
                    assert(r[j] == s[j - 1]);
                    if name_lt(s[j - 1].0, x.0) {
                        lemma_name_lt_transitive(s[j - 1].0, x.0, s[0].0);
                        if j - 1 > 0 {
                            assert(!name_lt(s[j - 1].0, s[0].0));
                        } else {
                            lemma_name_lt_irreflexive(s[0].0);
                        }
                    }
                } else {
                    assert(r[i] == s[i - 1] && r[j] == s[j - 1]);
                }
            }
        }
        if distinct_names(s) && (forall|i: int| 0 <= i < s.len() ==> #[trigger] s[i].0 != x.0) {
            assert forall|i: int, j: int| 0 <= i < r.len() && 0 <= j < r.len() && i != j implies #[trigger] r[i].0
                != #[trigger] r[j].0 by {
                if i > 0 {
                    assert(r[i] == s[i - 1]);
                }
                if j > 0 {
                    assert(r[j] == s[j - 1]);
                }
            }
        }
    } else {
        let t = s.drop_first();
        let rt = insert_sorted(t, x);
        lemma_insert_sorted(t, x);
        assert(r =~= seq![s[0]] + rt);
        assert forall|y: (Seq<char>, FileView)| #[trigger] r.contains(y) <==> (y == x || s.contains(y)) by {
            if r.contains(y) {
                let i = choose|i: int| 0 <= i < r.len() && r[i] == y;
                if i > 0 {
                    assert(rt[i - 1] == y);
                    assert(rt.contains(y));
                    if t.contains(y) {
                        let k = choose|k: int| 0 <= k < t.len() && t[k] == y;
                        assert(s[k + 1] == y);
                    }
                } else {
                    assert(s[0] == y);
                }
            }
            if s.contains(y) {
                let i = choose|i: int| 0 <= i < s.len() && s[i] == y;
                if i > 0 {
                    assert(t[i - 1] == y);
                    assert(rt.contains(y));
                    let k = choose|k: int| 0 <= k < rt.len() && rt[k] == y;
                    assert(r[k + 1] == y);
                } else {
                    assert(r[0] == y);
                }
            }
            if y == x {
                assert(rt.contains(x));
                let k = choose|k: int| 0 <= k < rt.len() && rt[k] == x;
                assert(r[k + 1] == y);
            }
        }
        if sorted_by_name(s) {
            assert(sorted_by_name(t)) by {
                assert forall|i: int, j: int| 0 <= i < j < t.len() implies !name_lt(#[trigger] t[j].0, #[trigger] t[i].0) by {
                    assert(t[i] == s[i + 1] && t[j] == s[j + 1]);
                }
            }
            assert forall|i: int, j: int| 0 <= i < j < r.len() implies !name_lt(#[trigger] r[j].0, #[trigger] r[i].0) by {
                if i == 0 {
                    assert(r[j] == rt[j - 1]);
                    assert(rt.contains(rt[j - 1]));
                    if rt[j - 1] != x {
                        assert(s.contains(rt[j - 1]));
                        let k = choose|k: int| 0 <= k < s.len() && s[k] == rt[j - 1];
                        if k == 0 {
                            lemma_name_lt_irreflexive(s[0].0);
                        }
                    }
                } else {
                    assert(r[i] == rt[i - 1] && r[j] == rt[j - 1]);
                }
            }
        }
        if distinct_names(s) && (forall|i: int| 0 <= i < s.len() ==> #[trigger] s[i].0 != x.0) {
            assert forall|i: int| 0 <= i < t.len() implies #[trigger] t[i].0 != x.0 by {
                assert(t[i] == s[i + 1]);
            }
            assert(distinct_names(t)) by {
                assert forall|i: int, j: int| 0 <= i < t.len() && 0 <= j < t.len() && i != j implies #[trigger] t[i].0
                    != #[trigger] t[j].0 by {
                    assert(t[i] == s[i + 1] && t[j] == s[j + 1]);
                }
            }
            assert forall|i: int, j: int| 0 <= i < r.len() && 0 <= j < r.len() && i != j implies #[trigger] r[i].0
                != #[trigger] r[j].0 by {
                if i > 0 && j > 0 {
                    assert(r[i] == rt[i - 1] && r[j] == rt[j - 1]);
                } else {
                    let k = if i == 0 { j } else { i };
                    assert(r[k] == rt[k - 1]);
                    assert(rt.contains(rt[k - 1]));
                    if rt[k - 1] != x {
                        let m = choose|m: int| 0 <= m < s.len() && s[m] == rt[k - 1];
                        if m == 0 {
                            let m2 = choose|m2: int| 0 <= m2 < t.len() && t[m2] == rt[k - 1];
                            assert(t.contains(rt[k - 1]) || rt[k - 1] == x);
                            assert(s[m2 + 1] == rt[k - 1]);
                        }
                    }
                }
            }
        }
    }
}

proof fn lemma_sort_by_name(s: Seq<(Seq<char>, FileView)>)
    ensures
        sort_by_name(s).len() == s.len(),
        forall|y: (Seq<char>, FileView)| #[trigger] sort_by_name(s).contains(y) <==> s.contains(y),
        sorted_by_name(sort_by_name(s)),
        distinct_names(s) ==> distinct_names(sort_by_name(s)),
    decreases s.len(),
{
    if s.len() == 0 {
    } else {
        let p = s.drop_last();
        let x = s.last();
        let sp = sort_by_name(p);
        lemma_sort_by_name(p);
        lemma_insert_sorted(sp, x);
        assert forall|y: (Seq<char>, FileView)| #[trigger] sort_by_name(s).contains(y) <==> s.contains(y) by {
            if p.contains(y) {
                let k = choose|k: int| 0 <= k < p.len() && p[k] == y;
                assert(s[k] == y);
            }
            if s.contains(y) {
                let k = choose|k: int| 0 <= k < s.len() && s[k] == y;
                if k < p.len() {
                    assert(p[k] == y);
                }
            }
            assert(s[s.len() - 1] == x);
        }
        if distinct_names(s) {
            assert(distinct_names(p)) by {
                assert forall|i: int, j: int| 0 <= i < p.len() && 0 <= j < p.len() && i != j implies #[trigger] p[i].0
                    != #[trigger] p[j].0 by {
                    assert(p[i] == s[i] && p[j] == s[j]);
                }
            }
            assert forall|i: int| 0 <= i < sp.len() implies #[trigger] sp[i].0 != x.0 by {
                assert(sp.contains(sp[i]));
                let k = choose|k: int| 0 <= k < p.len() && p[k] == sp[i];
                assert(s[k] == sp[i]);
                assert(s[s.len() - 1] == x);
            }
        }
    }
}

proof fn lemma_sorted_unique(s1: Seq<(Seq<char>, FileView)>, s2: Seq<(Seq<char>, FileView)>)
    requires
        sorted_by_name(s1),
        sorted_by_name(s2),
        distinct_names(s1),
        distinct_names(s2),
        forall|y: (Seq<char>, FileView)| s1.contains(y) <==> s2.contains(y),
    ensures
        s1 == s2,
    decreases s1.len(),
{
    if s1.len() == 0 {
        if s2.len() > 0 {
            assert(s2.contains(s2[0]));
        }
        assert(s1 =~= s2);
    } else {
        assert(s1.contains(s1[0]));
        assert(s2.len() > 0);
        assert(s2.contains(s2[0]));
        let a = s1[0];
        let b = s2[0];
        let k = choose|k: int| 0 <= k < s2.len() && s2[k] == a;
        let m = choose|m: int| 0 <= m < s1.len() && s1[m] == b;
        if a != b {
            assert(k != 0 && m != 0);
            assert(a.0 != b.0);
            assert(!name_lt(s1[m].0, s1[0].0));
            assert(!name_lt(s2[k].0, s2[0].0));
            lemma_name_lt_total(a.0, b.0);
        }
        let t1 = s1.drop_first();
        let t2 = s2.drop_first();
        assert forall|y: (Seq<char>, FileView)| t1.contains(y) <==> t2.contains(y) by {
            if t1.contains(y) {
                let i = choose|i: int| 0 <= i < t1.len() && t1[i] == y;
                assert(s1[i + 1] == y);
                assert(s1.contains(y));
                let j = choose|j: int| 0 <= j < s2.len() && s2[j] == y;
                if j == 0 {
                    assert(s1[i + 1].0 != s1[0].0);
                } else {
                    assert(t2[j - 1] == y);
                }
            }
            if t2.contains(y) {
                let i = choose|i: int| 0 <= i < t2.len() && t2[i] == y;
                assert(s2[i + 1] == y);
                assert(s2.contains(y));
                let j = choose|j: int| 0 <= j < s1.len() && s1[j] == y;
                if j == 0 {
                    assert(s2[i + 1].0 != s2[0].0);
                } else {
                    assert(t1[j - 1] == y);
                }
            }
        }
        assert(sorted_by_name(t1)) by {
            assert forall|i: int, j: int| 0 <= i < j < t1.len() implies !name_lt(#[trigger] t1[j].0, #[trigger] t1[i].0) by {
                assert(t1[i] == s1[i + 1] && t1[j] == s1[j + 1]);
            }
        }
        assert(sorted_by_name(t2)) by {
            assert forall|i: int, j: int| 0 <= i < j < t2.len() implies !name_lt(#[trigger] t2[j].0, #[trigger] t2[i].0) by {
                assert(t2[i] == s2[i + 1] && t2[j] == s2[j + 1]);
            }
        }
        assert(distinct_names(t1)) by {
            assert forall|i: int, j: int| 0 <= i < t1.len() && 0 <= j < t1.len() && i != j implies #[trigger] t1[i].0
                != #[trigger] t1[j].0 by {
                assert(t1[i] == s1[i + 1] && t1[j] == s1[j + 1]);
            }
        }
        assert(distinct_names(t2)) by {
            assert forall|i: int, j: int| 0 <= i < t2.len() && 0 <= j < t2.len() && i != j implies #[trigger] t2[i].0
                != #[trigger] t2[j].0 by {
                assert(t2[i] == s2[i + 1] && t2[j] == s2[j + 1]);
            }
        }
        lemma_sorted_unique(t1, t2);
        assert(s1 =~= seq![a] + t1);
        assert(s2 =~= seq![b] + t2);
    }
}

/// Merging the same set of distinctly named files yields the same database,
/// with the same file, id and name mappings, in whatever order the files
/// are given.
pub proof fn lemma_merge_order_independent(s1: Seq<(Seq<char>, FileView)>, s2: Seq<(Seq<char>, FileView)>)
    requires
        distinct_names(s1),
        distinct_names(s2),
        forall|y: (Seq<char>, FileView)| s1.contains(y) <==> s2.contains(y),
    ensures
        merged(s1) == merged(s2),
        merged(s1).id == merged(s2).id,
        merged(s1).name == merged(s2).name,
{
    lemma_sort_by_name(s1);
    lemma_sort_by_name(s2);
    let t1 = sort_by_name(s1);
    let t2 = sort_by_name(s2);
    assert forall|y: (Seq<char>, FileView)| t1.contains(y) <==> t2.contains(y) by {
        assert(t1.contains(y) <==> s1.contains(y));
        assert(t2.contains(y) <==> s2.contains(y));
    }
    lemma_sorted_unique(t1, t2);
}

pub open spec fn named_views(s: Seq<(String, ClangdFile)>) -> Seq<(Seq<char>, FileView)> {
    s.map_values(|e: (String, ClangdFile)| (e.0@, e.1@))
}

fn name_less(a: &String, b: &String) -> (r: bool)
    ensures
        r == name_lt(a@, b@),
{
    let sa = a.as_str();
    let sb = b.as_str();
    let la = sa.unicode_len();
    let lb = sb.unicode_len();
    let mut k: usize = 0;
    assert(a@.subrange(0, la as int) =~= a@);
    assert(b@.subrange(0, lb as int) =~= b@);
    while k < la && k < lb
        invariant
            sa@ == a@,
            sb@ == b@,
            la == a@.len(),
            lb == b@.len(),
            k <= la,
            k <= lb,
            name_lt(a@, b@) == name_lt(a@.subrange(k as int, la as int), b@.subrange(k as int, lb as int)),
        decreases la - k,
    {
        let ca = sa.get_char(k);
        let cb = sb.get_char(k);
        let ghost ra = a@.subrange(k as int, la as int);
        let ghost rb = b@.subrange(k as int, lb as int);
        assert(ra[0] == ca && rb[0] == cb);
        if ca != cb {
            return ca < cb;
        }
        assert(ra.drop_first() =~= a@.subrange(k + 1, la as int));
        assert(rb.drop_first() =~= b@.subrange(k + 1, lb as int));
        k = k + 1;
    }
    k < lb
}

/// Where `insert_sorted` puts `x`: at the first entry whose name is greater.
proof fn lemma_insert_at(s: Seq<(Seq<char>, FileView)>, x: (Seq<char>, FileView), j: int)
    requires
        0 <= j <= s.len(),
        forall|k: int| 0 <= k < j ==> !name_lt(x.0, #[trigger] s[k].0),
        j < s.len() ==> name_lt(x.0, s[j].0),
    ensures
        insert_sorted(s, x) == s.insert(j, x),
    decreases j,
{
    if j == 0 {
        assert(s.insert(0, x) =~= seq![x] + s);
    } else {
        assert(!name_lt(x.0, s[0].0));
        let t = s.drop_first();
        assert forall|k: int| 0 <= k < j - 1 implies !name_lt(x.0, #[trigger] t[k].0) by {
            assert(t[k] == s[k + 1]);
        }
        if j - 1 < t.len() {
            assert(t[j - 1] == s[j]);
        }
        lemma_insert_at(t, x, j - 1);
        assert(s.insert(j, x) =~= seq![s[0]] + t.insert(j - 1, x));
    }
}

/// The position before the first entry whose name is greater than `name`.
fn insertion_point(sorted: &Vec<(String, ClangdFile)>, name: &String) -> (j: usize)
    ensures
        j <= sorted.len(),
        forall|k: int| 0 <= k < j ==> !name_lt(name@, #[trigger] named_views(sorted@)[k].0),
        j < sorted.len() ==> name_lt(name@, named_views(sorted@)[j as int].0),
{
    let mut j: usize = 0;
    while j < sorted.len()
        invariant
            j <= sorted.len(),
            forall|k: int| 0 <= k < j ==> !name_lt(name@, #[trigger] named_views(sorted@)[k].0),
        decreases sorted.len() - j,
    {
        if name_less(name, &sorted[j].0) {
            return j;
        }
        j = j + 1;
    }
    j
}

/// Orders named files by name, as `sort_by_name` does.
pub fn sort_files(files: Vec<(String, ClangdFile)>) -> (r: Vec<(String, ClangdFile)>)
    ensures
        named_views(r@) == sort_by_name(named_views(files@)),
{
    let ghost all = named_views(files@);
    let n = files.len();
    let mut rest = files;
    let mut sorted: Vec<(String, ClangdFile)> = Vec::new();
    let mut i: usize = 0;
    assert(all.subrange(0, 0) =~= Seq::<(Seq<char>, FileView)>::empty());
    assert(named_views(sorted@) =~= Seq::empty());
    assert(named_views(rest@) =~= all.subrange(0, n as int));
    while i < n
        invariant
            n == all.len(),
            i <= n,
            rest.len() == n - i,
            named_views(rest@) == all.subrange(i as int, n as int),
            named_views(sorted@) == sort_by_name(all.subrange(0, i as int)),
        decreases n - i,
    {
        let ghost rv = named_views(rest@);
        let x = rest.remove(0);
        assert(named_views(rest@) =~= rv.drop_first());
        assert(named_views(rest@) =~= all.subrange(i + 1, n as int));
        let ghost xv = (x.0@, x.1@);
        assert(xv == all[i as int]) by {
            assert(rv[0] == xv);
        }
        let j = insertion_point(&sorted, &x.0);
        let ghost sv = named_views(sorted@);
        proof {
            lemma_insert_at(sv, xv, j as int);
            let pre = all.subrange(0, i + 1);
            assert(pre.drop_last() =~= all.subrange(0, i as int));
            assert(pre.last() == xv);
        }
        sorted.insert(j, x);
        assert(named_views(sorted@) =~= sv.insert(j as int, xv));
        i = i + 1;
    }
    assert(all.subrange(0, n as int) =~= all);
    sorted
}

/// Merges the decoded files of an index directory, each with the name of its
/// file: in the order of the names, whatever the order given, and first seen
/// wins under each key.
pub fn merge_files(files: Vec<(String, ClangdFile)>) -> (r: ClangdDatabase)
    ensures
        r.wf(),
        r@ == merged(named_views(files@)),
{
    let mut rest = sort_files(files);
    let ghost all = named_views(rest@);
    let n = rest.len();
    let mut db = ClangdDatabase::new();
    let mut i: usize = 0;
    assert(all.subrange(0, 0) =~= Seq::<(Seq<char>, FileView)>::empty());
    assert(named_views(rest@) =~= all.subrange(0, n as int));
    while i < n
        invariant
            n == all.len(),
            i <= n,
            rest.len() == n - i,
            named_views(rest@) == all.subrange(i as int, n as int),
            db@ == merge_in_order(all.subrange(0, i as int)),
            db.wf(),
        decreases n - i,
    {
        let ghost rv = named_views(rest@);
        let (name, f) = rest.remove(0);
        assert(named_views(rest@) =~= rv.drop_first());
        assert(named_views(rest@) =~= all.subrange(i + 1, n as int));
        assert(name@ == all[i as int].0 && f@ == all[i as int].1) by {
            assert(rv[0] == all[i as int]);
        }
        db.add_file(name.as_str(), f);
        let ghost pre = all.subrange(0, i + 1);
        assert(pre.drop_last() =~= all.subrange(0, i as int));
        i = i + 1;
    }
    assert(all.subrange(0, n as int) =~= all);
    db
}

/// The position of the last '/' before position `i`; -1 where there is none.
pub open spec fn last_slash_before(u: Seq<char>, i: int) -> int
    decreases i,
{
    if i <= 0 {
        -1
    } else if u[i - 1] == '/' {
        i - 1
    } else {
        last_slash_before(u, i - 1)
    }
}

/// The header file that a variable symbol is declared in: the last path
/// component of its canonical declaration (the whole of it where it holds no
/// '/'), where that ends in ".h".
pub open spec fn declaring_header(s: SymbolView) -> Option<Seq<char>> {
    let u = s.canonical_declaration.file_uri;
    let slash = last_slash_before(u, u.len() as int);
    let base = u.subrange(slash + 1, u.len() as int);
    if s.syminfo.kind == SymbolKind::Variable && base.len() >= 2 && base[base.len()
        - 2] == '.' && base[base.len() - 1] == 'h' {
        Some(base)
    } else {
        None
    }
}

/// The first position of key `k`.
pub open spec fn first_key_index<K, V>(m: Seq<(K, V)>, k: K) -> int {
    choose|i: int| 0 <= i < m.len() && (#[trigger] m[i]).0 == k && forall|j: int| 0 <= j < i ==> m[j].0 != k
}

/// Notes the symbol's id in the file entry of the header that declares it,
/// where the symbol is a variable declared in a header that has an entry.
pub open spec fn note_declaration(files: Seq<(Seq<char>, FileView)>, s: SymbolView) -> Seq<
    (Seq<char>, FileView),
> {
    match declaring_header(s) {
        Some(h) => if has_key(files, h) {
            let i = first_key_index(files, h);
            let f = files[i].1;
            files.update(
                i,
                (h, FileView { variable_declarations: f.variable_declarations.push(s.id), ..f }),
            )
        } else {
            files
        },
        None => files,
    }
}

/// Notes the declarations of the symbols in their order.
pub open spec fn note_declarations(files: Seq<(Seq<char>, FileView)>, syms: Seq<SymbolView>) -> Seq<
    (Seq<char>, FileView),
>
    decreases syms.len(),
{
    if syms.len() == 0 {
        files
    } else {
        note_declaration(note_declarations(files, syms.drop_last()), syms.last())
    }
}

pub open spec fn name_symbols(db: DbView) -> Seq<SymbolView> {
    db.name.map_values(|e: (Seq<char>, SymbolView)| e.1)
}

/// The position of the last '/' in `u`, if any.
fn last_slash(u: &str) -> (r: Option<usize>)
    ensures
        r matches Some(i) ==> last_slash_before(u@, u@.len() as int) == i && i < u@.len(),
        r is None ==> last_slash_before(u@, u@.len() as int) == -1,
{
    let n = u.unicode_len();
    let mut i: usize = n;
    while i > 0
        invariant
            n == u@.len(),
            i <= n,
            last_slash_before(u@, n as int) == last_slash_before(u@, i as int),
        decreases i,
    {
        if u.get_char(i - 1) == '/' {
            return Some(i - 1);
        }
        i = i - 1;
    }
    None
}

/// The header that declares a variable symbol, as `declaring_header` says.
pub fn declaring_header_of(s: &Symbol) -> (r: Option<String>)
    ensures
        r matches Some(h) ==> declaring_header(s@) == Some(h@),
        r is None ==> declaring_header(s@) is None,
{
    if s.syminfo.kind != SymbolKind::Variable {
        return None;
    }
    let u = s.canonical_declaration.file_uri.as_str();
    let n = u.unicode_len();
    let start: usize = match last_slash(u) {
        Some(i) => i + 1,
        None => 0,
    };
    if n - start < 2 || u.get_char(n - 2) != '.' || u.get_char(n - 1) != 'h' {
        return None;
    }
    let mut base = String::new();
    let mut i: usize = start;
    while i < n
        invariant
            n == u@.len(),
            start <= i <= n,
            base@ == u@.subrange(start as int, i as int),
        decreases n - i,
    {
        push_char(&mut base, u.get_char(i));
        assert(base@ =~= u@.subrange(start as int, i + 1));
        i = i + 1;
    }
    Some(base)
}

/// The value under key `k`: that of its first entry.
pub open spec fn lookup<K, V>(m: Seq<(K, V)>, k: K) -> Option<V> {
    if has_key(m, k) {
        Some(m[first_key_index(m, k)].1)
    } else {
        None
    }
}

proof fn lemma_first_key_index_is<K, V>(m: Seq<(K, V)>, k: K, i: int)
    requires
        0 <= i < m.len(),
        m[i].0 == k,
        forall|j: int| 0 <= j < i ==> m[j].0 != k,
    ensures
        first_key_index(m, k) == i,
{
    let c = first_key_index(m, k);
    assert(0 <= c < m.len() && m[c].0 == k && forall|j: int| 0 <= j < c ==> m[j].0 != k);
    if c < i {
        assert(m[c].0 != k);
    }
    if c > i {
        assert(m[i].0 != k);
    }
}

proof fn lemma_first_key_index<K, V>(m: Seq<(K, V)>, k: K)
    requires
        has_key(m, k),
    ensures
        0 <= first_key_index(m, k) < m.len(),
        m[first_key_index(m, k)].0 == k,
        forall|j: int| 0 <= j < first_key_index(m, k) ==> m[j].0 != k,
    decreases m.len(),
{
    let p = m.drop_last();
    if has_key(p, k) {
        lemma_first_key_index(p, k);
        let i = first_key_index(p, k);
        assert(m[i] == p[i]);
        assert forall|j: int| 0 <= j < i implies m[j].0 != k by {
            assert(m[j] == p[j]);
        }
        lemma_first_key_index_is(m, k, i);
    } else {
        let i = m.len() - 1;
        let w = choose|w: int| 0 <= w < m.len() && (#[trigger] m[w]).0 == k;
        if w < i {
            assert(p[w] == m[w]);
        }
        assert forall|j: int| 0 <= j < i implies m[j].0 != k by {
            assert(m[j] == p[j]);
            if m[j].0 == k {
                assert(p[j].0 == k);
            }
        }
        lemma_first_key_index_is(m, k, i);
    }
}

/// A key already in a mapping keeps its value when entries are added after.
proof fn lemma_prefix_lookup<K, V>(m: Seq<(K, V)>, n: Seq<(K, V)>, k: K)
    requires
        m.is_prefix_of(n),
        has_key(m, k),
    ensures
        lookup(n, k) == lookup(m, k),
{
    lemma_first_key_index(m, k);
    let i = first_key_index(m, k);
    assert(n[i] == m[i]);
    assert(has_key(n, k));
    assert forall|j: int| 0 <= j < i implies n[j].0 != k by {
        assert(n[j] == m[j]);
    }
    lemma_first_key_index_is(n, k, i);
}

/// First seen wins: once an id, a name or a file key is in the database,
/// adding a later file leaves the entry under it as it was.
pub proof fn lemma_first_seen_wins(db: DbView, key: Seq<char>, f: FileView, id: Seq<u8>, name: Seq<char>, fk: Seq<char>)
    ensures
        has_key(db.id, id) ==> lookup(add_file(db, key, f).id, id) == lookup(db.id, id),
        has_key(db.name, name) ==> lookup(add_file(db, key, f).name, name) == lookup(db.name, name),
        has_key(db.file, fk) ==> lookup(add_file(db, key, f).file, fk) == lookup(db.file, fk),
{
    lemma_add_file_keeps_entries(db, key, f);
    let r = add_file(db, key, f);
    if has_key(db.id, id) {
        lemma_prefix_lookup(db.id, r.id, id);
    }
    if has_key(db.name, name) {
        lemma_prefix_lookup(db.name, r.name, name);
    }
    if has_key(db.file, fk) {
        lemma_prefix_lookup(db.file, r.file, fk);
    }
}

impl ClangdDatabase {
    /// The decoded file under `key`.
    pub fn get_file(&self, key: &String) -> (r: Option<&ClangdFile>)
        ensures
            r matches Some(f) ==> lookup(self@.file, key@) == Some(f@),
            r is None ==> lookup(self@.file, key@) is None,
    {
        let ghost m = self@.file;
        let mut i: usize = 0;
        while i < self.file.len()
            invariant
                m == self@.file,
                i <= self.file.len(),
                forall|j: int| 0 <= j < i ==> m[j].0 != key@,
            decreases self.file.len() - i,
        {
            if self.file[i].0 == *key {
                assert(m[i as int].0 == key@);
                proof {
                    lemma_first_key_index_is(m, key@, i as int);
                }
                return Some(&self.file[i].1);
            }
            i = i + 1;
        }
        None
    }

    /// The symbol under `id`.
    pub fn get_symbol_by_id(&self, id: &SymbolId) -> (r: Option<&Symbol>)
        ensures
            r matches Some(s) ==> lookup(self@.id, id@) == Some(s@),
            r is None ==> lookup(self@.id, id@) is None,
    {
        let ghost m = self@.id;
        let mut i: usize = 0;
        while i < self.id.len()
            invariant
                m == self@.id,
                i <= self.id.len(),
                forall|j: int| 0 <= j < i ==> m[j].0 != id@,
            decreases self.id.len() - i,
        {
            if same_id(&self.id[i].0, id) {
                assert(m[i as int].0 == id@);
                proof {
                    lemma_first_key_index_is(m, id@, i as int);
                }
                return Some(&self.id[i].1);
            }
            i = i + 1;
        }
        None
    }

    /// The symbol under `name`.
    pub fn get_symbol_by_name(&self, name: &String) -> (r: Option<&Symbol>)
        ensures
            r matches Some(s) ==> lookup(self@.name, name@) == Some(s@),
            r is None ==> lookup(self@.name, name@) is None,
    {
        let ghost m = self@.name;
        let mut i: usize = 0;
        while i < self.name.len()
            invariant
                m == self@.name,
                i <= self.name.len(),
                forall|j: int| 0 <= j < i ==> m[j].0 != name@,
            decreases self.name.len() - i,
        {
            if self.name[i].0 == *name {
                assert(m[i as int].0 == name@);
                proof {
                    lemma_first_key_index_is(m, name@, i as int);
                }
                return Some(&self.name[i].1);
            }
            i = i + 1;
        }
        None
    }
}

/// Adds `id` to the variables noted in entry `i` of the files.
fn note_in_entry(files: &mut Vec<(String, ClangdFile)>, i: usize, id: SymbolId)
    requires
        i < old(files).len(),
    ensures
        named_views(final(files)@) == named_views(old(files)@).update(
            i as int,
            (
                named_views(old(files)@)[i as int].0,
                FileView {
                    variable_declarations: named_views(old(files)@)[i as int].1.variable_declarations.push(
                        id@,
                    ),
                    ..named_views(old(files)@)[i as int].1
                },
            ),
        ),
{
    let ghost before = named_views(files@);
    let mut entry = files.remove(i);
    assert((entry.0@, entry.1@) == before[i as int]);
    entry.1.note_variable(id);
    files.insert(i, entry);
    assert(named_views(files@) =~= before.update(i as int, (entry.0@, entry.1@)));
}

/// Notes a variable symbol in the file entry of the header that declares it,
/// as `note_declaration` says.
fn note_in_files(files: &mut Vec<(String, ClangdFile)>, s: &Symbol)
    ensures
        named_views(final(files)@) == note_declaration(named_views(old(files)@), s@),
        final(files)@.len() == old(files)@.len(),
        forall|i: int| 0 <= i < old(files)@.len() ==> #[trigger] named_views(final(files)@)[i].0 == named_views(old(files)@)[i].0,
{
    let ghost m = named_views(files@);
    let h = match declaring_header_of(s) {
        Some(h) => h,
        None => {
            return;
        },
    };
    let mut i: usize = 0;
    while i < files.len()
        invariant
            m == named_views(files@),
            m == named_views(old(files)@),
            declaring_header(s@) == Some(h@),
            i <= files.len(),
            forall|j: int| 0 <= j < i ==> m[j].0 != h@,
        decreases files.len() - i,
    {
        if files[i].0 == h {
            assert(m[i as int].0 == h@);
            proof {
                lemma_first_key_index_is(m, h@, i as int);
            }
            assert(has_key(m, h@));
            note_in_entry(files, i, s.id);
            assert(named_views(files@) =~= note_declaration(m, s@));
            return;
        }
        i = i + 1;
    }
}

impl ClangdDatabase {
    /// Notes the declaration of the symbol at position `k` of the name
    /// mapping, as `note_declaration` says.
    pub fn note_symbol(&mut self, k: usize)
        requires
            k < old(self).name.len(),
        ensures
            final(self)@ == (DbView {
                file: note_declaration(old(self)@.file, old(self)@.name[k as int].1),
                id: old(self)@.id,
                name: old(self)@.name,
            }),
            old(self).wf() ==> final(self).wf(),
    {
        assert(self@.name[k as int].1 == self.name@[k as int].1@);
        assert(self@.file == named_views(self.file@));
        let ghost before = self@.file;
        note_in_files(&mut self.file, &self.name[k].1);
        assert(self@.file == named_views(self.file@));
        assert(self@.file.len() == before.len());
        assert(forall|i: int| 0 <= i < before.len() ==> #[trigger] self@.file[i].0 == before[i].0);
    }
}

} // verus!
