//! Decoder for clangd's on-disk symbol index files, and the merge of a whole
//! index directory into one cross-reference database.
pub mod clangd;
pub mod symbols;
pub mod rela;
pub mod srcs;
pub mod cmdl;
pub mod refs;
pub mod database;

use vstd::prelude::*;

use crate::database::{name_symbols, note_declarations, ClangdDatabase, DbView};

verus! {

/// Notes, in the file entry of each header, the ids of the variables whose
/// canonical declaration is in that header. Symbols are taken from the name
/// mapping in its order; a variable whose header has no entry is passed over.
pub fn post_process(db: &mut ClangdDatabase)
    ensures
        final(db)@ == (DbView {
            file: note_declarations(old(db)@.file, name_symbols(old(db)@)),
            id: old(db)@.id,
            name: old(db)@.name,
        }),
        old(db).wf() ==> final(db).wf(),
{
    let ghost syms = name_symbols(db@);
    let ghost start = db@.file;
    let mut k: usize = 0;
    assert(syms.subrange(0, 0) =~= Seq::<crate::symbols::SymbolView>::empty());
    while k < db.name.len()
        invariant
            k <= db.name.len(),
            syms == name_symbols(db@),
            syms.len() == db.name.len(),
            db@.id == old(db)@.id,
            db@.name == old(db)@.name,
            start == old(db)@.file,
            db@.file == note_declarations(start, syms.subrange(0, k as int)),
            old(db).wf() ==> db.wf(),
        decreases db.name.len() - k,
    {
        assert(syms[k as int] == db@.name[k as int].1);
        let ghost pre = syms.subrange(0, k + 1);
        assert(pre.drop_last() =~= syms.subrange(0, k as int));
        db.note_symbol(k);
        k = k + 1;
    }
    assert(syms.subrange(0, syms.len() as int) =~= syms);
}

} // verus!
