use vstd::prelude::*;

use crate::clangd::{after, id_at, value, varint_at, ClangdUtility, ParseError};
use crate::symbols::{kind_of_tag, location_at, LocationView, SymbolId, SymbolKind, SymbolLocation};

verus! {

/// One occurrence of a symbol: how it is used, where, and inside what.
#[derive(Debug, Clone, Default)]
pub struct RefReferences {
    pub kind: SymbolKind,
    pub location: SymbolLocation,
    pub container_id: SymbolId,
}

pub struct OccurrenceView {
    pub kind: SymbolKind,
    pub location: LocationView,
    pub container_id: Seq<u8>,
}

impl View for RefReferences {
    type V = OccurrenceView;

    open spec fn view(&self) -> OccurrenceView {
        OccurrenceView { kind: self.kind, location: self.location@, container_id: self.container_id@ }
    }
}

/// The occurrences of one symbol.
#[derive(Debug, Clone, Default)]
pub struct Refs {
    pub id: SymbolId,
    pub cnt: usize,
    pub refs: Vec<RefReferences>,
}

pub struct RefsView {
    pub id: Seq<u8>,
    pub cnt: usize,
    pub refs: Seq<OccurrenceView>,
}

pub open spec fn occurrence_views(v: Seq<RefReferences>) -> Seq<OccurrenceView> {
    v.map_values(|o: RefReferences| o@)
}

impl View for Refs {
    type V = RefsView;

    open spec fn view(&self) -> RefsView {
        RefsView { id: self.id@, cnt: self.cnt, refs: occurrence_views(self.refs@) }
    }
}

/// Reads one occurrence at `p`: a kind tag byte, a location and the 8-byte id
/// of the container.
pub open spec fn occurrence_at(b: Seq<u8>, pool: Seq<Seq<char>>, p: int) -> Option<(OccurrenceView, int)> {
    let loc = location_at(b, pool, p + 1);
    let container = id_at(b, after(loc));
    if 0 <= p < b.len() && loc is Some && container is Some {
        Some(
            (
                OccurrenceView {
                    kind: kind_of_tag(b[p]),
                    location: value(loc),
                    container_id: container.unwrap(),
                },
                after(loc) + 8,
            ),
        )
    } else {
        None
    }
}

/// Reads `n` occurrences from `p` on, after the ones already in `acc`.
pub open spec fn occurrences_from(
    b: Seq<u8>,
    pool: Seq<Seq<char>>,
    p: int,
    n: nat,
    acc: Seq<OccurrenceView>,
) -> Option<(Seq<OccurrenceView>, int)>
    decreases n,
{
    if n == 0 {
        Some((acc, p))
    } else {
        let o = occurrence_at(b, pool, p);
        if o is Some {
            occurrences_from(b, pool, after(o), (n - 1) as nat, acc.push(value(o)))
        } else {
            None
        }
    }
}

/// Reads one reference record at `p`: the 8-byte id of the symbol, a count
/// and that many occurrences.
pub open spec fn refs_at(b: Seq<u8>, pool: Seq<Seq<char>>, p: int) -> Option<(RefsView, int)> {
    let id = id_at(b, p);
    let count = varint_at(b, p + 8);
    let occs = occurrences_from(b, pool, after(count), value(count) as nat, Seq::empty());
    if id is Some && count is Some && occs is Some {
        Some((RefsView { id: id.unwrap(), cnt: value(count) as usize, refs: value(occs) }, after(occs)))
    } else {
        None
    }
}

/// Reads back-to-back reference records from `p` to the end of the payload.
pub open spec fn refs_from(b: Seq<u8>, pool: Seq<Seq<char>>, p: int, acc: Seq<RefsView>) -> Option<
    Seq<RefsView>,
>
    decreases b.len() - p,
{
    if p >= b.len() {
        Some(acc)
    } else {
        let r = refs_at(b, pool, p);
        if r is Some && p < after(r) <= b.len() {
            refs_from(b, pool, after(r), acc.push(value(r)))
        } else {
            None
        }
    }
}

/// The reference records that a whole reference chunk payload holds.
pub open spec fn refs_of(b: Seq<u8>, pool: Seq<Seq<char>>) -> Option<Seq<RefsView>> {
    refs_from(b, pool, 0, Seq::empty())
}

pub open spec fn refs_views(v: Seq<Refs>) -> Seq<RefsView> {
    v.map_values(|r: Refs| r@)
}

impl ClangdUtility for Refs {}

impl Refs {
    fn get_occurrence(data: &[u8], pos: usize, string_table: &Vec<String>) -> (r: Option<
        (usize, RefReferences),
    >)
        ensures
            r matches Some((n, o)) ==> occurrence_at(data@, string_table.deep_view(), pos as int)
                == Some((o@, pos + n)) && pos + n <= data.len(),
            r is None ==> occurrence_at(data@, string_table.deep_view(), pos as int) is None,
    {
        if pos >= data.len() {
            return None;
        }
        let kind = SymbolKind::from(data[pos]);
        let (n, location) = SymbolLocation::get_location(data, pos + 1, string_table)?;
        let container_id = Self::get_id(data, pos + 1 + n)?;
        Some((1 + n + 8, RefReferences { kind, location, container_id }))
    }

    fn get_refs(data: &[u8], pos: usize, string_table: &Vec<String>) -> (r: Option<(usize, Refs)>)
        ensures
            r matches Some((n, x)) ==> refs_at(data@, string_table.deep_view(), pos as int) == Some(
                (x@, pos + n),
            ) && 0 < n && pos + n <= data.len(),
            r is None ==> refs_at(data@, string_table.deep_view(), pos as int) is None,
    {
        let ghost b = data@;
        let ghost pool = string_table.deep_view();
        let id = Self::get_id(data, pos)?;
        let (n, count) = Self::get_varint(data, pos + 8)?;
        let start: usize = pos + 8 + n;
        let mut cursor: usize = start;
        let mut refs: Vec<RefReferences> = Vec::new();
        let mut idx: u32 = 0;
        assert(occurrence_views(refs@) =~= Seq::empty());
        while idx < count
            invariant
                b == data@,
                pool == string_table.deep_view(),
                pos < start <= cursor <= data.len(),
                id_at(b, pos as int) == Some(id@),
                varint_at(b, pos + 8) == Some((count, start as int)),
                idx <= count,
                occurrences_from(b, pool, start as int, count as nat, Seq::empty())
                    == occurrences_from(
                    b,
                    pool,
                    cursor as int,
                    (count - idx) as nat,
                    occurrence_views(refs@),
                ),
            decreases count - idx,
        {
            let (n, o) = Self::get_occurrence(data, cursor, string_table)?;
            let ghost before = occurrence_views(refs@);
            refs.push(o);
            assert(occurrence_views(refs@) =~= before.push(o@));
            cursor = cursor + n;
            idx = idx + 1;
        }
        Some((cursor - pos, Refs { id, cnt: count as usize, refs }))
    }

    /// Decodes a reference chunk payload: back-to-back reference records up to
    /// its end. A payload that ends inside a record is a `DecodeError`.
    pub fn parse(data: &[u8], string_table: &Vec<String>) -> (r: Result<Vec<Refs>, ParseError>)
        ensures
            r is Ok <==> refs_of(data@, string_table.deep_view()) is Some,
            r matches Ok(v) ==> refs_of(data@, string_table.deep_view()) == Some(refs_views(v@)),
            r matches Err(e) ==> e is DecodeError,
    {
        let ghost b = data@;
        let ghost pool = string_table.deep_view();
        let mut refs: Vec<Refs> = Vec::new();
        let mut cursor: usize = 0;
        assert(refs_views(refs@) =~= Seq::empty());
        while cursor < data.len()
            invariant
                b == data@,
                pool == string_table.deep_view(),
                cursor <= data.len(),
                refs_of(b, pool) == refs_from(b, pool, cursor as int, refs_views(refs@)),
            decreases data.len() - cursor,
        {
            match Self::get_refs(data, cursor, string_table) {
                Some((n, x)) => {
                    let ghost before = refs_views(refs@);
                    refs.push(x);
                    assert(refs_views(refs@) =~= before.push(x@));
                    cursor = cursor + n;
                },
                None => {
                    return Err(ParseError::DecodeError);
                },
            }
        }
        Ok(refs)
    }
}

} // verus!
