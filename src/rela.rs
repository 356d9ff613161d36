use vstd::prelude::*;

use crate::clangd::{ClangdUtility, ParseError};
use crate::symbols::SymbolId;

verus! {

/// How the subject of a relation is related to its object.
#[derive(Debug, Clone, Copy, Default, PartialEq, Eq, Structural)]
pub enum RelationKind {
    #[default]
    BaseOf,
    OverriddenBy,
}

/// The predicate that a tag byte names; any tag but 1 gives `BaseOf`.
pub open spec fn relation_of_tag(b: u8) -> RelationKind {
    if b == 1 {
        RelationKind::OverriddenBy
    } else {
        RelationKind::BaseOf
    }
}

impl From<u8> for RelationKind {
    fn from(b: u8) -> Self {
        match b {
            1 => RelationKind::OverriddenBy,
            _ => RelationKind::BaseOf,
        }
    }
}

impl vstd::std_specs::convert::FromSpecImpl<u8> for RelationKind {
    open spec fn obeys_from_spec() -> bool {
        true
    }

    open spec fn from_spec(v: u8) -> Self {
        relation_of_tag(v)
    }
}

/// A directed edge of the type hierarchy.
#[derive(Debug, Clone, Copy, Default, PartialEq, Eq)]
pub struct Rela {
    pub subject: SymbolId,
    pub predicate: RelationKind,
    pub object: SymbolId,
}

pub struct RelaView {
    pub subject: Seq<u8>,
    pub predicate: RelationKind,
    pub object: Seq<u8>,
}

impl View for Rela {
    type V = RelaView;

    open spec fn view(&self) -> RelaView {
        RelaView { subject: self.subject@, predicate: self.predicate, object: self.object@ }
    }
}

/// Reads one relation record at `p`: an 8-byte subject, a predicate tag byte
/// and an 8-byte object.
pub open spec fn rela_at(b: Seq<u8>, p: int) -> Option<(RelaView, int)> {
    if 0 <= p && p + 17 <= b.len() {
        Some(
            (
                RelaView {
                    subject: b.subrange(p, p + 8),
                    predicate: relation_of_tag(b[p + 8]),
                    object: b.subrange(p + 9, p + 17),
                },
                p + 17,
            ),
        )
    } else {
        None
    }
}

/// Reads back-to-back relation records from `p` to the end of the payload.
pub open spec fn relas_from(b: Seq<u8>, p: int, acc: Seq<RelaView>) -> Option<Seq<RelaView>>
    decreases b.len() - p,
{
    if p >= b.len() {
        Some(acc)
    } else {
        match rela_at(b, p) {
            Some((r, q)) => relas_from(b, q, acc.push(r)),
            None => None,
        }
    }
}

/// The relations that a whole relation chunk payload holds.
pub open spec fn relas_of(b: Seq<u8>) -> Option<Seq<RelaView>> {
    relas_from(b, 0, Seq::empty())
}

pub open spec fn rela_views(v: Seq<Rela>) -> Seq<RelaView> {
    v.map_values(|r: Rela| r@)
}

impl ClangdUtility for Rela {}

impl Rela {
    /// Decodes a relation chunk payload: back-to-back 17-byte records up to
    /// its end. A payload that ends inside a record is a `DecodeError`.
    pub fn parse(data: &[u8]) -> (r: Result<Vec<Rela>, ParseError>)
        ensures
            r is Ok <==> relas_of(data@) is Some,
            r matches Ok(v) ==> relas_of(data@) == Some(rela_views(v@)),
            r matches Err(e) ==> e is DecodeError,
    {
        let ghost b = data@;
        let mut rela: Vec<Rela> = Vec::new();
        let mut cursor: usize = 0;
        assert(rela_views(rela@) =~= Seq::empty());
        while cursor < data.len()
            invariant
                b == data@,
                cursor <= data.len(),
                relas_of(b) == relas_from(b, cursor as int, rela_views(rela@)),
            decreases data.len() - cursor,
        {
            let subject = match Self::get_id(data, cursor) {
                Some(id) => id,
                None => {
                    return Err(ParseError::DecodeError);
                },
            };
            if data.len() - cursor < 17 {
                return Err(ParseError::DecodeError);
            }
            let predicate = RelationKind::from(data[cursor + 8]);
            let object = match Self::get_id(data, cursor + 9) {
                Some(id) => id,
                None => {
                    return Err(ParseError::DecodeError);
                },
            };
            let r = Rela { subject, predicate, object };
            let ghost before = rela_views(rela@);
            rela.push(r);
            assert(rela_views(rela@) =~= before.push(r@));
            cursor = cursor + 17;
        }
        Ok(rela)
    }
}

} // verus!
