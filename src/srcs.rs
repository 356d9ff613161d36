use vstd::prelude::*;

use crate::clangd::{after, id_at, string_at, strings_from, value, varint_at, ClangdUtility, ParseError};

verus! {

/// The flag of a source file record.
#[derive(Debug, Clone, Copy, Default, PartialEq, Eq, Structural)]
pub enum SourceFlags {
    #[default]
    NoFlags,
    IsTU,
    HadErrors,
}

/// The flag that a tag byte names: 1 and 2 give `IsTU` and `HadErrors`, any
/// other byte `NoFlags`.
pub open spec fn source_flags_of_tag(b: u8) -> SourceFlags {
    match b {
        1 => SourceFlags::IsTU,
        2 => SourceFlags::HadErrors,
        _ => SourceFlags::NoFlags,
    }
}

impl From<u8> for SourceFlags {
    fn from(b: u8) -> Self {
        match b {
            1 => SourceFlags::IsTU,
            2 => SourceFlags::HadErrors,
            _ => SourceFlags::NoFlags,
        }
    }
}

impl vstd::std_specs::convert::FromSpecImpl<u8> for SourceFlags {
    open spec fn obeys_from_spec() -> bool {
        true
    }

    open spec fn from_spec(v: u8) -> Self {
        source_flags_of_tag(v)
    }
}

/// A source file of the index, with the files that it includes directly.
#[derive(Clone, Debug, Default)]
pub struct Srcs {
    pub flags: SourceFlags,
    pub uri: String,
    pub digest: [u8; 8],
    pub direct_includes: Vec<String>,
}

pub struct SrcsView {
    pub flags: SourceFlags,
    pub uri: Seq<char>,
    pub digest: Seq<u8>,
    pub direct_includes: Seq<Seq<char>>,
}

impl View for Srcs {
    type V = SrcsView;

    open spec fn view(&self) -> SrcsView {
        SrcsView {
            flags: self.flags,
            uri: self.uri@,
            digest: self.digest@,
            direct_includes: self.direct_includes.deep_view(),
        }
    }
}

/// Reads one source record at `p`: a flag byte, a uri, an 8-byte digest, a
/// count and that many included uris.
pub open spec fn src_at(b: Seq<u8>, pool: Seq<Seq<char>>, p: int) -> Option<(SrcsView, int)> {
    let uri = string_at(b, pool, p + 1);
    let digest = id_at(b, after(uri));
    let count = varint_at(b, after(uri) + 8);
    let incs = strings_from(b, pool, after(count), value(count) as nat, Seq::empty());
    if 0 <= p < b.len() && uri is Some && digest is Some && count is Some && incs is Some {
        Some(
            (
                SrcsView {
                    flags: source_flags_of_tag(b[p]),
                    uri: value(uri),
                    digest: digest.unwrap(),
                    direct_includes: value(incs),
                },
                after(incs),
            ),
        )
    } else {
        None
    }
}

/// Reads back-to-back source records from `p` to the end of the payload.
pub open spec fn srcs_from(b: Seq<u8>, pool: Seq<Seq<char>>, p: int, acc: Seq<SrcsView>) -> Option<
    Seq<SrcsView>,
>
    decreases b.len() - p,
{
    if p >= b.len() {
        Some(acc)
    } else {
        let s = src_at(b, pool, p);
        if s is Some && p < after(s) <= b.len() {
            srcs_from(b, pool, after(s), acc.push(value(s)))
        } else {
            None
        }
    }
}

/// The source records that a whole source chunk payload holds.
pub open spec fn srcs_of(b: Seq<u8>, pool: Seq<Seq<char>>) -> Option<Seq<SrcsView>> {
    srcs_from(b, pool, 0, Seq::empty())
}

pub open spec fn srcs_views(v: Seq<Srcs>) -> Seq<SrcsView> {
    v.map_values(|s: Srcs| s@)
}

impl ClangdUtility for Srcs {}

impl Srcs {
    fn get_src(data: &[u8], pos: usize, string_table: &Vec<String>) -> (r: Option<(usize, Srcs)>)
        ensures
            r matches Some((n, s)) ==> src_at(data@, string_table.deep_view(), pos as int) == Some(
                (s@, pos + n),
            ) && 0 < n && pos + n <= data.len(),
            r is None ==> src_at(data@, string_table.deep_view(), pos as int) is None,
    {
        if pos >= data.len() {
            return None;
        }
        let flags = SourceFlags::from(data[pos]);
        let mut cursor: usize = pos + 1;
        let (n, uri) = Self::get_string(data, cursor, string_table)?;
        cursor = cursor + n;
        let digest = Self::get_id(data, cursor)?;
        cursor = cursor + 8;
        let (n, count) = Self::get_varint(data, cursor)?;
        cursor = cursor + n;
        let (n, direct_includes) = Self::get_string_list(data, cursor, count, string_table)?;
        cursor = cursor + n;
        Some((cursor - pos, Srcs { flags, uri, digest, direct_includes }))
    }

    /// Decodes a source chunk payload: back-to-back source records up to its
    /// end. A payload that ends inside a record is a `DecodeError`.
    pub fn parse(data: &[u8], string_table: &Vec<String>) -> (r: Result<Vec<Srcs>, ParseError>)
        ensures
            r is Ok <==> srcs_of(data@, string_table.deep_view()) is Some,
            r matches Ok(v) ==> srcs_of(data@, string_table.deep_view()) == Some(srcs_views(v@)),
            r matches Err(e) ==> e is DecodeError,
    {
        let ghost b = data@;
        let ghost pool = string_table.deep_view();
        let mut srcs: Vec<Srcs> = Vec::new();
        let mut cursor: usize = 0;
        assert(srcs_views(srcs@) =~= Seq::empty());
        while cursor < data.len()
            invariant
                b == data@,
                pool == string_table.deep_view(),
                cursor <= data.len(),
                srcs_of(b, pool) == srcs_from(b, pool, cursor as int, srcs_views(srcs@)),
            decreases data.len() - cursor,
        {
            match Self::get_src(data, cursor, string_table) {
                Some((n, s)) => {
                    let ghost before = srcs_views(srcs@);
                    srcs.push(s);
                    assert(srcs_views(srcs@) =~= before.push(s@));
                    cursor = cursor + n;
                },
                None => {
                    return Err(ParseError::DecodeError);
                },
            }
        }
        Ok(srcs)
    }
}

} // verus!
