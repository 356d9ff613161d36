use vstd::prelude::*;

use crate::clangd::{after, string_at, strings_from, value, varint_at, ClangdUtility, ParseError};

verus! {

/// The command line that a file was compiled with.
#[derive(Debug, Clone, Default)]
pub struct Cmdl {
    pub directory: String,
    pub cmdl: Vec<String>,
}

pub struct CmdlView {
    pub directory: Seq<char>,
    pub cmdl: Seq<Seq<char>>,
}

impl View for Cmdl {
    type V = CmdlView;

    open spec fn view(&self) -> CmdlView {
        CmdlView { directory: self.directory@, cmdl: self.cmdl.deep_view() }
    }
}

/// Reads one command line record at `p`: the working directory, a count and
/// that many arguments.
pub open spec fn cmdl_at(b: Seq<u8>, pool: Seq<Seq<char>>, p: int) -> Option<(CmdlView, int)> {
    let dir = string_at(b, pool, p);
    let count = varint_at(b, after(dir));
    let args = strings_from(b, pool, after(count), value(count) as nat, Seq::empty());
    if dir is Some && count is Some && args is Some {
        Some((CmdlView { directory: value(dir), cmdl: value(args) }, after(args)))
    } else {
        None
    }
}

/// Reads back-to-back command line records from `p` to the end of the payload.
pub open spec fn cmdls_from(b: Seq<u8>, pool: Seq<Seq<char>>, p: int, acc: Seq<CmdlView>) -> Option<
    Seq<CmdlView>,
>
    decreases b.len() - p,
{
    if p >= b.len() {
        Some(acc)
    } else {
        let c = cmdl_at(b, pool, p);
        if c is Some && p < after(c) <= b.len() {
            cmdls_from(b, pool, after(c), acc.push(value(c)))
        } else {
            None
        }
    }
}

/// The command lines that a whole command line chunk payload holds.
pub open spec fn cmdls_of(b: Seq<u8>, pool: Seq<Seq<char>>) -> Option<Seq<CmdlView>> {
    cmdls_from(b, pool, 0, Seq::empty())
}

pub open spec fn cmdl_views(v: Seq<Cmdl>) -> Seq<CmdlView> {
    v.map_values(|c: Cmdl| c@)
}

impl ClangdUtility for Cmdl {}

impl Cmdl {
    fn get_cmdl(data: &[u8], pos: usize, string_table: &Vec<String>) -> (r: Option<(usize, Cmdl)>)
        ensures
            r matches Some((n, c)) ==> cmdl_at(data@, string_table.deep_view(), pos as int) == Some(
                (c@, pos + n),
            ) && 0 < n && pos + n <= data.len(),
            r is None ==> cmdl_at(data@, string_table.deep_view(), pos as int) is None,
    {
        let (n0, directory) = Self::get_string(data, pos, string_table)?;
        let (n1, count) = Self::get_varint(data, pos + n0)?;
        let (n2, cmdl) = Self::get_string_list(data, pos + n0 + n1, count, string_table)?;
        Some((n0 + n1 + n2, Cmdl { directory, cmdl }))
    }

    /// Decodes a command line chunk payload: back-to-back records up to its
    /// end. A payload that ends inside a record is a `DecodeError`.
    pub fn parse(data: &[u8], string_tables: &Vec<String>) -> (r: Result<Vec<Self>, ParseError>)
        ensures
            r is Ok <==> cmdls_of(data@, string_tables.deep_view()) is Some,
            r matches Ok(v) ==> cmdls_of(data@, string_tables.deep_view()) == Some(cmdl_views(v@)),
            r matches Err(e) ==> e is DecodeError,
    {
        let ghost b = data@;
        let ghost pool = string_tables.deep_view();
        let mut cmdlines: Vec<Cmdl> = Vec::new();
        let mut cursor: usize = 0;
        assert(cmdl_views(cmdlines@) =~= Seq::empty());
        while cursor < data.len()
            invariant
                b == data@,
                pool == string_tables.deep_view(),
                cursor <= data.len(),
                cmdls_of(b, pool) == cmdls_from(b, pool, cursor as int, cmdl_views(cmdlines@)),
            decreases data.len() - cursor,
        {
            match Self::get_cmdl(data, cursor, string_tables) {
                Some((n, c)) => {
                    let ghost before = cmdl_views(cmdlines@);
                    cmdlines.push(c);
                    assert(cmdl_views(cmdlines@) =~= before.push(c@));
                    cursor = cursor + n;
                },
                None => {
                    return Err(ParseError::DecodeError);
                },
            }
        }
        Ok(cmdlines)
    }
}

} // verus!
