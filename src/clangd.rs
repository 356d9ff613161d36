use vstd::prelude::*;

use crate::cmdl::{cmdl_views, cmdls_of, Cmdl, CmdlView};
use crate::refs::{refs_of, refs_views, Refs, RefsView};
use crate::rela::{rela_views, relas_of, Rela, RelaView};
use crate::srcs::{srcs_of, srcs_views, Srcs, SrcsView};
use crate::symbols::{symbol_views, symbols_of, Symbol, SymbolId, SymbolView};

verus! {

#[verifier::external_type_specification]
#[verifier::external_body]
pub struct ExChunkError(griff::ChunkError);

/// Why a file could not be decoded.
#[derive(Debug)]
pub enum ParseError {
    /// The file could not be read.
    CannotReadFile,
    /// The container around the chunks is malformed or of another type.
    RiffError(griff::ChunkError),
    /// A chunk payload ends inside a record.
    DecodeError,
    /// The compressed string blob does not inflate.
    DecompressError,
    /// The container is not an index file.
    IncompatibleFile,
}

pub type ParseReturn = Result<ClangdFile, ParseError>;

/// The value that a successful read gave.
pub open spec fn value<T>(r: Option<(T, int)>) -> T {
    r.unwrap().0
}

/// The position just past what a successful read consumed.
pub open spec fn after<T>(r: Option<(T, int)>) -> int {
    r.unwrap().1
}

/// Reads the varint that starts at `p`: the value and the position just past it.
/// Each byte gives its low seven bits, shifted by seven more per byte; a byte
/// below 0x80 ends the varint, and so does the fifth byte.
pub open spec fn varint_from(b: Seq<u8>, p: int, i: nat, acc: u32) -> Option<(u32, int)>
    decreases 5 - i,
{
    if i >= 5 || p < 0 || p + i >= b.len() {
        None
    } else {
        let byte = b[p + i];
        let next = acc | (((byte & 0x7f) as u32) << ((7 * i) as u32));
        if byte & 0x80 == 0 || i == 4 {
            Some((next, p + i + 1))
        } else {
            varint_from(b, p, i + 1, next)
        }
    }
}

pub open spec fn varint_at(b: Seq<u8>, p: int) -> Option<(u32, int)> {
    varint_from(b, p, 0, 0)
}

/// The bytes that encode `v` as a varint: seven bits per byte, lowest first,
/// the high bit set on every byte but the last.
pub open spec fn varint_encoding(v: u32) -> Seq<u8>
    decreases v,
{
    if v < 0x80 {
        seq![v as u8]
    } else {
        seq![((v % 0x80) + 0x80) as u8] + varint_encoding(v / 0x80)
    }
}

/// Decoding the encoding of any `u32`, whatever follows it, gives the value
/// back and consumes exactly the encoding.
pub proof fn lemma_varint_round_trip(v: u32, rest: Seq<u8>)
    ensures
        varint_at(varint_encoding(v) + rest, 0) == Some((v, varint_encoding(v).len() as int)),
{
    reveal_with_fuel(varint_from, 6);
    reveal_with_fuel(varint_encoding, 6);
    let e = varint_encoding(v);
    let b = e + rest;
    if v < 0x80 {
        assert(b[0] == v as u8);
        assert((v as u8) & 0x80 == 0 && (0u32 | ((((v as u8) & 0x7f) as u32) << 0u32)) == v)
            by (bit_vector)
            requires
                v < 0x80,
        ;
    } else if v < 0x4000 {
        assert(b[0] == ((v % 0x80) + 0x80) as u8);
        assert(b[1] == (v / 0x80) as u8);
        assert(((((v % 0x80) + 0x80) as u8) & 0x80) != 0 && (((v / 0x80) as u8) & 0x80) == 0 && ((0u32
            | (((((v % 0x80) + 0x80) as u8) & 0x7f) as u32) << 0u32) | (((((v / 0x80) as u8)
            & 0x7f) as u32) << 7u32)) == v) by (bit_vector)
            requires
                0x80 <= v < 0x4000,
        ;
    } else if v < 0x20_0000 {
        assert(b[0] == ((v % 0x80) + 0x80) as u8);
        assert(b[1] == (((v / 0x80) % 0x80) + 0x80) as u8);
        assert(b[2] == (v / 0x80 / 0x80) as u8);
        assert(((((v % 0x80) + 0x80) as u8) & 0x80) != 0 && (((((v / 0x80) % 0x80) + 0x80) as u8)
            & 0x80) != 0 && (((v / 0x80 / 0x80) as u8) & 0x80) == 0 && (((0u32 | (((((v % 0x80)
            + 0x80) as u8) & 0x7f) as u32) << 0u32) | ((((((v / 0x80) % 0x80) + 0x80) as u8)
            & 0x7f) as u32) << 7u32) | (((((v / 0x80 / 0x80) as u8) & 0x7f) as u32) << 14u32)) == v)
            by (bit_vector)
            requires
                0x4000 <= v < 0x20_0000,
        ;
    } else if v < 0x1000_0000 {
        assert(b[0] == ((v % 0x80) + 0x80) as u8);
        assert(b[1] == (((v / 0x80) % 0x80) + 0x80) as u8);
        assert(b[2] == (((v / 0x80 / 0x80) % 0x80) + 0x80) as u8);
        assert(b[3] == (v / 0x80 / 0x80 / 0x80) as u8);
        assert(((((v % 0x80) + 0x80) as u8) & 0x80) != 0 && (((((v / 0x80) % 0x80) + 0x80) as u8)
            & 0x80) != 0 && (((((v / 0x80 / 0x80) % 0x80) + 0x80) as u8) & 0x80) != 0 && (((v / 0x80
            / 0x80 / 0x80) as u8) & 0x80) == 0 && ((((0u32 | (((((v % 0x80) + 0x80) as u8) & 0x7f)
            as u32) << 0u32) | ((((((v / 0x80) % 0x80) + 0x80) as u8) & 0x7f) as u32) << 7u32)
            | ((((((v / 0x80 / 0x80) % 0x80) + 0x80) as u8) & 0x7f) as u32) << 14u32) | (((((v
            / 0x80 / 0x80 / 0x80) as u8) & 0x7f) as u32) << 21u32)) == v) by (bit_vector)
            requires
                0x20_0000 <= v < 0x1000_0000,
        ;
    } else {
        assert(b[0] == ((v % 0x80) + 0x80) as u8);
        assert(b[1] == (((v / 0x80) % 0x80) + 0x80) as u8);
        assert(b[2] == (((v / 0x80 / 0x80) % 0x80) + 0x80) as u8);
        assert(b[3] == (((v / 0x80 / 0x80 / 0x80) % 0x80) + 0x80) as u8);
        assert(b[4] == (v / 0x80 / 0x80 / 0x80 / 0x80) as u8);
        assert(((((v % 0x80) + 0x80) as u8) & 0x80) != 0 && (((((v / 0x80) % 0x80) + 0x80) as u8)
            & 0x80) != 0 && (((((v / 0x80 / 0x80) % 0x80) + 0x80) as u8) & 0x80) != 0 && (((((v
            / 0x80 / 0x80 / 0x80) % 0x80) + 0x80) as u8) & 0x80) != 0 && (((((0u32 | (((((v % 0x80)
            + 0x80) as u8) & 0x7f) as u32) << 0u32) | ((((((v / 0x80) % 0x80) + 0x80) as u8)
            & 0x7f) as u32) << 7u32) | ((((((v / 0x80 / 0x80) % 0x80) + 0x80) as u8) & 0x7f)
            as u32) << 14u32) | ((((((v / 0x80 / 0x80 / 0x80) % 0x80) + 0x80) as u8) & 0x7f) as u32)
            << 21u32) | (((((v / 0x80 / 0x80 / 0x80 / 0x80) as u8) & 0x7f) as u32) << 28u32)) == v)
            by (bit_vector)
            requires
                0x1000_0000 <= v,
        ;
    }
}

/// The string that index `idx` names in the pool: the empty string past its end.
pub open spec fn pool_entry(pool: Seq<Seq<char>>, idx: u32) -> Seq<char> {
    if (idx as int) < pool.len() {
        pool[idx as int]
    } else {
        Seq::empty()
    }
}

/// The string without the null characters at its end.
pub open spec fn strip_nuls(s: Seq<char>) -> Seq<char>
    decreases s.len(),
{
    if s.len() > 0 && s.last() == '\0' {
        strip_nuls(s.drop_last())
    } else {
        s
    }
}

/// Reads a string reference at `p`: a varint index into the pool, resolved
/// to its entry without trailing null characters.
pub open spec fn string_at(b: Seq<u8>, pool: Seq<Seq<char>>, p: int) -> Option<(Seq<char>, int)> {
    match varint_at(b, p) {
        Some((idx, q)) => Some((strip_nuls(pool_entry(pool, idx)), q)),
        None => None,
    }
}

/// The four bytes at `p` read as a little-endian unsigned integer.
pub open spec fn le_u32_at(b: Seq<u8>, p: int) -> u32 {
    (b[p] as int + b[p + 1] as int * 0x100 + b[p + 2] as int * 0x1_0000 + b[p + 3] as int
        * 0x100_0000) as u32
}

/// Splits bytes into the strings that each null byte ends, each byte read as
/// the character of the same code; bytes after the last null are dropped.
pub open spec fn split_nul(b: Seq<u8>, cur: Seq<char>) -> Seq<Seq<char>>
    decreases b.len(),
{
    if b.len() == 0 {
        Seq::empty()
    } else if b[0] == 0 {
        seq![cur] + split_nul(b.drop_first(), Seq::empty())
    } else {
        split_nul(b.drop_first(), cur.push(b[0] as char))
    }
}

pub open spec fn string_pool(b: Seq<u8>) -> Seq<Seq<char>> {
    split_nul(b, Seq::empty())
}

/// Relies on String::push: the character is appended at the end.
#[verifier::external_body]
pub(crate) fn push_char(s: &mut String, c: char)
    ensures
        final(s)@ == old(s)@.push(c),
{
    s.push(c)
}

/// The string that `idx` names in the pool without its trailing null
/// characters, or the empty string where the index lies past the end of the
/// pool.
pub fn resolve(pool: &Vec<String>, idx: u32) -> (r: String)
    ensures
        r@ == strip_nuls(pool_entry(pool.deep_view(), idx)),
        idx >= pool.len() ==> r@ == Seq::<char>::empty(),
{
    if (idx as usize) >= pool.len() {
        return String::new();
    }
    let e = pool[idx as usize].as_str();
    assert(e@ == pool_entry(pool.deep_view(), idx));
    let n = e.unicode_len();
    let mut end: usize = n;
    assert(e@.subrange(0, n as int) =~= e@);
    while end > 0 && e.get_char(end - 1) == '\0'
        invariant
            n == e@.len(),
            end <= n,
            strip_nuls(e@) == strip_nuls(e@.subrange(0, end as int)),
        decreases end,
    {
        assert(e@.subrange(0, end as int).drop_last() =~= e@.subrange(0, end - 1));
        end = end - 1;
    }
    let mut r = String::new();
    let mut i: usize = 0;
    while i < end
        invariant
            n == e@.len(),
            end <= n,
            i <= end,
            r@ == e@.subrange(0, i as int),
        decreases end - i,
    {
        push_char(&mut r, e.get_char(i));
        assert(r@ =~= e@.subrange(0, i + 1));
        i = i + 1;
    }
    r
}

/// Splits a string blob into the pool's strings.
pub fn get_strings(buf: &[u8]) -> (r: Vec<String>)
    ensures
        r.deep_view() == string_pool(buf@),
{
    let mut v: Vec<String> = Vec::new();
    let mut s: String = String::new();
    let mut i: usize = 0;
    assert(buf@.subrange(0, buf@.len() as int) == buf@);
    assert(v.deep_view() + string_pool(buf@) == string_pool(buf@));
    while i < buf.len()
        invariant
            i <= buf.len(),
            v.deep_view() + split_nul(buf@.subrange(i as int, buf@.len() as int), s@)
                == string_pool(buf@),
        decreases buf.len() - i,
    {
        let ghost rest = buf@.subrange(i as int, buf@.len() as int);
        assert(rest.drop_first() == buf@.subrange(i + 1, buf@.len() as int));
        if buf[i] == 0 {
            let ghost old_v = v.deep_view();
            v.push(s.clone());
            assert(v.deep_view() == old_v.push(s@));
            assert(v.deep_view() + split_nul(rest.drop_first(), Seq::empty()) == old_v + (seq![s@]
                + split_nul(rest.drop_first(), Seq::empty())));
            s = String::new();
        } else {
            push_char(&mut s, buf[i] as char);
        }
        i = i + 1;
    }
    assert(buf@.subrange(i as int, buf@.len() as int).len() == 0);
    assert(v.deep_view() + Seq::<Seq<char>>::empty() == v.deep_view());
    v
}

/// Eight bytes at `p`, as a symbol id, where the buffer holds them.
pub open spec fn id_at(b: Seq<u8>, p: int) -> Option<Seq<u8>> {
    if 0 <= p && p + 8 <= b.len() {
        Some(b.subrange(p, p + 8))
    } else {
        None
    }
}

/// Reads `n` string references from `p` on, after the strings already in `acc`.
pub open spec fn strings_from(b: Seq<u8>, pool: Seq<Seq<char>>, p: int, n: nat, acc: Seq<Seq<char>>) -> Option<
    (Seq<Seq<char>>, int),
>
    decreases n,
{
    if n == 0 {
        Some((acc, p))
    } else {
        let s = string_at(b, pool, p);
        if s is Some {
            strings_from(b, pool, after(s), (n - 1) as nat, acc.push(value(s)))
        } else {
            None
        }
    }
}

/// The field readers that every record decoder shares. Each reads at `pos`
/// and gives the number of bytes it took, or `None` where the buffer ends
/// first; none reads past the buffer.
pub trait ClangdUtility {
    /// Reads `count` string references that start at `pos`.
    fn get_string_list(buf: &[u8], pos: usize, count: u32, string_table: &Vec<String>) -> (r: Option<
        (usize, Vec<String>),
    >)
        requires
            pos <= buf.len(),
        ensures
            r matches Some((n, v)) ==> strings_from(
                buf@,
                string_table.deep_view(),
                pos as int,
                count as nat,
                Seq::empty(),
            ) == Some((v.deep_view(), pos + n)) && pos + n <= buf.len(),
            r is None ==> strings_from(
                buf@,
                string_table.deep_view(),
                pos as int,
                count as nat,
                Seq::empty(),
            ) is None,
    {
        let ghost b = buf@;
        let ghost pool = string_table.deep_view();
        let mut v: Vec<String> = Vec::new();
        let mut cursor = pos;
        let mut idx: u32 = 0;
        assert(v.deep_view() =~= Seq::empty());
        while idx < count
            invariant
                b == buf@,
                pool == string_table.deep_view(),
                pos <= cursor <= buf.len(),
                idx <= count,
                strings_from(b, pool, pos as int, count as nat, Seq::empty()) == strings_from(
                    b,
                    pool,
                    cursor as int,
                    (count - idx) as nat,
                    v.deep_view(),
                ),
            decreases count - idx,
        {
            let (n, s) = Self::get_string(buf, cursor, string_table)?;
            let ghost before = v.deep_view();
            v.push(s);
            assert(v.deep_view() =~= before.push(s@));
            cursor = cursor + n;
            idx = idx + 1;
        }
        Some((cursor - pos, v))
    }

    /// Reads a string reference: a varint index into the pool.
    fn get_string(buf: &[u8], pos: usize, string_table: &Vec<String>) -> (r: Option<(usize, String)>)
        ensures
            r matches Some((n, s)) ==> string_at(buf@, string_table.deep_view(), pos as int) == Some(
                (s@, pos + n),
            ) && 1 <= n && pos + n <= buf.len(),
            r is None ==> string_at(buf@, string_table.deep_view(), pos as int) is None,
    {
        match Self::get_varint(buf, pos) {
            Some((n, idx)) => Some((n, resolve(string_table, idx))),
            None => None,
        }
    }

    /// Reads four bytes as a little-endian integer.
    fn get_u32(buf: &[u8], pos: usize) -> (r: Option<(usize, u32)>)
        ensures
            r matches Some((n, v)) ==> n == 4 && pos + 4 <= buf.len() && v == le_u32_at(buf@, pos as int),
            r is None ==> pos + 4 > buf.len(),
    {
        if pos >= buf.len() || buf.len() - pos < 4 {
            return None;
        }
        let v = buf[pos] as u32 + buf[pos + 1] as u32 * 0x100 + buf[pos + 2] as u32 * 0x1_0000
            + buf[pos + 3] as u32 * 0x100_0000;
        Some((4, v))
    }

    /// Reads an 8-byte symbol id.
    fn get_id(buf: &[u8], pos: usize) -> (r: Option<[u8; 8]>)
        ensures
            r matches Some(id) ==> id_at(buf@, pos as int) == Some(id@) && pos + 8 <= buf.len(),
            r is None ==> id_at(buf@, pos as int) is None,
    {
        if pos >= buf.len() || buf.len() - pos < 8 {
            return None;
        }
        let id: [u8; 8] = [
            buf[pos],
            buf[pos + 1],
            buf[pos + 2],
            buf[pos + 3],
            buf[pos + 4],
            buf[pos + 5],
            buf[pos + 6],
            buf[pos + 7],
        ];
        assert(id@ == buf@.subrange(pos as int, pos + 8));
        Some(id)
    }

    /// Reads a varint, as `varint_at` says.
    fn get_varint(buf: &[u8], pos: usize) -> (r: Option<(usize, u32)>)
        ensures
            r matches Some((n, v)) ==> varint_at(buf@, pos as int) == Some((v, pos + n)) && 1 <= n
                && pos + n <= buf.len(),
            r is None ==> varint_at(buf@, pos as int) is None,
    {
        let mut bytes_read: usize = 0;
        let mut varint: u32 = 0;
        let mut shift: u32 = 0;
        loop
            invariant
                bytes_read < 5,
                shift == 7 * bytes_read,
                varint_at(buf@, pos as int) == varint_from(buf@, pos as int, bytes_read as nat, varint),
            decreases 5 - bytes_read,
        {
            if pos >= buf.len() || buf.len() - pos <= bytes_read {
                return None;
            }
            let b = buf[pos + bytes_read];
            let tmp = (b & 0x7f) as u32;
            varint = varint | (tmp << shift);
            bytes_read = bytes_read + 1;
            shift = shift + 7;
            if b & 0x80 == 0 || shift >= 32 {
                return Some((bytes_read, varint));
            }
        }
    }
}

/// What libflate's zlib decoder makes of a blob: the inflated bytes, or
/// `None` where the blob is not a valid zlib stream.
pub uninterp spec fn zlib_inflated(b: Seq<u8>) -> Option<Seq<u8>>;

/// Relies on libflate::zlib::Decoder (`new`, then `read_to_end`): the
/// inflated bytes, or `None` where the stream is malformed.
#[verifier::external_body]
fn decompress(buf: &[u8]) -> (r: Option<Vec<u8>>)
    ensures
        r matches Some(v) ==> zlib_inflated(buf@) == Some(v@),
        r is None ==> zlib_inflated(buf@) is None,
{
    let mut decoder = match libflate::zlib::Decoder::new(buf) {
        Ok(d) => d,
        Err(_) => return None,
    };
    let mut v: Vec<u8> = Vec::new();
    match std::io::Read::read_to_end(&mut decoder, &mut v) {
        Ok(_) => Some(v),
        Err(_) => None,
    }
}

/// The string pool of a string chunk payload, from its blob (after a 4-byte
/// little-endian size) that is raw where the size is 0, and otherwise is
/// given already inflated as `inflated`. A payload too short to hold the size
/// is a `DecodeError`.
pub open spec fn string_chunk_with(b: Seq<u8>, inflated: Option<Seq<u8>>) -> Result<
    Seq<Seq<char>>,
    ParseError,
> {
    if b.len() < 4 {
        Err(ParseError::DecodeError)
    } else if le_u32_at(b, 0) == 0 {
        Ok(string_pool(b.subrange(4, b.len() as int)))
    } else {
        match inflated {
            Some(d) => Ok(string_pool(d)),
            None => Err(ParseError::DecompressError),
        }
    }
}

/// The string pool of a string chunk payload.
pub open spec fn string_chunk(b: Seq<u8>) -> Result<Seq<Seq<char>>, ParseError> {
    string_chunk_with(b, zlib_inflated(b.subrange(4, b.len() as int)))
}

/// The type of a chunk in an index file.
#[derive(Debug, Clone, Copy, PartialEq, Eq, Structural)]
pub enum ChunkKind {
    Meta,
    Stri,
    Symb,
    Refs,
    Rela,
    Srcs,
    Cmdl,
    Other,
}

/// One chunk of an index file, as the container holds it.
#[derive(Debug, Clone)]
pub struct RawChunk {
    pub kind: ChunkKind,
    pub data: Vec<u8>,
}

#[derive(Debug, Clone, Default)]
pub struct ClangdSymbols {
    pub data: Vec<Symbol>,
}

#[derive(Debug, Clone, Default)]
pub struct ClangdRelations {
    pub data: Vec<Rela>,
}

#[derive(Debug, Clone, Default)]
pub struct ClangdCmdLine {
    pub data: Vec<Cmdl>,
}

#[derive(Debug, Clone, Default)]
pub struct ClangdSources {
    pub data: Vec<Srcs>,
}

#[derive(Debug, Clone, Copy, Default, PartialEq, Eq)]
pub struct ClangdMetaData {
    pub version: [u8; 4],
}

#[derive(Debug, Clone, Default)]
pub struct ClangdReferences {
    pub data: Vec<Refs>,
}

#[derive(Debug, Clone, Copy, Default, PartialEq, Eq)]
pub struct ClangdFileType {
    pub ftype: [u8; 4],
}

/// Everything that one index file holds.
#[derive(Debug, Clone, Default)]
pub struct ClangdFile {
    /// The string pool that every string reference of the file indexes.
    pub string: Vec<String>,
    pub symbols: ClangdSymbols,
    pub relations: ClangdRelations,
    /// The command lines the file was compiled with.
    pub cmdline: ClangdCmdLine,
    pub sources: ClangdSources,
    pub meta: ClangdMetaData,
    pub references: ClangdReferences,
    pub file_type: ClangdFileType,
    /// Ids of variables whose canonical declaration is in this file.
    pub variable_declarations: Vec<SymbolId>,
}

pub struct FileView {
    pub string: Seq<Seq<char>>,
    pub symbols: Seq<SymbolView>,
    pub relations: Seq<RelaView>,
    pub cmdline: Seq<CmdlView>,
    pub sources: Seq<SrcsView>,
    pub meta: Seq<u8>,
    pub references: Seq<RefsView>,
    pub file_type: Seq<u8>,
    pub variable_declarations: Seq<Seq<u8>>,
}

pub open spec fn id_views(v: Seq<SymbolId>) -> Seq<Seq<u8>> {
    v.map_values(|id: SymbolId| id@)
}

impl View for ClangdFile {
    type V = FileView;

    open spec fn view(&self) -> FileView {
        FileView {
            string: self.string.deep_view(),
            symbols: symbol_views(self.symbols.data@),
            relations: rela_views(self.relations.data@),
            cmdline: cmdl_views(self.cmdline.data@),
            sources: srcs_views(self.sources.data@),
            meta: self.meta.version@,
            references: refs_views(self.references.data@),
            file_type: self.file_type.ftype@,
            variable_declarations: id_views(self.variable_declarations@),
        }
    }
}

pub struct ChunkView {
    pub kind: ChunkKind,
    pub data: Seq<u8>,
}

impl View for RawChunk {
    type V = ChunkView;

    open spec fn view(&self) -> ChunkView {
        ChunkView { kind: self.kind, data: self.data@ }
    }
}

pub open spec fn chunk_views(v: Seq<RawChunk>) -> Seq<ChunkView> {
    v.map_values(|c: RawChunk| c@)
}

/// The file type tag of an index file: `CdIx`.
pub open spec fn index_file_type() -> Seq<u8> {
    seq![0x43u8, 0x64u8, 0x49u8, 0x78u8]
}

/// The string pool of a file: that of its last string chunk, from chunk `i`
/// on, where `pool` is that of the chunks before.
pub open spec fn pool_from(chunks: Seq<ChunkView>, i: int, pool: Seq<Seq<char>>) -> Result<
    Seq<Seq<char>>,
    ParseError,
>
    decreases chunks.len() - i,
{
    if i < 0 || i >= chunks.len() {
        Ok(pool)
    } else if chunks[i].kind == ChunkKind::Stri {
        match string_chunk(chunks[i].data) {
            Ok(p) => pool_from(chunks, i + 1, p),
            Err(e) => Err(e),
        }
    } else {
        pool_from(chunks, i + 1, pool)
    }
}

/// A metadata payload: four version bytes; an empty payload leaves `meta` as
/// it is.
pub open spec fn meta_chunk(b: Seq<u8>, meta: Seq<u8>) -> Result<Seq<u8>, ParseError> {
    if b.len() == 0 {
        Ok(meta)
    } else if b.len() == 4 {
        Ok(b)
    } else {
        Err(ParseError::DecodeError)
    }
}

/// What a chunk other than a string chunk does to the file decoded so far,
/// with the file's pool `pool`: it decodes the records of its type, which
/// replace those of an earlier chunk of that type. Other types change nothing.
pub open spec fn apply_chunk(c: ChunkView, pool: Seq<Seq<char>>, f: FileView) -> Result<
    FileView,
    ParseError,
> {
    match c.kind {
        ChunkKind::Symb => match symbols_of(c.data, pool) {
            Some(v) => Ok(FileView { symbols: v, ..f }),
            None => Err(ParseError::DecodeError),
        },
        ChunkKind::Srcs => match srcs_of(c.data, pool) {
            Some(v) => Ok(FileView { sources: v, ..f }),
            None => Err(ParseError::DecodeError),
        },
        ChunkKind::Rela => match relas_of(c.data) {
            Some(v) => Ok(FileView { relations: v, ..f }),
            None => Err(ParseError::DecodeError),
        },
        ChunkKind::Refs => match refs_of(c.data, pool) {
            Some(v) => Ok(FileView { references: v, ..f }),
            None => Err(ParseError::DecodeError),
        },
        ChunkKind::Cmdl => match cmdls_of(c.data, pool) {
            Some(v) => Ok(FileView { cmdline: v, ..f }),
            None => Err(ParseError::DecodeError),
        },
        ChunkKind::Meta => match meta_chunk(c.data, f.meta) {
            Ok(m) => Ok(FileView { meta: m, ..f }),
            Err(e) => Err(e),
        },
        _ => Ok(f),
    }
}

/// Applies the chunks from `i` on to the file decoded so far.
pub open spec fn records_from(chunks: Seq<ChunkView>, i: int, pool: Seq<Seq<char>>, f: FileView) -> Result<
    FileView,
    ParseError,
>
    decreases chunks.len() - i,
{
    if i < 0 || i >= chunks.len() {
        Ok(f)
    } else {
        match apply_chunk(chunks[i], pool, f) {
            Ok(g) => records_from(chunks, i + 1, pool, g),
            Err(e) => Err(e),
        }
    }
}

/// The file that starts out with the pool and the file type, and nothing else.
pub open spec fn empty_file(pool: Seq<Seq<char>>, file_type: Seq<u8>) -> FileView {
    FileView {
        string: pool,
        symbols: Seq::empty(),
        relations: Seq::empty(),
        cmdline: Seq::empty(),
        sources: Seq::empty(),
        meta: seq![0u8, 0u8, 0u8, 0u8],
        references: Seq::empty(),
        file_type: file_type,
        variable_declarations: Seq::empty(),
    }
}

/// What an index file of type `file_type` made of `chunks` decodes to: its
/// string chunks first, then the other chunks in their order.
pub open spec fn file_of(file_type: Seq<u8>, chunks: Seq<ChunkView>) -> Result<FileView, ParseError> {
    if file_type != index_file_type() {
        Err(ParseError::IncompatibleFile)
    } else {
        match pool_from(chunks, 0, Seq::empty()) {
            Ok(pool) => records_from(chunks, 0, pool, empty_file(pool, file_type)),
            Err(e) => Err(e),
        }
    }
}

/// A zero-length payload of any record chunk decodes to no records, not to an
/// error: no symbols, sources, relations, references or command lines, and
/// unchanged metadata.
pub proof fn lemma_empty_payloads(pool: Seq<Seq<char>>, meta: Seq<u8>)
    ensures
        symbols_of(Seq::empty(), pool) == Some(Seq::<SymbolView>::empty()),
        srcs_of(Seq::empty(), pool) == Some(Seq::<SrcsView>::empty()),
        relas_of(Seq::empty()) == Some(Seq::<RelaView>::empty()),
        refs_of(Seq::empty(), pool) == Some(Seq::<RefsView>::empty()),
        cmdls_of(Seq::empty(), pool) == Some(Seq::<CmdlView>::empty()),
        meta_chunk(Seq::empty(), meta) == Ok::<_, ParseError>(meta),
{
}

impl ClangdUtility for ClangdFile {}

impl ClangdFile {
    /// The pool of the last string chunk; empty where there is none.
    fn consume_strings(chunks: &Vec<RawChunk>) -> (r: Result<Vec<String>, ParseError>)
        ensures
            r matches Ok(p) ==> pool_from(chunk_views(chunks@), 0, Seq::empty()) == Ok::<
                _,
                ParseError,
            >(p.deep_view()),
            r matches Err(e) ==> pool_from(chunk_views(chunks@), 0, Seq::empty()) == Err::<
                Seq<Seq<char>>,
                _,
            >(e),
    {
        let ghost cv = chunk_views(chunks@);
        let mut pool: Vec<String> = Vec::new();
        assert(pool.deep_view() =~= Seq::empty());
        let mut i: usize = 0;
        while i < chunks.len()
            invariant
                cv == chunk_views(chunks@),
                i <= chunks.len(),
                pool_from(cv, 0, Seq::empty()) == pool_from(cv, i as int, pool.deep_view()),
            decreases chunks.len() - i,
        {
            assert(cv[i as int] == chunks@[i as int]@);
            if chunks[i].kind == ChunkKind::Stri {
                match Self::consume_string(chunks[i].data.as_slice()) {
                    Ok(p) => {
                        pool = p;
                    },
                    Err(e) => {
                        return Err(e);
                    },
                }
            }
            i = i + 1;
        }
        Ok(pool)
    }

    /// Notes a variable declared in this file.
    pub fn note_variable(&mut self, id: SymbolId)
        ensures
            final(self)@ == (FileView {
                variable_declarations: old(self)@.variable_declarations.push(id@),
                ..old(self)@
            }),
    {
        let ghost before = id_views(self.variable_declarations@);
        self.variable_declarations.push(id);
        assert(id_views(self.variable_declarations@) =~= before.push(id@));
    }

    /// Decodes the chunks of an index file of type `file_type`: the string
    /// chunks first, since the other chunks index the pool, then the others
    /// in their order. Chunks of other types are passed over. The first chunk
    /// that fails to decode gives the error.
    pub fn consume_riff(file_type: [u8; 4], chunks: &Vec<RawChunk>) -> (r: Result<ClangdFile, ParseError>)
        ensures
            r matches Ok(f) ==> file_of(file_type@, chunk_views(chunks@)) == Ok::<_, ParseError>(f@),
            r matches Err(e) ==> file_of(file_type@, chunk_views(chunks@)) == Err::<FileView, _>(e),
    {
        let ghost cv = chunk_views(chunks@);
        if !(file_type[0] == 0x43 && file_type[1] == 0x64 && file_type[2] == 0x49 && file_type[3]
            == 0x78) {
            assert(file_type@ != index_file_type()) by {
                if file_type@ == index_file_type() {
                    assert(file_type@[0] == index_file_type()[0]);
                    assert(file_type@[1] == index_file_type()[1]);
                    assert(file_type@[2] == index_file_type()[2]);
                    assert(file_type@[3] == index_file_type()[3]);
                }
            }
            return Err(ParseError::IncompatibleFile);
        }
        assert(file_type@ =~= index_file_type());
        let pool = match Self::consume_strings(chunks) {
            Ok(p) => p,
            Err(e) => {
                return Err(e);
            },
        };
        let ghost pv = pool.deep_view();
        let mut cd = ClangdFile {
            string: pool,
            symbols: ClangdSymbols { data: Vec::new() },
            relations: ClangdRelations { data: Vec::new() },
            cmdline: ClangdCmdLine { data: Vec::new() },
            sources: ClangdSources { data: Vec::new() },
            meta: ClangdMetaData { version: [0u8, 0u8, 0u8, 0u8] },
            references: ClangdReferences { data: Vec::new() },
            file_type: ClangdFileType { ftype: file_type },
            variable_declarations: Vec::new(),
        };
        assert(cd@ =~= empty_file(pv, file_type@)) by {
            assert(symbol_views(cd.symbols.data@) =~= Seq::empty());
            assert(rela_views(cd.relations.data@) =~= Seq::empty());
            assert(cmdl_views(cd.cmdline.data@) =~= Seq::empty());
            assert(srcs_views(cd.sources.data@) =~= Seq::empty());
            assert(refs_views(cd.references.data@) =~= Seq::empty());
            assert(id_views(cd.variable_declarations@) =~= Seq::empty());
            assert(cd.meta.version@ =~= seq![0u8, 0u8, 0u8, 0u8]);
        }
        let mut j: usize = 0;
        while j < chunks.len()
            invariant
                cv == chunk_views(chunks@),
                j <= chunks.len(),
                cd.string.deep_view() == pv,
                file_of(file_type@, cv) == records_from(cv, j as int, pv, cd@),
            decreases chunks.len() - j,
        {
            let data = chunks[j].data.as_slice();
            assert(cv[j as int] == chunks@[j as int]@);
            match chunks[j].kind {
                ChunkKind::Symb => match Self::consume_symbols(data, &cd.string) {
                    Ok(s) => {
                        cd.symbols = s;
                    },
                    Err(e) => {
                        return Err(e);
                    },
                },
                ChunkKind::Srcs => match Self::consume_sources(data, &cd.string) {
                    Ok(s) => {
                        cd.sources = s;
                    },
                    Err(e) => {
                        return Err(e);
                    },
                },
                ChunkKind::Rela => match Self::consume_relations(data) {
                    Ok(rl) => {
                        cd.relations = rl;
                    },
                    Err(e) => {
                        return Err(e);
                    },
                },
                ChunkKind::Refs => match Self::consume_references(data, &cd.string) {
                    Ok(rf) => {
                        cd.references = rf;
                    },
                    Err(e) => {
                        return Err(e);
                    },
                },
                ChunkKind::Cmdl => match Self::consume_cmdline(data, &cd.string) {
                    Ok(cc) => {
                        cd.cmdline = cc;
                    },
                    Err(e) => {
                        return Err(e);
                    },
                },
                ChunkKind::Meta => match Self::consume_metadata(data, cd.meta) {
                    Ok(m) => {
                        cd.meta = m;
                    },
                    Err(e) => {
                        return Err(e);
                    },
                },
                _ => {},
            }
            j = j + 1;
        }
        Ok(cd)
    }

    /// Decodes a string chunk payload into the file's string pool.
    pub fn consume_string(data: &[u8]) -> (r: Result<Vec<String>, ParseError>)
        ensures
            r matches Ok(v) ==> string_chunk(data@) == Ok::<_, ParseError>(v.deep_view()),
            r matches Err(e) ==> string_chunk(data@) == Err::<Seq<Seq<char>>, _>(e),
    {
        let (sz, compr_sz) = match Self::get_u32(data, 0) {
            Some(x) => x,
            None => {
                return Err(ParseError::DecodeError);
            },
        };
        let (_, rest) = data.split_at(sz);
        assert(rest@ == data@.subrange(4, data@.len() as int));
        if compr_sz == 0 {
            Ok(get_strings(rest))
        } else {
            match decompress(rest) {
                Some(d) => Ok(get_strings(d.as_slice())),
                None => Err(ParseError::DecompressError),
            }
        }
    }

    fn consume_symbols(data: &[u8], string_table: &Vec<String>) -> (r: Result<ClangdSymbols, ParseError>)
        ensures
            r matches Ok(cs) ==> symbols_of(data@, string_table.deep_view()) == Some(
                symbol_views(cs.data@),
            ),
            r is Err ==> symbols_of(data@, string_table.deep_view()) is None,
            r matches Err(e) ==> e is DecodeError,
    {
        match Symbol::parse(data, string_table) {
            Ok(v) => Ok(ClangdSymbols { data: v }),
            Err(e) => Err(e),
        }
    }

    fn consume_sources(data: &[u8], string_table: &Vec<String>) -> (r: Result<ClangdSources, ParseError>)
        ensures
            r matches Ok(cs) ==> srcs_of(data@, string_table.deep_view()) == Some(
                srcs_views(cs.data@),
            ),
            r is Err ==> srcs_of(data@, string_table.deep_view()) is None,
            r matches Err(e) ==> e is DecodeError,
    {
        match Srcs::parse(data, string_table) {
            Ok(v) => Ok(ClangdSources { data: v }),
            Err(e) => Err(e),
        }
    }

    fn consume_relations(data: &[u8]) -> (r: Result<ClangdRelations, ParseError>)
        ensures
            r matches Ok(cr) ==> relas_of(data@) == Some(rela_views(cr.data@)),
            r is Err ==> relas_of(data@) is None,
            r matches Err(e) ==> e is DecodeError,
    {
        match Rela::parse(data) {
            Ok(v) => Ok(ClangdRelations { data: v }),
            Err(e) => Err(e),
        }
    }

    fn consume_references(data: &[u8], string_table: &Vec<String>) -> (r: Result<
        ClangdReferences,
        ParseError,
    >)
        ensures
            r matches Ok(cr) ==> refs_of(data@, string_table.deep_view()) == Some(
                refs_views(cr.data@),
            ),
            r is Err ==> refs_of(data@, string_table.deep_view()) is None,
            r matches Err(e) ==> e is DecodeError,
    {
        match Refs::parse(data, string_table) {
            Ok(v) => Ok(ClangdReferences { data: v }),
            Err(e) => Err(e),
        }
    }

    fn consume_cmdline(data: &[u8], string_table: &Vec<String>) -> (r: Result<ClangdCmdLine, ParseError>)
        ensures
            r matches Ok(cc) ==> cmdls_of(data@, string_table.deep_view()) == Some(
                cmdl_views(cc.data@),
            ),
            r is Err ==> cmdls_of(data@, string_table.deep_view()) is None,
            r matches Err(e) ==> e is DecodeError,
    {
        match Cmdl::parse(data, string_table) {
            Ok(v) => Ok(ClangdCmdLine { data: v }),
            Err(e) => Err(e),
        }
    }

    fn consume_metadata(data: &[u8], meta: ClangdMetaData) -> (r: Result<ClangdMetaData, ParseError>)
        ensures
            r matches Ok(m) ==> meta_chunk(data@, meta.version@) == Ok::<_, ParseError>(m.version@),
            r matches Err(e) ==> meta_chunk(data@, meta.version@) == Err::<Seq<u8>, _>(e),
    {
        if data.len() == 0 {
            Ok(meta)
        } else if data.len() == 4 {
            let version: [u8; 4] = [data[0], data[1], data[2], data[3]];
            assert(version@ =~= data@);
            Ok(ClangdMetaData { version })
        } else {
            Err(ParseError::DecodeError)
        }
    }
}

} // verus!
