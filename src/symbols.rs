use vstd::prelude::*;

use crate::clangd::{after, id_at, string_at, value, varint_at, ClangdUtility, ParseError};

verus! {

/// What kind of declaration a symbol is.
#[derive(Debug, Clone, Copy, Default, PartialEq, Eq, Structural)]
pub enum SymbolKind {
    #[default]
    Unknown,
    Module,
    Namespace,
    NamespaceAlias,
    Macro,
    Enum,
    Struct,
    Class,
    Protocol,
    Extension,
    Union,
    TypeAlias,
    Function,
    Variable,
    Field,
    EnumConstant,
    InstanceMethod,
    ClassMethod,
    StaticMethod,
    InstanceProperty,
    ClassProperty,
    StaticProperty,
    Constructor,
    Destructor,
    ConversionFunction,
    Parameter,
    Using,
    TemplateTypeParm,
    TemplateTemplateParm,
    NonTypeTemplateParm,
}

/// The kind that a tag byte names; an unknown tag gives `Unknown`.
pub open spec fn kind_of_tag(b: u8) -> SymbolKind {
    match b {
        1 => SymbolKind::Module,
        2 => SymbolKind::Namespace,
        3 => SymbolKind::NamespaceAlias,
        4 => SymbolKind::Macro,
        5 => SymbolKind::Enum,
        6 => SymbolKind::Struct,
        7 => SymbolKind::Class,
        8 => SymbolKind::Protocol,
        9 => SymbolKind::Extension,
        10 => SymbolKind::Union,
        11 => SymbolKind::TypeAlias,
        12 => SymbolKind::Function,
        13 => SymbolKind::Variable,
        14 => SymbolKind::Field,
        15 => SymbolKind::EnumConstant,
        16 => SymbolKind::InstanceMethod,
        17 => SymbolKind::ClassMethod,
        18 => SymbolKind::StaticMethod,
        19 => SymbolKind::InstanceProperty,
        20 => SymbolKind::ClassProperty,
        21 => SymbolKind::StaticProperty,
        22 => SymbolKind::Constructor,
        23 => SymbolKind::Destructor,
        24 => SymbolKind::ConversionFunction,
        25 => SymbolKind::Parameter,
        26 => SymbolKind::Using,
        27 => SymbolKind::TemplateTypeParm,
        28 => SymbolKind::TemplateTemplateParm,
        29 => SymbolKind::NonTypeTemplateParm,
        _ => SymbolKind::Unknown,
    }
}

impl From<u8> for SymbolKind {
    fn from(b: u8) -> Self {
        match b {
            1 => SymbolKind::Module,
            2 => SymbolKind::Namespace,
            3 => SymbolKind::NamespaceAlias,
            4 => SymbolKind::Macro,
            5 => SymbolKind::Enum,
            6 => SymbolKind::Struct,
            7 => SymbolKind::Class,
            8 => SymbolKind::Protocol,
            9 => SymbolKind::Extension,
            10 => SymbolKind::Union,
            11 => SymbolKind::TypeAlias,
            12 => SymbolKind::Function,
            13 => SymbolKind::Variable,
            14 => SymbolKind::Field,
            15 => SymbolKind::EnumConstant,
            16 => SymbolKind::InstanceMethod,
            17 => SymbolKind::ClassMethod,
            18 => SymbolKind::StaticMethod,
            19 => SymbolKind::InstanceProperty,
            20 => SymbolKind::ClassProperty,
            21 => SymbolKind::StaticProperty,
            22 => SymbolKind::Constructor,
            23 => SymbolKind::Destructor,
            24 => SymbolKind::ConversionFunction,
            25 => SymbolKind::Parameter,
            26 => SymbolKind::Using,
            27 => SymbolKind::TemplateTypeParm,
            28 => SymbolKind::TemplateTemplateParm,
            29 => SymbolKind::NonTypeTemplateParm,
            _ => SymbolKind::Unknown,
        }
    }
}

impl vstd::std_specs::convert::FromSpecImpl<u8> for SymbolKind {
    open spec fn obeys_from_spec() -> bool {
        true
    }

    open spec fn from_spec(v: u8) -> Self {
        kind_of_tag(v)
    }
}

/// The source language of a symbol.
#[derive(Debug, Clone, Copy, Default, PartialEq, Eq, Structural)]
pub enum SymbolLanguage {
    #[default]
    C,
    ObjC,
    CXX,
    Swift,
}

/// The language that a tag byte names; an unknown tag gives `C`.
pub open spec fn language_of_tag(b: u8) -> SymbolLanguage {
    match b {
        1 => SymbolLanguage::ObjC,
        2 => SymbolLanguage::CXX,
        3 => SymbolLanguage::Swift,
        _ => SymbolLanguage::C,
    }
}

impl From<u8> for SymbolLanguage {
    fn from(b: u8) -> Self {
        match b {
            1 => SymbolLanguage::ObjC,
            2 => SymbolLanguage::CXX,
            3 => SymbolLanguage::Swift,
            _ => SymbolLanguage::C,
        }
    }
}

impl vstd::std_specs::convert::FromSpecImpl<u8> for SymbolLanguage {
    open spec fn obeys_from_spec() -> bool {
        true
    }

    open spec fn from_spec(v: u8) -> Self {
        language_of_tag(v)
    }
}

/// A finer kind for some symbols.
#[derive(Debug, Clone, Copy, Default, PartialEq, Eq, Structural)]
pub enum SymbolSubKind {
    #[default]
    NoSubKind,
    CXXCopyConstructor,
    CXXMoveConstructor,
    AccessorGetter,
    AccessorSetter,
    UsingTypename,
    UsingValue,
    UsingEnum,
}

/// One property of a symbol; a set of them is a `SymbolPropertySet`.
#[derive(Debug, Clone, Copy, Default, PartialEq, Eq, Structural)]
pub enum SymbolProperty {
    #[default]
    Unknown,
    Generic,
    TemplatePartialSpecialization,
    TemplateSpecialization,
    UnitTest,
    IBAnnotated,
    IBOutletCollection,
    GKInspectable,
    Local,
}

pub type SymbolPropertySet = u16;

#[derive(Debug, Clone, Copy, Default, PartialEq, Eq, Structural)]
pub struct SymbolInfo {
    pub kind: SymbolKind,
    pub subkind: SymbolSubKind,
    pub lang: SymbolLanguage,
    pub properties: SymbolPropertySet,
}

/// A line and column in a file.
#[derive(Debug, Clone, Copy, Default, PartialEq, Eq, Structural)]
pub struct SymbolPosition {
    pub line: u32,
    pub column: u32,
}

/// Where a symbol was seen: a file and the span in it.
#[derive(Debug, Clone, Default)]
pub struct SymbolLocation {
    pub start: SymbolPosition,
    pub end: SymbolPosition,
    pub file_uri: String,
}

pub struct LocationView {
    pub start: SymbolPosition,
    pub end: SymbolPosition,
    pub file_uri: Seq<char>,
}

impl View for SymbolLocation {
    type V = LocationView;

    open spec fn view(&self) -> LocationView {
        LocationView { start: self.start, end: self.end, file_uri: self.file_uri@ }
    }
}

/// Reads a location at `p`: a file string, then start line and column and end
/// line and column as varints.
pub open spec fn location_at(b: Seq<u8>, pool: Seq<Seq<char>>, p: int) -> Option<(LocationView, int)> {
    let uri = string_at(b, pool, p);
    let sl = varint_at(b, after(uri));
    let sc = varint_at(b, after(sl));
    let el = varint_at(b, after(sc));
    let ec = varint_at(b, after(el));
    if uri is Some && sl is Some && sc is Some && el is Some && ec is Some {
        Some(
            (
                LocationView {
                    start: SymbolPosition { line: value(sl), column: value(sc) },
                    end: SymbolPosition { line: value(el), column: value(ec) },
                    file_uri: value(uri),
                },
                after(ec),
            ),
        )
    } else {
        None
    }
}

impl ClangdUtility for SymbolLocation {}

impl SymbolLocation {
    /// Reads the location that starts at `pos`, with the number of bytes it
    /// takes; `None` where the buffer ends before it does.
    pub fn get_location(buf: &[u8], pos: usize, string_table: &Vec<String>) -> (r: Option<(usize, Self)>)
        ensures
            r matches Some((n, loc)) ==> location_at(buf@, string_table.deep_view(), pos as int)
                == Some((loc@, pos + n)) && 1 <= n && pos + n <= buf.len(),
            r is None ==> location_at(buf@, string_table.deep_view(), pos as int) is None,
    {
        let (n0, file_uri) = Self::get_string(buf, pos, string_table)?;
        let mut bytes_read: usize = n0;
        let (n, start_line) = Self::get_varint(buf, pos + bytes_read)?;
        bytes_read = bytes_read + n;
        let (n, start_column) = Self::get_varint(buf, pos + bytes_read)?;
        bytes_read = bytes_read + n;
        let (n, end_line) = Self::get_varint(buf, pos + bytes_read)?;
        bytes_read = bytes_read + n;
        let (n, end_column) = Self::get_varint(buf, pos + bytes_read)?;
        bytes_read = bytes_read + n;
        let loc = SymbolLocation {
            start: SymbolPosition { line: start_line, column: start_column },
            end: SymbolPosition { line: end_line, column: end_column },
            file_uri,
        };
        Some((bytes_read, loc))
    }
}

/// Where a symbol came from.
#[derive(Debug, Clone, Copy, Default, PartialEq, Eq, Structural)]
pub enum SymbolOrigin {
    #[default]
    Unknown,
    AST,
    Open,
    Static,
    Merge,
    Identifier,
    Remote,
    Preamble,
    Background,
    StdLib,
}

/// The flag of a symbol.
#[derive(Debug, Clone, Copy, Default, PartialEq, Eq, Structural)]
pub enum SymbolFlags {
    #[default]
    NoFlags,
    IndexedForCodeCompletion,
    Deprecated,
    ImplementationDetail,
    VisibleOutsideFile,
}

/// The flag that a tag byte names; any other byte gives `NoFlags`.
pub open spec fn flags_of_tag(b: u8) -> SymbolFlags {
    match b {
        1 => SymbolFlags::IndexedForCodeCompletion,
        2 => SymbolFlags::Deprecated,
        4 => SymbolFlags::ImplementationDetail,
        8 => SymbolFlags::VisibleOutsideFile,
        _ => SymbolFlags::NoFlags,
    }
}

impl From<u8> for SymbolFlags {
    fn from(b: u8) -> Self {
        match b {
            1 => SymbolFlags::IndexedForCodeCompletion,
            2 => SymbolFlags::Deprecated,
            4 => SymbolFlags::ImplementationDetail,
            8 => SymbolFlags::VisibleOutsideFile,
            _ => SymbolFlags::NoFlags,
        }
    }
}

impl vstd::std_specs::convert::FromSpecImpl<u8> for SymbolFlags {
    open spec fn obeys_from_spec() -> bool {
        true
    }

    open spec fn from_spec(v: u8) -> Self {
        flags_of_tag(v)
    }
}

/// A header that a symbol's declaration is included from.
#[derive(Debug, Clone, Default)]
pub struct SymbolIncludedHeader {
    pub name: String,
    pub refs: usize,
    pub supported_directives: usize,
}

pub struct HeaderView {
    pub name: Seq<char>,
    pub refs: usize,
    pub supported_directives: usize,
}

impl View for SymbolIncludedHeader {
    type V = HeaderView;

    open spec fn view(&self) -> HeaderView {
        HeaderView { name: self.name@, refs: self.refs, supported_directives: self.supported_directives }
    }
}

/// The reference count packed in a header's value: all but its two low bits.
pub open spec fn header_refs(v: u32) -> usize {
    (v >> 2) as usize
}

/// The include directives packed in a header's value: its two low bits.
pub open spec fn header_directives(v: u32) -> usize {
    (v & 3) as usize
}

/// A header's packed value splits into its reference count, all but the two
/// low bits, and its directive kind, the two low bits; the two put back
/// together give the value again.
pub proof fn lemma_header_packing(v: u32)
    ensures
        header_refs(v) == (v >> 2) as usize,
        header_directives(v) == (v & 0x3) as usize,
        header_directives(v) < 4,
        (((header_refs(v) as u32) << 2) | (header_directives(v) as u32)) == v,
{
    assert(((((v >> 2) as usize) as u32) << 2u32) | (((v & 3) as usize) as u32) == v && (v & 3) < 4)
        by (bit_vector);
}

/// Reads an included header at `p`: a name, then a varint packing the
/// reference count and the directive kind.
pub open spec fn header_at(b: Seq<u8>, pool: Seq<Seq<char>>, p: int) -> Option<(HeaderView, int)> {
    let name = string_at(b, pool, p);
    let packed = varint_at(b, after(name));
    if name is Some && packed is Some {
        Some(
            (
                HeaderView {
                    name: value(name),
                    refs: header_refs(value(packed)),
                    supported_directives: header_directives(value(packed)),
                },
                after(packed),
            ),
        )
    } else {
        None
    }
}

/// Any header that decodes carries the two parts of its packed varint `v`:
/// `v >> 2` references and `v & 0x3` directives, which put back together give
/// `v` again.
pub proof fn lemma_decoded_header_packing(b: Seq<u8>, pool: Seq<Seq<char>>, p: int)
    requires
        header_at(b, pool, p) is Some,
    ensures
        ({
            let v = value(varint_at(b, after(string_at(b, pool, p))));
            let h = value(header_at(b, pool, p));
            &&& h.refs == (v >> 2) as usize
            &&& h.supported_directives == (v & 0x3) as usize
            &&& h.supported_directives < 4
            &&& (((h.refs as u32) << 2) | (h.supported_directives as u32)) == v
        }),
{
    lemma_header_packing(value(varint_at(b, after(string_at(b, pool, p)))));
}

/// Reads `n` headers from `p` on, after the ones already in `acc`.
pub open spec fn headers_from(
    b: Seq<u8>,
    pool: Seq<Seq<char>>,
    p: int,
    n: nat,
    acc: Seq<HeaderView>,
) -> Option<(Seq<HeaderView>, int)>
    decreases n,
{
    if n == 0 {
        Some((acc, p))
    } else {
        let h = header_at(b, pool, p);
        if h is Some {
            headers_from(b, pool, after(h), (n - 1) as nat, acc.push(value(h)))
        } else {
            None
        }
    }
}

pub type SymbolId = [u8; 8];

/// A declared entity of the program, as the index records it.
#[derive(Debug, Clone, Default)]
pub struct Symbol {
    pub id: SymbolId,
    pub syminfo: SymbolInfo,
    pub name: String,
    pub scope: String,
    pub definition: SymbolLocation,
    pub canonical_declaration: SymbolLocation,
    pub references: u32,
    pub flags: SymbolFlags,
    pub origin: SymbolOrigin,
    pub signature: String,
    pub template_specialization_args: String,
    pub completion_snippet_suffix: String,
    pub documentation: String,
    pub return_t: String,
    pub t: String,
    pub headers: Vec<SymbolIncludedHeader>,
}

pub struct SymbolView {
    pub id: Seq<u8>,
    pub syminfo: SymbolInfo,
    pub name: Seq<char>,
    pub scope: Seq<char>,
    pub definition: LocationView,
    pub canonical_declaration: LocationView,
    pub references: u32,
    pub flags: SymbolFlags,
    pub origin: SymbolOrigin,
    pub signature: Seq<char>,
    pub template_specialization_args: Seq<char>,
    pub completion_snippet_suffix: Seq<char>,
    pub documentation: Seq<char>,
    pub return_t: Seq<char>,
    pub t: Seq<char>,
    pub headers: Seq<HeaderView>,
}

pub open spec fn header_views(v: Seq<SymbolIncludedHeader>) -> Seq<HeaderView> {
    v.map_values(|h: SymbolIncludedHeader| h@)
}

impl View for Symbol {
    type V = SymbolView;

    open spec fn view(&self) -> SymbolView {
        SymbolView {
            id: self.id@,
            syminfo: self.syminfo,
            name: self.name@,
            scope: self.scope@,
            definition: self.definition@,
            canonical_declaration: self.canonical_declaration@,
            references: self.references,
            flags: self.flags,
            origin: self.origin,
            signature: self.signature@,
            template_specialization_args: self.template_specialization_args@,
            completion_snippet_suffix: self.completion_snippet_suffix@,
            documentation: self.documentation@,
            return_t: self.return_t@,
            t: self.t@,
            headers: header_views(self.headers@),
        }
    }
}

/// Reads one symbol record at `p`: id, kind and language bytes, name, scope
/// and template arguments, the definition and the canonical declaration, a
/// reference count, a flag byte, signature, completion snippet, documentation,
/// return type and type, then a count of included headers and the headers.
pub open spec fn symbol_at(b: Seq<u8>, pool: Seq<Seq<char>>, p: int) -> Option<(SymbolView, int)> {
    let id = id_at(b, p);
    let name = string_at(b, pool, p + 10);
    let scope = string_at(b, pool, after(name));
    let targs = string_at(b, pool, after(scope));
    let def = location_at(b, pool, after(targs));
    let decl = location_at(b, pool, after(def));
    let refs = varint_at(b, after(decl));
    let fpos = after(refs);
    let sig = string_at(b, pool, fpos + 1);
    let snippet = string_at(b, pool, after(sig));
    let doc = string_at(b, pool, after(snippet));
    let ret = string_at(b, pool, after(doc));
    let ty = string_at(b, pool, after(ret));
    let count = varint_at(b, after(ty));
    let hdrs = headers_from(b, pool, after(count), value(count) as nat, Seq::empty());
    if id is Some && p + 10 <= b.len() && name is Some && scope is Some && targs is Some && def is Some
        && decl is Some && refs is Some && 0 <= fpos < b.len() && sig is Some && snippet is Some
        && doc is Some && ret is Some && ty is Some && count is Some && hdrs is Some {
        Some(
            (
                SymbolView {
                    id: id.unwrap(),
                    syminfo: SymbolInfo {
                        kind: kind_of_tag(b[p + 8]),
                        subkind: SymbolSubKind::NoSubKind,
                        lang: language_of_tag(b[p + 9]),
                        properties: 0,
                    },
                    name: value(name),
                    scope: value(scope),
                    definition: value(def),
                    canonical_declaration: value(decl),
                    references: value(refs),
                    flags: flags_of_tag(b[fpos]),
                    origin: SymbolOrigin::Unknown,
                    signature: value(sig),
                    template_specialization_args: value(targs),
                    completion_snippet_suffix: value(snippet),
                    documentation: value(doc),
                    return_t: value(ret),
                    t: value(ty),
                    headers: value(hdrs),
                },
                after(hdrs),
            ),
        )
    } else {
        None
    }
}

/// Reads back-to-back symbol records from `p` to the end of the payload,
/// after the ones already in `acc`.
pub open spec fn symbols_from(b: Seq<u8>, pool: Seq<Seq<char>>, p: int, acc: Seq<SymbolView>) -> Option<
    Seq<SymbolView>,
>
    decreases b.len() - p,
{
    if p >= b.len() {
        Some(acc)
    } else {
        let s = symbol_at(b, pool, p);
        if s is Some && p < after(s) <= b.len() {
            symbols_from(b, pool, after(s), acc.push(value(s)))
        } else {
            None
        }
    }
}

/// The symbols that a whole symbol chunk payload holds.
pub open spec fn symbols_of(b: Seq<u8>, pool: Seq<Seq<char>>) -> Option<Seq<SymbolView>> {
    symbols_from(b, pool, 0, Seq::empty())
}

pub open spec fn symbol_views(v: Seq<Symbol>) -> Seq<SymbolView> {
    v.map_values(|s: Symbol| s@)
}

impl ClangdUtility for Symbol {}

impl Symbol {
    fn get_header(data: &[u8], pos: usize, string_table: &Vec<String>) -> (r: Option<(usize, SymbolIncludedHeader)>)
        ensures
            r matches Some((n, h)) ==> header_at(data@, string_table.deep_view(), pos as int) == Some(
                (h@, pos + n),
            ) && pos + n <= data.len(),
            r is None ==> header_at(data@, string_table.deep_view(), pos as int) is None,
    {
        let (n0, name) = Self::get_string(data, pos, string_table)?;
        let (n1, packed) = Self::get_varint(data, pos + n0)?;
        let h = SymbolIncludedHeader {
            name,
            refs: (packed >> 2) as usize,
            supported_directives: (packed & 3) as usize,
        };
        Some((n0 + n1, h))
    }

    fn get_headers(data: &[u8], pos: usize, count: u32, string_table: &Vec<String>) -> (r: Option<
        (usize, Vec<SymbolIncludedHeader>),
    >)
        requires
            pos <= data.len(),
        ensures
            r matches Some((n, v)) ==> headers_from(
                data@,
                string_table.deep_view(),
                pos as int,
                count as nat,
                Seq::empty(),
            ) == Some((header_views(v@), pos + n)) && pos + n <= data.len(),
            r is None ==> headers_from(
                data@,
                string_table.deep_view(),
                pos as int,
                count as nat,
                Seq::empty(),
            ) is None,
    {
        let ghost b = data@;
        let ghost pool = string_table.deep_view();
        let mut headers: Vec<SymbolIncludedHeader> = Vec::new();
        let mut cursor = pos;
        let mut idx: u32 = 0;
        assert(header_views(headers@) =~= Seq::empty());
        while idx < count
            invariant
                b == data@,
                pool == string_table.deep_view(),
                pos <= cursor <= data.len(),
                idx <= count,
                headers_from(b, pool, pos as int, count as nat, Seq::empty()) == headers_from(
                    b,
                    pool,
                    cursor as int,
                    (count - idx) as nat,
                    header_views(headers@),
                ),
            decreases count - idx,
        {
            let (n, hdr) = Self::get_header(data, cursor, string_table)?;
            let ghost before = header_views(headers@);
            headers.push(hdr);
            assert(header_views(headers@) =~= before.push(hdr@));
            cursor = cursor + n;
            idx = idx + 1;
        }
        Some((cursor - pos, headers))
    }

    #[verifier::rlimit(60)]
    fn get_symbol(data: &[u8], pos: usize, string_table: &Vec<String>) -> (r: Option<(usize, Symbol)>)
        ensures
            r matches Some((n, s)) ==> symbol_at(data@, string_table.deep_view(), pos as int) == Some(
                (s@, pos + n),
            ) && 0 < n && pos + n <= data.len(),
            r is None ==> symbol_at(data@, string_table.deep_view(), pos as int) is None,
    {
        let ghost b = data@;
        let ghost pool = string_table.deep_view();
        let id = Self::get_id(data, pos)?;
        if data.len() - pos < 10 {
            return None;
        }
        let kind = SymbolKind::from(data[pos + 8]);
        let lang = SymbolLanguage::from(data[pos + 9]);
        let mut cursor: usize = pos + 10;
        let (n, name) = Self::get_string(data, cursor, string_table)?;
        cursor = cursor + n;
        let (n, scope) = Self::get_string(data, cursor, string_table)?;
        cursor = cursor + n;
        let (n, template_specialization_args) = Self::get_string(data, cursor, string_table)?;
        cursor = cursor + n;
        let (n, definition) = SymbolLocation::get_location(data, cursor, string_table)?;
        cursor = cursor + n;
        let (n, canonical_declaration) = SymbolLocation::get_location(data, cursor, string_table)?;
        cursor = cursor + n;
        let (n, references) = Self::get_varint(data, cursor)?;
        cursor = cursor + n;
        if cursor >= data.len() {
            return None;
        }
        let flags = SymbolFlags::from(data[cursor]);
        cursor = cursor + 1;
        let (n, signature) = Self::get_string(data, cursor, string_table)?;
        cursor = cursor + n;
        let (n, completion_snippet_suffix) = Self::get_string(data, cursor, string_table)?;
        cursor = cursor + n;
        let (n, documentation) = Self::get_string(data, cursor, string_table)?;
        cursor = cursor + n;
        let (n, return_t) = Self::get_string(data, cursor, string_table)?;
        cursor = cursor + n;
        let (n, t) = Self::get_string(data, cursor, string_table)?;
        cursor = cursor + n;
        let (n, count) = Self::get_varint(data, cursor)?;
        cursor = cursor + n;
        let (n, headers) = Self::get_headers(data, cursor, count, string_table)?;
        cursor = cursor + n;
        let s = Symbol {
            id,
            syminfo: SymbolInfo {
                kind,
                subkind: SymbolSubKind::NoSubKind,
                lang,
                properties: 0,
            },
            name,
            scope,
            definition,
            canonical_declaration,
            references,
            flags,
            origin: SymbolOrigin::Unknown,
            signature,
            template_specialization_args,
            completion_snippet_suffix,
            documentation,
            return_t,
            t,
            headers,
        };
        Some((cursor - pos, s))
    }

    /// Decodes a symbol chunk payload: back-to-back symbol records up to its
    /// end. A payload that ends inside a record is a `DecodeError`.
    pub fn parse(data: &[u8], string_table: &Vec<String>) -> (r: Result<Vec<Symbol>, ParseError>)
        ensures
            r is Ok <==> symbols_of(data@, string_table.deep_view()) is Some,
            r matches Ok(v) ==> symbols_of(data@, string_table.deep_view()) == Some(symbol_views(v@)),
            r matches Err(e) ==> e is DecodeError,
    {
        let ghost b = data@;
        let ghost pool = string_table.deep_view();
        let mut syms: Vec<Symbol> = Vec::new();
        let mut cursor: usize = 0;
        assert(symbol_views(syms@) =~= Seq::empty());
        while cursor < data.len()
            invariant
                b == data@,
                pool == string_table.deep_view(),
                cursor <= data.len(),
                symbols_of(b, pool) == symbols_from(b, pool, cursor as int, symbol_views(syms@)),
            decreases data.len() - cursor,
        {
            match Self::get_symbol(data, cursor, string_table) {
                Some((n, s)) => {
                    let ghost before = symbol_views(syms@);
                    syms.push(s);
                    assert(symbol_views(syms@) =~= before.push(s@));
                    cursor = cursor + n;
                },
                None => {
                    return Err(ParseError::DecodeError);
                },
            }
        }
        Ok(syms)
    }
}

} // verus!
