//! The PDL (protocol description language) AST and its line-oriented parser.
//!
//! A PDL file is line-oriented; each line's leading spaces give its nesting
//! level:
//!
//! ```text
//! version
//!   major 1
//!   minor 3
//!
//! experimental domain Page
//!   depends on DOM
//!
//!   # A unique frame id.
//!   type FrameId extends string
//!
//!   command navigate
//!     parameters
//!       string url
//!     returns
//!       FrameId frameId
//! ```
//!
//! [`parse`] reads the lines in order; each line moves a parser state
//! ([`pdl_step`]) and the result is the state after the last line.

use vstd::prelude::*;

use crate::text::{
    chars_of, contains, eq_str, find, find_chars, has_prefix, is_ws, lines, push_str, slice_chars,
    split_lines, split_words, starts_with_str, string_of, strip_prefix, strip_prefix_str, trim,
    trim_chars, trim_start, trim_start_chars, words, occurs_at, lemma_find,
};

verus! {

// ---------------------------------------------------------------------------
// AST
// ---------------------------------------------------------------------------

/// Errors that can occur while parsing a PDL file.
#[derive(Debug)]
pub enum ParseError {
    /// A malformed line: its 1-based number and what was wrong.
    Syntax { line: usize, message: String },
    /// A whole-file problem (no version header, bad include directive).
    MissingHeader(String),
}

/// Top-level parsed PDL: a version header and a list of domains.
#[derive(Debug, Clone, PartialEq)]
pub struct Protocol {
    pub version: Version,
    pub domains: Vec<Domain>,
}

/// Protocol version header (`version\n  major N\n  minor N`).
#[derive(Debug, Clone, PartialEq)]
pub struct Version {
    pub major: String,
    pub minor: String,
}

/// A single CDP domain (e.g. `Page`, `DOM`, `Network`).
#[derive(Debug, Clone, PartialEq)]
pub struct Domain {
    pub name: String,
    pub description: Option<String>,
    pub experimental: bool,
    pub deprecated: bool,
    pub dependencies: Vec<String>,
    pub types: Vec<TypeDef>,
    pub commands: Vec<Command>,
    pub events: Vec<Event>,
}

/// A named type defined within a domain.
#[derive(Debug, Clone, PartialEq)]
pub struct TypeDef {
    pub id: String,
    pub description: Option<String>,
    pub experimental: bool,
    pub deprecated: bool,
    pub kind: TypeKind,
}

/// The body of a type definition.
#[derive(Debug, Clone, PartialEq)]
pub enum TypeKind {
    /// `type T extends string` with an `enum` block.
    Enum(Vec<EnumVariant>),
    /// `type T extends object` with a `properties` block.
    Object(Vec<Property>),
    /// A primitive type alias (`extends integer|number|…`).
    Primitive(PrimitiveType),
    /// An array (`extends array of X`).
    Array(Box<CdpType>),
    /// An alias of another type (`extends SomeDomain.SomeType`).
    Ref(String),
}

/// One variant inside an `enum` block.
#[derive(Debug, Clone, PartialEq)]
pub struct EnumVariant {
    pub name: String,
    pub description: Option<String>,
}

/// A property / parameter / return value inside a type, command, or event.
#[derive(Debug, Clone, PartialEq)]
pub struct Property {
    pub name: String,
    pub description: Option<String>,
    pub experimental: bool,
    pub deprecated: bool,
    pub optional: bool,
    pub kind: CdpType,
}

/// A CDP command (request + response pair).
#[derive(Debug, Clone, PartialEq)]
pub struct Command {
    pub name: String,
    pub description: Option<String>,
    pub experimental: bool,
    pub deprecated: bool,
    pub parameters: Vec<Property>,
    pub returns: Vec<Property>,
}

/// A CDP event (server-sent notification).
#[derive(Debug, Clone, PartialEq)]
pub struct Event {
    pub name: String,
    pub description: Option<String>,
    pub experimental: bool,
    pub deprecated: bool,
    pub parameters: Vec<Property>,
}

/// The type of a field or parameter.
#[derive(Debug, PartialEq)]
pub enum CdpType {
    Integer,
    Number,
    Boolean,
    String,
    Object,
    Any,
    Binary,
    Array(Box<CdpType>),
    /// A reference to another type, possibly cross-domain (`Domain.TypeId`).
    Ref(String),
    /// An inline enum declared directly on a parameter.
    InlineEnum(Vec<EnumVariant>),
}

impl Clone for CdpType {
    fn clone(&self) -> (r: Self)
        decreases self,
    {
        match self {
            CdpType::Integer => CdpType::Integer,
            CdpType::Number => CdpType::Number,
            CdpType::Boolean => CdpType::Boolean,
            CdpType::String => CdpType::String,
            CdpType::Object => CdpType::Object,
            CdpType::Any => CdpType::Any,
            CdpType::Binary => CdpType::Binary,
            CdpType::Array(inner) => CdpType::Array(Box::new(clone_cdp_type(inner))),
            CdpType::Ref(r) => CdpType::Ref(r.clone()),
            CdpType::InlineEnum(vs) => CdpType::InlineEnum(vs.clone()),
        }
    }
}

/// A copy of an enum's values.
fn clone_variants(vs: &Vec<EnumVariant>) -> (r: Vec<EnumVariant>)
    ensures
        variants_view(r@) == variants_view(vs@),
{
    let mut r: Vec<EnumVariant> = Vec::new();
    let mut i: usize = 0;
    while i < vs.len()
        invariant
            i <= vs@.len(),
            variants_view(r@) == variants_view(vs@.take(i as int)),
        decreases vs@.len() - i,
    {
        let description = match &vs[i].description {
            Some(d) => Some(d.clone()),
            None => None,
        };
        let v = EnumVariant { name: vs[i].name.clone(), description };
        r.push(v);
        assert(vs@.take(i + 1) =~= vs@.take(i as int).push(vs@[i as int]));
        assert(variants_view(r@) =~= variants_view(vs@.take(i as int)).push(v@));
        i = i + 1;
    }
    assert(vs@.take(vs@.len() as int) =~= vs@);
    r
}

fn clone_cdp_type(t: &CdpType) -> (r: CdpType)
    ensures
        r@ == t@,
    decreases t,
{
    match t {
        CdpType::Array(inner) => CdpType::Array(Box::new(clone_cdp_type(inner))),
        CdpType::Ref(r) => CdpType::Ref(r.clone()),
        CdpType::InlineEnum(vs) => CdpType::InlineEnum(clone_variants(vs)),
        CdpType::Integer => CdpType::Integer,
        CdpType::Number => CdpType::Number,
        CdpType::Boolean => CdpType::Boolean,
        CdpType::String => CdpType::String,
        CdpType::Object => CdpType::Object,
        CdpType::Any => CdpType::Any,
        CdpType::Binary => CdpType::Binary,
    }
}

/// Primitive non-object, non-array type.
#[derive(Debug, Clone, Copy, PartialEq, Eq)]
pub enum PrimitiveType {
    Integer,
    Number,
    Boolean,
    String,
    Object,
    Any,
    Binary,
}

// ---------------------------------------------------------------------------
// Mathematical model of the AST
// ---------------------------------------------------------------------------

pub ghost enum SpecParseError {
    Syntax { line: int, message: Seq<char> },
    MissingHeader(Seq<char>),
}

pub ghost struct SpecVersion {
    pub major: Seq<char>,
    pub minor: Seq<char>,
}

pub ghost struct SpecEnumVariant {
    pub name: Seq<char>,
    pub description: Option<Seq<char>>,
}

pub ghost enum SpecCdpType {
    Integer,
    Number,
    Boolean,
    String,
    Object,
    Any,
    Binary,
    Array(Box<SpecCdpType>),
    Ref(Seq<char>),
    InlineEnum(Seq<SpecEnumVariant>),
}

pub ghost struct SpecProperty {
    pub name: Seq<char>,
    pub description: Option<Seq<char>>,
    pub experimental: bool,
    pub deprecated: bool,
    pub optional: bool,
    pub kind: SpecCdpType,
}

pub ghost enum SpecTypeKind {
    Enum(Seq<SpecEnumVariant>),
    Object(Seq<SpecProperty>),
    Primitive(PrimitiveType),
    Array(SpecCdpType),
    Ref(Seq<char>),
}

pub ghost struct SpecTypeDef {
    pub id: Seq<char>,
    pub description: Option<Seq<char>>,
    pub experimental: bool,
    pub deprecated: bool,
    pub kind: SpecTypeKind,
}

pub ghost struct SpecCommand {
    pub name: Seq<char>,
    pub description: Option<Seq<char>>,
    pub experimental: bool,
    pub deprecated: bool,
    pub parameters: Seq<SpecProperty>,
    pub returns: Seq<SpecProperty>,
}

pub ghost struct SpecEvent {
    pub name: Seq<char>,
    pub description: Option<Seq<char>>,
    pub experimental: bool,
    pub deprecated: bool,
    pub parameters: Seq<SpecProperty>,
}

pub ghost struct SpecDomain {
    pub name: Seq<char>,
    pub description: Option<Seq<char>>,
    pub experimental: bool,
    pub deprecated: bool,
    pub dependencies: Seq<Seq<char>>,
    pub types: Seq<SpecTypeDef>,
    pub commands: Seq<SpecCommand>,
    pub events: Seq<SpecEvent>,
}

pub ghost struct SpecProtocol {
    pub version: SpecVersion,
    pub domains: Seq<SpecDomain>,
}

pub open spec fn opt_str(o: Option<String>) -> Option<Seq<char>> {
    match o {
        Some(s) => Some(s@),
        None => None,
    }
}

pub open spec fn strs(v: Seq<String>) -> Seq<Seq<char>> {
    v.map_values(|s: String| s@)
}

pub open spec fn variants_view(v: Seq<EnumVariant>) -> Seq<SpecEnumVariant> {
    v.map_values(|e: EnumVariant| e@)
}

pub open spec fn props_view(v: Seq<Property>) -> Seq<SpecProperty> {
    v.map_values(|p: Property| p@)
}

pub open spec fn typedefs_view(v: Seq<TypeDef>) -> Seq<SpecTypeDef> {
    v.map_values(|t: TypeDef| t@)
}

pub open spec fn commands_view(v: Seq<Command>) -> Seq<SpecCommand> {
    v.map_values(|c: Command| c@)
}

pub open spec fn events_view(v: Seq<Event>) -> Seq<SpecEvent> {
    v.map_values(|e: Event| e@)
}

pub open spec fn domains_view(v: Seq<Domain>) -> Seq<SpecDomain> {
    v.map_values(|d: Domain| d@)
}

impl View for ParseError {
    type V = SpecParseError;

    open spec fn view(&self) -> SpecParseError {
        match self {
            ParseError::Syntax { line, message } => SpecParseError::Syntax {
                line: *line as int,
                message: message@,
            },
            ParseError::MissingHeader(m) => SpecParseError::MissingHeader(m@),
        }
    }
}

impl View for Version {
    type V = SpecVersion;

    open spec fn view(&self) -> SpecVersion {
        SpecVersion { major: self.major@, minor: self.minor@ }
    }
}

impl View for EnumVariant {
    type V = SpecEnumVariant;

    open spec fn view(&self) -> SpecEnumVariant {
        SpecEnumVariant { name: self.name@, description: opt_str(self.description) }
    }
}

pub open spec fn cdp_type_view(t: CdpType) -> SpecCdpType
    decreases t,
{
    match t {
        CdpType::Integer => SpecCdpType::Integer,
        CdpType::Number => SpecCdpType::Number,
        CdpType::Boolean => SpecCdpType::Boolean,
        CdpType::String => SpecCdpType::String,
        CdpType::Object => SpecCdpType::Object,
        CdpType::Any => SpecCdpType::Any,
        CdpType::Binary => SpecCdpType::Binary,
        CdpType::Array(inner) => SpecCdpType::Array(Box::new(cdp_type_view(*inner))),
        CdpType::Ref(r) => SpecCdpType::Ref(r@),
        CdpType::InlineEnum(vs) => SpecCdpType::InlineEnum(variants_view(vs@)),
    }
}

impl View for CdpType {
    type V = SpecCdpType;

    open spec fn view(&self) -> SpecCdpType {
        cdp_type_view(*self)
    }
}

impl View for Property {
    type V = SpecProperty;

    open spec fn view(&self) -> SpecProperty {
        SpecProperty {
            name: self.name@,
            description: opt_str(self.description),
            experimental: self.experimental,
            deprecated: self.deprecated,
            optional: self.optional,
            kind: self.kind@,
        }
    }
}

impl View for TypeKind {
    type V = SpecTypeKind;

    open spec fn view(&self) -> SpecTypeKind {
        match self {
            TypeKind::Enum(vs) => SpecTypeKind::Enum(variants_view(vs@)),
            TypeKind::Object(ps) => SpecTypeKind::Object(props_view(ps@)),
            TypeKind::Primitive(p) => SpecTypeKind::Primitive(*p),
            TypeKind::Array(inner) => SpecTypeKind::Array((**inner)@),
            TypeKind::Ref(r) => SpecTypeKind::Ref(r@),
        }
    }
}

impl View for TypeDef {
    type V = SpecTypeDef;

    open spec fn view(&self) -> SpecTypeDef {
        SpecTypeDef {
            id: self.id@,
            description: opt_str(self.description),
            experimental: self.experimental,
            deprecated: self.deprecated,
            kind: self.kind@,
        }
    }
}

impl View for Command {
    type V = SpecCommand;

    open spec fn view(&self) -> SpecCommand {
        SpecCommand {
            name: self.name@,
            description: opt_str(self.description),
            experimental: self.experimental,
            deprecated: self.deprecated,
            parameters: props_view(self.parameters@),
            returns: props_view(self.returns@),
        }
    }
}

impl View for Event {
    type V = SpecEvent;

    open spec fn view(&self) -> SpecEvent {
        SpecEvent {
            name: self.name@,
            description: opt_str(self.description),
            experimental: self.experimental,
            deprecated: self.deprecated,
            parameters: props_view(self.parameters@),
        }
    }
}

impl View for Domain {
    type V = SpecDomain;

    open spec fn view(&self) -> SpecDomain {
        SpecDomain {
            name: self.name@,
            description: opt_str(self.description),
            experimental: self.experimental,
            deprecated: self.deprecated,
            dependencies: strs(self.dependencies@),
            types: typedefs_view(self.types@),
            commands: commands_view(self.commands@),
            events: events_view(self.events@),
        }
    }
}

impl View for Protocol {
    type V = SpecProtocol;

    open spec fn view(&self) -> SpecProtocol {
        SpecProtocol {
            version: self.version@,
            domains: domains_view(self.domains@),
        }
    }
}

// ---------------------------------------------------------------------------
// Token helpers
// ---------------------------------------------------------------------------

/// The type named by a type token: a primitive name, or a reference.
#[verifier::opaque]
pub open spec fn spec_parse_base_type(s: Seq<char>) -> SpecCdpType {
    if s == "integer"@ {
        SpecCdpType::Integer
    } else if s == "number"@ {
        SpecCdpType::Number
    } else if s == "boolean"@ {
        SpecCdpType::Boolean
    } else if s == "string"@ {
        SpecCdpType::String
    } else if s == "object"@ {
        SpecCdpType::Object
    } else if s == "any"@ {
        SpecCdpType::Any
    } else if s == "binary"@ {
        SpecCdpType::Binary
    } else {
        SpecCdpType::Ref(s)
    }
}

/// The primitive type named by `s`, if `s` names one.
#[verifier::opaque]
pub open spec fn spec_parse_primitive(s: Seq<char>) -> Option<PrimitiveType> {
    if s == "integer"@ {
        Some(PrimitiveType::Integer)
    } else if s == "number"@ {
        Some(PrimitiveType::Number)
    } else if s == "boolean"@ {
        Some(PrimitiveType::Boolean)
    } else if s == "string"@ {
        Some(PrimitiveType::String)
    } else if s == "object"@ {
        Some(PrimitiveType::Object)
    } else if s == "any"@ {
        Some(PrimitiveType::Any)
    } else if s == "binary"@ {
        Some(PrimitiveType::Binary)
    } else {
        None
    }
}

/// Parse a type-name token (without an "array of" prefix) into a [`CdpType`].
pub fn parse_base_type(s: &str) -> (t: CdpType)
    ensures
        t@ == spec_parse_base_type(s@),
{
    let v = chars_of(s);
    parse_base_type_chars(&v)
}

fn parse_base_type_chars(s: &[char]) -> (t: CdpType)
    ensures
        t@ == spec_parse_base_type(s@),
{
    reveal(spec_parse_base_type);
    if eq_str(s, "integer") {
        CdpType::Integer
    } else if eq_str(s, "number") {
        CdpType::Number
    } else if eq_str(s, "boolean") {
        CdpType::Boolean
    } else if eq_str(s, "string") {
        CdpType::String
    } else if eq_str(s, "object") {
        CdpType::Object
    } else if eq_str(s, "any") {
        CdpType::Any
    } else if eq_str(s, "binary") {
        CdpType::Binary
    } else {
        CdpType::Ref(string_of(s))
    }
}

/// Parse a [`PrimitiveType`] from the token after `extends`.
pub fn parse_primitive(s: &str) -> (p: Option<PrimitiveType>)
    ensures
        p == spec_parse_primitive(s@),
{
    let v = chars_of(s);
    parse_primitive_chars(&v)
}

fn parse_primitive_chars(s: &[char]) -> (p: Option<PrimitiveType>)
    ensures
        p == spec_parse_primitive(s@),
{
    reveal(spec_parse_primitive);
    if eq_str(s, "integer") {
        Some(PrimitiveType::Integer)
    } else if eq_str(s, "number") {
        Some(PrimitiveType::Number)
    } else if eq_str(s, "boolean") {
        Some(PrimitiveType::Boolean)
    } else if eq_str(s, "string") {
        Some(PrimitiveType::String)
    } else if eq_str(s, "object") {
        Some(PrimitiveType::Object)
    } else if eq_str(s, "any") {
        Some(PrimitiveType::Any)
    } else if eq_str(s, "binary") {
        Some(PrimitiveType::Binary)
    } else {
        None
    }
}

/// The `n`-space indentation prefix.
pub open spec fn spaces(n: nat) -> Seq<char> {
    Seq::new(n, |i: int| ' ')
}

/// `s` without exactly `n` leading spaces, when it starts with them.
pub open spec fn spec_strip_spaces(s: Seq<char>, n: nat) -> Option<Seq<char>> {
    strip_prefix(s, spaces(n))
}

/// Strip exactly `n` spaces from the start of `s`; `None` when `s` has fewer
/// than `n` leading spaces.
fn strip_prefix_spaces(s: &[char], n: usize) -> (r: Option<Vec<char>>)
    ensures
        match r {
            Some(rest) => spec_strip_spaces(s@, n as nat) == Some(rest@),
            None => spec_strip_spaces(s@, n as nat) is None,
        },
{
    if s.len() < n {
        return None;
    }
    let mut i: usize = 0;
    while i < n
        invariant
            n <= s@.len(),
            i <= n,
            forall|k: int| 0 <= k < i ==> s@[k] == ' ',
        decreases n - i,
    {
        if s[i] != ' ' {
            assert(s@.take(n as int)[i as int] != spaces(n as nat)[i as int]);
            return None;
        }
        i = i + 1;
    }
    assert(s@.take(n as int) =~= spaces(n as nat));
    Some(slice_chars(s, n, s.len()))
}

/// Whether `s` begins with `flag`, and `s` with `flag` removed if so.
pub open spec fn spec_consume_flag(s: Seq<char>, flag: Seq<char>) -> (bool, Seq<char>) {
    match strip_prefix(s, flag) {
        Some(rest) => (true, rest),
        None => (false, s),
    }
}

/// Consume `flag` from the start of `*s` and return whether it was present.
fn consume_flag(s: &mut Vec<char>, flag: &str) -> (b: bool)
    ensures
        (b, final(s)@) == spec_consume_flag(old(s)@, flag@),
{
    match strip_prefix_str(s, flag) {
        Some(rest) => {
            *s = rest;
            true
        },
        None => false,
    }
}

/// The `extends` part of a type declaration.
pub ghost enum SpecTypeExtends {
    Primitive(PrimitiveType),
    Enum,
    Array(SpecCdpType),
    Ref(Seq<char>),
}

/// What follows `extends` in a type declaration.
#[derive(Debug, Clone)]
enum TypeExtends {
    Primitive(PrimitiveType),
    Enum,
    Array(Box<CdpType>),
    Ref(String),
}

impl View for TypeExtends {
    type V = SpecTypeExtends;

    closed spec fn view(&self) -> SpecTypeExtends {
        match self {
            TypeExtends::Primitive(p) => SpecTypeExtends::Primitive(*p),
            TypeExtends::Enum => SpecTypeExtends::Enum,
            TypeExtends::Array(t) => SpecTypeExtends::Array((**t)@),
            TypeExtends::Ref(r) => SpecTypeExtends::Ref(r@),
        }
    }
}

pub open spec fn syntax_error(line: int, message: Seq<char>) -> SpecParseError {
    SpecParseError::Syntax { line, message }
}

/// `<Name> extends [array of] <Kind>` from a type declaration line.
pub open spec fn spec_parse_type_extends(rest: Seq<char>, line: int) -> Result<
    (Seq<char>, SpecTypeExtends),
    SpecParseError,
> {
    match find(rest, " extends "@) {
        None => Err(
            syntax_error(line, "expected 'type <Name> extends <kind>', got '"@ + rest + "'"@),
        ),
        Some(i) => Ok((trim(rest.take(i)), spec_extends_of(trim(rest.skip(i + 9))))),
    }
}

/// The meaning of the (trimmed) token after `extends`.
pub open spec fn spec_extends_of(kind: Seq<char>) -> SpecTypeExtends {
    if kind == "enum"@ {
        SpecTypeExtends::Enum
    } else if has_prefix(kind, "array of "@) {
        SpecTypeExtends::Array(spec_parse_base_type(trim(kind.skip(9))))
    } else if spec_parse_primitive(kind) is Some {
        SpecTypeExtends::Primitive(spec_parse_primitive(kind)->0)
    } else {
        SpecTypeExtends::Ref(kind)
    }
}

fn extends_of(kind: &[char]) -> (e: TypeExtends)
    ensures
        e@ == spec_extends_of(kind@),
{
    if eq_str(kind, "enum") {
        TypeExtends::Enum
    } else if let Some(inner) = strip_prefix_str(kind, "array of ") {
        proof {
            reveal_strlit("array of ");
        }
        let inner_t = trim_chars(&inner);
        TypeExtends::Array(Box::new(parse_base_type_chars(&inner_t)))
    } else if let Some(p) = parse_primitive_chars(kind) {
        TypeExtends::Primitive(p)
    } else {
        TypeExtends::Ref(string_of(kind))
    }
}

/// A `ParseError::Syntax` at `line` whose message is `parts` joined.
fn syntax_err(line: usize, first: &str, middle: &[char], last: &str) -> (e: ParseError)
    ensures
        e@ == syntax_error(line as int, first@ + middle@ + last@),
{
    let mut m = first.to_owned();
    let mid = string_of(middle);
    push_str(&mut m, mid.as_str());
    push_str(&mut m, last);
    ParseError::Syntax { line, message: m }
}

/// Parse `<Name> extends [array of] <Kind>` from a type declaration line.
fn parse_type_extends(rest: &[char], line_num: usize) -> (r: Result<(String, TypeExtends), ParseError>)
    ensures
        match r {
            Ok((name, ext)) => spec_parse_type_extends(rest@, line_num as int) == Ok::<
                (Seq<char>, SpecTypeExtends),
                SpecParseError,
            >((name@, ext@)),
            Err(e) => spec_parse_type_extends(rest@, line_num as int) == Err::<
                (Seq<char>, SpecTypeExtends),
                SpecParseError,
            >(e@),
        },
{
    let pat = chars_of(" extends ");
    proof {
        reveal_strlit(" extends ");
    }
    match find_chars(rest, &pat) {
        None => Err(syntax_err(line_num, "expected 'type <Name> extends <kind>', got '", rest, "'")),
        Some(i) => {
            proof {
                lemma_find(rest@, pat@);
                assert(pat@.len() == 9);
                assert(occurs_at(rest@, pat@, i as int));
                assert(i + 9 <= rest@.len());
            }
            let head = slice_chars(rest, 0, i);
            let name = trim_chars(&head);
            let n = rest.len();
            let tail = slice_chars(rest, i + 9, n);
            let kind = trim_chars(&tail);
            proof {
                assert(head@ =~= rest@.take(i as int));
                assert(tail@ =~= rest@.skip(i + 9));
            }
            let ext = extends_of(&kind);
            Ok((string_of(&name), ext))
        },
    }
}


// ---------------------------------------------------------------------------
// Property lines
// ---------------------------------------------------------------------------

/// The leading `experimental` / `deprecated` / `optional` flags of a word
/// list, and the words after them.
pub open spec fn spec_strip_flags(w: Seq<Seq<char>>) -> (bool, bool, bool, Seq<Seq<char>>)
    decreases w.len(),
{
    if w.len() > 0 && (w[0] == "experimental"@ || w[0] == "deprecated"@ || w[0] == "optional"@) {
        let (e, d, o, r) = spec_strip_flags(w.drop_first());
        (e || w[0] == "experimental"@, d || w[0] == "deprecated"@, o || w[0] == "optional"@, r)
    } else {
        (false, false, false, w)
    }
}

/// A property line `[experimental] [deprecated] [optional] [array of] <type> <name>`,
/// or `None` when the line is not one (an enum literal).
pub open spec fn spec_try_parse_property(line: Seq<char>, desc: Option<Seq<char>>) -> Option<
    SpecProperty,
> {
    let w = words(line);
    if w.len() < 2 {
        None
    } else {
        let (e, d, o, r) = spec_strip_flags(w);
        if r.len() < 2 {
            None
        } else if r.len() >= 3 && r[0] == "array"@ && r[1] == "of"@ {
            Some(
                SpecProperty {
                    name: r.last(),
                    description: desc,
                    experimental: e,
                    deprecated: d,
                    optional: o,
                    kind: SpecCdpType::Array(Box::new(spec_parse_base_type(r[2]))),
                },
            )
        } else {
            Some(
                SpecProperty {
                    name: r[1],
                    description: desc,
                    experimental: e,
                    deprecated: d,
                    optional: o,
                    kind: spec_parse_base_type(r[0]),
                },
            )
        }
    }
}

pub open spec fn words_view(v: Seq<Vec<char>>) -> Seq<Seq<char>> {
    v.map_values(|l: Vec<char>| l@)
}

/// Try to parse a property/parameter line; `None` when the line is an enum
/// literal rather than a property.
fn try_parse_property(line: &[char], desc: Option<String>) -> (r: Option<Property>)
    ensures
        match r {
            Some(p) => spec_try_parse_property(line@, opt_str(desc)) == Some(p@),
            None => spec_try_parse_property(line@, opt_str(desc)) is None,
        },
{
    let ws = split_words(line);
    let ghost w = words_view(ws@);
    assert(w == words(line@));
    if ws.len() < 2 {
        return None;
    }
    let mut experimental = false;
    let mut deprecated = false;
    let mut optional = false;
    let mut k: usize = 0;
    proof {
        assert(w.skip(0) =~= w);
    }
    while k < ws.len() && (eq_str(&ws[k], "experimental") || eq_str(&ws[k], "deprecated")
        || eq_str(&ws[k], "optional"))
        invariant
            w == words_view(ws@),
            k <= ws@.len(),
            ({
                let (e2, d2, o2, r2) = spec_strip_flags(w.skip(k as int));
                spec_strip_flags(w) == (experimental || e2, deprecated || d2, optional || o2, r2)
            }),
        decreases ws@.len() - k,
    {
        proof {
            assert(w.skip(k as int).drop_first() =~= w.skip(k + 1));
            assert(w.skip(k as int)[0] == ws@[k as int]@);
            let x = w.skip(k as int)[0];
            reveal_strlit("experimental");
            reveal_strlit("deprecated");
            reveal_strlit("optional");
            let (e3, d3, o3, r3) = spec_strip_flags(w.skip(k + 1));
            assert(spec_strip_flags(w.skip(k as int)) == (
                e3 || x == "experimental"@,
                d3 || x == "deprecated"@,
                o3 || x == "optional"@,
                r3,
            ));
        }
        if eq_str(&ws[k], "experimental") {
            experimental = true;
        } else if eq_str(&ws[k], "deprecated") {
            deprecated = true;
        } else {
            optional = true;
        }
        k = k + 1;
    }
    proof {
        if k < ws@.len() {
            assert(w.skip(k as int)[0] == ws@[k as int]@);
        }
        assert(spec_strip_flags(w.skip(k as int)).3 == w.skip(k as int));
    }
    let n = ws.len() - k;
    if n < 2 {
        return None;
    }
    let ghost r = w.skip(k as int);
    assert(r[0] == ws@[k as int]@);
    assert(r[1] == ws@[k + 1]@);
    if n >= 3 && eq_str(&ws[k], "array") && eq_str(&ws[k + 1], "of") {
        assert(r[2] == ws@[k + 2]@);
        assert(r.last() == ws@[ws@.len() - 1]@);
        let ty = parse_base_type_chars(&ws[k + 2]);
        let name = string_of(&ws[ws.len() - 1]);
        Some(
            Property {
                name,
                description: desc,
                experimental,
                deprecated,
                optional,
                kind: CdpType::Array(Box::new(ty)),
            },
        )
    } else {
        let ty = parse_base_type_chars(&ws[k]);
        let name = string_of(&ws[k + 1]);
        Some(Property { name, description: desc, experimental, deprecated, optional, kind: ty })
    }
}

// ---------------------------------------------------------------------------
// View lemmas
// ---------------------------------------------------------------------------

proof fn lemma_props_push(v: Seq<Property>, x: Property)
    ensures
        props_view(v.push(x)) == props_view(v).push(x@),
{
    assert(props_view(v.push(x)) =~= props_view(v).push(x@));
}

proof fn lemma_variants_push(v: Seq<EnumVariant>, x: EnumVariant)
    ensures
        variants_view(v.push(x)) == variants_view(v).push(x@),
{
    assert(variants_view(v.push(x)) =~= variants_view(v).push(x@));
}

proof fn lemma_strs_push(v: Seq<String>, x: String)
    ensures
        strs(v.push(x)) == strs(v).push(x@),
{
    assert(strs(v.push(x)) =~= strs(v).push(x@));
}

proof fn lemma_typedefs_push(v: Seq<TypeDef>, x: TypeDef)
    ensures
        typedefs_view(v.push(x)) == typedefs_view(v).push(x@),
{
    assert(typedefs_view(v.push(x)) =~= typedefs_view(v).push(x@));
}

proof fn lemma_commands_push(v: Seq<Command>, x: Command)
    ensures
        commands_view(v.push(x)) == commands_view(v).push(x@),
{
    assert(commands_view(v.push(x)) =~= commands_view(v).push(x@));
}

proof fn lemma_events_push(v: Seq<Event>, x: Event)
    ensures
        events_view(v.push(x)) == events_view(v).push(x@),
{
    assert(events_view(v.push(x)) =~= events_view(v).push(x@));
}

proof fn lemma_domains_push(v: Seq<Domain>, x: Domain)
    ensures
        domains_view(v.push(x)) == domains_view(v).push(x@),
{
    assert(domains_view(v.push(x)) =~= domains_view(v).push(x@));
}

proof fn lemma_props_pop(v: Seq<Property>)
    requires
        v.len() > 0,
    ensures
        props_view(v.drop_last()) == props_view(v).drop_last(),
        props_view(v).last() == v.last()@,
        props_view(v).len() == v.len(),
{
    assert(props_view(v.drop_last()) =~= props_view(v).drop_last());
}

proof fn lemma_domains_pop(v: Seq<Domain>)
    requires
        v.len() > 0,
    ensures
        domains_view(v.drop_last()) == domains_view(v).drop_last(),
        domains_view(v).last() == v.last()@,
        domains_view(v).len() == v.len(),
{
    assert(domains_view(v.drop_last()) =~= domains_view(v).drop_last());
}

// ---------------------------------------------------------------------------
// The element under construction
// ---------------------------------------------------------------------------

/// Which member list of the current element receives property lines.
pub enum SpecMember {
    Parameters,
    Returns,
    Properties,
}

#[derive(Clone, Copy)]
enum MemberSection {
    Parameters,
    Returns,
    Properties,
}

impl View for MemberSection {
    type V = SpecMember;

    closed spec fn view(&self) -> SpecMember {
        match self {
            MemberSection::Parameters => SpecMember::Parameters,
            MemberSection::Returns => SpecMember::Returns,
            MemberSection::Properties => SpecMember::Properties,
        }
    }
}

/// The top-level item of a domain that the parser is building.
pub ghost enum SpecElement {
    TypeDef {
        id: Seq<char>,
        description: Option<Seq<char>>,
        experimental: bool,
        deprecated: bool,
        enum_started: bool,
        variants: Seq<SpecEnumVariant>,
        properties: Seq<SpecProperty>,
        extends: SpecTypeExtends,
    },
    Command {
        name: Seq<char>,
        description: Option<Seq<char>>,
        experimental: bool,
        deprecated: bool,
        parameters: Seq<SpecProperty>,
        returns: Seq<SpecProperty>,
    },
    Event {
        name: Seq<char>,
        description: Option<Seq<char>>,
        experimental: bool,
        deprecated: bool,
        parameters: Seq<SpecProperty>,
    },
}

enum CurrentElement {
    TypeDef {
        id: String,
        description: Option<String>,
        experimental: bool,
        deprecated: bool,
        enum_started: bool,
        variants: Vec<EnumVariant>,
        properties: Vec<Property>,
        extends: TypeExtends,
    },
    Command {
        name: String,
        description: Option<String>,
        experimental: bool,
        deprecated: bool,
        parameters: Vec<Property>,
        returns: Vec<Property>,
    },
    Event {
        name: String,
        description: Option<String>,
        experimental: bool,
        deprecated: bool,
        parameters: Vec<Property>,
    },
}

impl View for CurrentElement {
    type V = SpecElement;

    closed spec fn view(&self) -> SpecElement {
        match self {
            CurrentElement::TypeDef {
                id,
                description,
                experimental,
                deprecated,
                enum_started,
                variants,
                properties,
                extends,
            } => SpecElement::TypeDef {
                id: id@,
                description: opt_str(*description),
                experimental: *experimental,
                deprecated: *deprecated,
                enum_started: *enum_started,
                variants: variants_view(variants@),
                properties: props_view(properties@),
                extends: extends@,
            },
            CurrentElement::Command {
                name,
                description,
                experimental,
                deprecated,
                parameters,
                returns: rets,
            } => SpecElement::Command {
                name: name@,
                description: opt_str(*description),
                experimental: *experimental,
                deprecated: *deprecated,
                parameters: props_view(parameters@),
                returns: props_view(rets@),
            },
            CurrentElement::Event { name, description, experimental, deprecated, parameters } =>
                SpecElement::Event {
                name: name@,
                description: opt_str(*description),
                experimental: *experimental,
                deprecated: *deprecated,
                parameters: props_view(parameters@),
            },
        }
    }
}

pub open spec fn opt_element(e: Option<CurrentElement>) -> Option<SpecElement> {
    match e {
        Some(x) => Some(x@),
        None => None,
    }
}

pub open spec fn opt_member(m: Option<MemberSection>) -> Option<SpecMember> {
    match m {
        Some(x) => Some(x@),
        None => None,
    }
}

/// The domain `d` after the finished element `el` is added to it.
pub open spec fn spec_finalise(el: SpecElement, d: SpecDomain) -> SpecDomain {
    match el {
        SpecElement::TypeDef {
            id,
            description,
            experimental,
            deprecated,
            enum_started,
            variants,
            properties,
            extends,
        } => {
            let kind = match extends {
                SpecTypeExtends::Enum => SpecTypeKind::Enum(variants),
                SpecTypeExtends::Primitive(p) => if properties.len() > 0 {
                    SpecTypeKind::Object(properties)
                } else {
                    SpecTypeKind::Primitive(p)
                },
                SpecTypeExtends::Array(inner) => SpecTypeKind::Array(inner),
                SpecTypeExtends::Ref(r) => SpecTypeKind::Ref(r),
            };
            SpecDomain {
                types: d.types.push(
                    SpecTypeDef { id, description, experimental, deprecated, kind },
                ),
                ..d
            }
        },
        SpecElement::Command { name, description, experimental, deprecated, parameters, returns: rets } =>
            SpecDomain {
            commands: d.commands.push(
                SpecCommand { name, description, experimental, deprecated, parameters, returns: rets },
            ),
            ..d
        },
        SpecElement::Event { name, description, experimental, deprecated, parameters } =>
            SpecDomain {
            events: d.events.push(
                SpecEvent { name, description, experimental, deprecated, parameters },
            ),
            ..d
        },
    }
}

/// The domain list after the element `el` (if any) is added to the last
/// domain; without a domain the element is dropped.
pub open spec fn spec_finalise_into_last(domains: Seq<SpecDomain>, el: Option<SpecElement>) -> Seq<
    SpecDomain,
> {
    match el {
        Some(e) => if domains.len() > 0 {
            domains.update(domains.len() - 1, spec_finalise(e, domains.last()))
        } else {
            domains
        },
        None => domains,
    }
}

fn finalise_element(el: CurrentElement, domain: &mut Domain)
    ensures
        final(domain)@ == spec_finalise(el@, old(domain)@),
{
    match el {
        CurrentElement::TypeDef {
            id,
            description,
            experimental,
            deprecated,
            enum_started: _,
            variants,
            properties,
            extends,
        } => {
            let kind = match extends {
                TypeExtends::Enum => TypeKind::Enum(variants),
                TypeExtends::Primitive(p) => {
                    if properties.len() > 0 {
                        TypeKind::Object(properties)
                    } else {
                        TypeKind::Primitive(p)
                    }
                },
                TypeExtends::Array(inner) => TypeKind::Array(inner),
                TypeExtends::Ref(r) => TypeKind::Ref(r),
            };
            let td = TypeDef { id, description, experimental, deprecated, kind };
            proof {
                lemma_typedefs_push(domain.types@, td);
            }
            domain.types.push(td);
        },
        CurrentElement::Command { name, description, experimental, deprecated, parameters, returns: rets } => {
            let c = Command { name, description, experimental, deprecated, parameters, returns: rets };
            proof {
                lemma_commands_push(domain.commands@, c);
            }
            domain.commands.push(c);
        },
        CurrentElement::Event { name, description, experimental, deprecated, parameters } => {
            let e = Event { name, description, experimental, deprecated, parameters };
            proof {
                lemma_events_push(domain.events@, e);
            }
            domain.events.push(e);
        },
    }
}

fn finalise_into_last(domains: &mut Vec<Domain>, el: Option<CurrentElement>)
    ensures
        domains_view(final(domains)@) == spec_finalise_into_last(
            domains_view(old(domains)@),
            opt_element(el),
        ),
{
    if let Some(e) = el {
        if let Some(mut d) = domains.pop() {
            proof {
                lemma_domains_pop(old(domains)@);
            }
            finalise_element(e, &mut d);
            proof {
                lemma_domains_push(domains@, d);
            }
            domains.push(d);
            proof {
                assert(domains_view(domains@) =~= spec_finalise_into_last(
                    domains_view(old(domains)@),
                    opt_element(el),
                ));
            }
        }
    }
}

// ---------------------------------------------------------------------------
// Adding members to the current element
// ---------------------------------------------------------------------------

/// The current element after property `prop` is added to its active member
/// list, or the error for a property with nowhere to go.
pub open spec fn spec_push_property(
    prop: SpecProperty,
    el: Option<SpecElement>,
    member: Option<SpecMember>,
    line: int,
) -> Result<Option<SpecElement>, SpecParseError> {
    match el {
        Some(SpecElement::TypeDef {
            id,
            description,
            experimental,
            deprecated,
            enum_started,
            variants,
            properties,
            extends,
        }) => Ok(
            Some(
                SpecElement::TypeDef {
                    id,
                    description,
                    experimental,
                    deprecated,
                    enum_started,
                    variants,
                    properties: if member == Some(SpecMember::Properties) {
                        properties.push(prop)
                    } else {
                        properties
                    },
                    extends,
                },
            ),
        ),
        Some(SpecElement::Command { name, description, experimental, deprecated, parameters, returns: rets }) =>
            match member {
            Some(SpecMember::Parameters) => Ok(
                Some(
                    SpecElement::Command {
                        name,
                        description,
                        experimental,
                        deprecated,
                        parameters: parameters.push(prop),
                        returns: rets,
                    },
                ),
            ),
            Some(SpecMember::Returns) => Ok(
                Some(
                    SpecElement::Command {
                        name,
                        description,
                        experimental,
                        deprecated,
                        parameters,
                        returns: rets.push(prop),
                    },
                ),
            ),
            _ => Err(
                syntax_error(line, "property '"@ + prop.name + "' has no active member section"@),
            ),
        },
        Some(SpecElement::Event { name, description, experimental, deprecated, parameters }) =>
            match member {
            Some(SpecMember::Parameters) => Ok(
                Some(
                    SpecElement::Event {
                        name,
                        description,
                        experimental,
                        deprecated,
                        parameters: parameters.push(prop),
                    },
                ),
            ),
            _ => Err(
                syntax_error(
                    line,
                    "event property '"@ + prop.name + "' has no parameters section"@,
                ),
            ),
        },
        None => Err(syntax_error(line, "property '"@ + prop.name + "' outside of any element"@)),
    }
}

fn push_property_to_member(
    prop: Property,
    current_element: &mut Option<CurrentElement>,
    current_member: Option<MemberSection>,
    line_num: usize,
) -> (r: Result<(), ParseError>)
    ensures
        match r {
            Ok(()) => spec_push_property(
                prop@,
                opt_element(*old(current_element)),
                opt_member(current_member),
                line_num as int,
            ) == Ok::<Option<SpecElement>, SpecParseError>(opt_element(*final(current_element))),
            Err(e) => spec_push_property(
                prop@,
                opt_element(*old(current_element)),
                opt_member(current_member),
                line_num as int,
            ) == Err::<Option<SpecElement>, SpecParseError>(e@),
        },
{
    let el = current_element.take();
    match el {
        Some(
            CurrentElement::TypeDef {
                id,
                description,
                experimental,
                deprecated,
                enum_started,
                variants,
                mut properties,
                extends,
            },
        ) => {
            if let Some(MemberSection::Properties) = current_member {
                proof {
                    lemma_props_push(properties@, prop);
                }
                properties.push(prop);
            }
            *current_element = Some(
                CurrentElement::TypeDef {
                    id,
                    description,
                    experimental,
                    deprecated,
                    enum_started,
                    variants,
                    properties,
                    extends,
                },
            );
            Ok(())
        },
        Some(
            CurrentElement::Command {
                name,
                description,
                experimental,
                deprecated,
                mut parameters,
                returns: mut rets,
            },
        ) => {
            match current_member {
                Some(MemberSection::Parameters) => {
                    proof {
                        lemma_props_push(parameters@, prop);
                    }
                    parameters.push(prop);
                },
                Some(MemberSection::Returns) => {
                    proof {
                        lemma_props_push(rets@, prop);
                    }
                    rets.push(prop);
                },
                _ => {
                    return Err(
                        syntax_err_str(
                            line_num,
                            "property '",
                            &prop.name,
                            "' has no active member section",
                        ),
                    );
                },
            }
            *current_element = Some(
                CurrentElement::Command {
                    name,
                    description,
                    experimental,
                    deprecated,
                    parameters,
                    returns: rets,
                },
            );
            Ok(())
        },
        Some(CurrentElement::Event { name, description, experimental, deprecated, mut parameters }) => {
            match current_member {
                Some(MemberSection::Parameters) => {
                    proof {
                        lemma_props_push(parameters@, prop);
                    }
                    parameters.push(prop);
                },
                _ => {
                    return Err(
                        syntax_err_str(
                            line_num,
                            "event property '",
                            &prop.name,
                            "' has no parameters section",
                        ),
                    );
                },
            }
            *current_element = Some(
                CurrentElement::Event { name, description, experimental, deprecated, parameters },
            );
            Ok(())
        },
        None => Err(syntax_err_str(line_num, "property '", &prop.name, "' outside of any element")),
    }
}

/// A `ParseError::Syntax` at `line` whose message is `first + middle + last`.
fn syntax_err_str(line: usize, first: &str, middle: &String, last: &str) -> (e: ParseError)
    ensures
        e@ == syntax_error(line as int, first@ + middle@ + last@),
{
    let mut m = first.to_owned();
    push_str(&mut m, middle.as_str());
    push_str(&mut m, last);
    ParseError::Syntax { line, message: m }
}

/// The property list `ps` after an enum literal is added to its last
/// property (when that property is an inline enum).
pub open spec fn spec_add_variant(ps: Seq<SpecProperty>, v: SpecEnumVariant) -> Seq<SpecProperty> {
    let p = ps.last();
    match p.kind {
        SpecCdpType::InlineEnum(vs) => ps.update(
            ps.len() - 1,
            SpecProperty { kind: SpecCdpType::InlineEnum(vs.push(v)), ..p },
        ),
        _ => ps,
    }
}

/// The current element after an inline-enum literal is added to the last
/// property of its active member list, or the error when there is none.
pub open spec fn spec_push_variant(
    name: Seq<char>,
    el: Option<SpecElement>,
    member: Option<SpecMember>,
    line: int,
) -> Result<Option<SpecElement>, SpecParseError> {
    let v = SpecEnumVariant { name, description: None };
    let err = Err(syntax_error(line, "enum literal '"@ + name + "' but no active property"@));
    match el {
        Some(SpecElement::TypeDef {
            id,
            description,
            experimental,
            deprecated,
            enum_started,
            variants,
            properties,
            extends,
        }) => if member == Some(SpecMember::Properties) && properties.len() > 0 {
            Ok(
                Some(
                    SpecElement::TypeDef {
                        id,
                        description,
                        experimental,
                        deprecated,
                        enum_started,
                        variants,
                        properties: spec_add_variant(properties, v),
                        extends,
                    },
                ),
            )
        } else {
            err
        },
        Some(SpecElement::Command { name: n, description, experimental, deprecated, parameters, returns: rets }) =>
            if member == Some(SpecMember::Parameters) && parameters.len() > 0 {
            Ok(
                Some(
                    SpecElement::Command {
                        name: n,
                        description,
                        experimental,
                        deprecated,
                        parameters: spec_add_variant(parameters, v),
                        returns: rets,
                    },
                ),
            )
        } else if member == Some(SpecMember::Returns) && rets.len() > 0 {
            Ok(
                Some(
                    SpecElement::Command {
                        name: n,
                        description,
                        experimental,
                        deprecated,
                        parameters,
                        returns: spec_add_variant(rets, v),
                    },
                ),
            )
        } else {
            err
        },
        Some(SpecElement::Event { name: n, description, experimental, deprecated, parameters }) =>
            if member == Some(SpecMember::Parameters) && parameters.len() > 0 {
            Ok(
                Some(
                    SpecElement::Event {
                        name: n,
                        description,
                        experimental,
                        deprecated,
                        parameters: spec_add_variant(parameters, v),
                    },
                ),
            )
        } else {
            err
        },
        None => err,
    }
}

/// Add an inline-enum literal to the last property of `ps` (if it is an
/// inline enum).
fn add_variant(ps: &mut Vec<Property>, v: EnumVariant)
    requires
        old(ps)@.len() > 0,
    ensures
        props_view(final(ps)@) == spec_add_variant(props_view(old(ps)@), v@),
{
    let mut p = ps.pop().unwrap();
    proof {
        lemma_props_pop(old(ps)@);
    }
    let ghost pv = p@;
    match p.kind {
        CdpType::InlineEnum(mut vs) => {
            proof {
                lemma_variants_push(vs@, v);
            }
            vs.push(v);
            let p2 = Property {
                name: p.name,
                description: p.description,
                experimental: p.experimental,
                deprecated: p.deprecated,
                optional: p.optional,
                kind: CdpType::InlineEnum(vs),
            };
            proof {
                lemma_props_push(ps@, p2);
            }
            ps.push(p2);
        },
        kind => {
            let p2 = Property {
                name: p.name,
                description: p.description,
                experimental: p.experimental,
                deprecated: p.deprecated,
                optional: p.optional,
                kind,
            };
            assert(p2@ == pv);
            proof {
                lemma_props_push(ps@, p2);
            }
            ps.push(p2);
        },
    }
    proof {
        assert(props_view(ps@) =~= spec_add_variant(props_view(old(ps)@), v@));
    }
}

fn push_enum_variant_to_member_field(
    name: String,
    current_element: &mut Option<CurrentElement>,
    current_member: Option<MemberSection>,
    line_num: usize,
) -> (r: Result<(), ParseError>)
    ensures
        match r {
            Ok(()) => spec_push_variant(
                name@,
                opt_element(*old(current_element)),
                opt_member(current_member),
                line_num as int,
            ) == Ok::<Option<SpecElement>, SpecParseError>(opt_element(*final(current_element))),
            Err(e) => spec_push_variant(
                name@,
                opt_element(*old(current_element)),
                opt_member(current_member),
                line_num as int,
            ) == Err::<Option<SpecElement>, SpecParseError>(e@),
        },
{
    let err = syntax_err_str(line_num, "enum literal '", &name, "' but no active property");
    let variant = EnumVariant { name, description: None };
    let el = current_element.take();
    match el {
        Some(
            CurrentElement::TypeDef {
                id,
                description,
                experimental,
                deprecated,
                enum_started,
                variants,
                mut properties,
                extends,
            },
        ) => {
            let ok = match current_member {
                Some(MemberSection::Properties) => properties.len() > 0,
                _ => false,
            };
            if !ok {
                return Err(err);
            }
            add_variant(&mut properties, variant);
            *current_element = Some(
                CurrentElement::TypeDef {
                    id,
                    description,
                    experimental,
                    deprecated,
                    enum_started,
                    variants,
                    properties,
                    extends,
                },
            );
            Ok(())
        },
        Some(
            CurrentElement::Command {
                name: n,
                description,
                experimental,
                deprecated,
                mut parameters,
                returns: mut rets,
            },
        ) => {
            match current_member {
                Some(MemberSection::Parameters) => {
                    if parameters.len() == 0 {
                        return Err(err);
                    }
                    add_variant(&mut parameters, variant);
                },
                Some(MemberSection::Returns) => {
                    if rets.len() == 0 {
                        return Err(err);
                    }
                    add_variant(&mut rets, variant);
                },
                _ => {
                    return Err(err);
                },
            }
            *current_element = Some(
                CurrentElement::Command {
                    name: n,
                    description,
                    experimental,
                    deprecated,
                    parameters,
                    returns: rets,
                },
            );
            Ok(())
        },
        Some(CurrentElement::Event { name: n, description, experimental, deprecated, mut parameters }) => {
            let ok = match current_member {
                Some(MemberSection::Parameters) => parameters.len() > 0,
                _ => false,
            };
            if !ok {
                return Err(err);
            }
            add_variant(&mut parameters, variant);
            *current_element = Some(
                CurrentElement::Event { name: n, description, experimental, deprecated, parameters },
            );
            Ok(())
        },
        None => Err(err),
    }
}

// ---------------------------------------------------------------------------
// Parser state and the per-line step
// ---------------------------------------------------------------------------

/// Everything the parser knows after some lines.
pub ghost struct PdlState {
    pub version: Option<SpecVersion>,
    pub in_version: bool,
    pub domains: Seq<SpecDomain>,
    /// Comment lines waiting to become the next element's description.
    pub pending_desc: Option<Seq<char>>,
    pub element: Option<SpecElement>,
    pub member: Option<SpecMember>,
    /// Whether 6-space literal lines are variants of the last (inline enum) property.
    pub member_enum_active: bool,
}

/// The state before the first line.
pub open spec fn initial_state() -> PdlState {
    PdlState {
        version: None,
        in_version: false,
        domains: Seq::empty(),
        pending_desc: None,
        element: None,
        member: None,
        member_enum_active: false,
    }
}

/// Whether `raw` is indented by exactly `n` spaces.
pub open spec fn is_indent(raw: Seq<char>, n: nat) -> bool {
    has_prefix(raw, spaces(n)) && !has_prefix(raw.skip(n as int), " "@)
}

/// A `major N` / `minor N` line of the version block: which field, and N.
pub open spec fn version_field(raw: Seq<char>) -> Option<(bool, Seq<char>)> {
    match spec_strip_spaces(raw, 2) {
        Some(rest) => if has_prefix(rest, "major "@) {
            Some((true, trim(rest.skip(6))))
        } else if has_prefix(rest, "minor "@) {
            Some((false, trim(rest.skip(6))))
        } else {
            None
        },
        None => None,
    }
}

/// A comment line `# text`: its text joins the pending description.
pub open spec fn step_comment(st: PdlState, trimmed: Seq<char>) -> PdlState {
    let text = trim_start(trimmed.drop_first());
    PdlState {
        pending_desc: Some(
            match st.pending_desc {
                Some(d) => d + seq!['\n'] + text,
                None => text,
            },
        ),
        ..st
    }
}

/// Whether an unindented line declares a domain: `domain <Name>`, after
/// any `experimental ` and `deprecated ` flags.
pub open spec fn is_domain_line(trimmed: Seq<char>) -> bool {
    let (_, r1) = spec_consume_flag(trimmed, "experimental "@);
    let (_, r2) = spec_consume_flag(r1, "deprecated "@);
    has_prefix(r2, "domain "@)
}

/// An unindented line: it closes the open element and may start a domain.
pub open spec fn step_top_level(st: PdlState, trimmed: Seq<char>) -> PdlState {
    let domains = spec_finalise_into_last(st.domains, st.element);
    let (experimental, r1) = spec_consume_flag(trimmed, "experimental "@);
    let (deprecated, r2) = spec_consume_flag(r1, "deprecated "@);
    let base = PdlState {
        in_version: false,
        domains,
        pending_desc: None,
        element: None,
        member: None,
        member_enum_active: false,
        ..st
    };
    match strip_prefix(r2, "domain "@) {
        Some(name) => PdlState {
            domains: domains.push(
                SpecDomain {
                    name: trim(name),
                    description: st.pending_desc,
                    experimental,
                    deprecated,
                    dependencies: Seq::empty(),
                    types: Seq::empty(),
                    commands: Seq::empty(),
                    events: Seq::empty(),
                },
            ),
            ..base
        },
        None => base,
    }
}

/// A line indented by two spaces: `depends on`, `type`, `command`, `event`.
pub open spec fn step_indent2(st0: PdlState, rest: Seq<char>, line: int) -> Result<
    PdlState,
    SpecParseError,
> {
    let st = PdlState { member_enum_active: false, ..st0 };
    match strip_prefix(rest, "depends on "@) {
        Some(dep) => if st.domains.len() == 0 {
            Err(syntax_error(line, "'depends on' without domain"@))
        } else {
            let d = st.domains.last();
            Ok(
                PdlState {
                    domains: st.domains.update(
                        st.domains.len() - 1,
                        SpecDomain { dependencies: d.dependencies.push(trim(dep)), ..d },
                    ),
                    pending_desc: None,
                    ..st
                },
            )
        },
        None => {
            let (experimental, t1) = spec_consume_flag(rest, "experimental "@);
            let (deprecated, t2) = spec_consume_flag(t1, "deprecated "@);
            let domains = spec_finalise_into_last(st.domains, st.element);
            if let Some(r2) = strip_prefix(t2, "type "@) {
                match spec_parse_type_extends(r2, line) {
                    Err(e) => Err(e),
                    Ok((id, extends)) => Ok(
                        PdlState {
                            domains,
                            member: None,
                            element: Some(
                                SpecElement::TypeDef {
                                    id,
                                    description: st.pending_desc,
                                    experimental,
                                    deprecated,
                                    enum_started: extends is Enum,
                                    variants: Seq::empty(),
                                    properties: Seq::empty(),
                                    extends,
                                },
                            ),
                            pending_desc: None,
                            ..st
                        },
                    ),
                }
            } else if let Some(name) = strip_prefix(t2, "command "@) {
                Ok(
                    PdlState {
                        domains,
                        member: None,
                        element: Some(
                            SpecElement::Command {
                                name: trim(name),
                                description: st.pending_desc,
                                experimental,
                                deprecated,
                                parameters: Seq::empty(),
                                returns: Seq::empty(),
                            },
                        ),
                        pending_desc: None,
                        ..st
                    },
                )
            } else if let Some(name) = strip_prefix(t2, "event "@) {
                Ok(
                    PdlState {
                        domains,
                        member: None,
                        element: Some(
                            SpecElement::Event {
                                name: trim(name),
                                description: st.pending_desc,
                                experimental,
                                deprecated,
                                parameters: Seq::empty(),
                            },
                        ),
                        pending_desc: None,
                        ..st
                    },
                )
            } else {
                Ok(PdlState { pending_desc: None, ..st })
            }
        },
    }
}

/// A line indented by four spaces: a section keyword (`parameters`,
/// `returns`, `properties`, `enum`) or something ignored.
pub open spec fn step_indent4(st0: PdlState, rest: Seq<char>) -> PdlState {
    let st = PdlState { member_enum_active: false, pending_desc: None, ..st0 };
    let k = trim(rest);
    if k == "parameters"@ {
        PdlState { member: Some(SpecMember::Parameters), ..st }
    } else if k == "returns"@ {
        PdlState { member: Some(SpecMember::Returns), ..st }
    } else if k == "properties"@ {
        PdlState { member: Some(SpecMember::Properties), ..st }
    } else if k == "enum"@ {
        PdlState {
            element: match st.element {
                Some(
                    SpecElement::TypeDef {
                        id,
                        description,
                        experimental,
                        deprecated,
                        enum_started,
                        variants,
                        properties,
                        extends,
                    },
                ) => Some(
                    SpecElement::TypeDef {
                        id,
                        description,
                        experimental,
                        deprecated,
                        enum_started: true,
                        variants,
                        properties,
                        extends: SpecTypeExtends::Enum,
                    },
                ),
                other => other,
            },
            ..st
        }
    } else {
        st
    }
}

/// A line indented by six or more spaces: a property declaration, or an
/// enum literal.
pub open spec fn step_indent6(st0: PdlState, rest: Seq<char>, line: int) -> Result<
    PdlState,
    SpecParseError,
> {
    let t6 = trim_start(rest);
    let st = PdlState { pending_desc: None, ..st0 };
    match spec_try_parse_property(t6, st0.pending_desc) {
        Some(prop) => {
            let is_enum = prop.kind == SpecCdpType::Ref("enum"@);
            let prop2 = if is_enum {
                SpecProperty { kind: SpecCdpType::InlineEnum(Seq::empty()), ..prop }
            } else {
                prop
            };
            match spec_push_property(prop2, st.element, st.member, line) {
                Err(e) => Err(e),
                Ok(el) => Ok(
                    PdlState {
                        element: el,
                        member_enum_active: is_enum || st.member_enum_active,
                        ..st
                    },
                ),
            }
        },
        None => if t6.len() == 0 {
            Ok(st)
        } else if st.member_enum_active {
            match spec_push_variant(t6, st.element, st.member, line) {
                Err(e) => Err(e),
                Ok(el) => Ok(PdlState { element: el, ..st }),
            }
        } else {
            match st.element {
                Some(
                    SpecElement::TypeDef {
                        id,
                        description,
                        experimental,
                        deprecated,
                        enum_started,
                        variants,
                        properties,
                        extends,
                    },
                ) => if enum_started {
                    Ok(
                        PdlState {
                            element: Some(
                                SpecElement::TypeDef {
                                    id,
                                    description,
                                    experimental,
                                    deprecated,
                                    enum_started,
                                    variants: variants.push(
                                        SpecEnumVariant { name: t6, description: None },
                                    ),
                                    properties,
                                    extends,
                                },
                            ),
                            ..st
                        },
                    )
                } else {
                    Ok(st)
                },
                _ => Ok(st),
            }
        },
    }
}

/// The parser state after line number `line` (1-based), whose text is `raw`.
pub open spec fn pdl_step(st: PdlState, raw: Seq<char>, line: int) -> Result<PdlState, SpecParseError> {
    let trimmed = trim(raw);
    if trimmed.len() == 0 {
        Ok(st)
    } else if trimmed[0] == '#' {
        Ok(step_comment(st, trimmed))
    } else if has_prefix(raw, "version"@) && !has_prefix(raw, "  "@) {
        Ok(
            PdlState {
                in_version: true,
                version: Some(SpecVersion { major: Seq::empty(), minor: Seq::empty() }),
                pending_desc: None,
                ..st
            },
        )
    } else if st.in_version && version_field(raw) is Some {
        let (is_major, n) = version_field(raw)->0;
        Ok(
            PdlState {
                version: match st.version {
                    Some(v) => Some(
                        if is_major {
                            SpecVersion { major: n, ..v }
                        } else {
                            SpecVersion { minor: n, ..v }
                        },
                    ),
                    None => None,
                },
                ..st
            },
        )
    } else if !has_prefix(raw, " "@) {
        if is_domain_line(trimmed) {
            Ok(step_top_level(st, trimmed))
        } else {
            Err(syntax_error(line, "unrecognised top-level line '"@ + trimmed + "'"@))
        }
    } else if is_indent(raw, 2) {
        step_indent2(st, raw.skip(2), line)
    } else if is_indent(raw, 4) {
        Ok(step_indent4(st, raw.skip(4)))
    } else if has_prefix(raw, spaces(6)) {
        step_indent6(st, raw.skip(6), line)
    } else {
        Ok(PdlState { pending_desc: None, ..st })
    }
}

/// The parser state after the first `n` lines of `ls`.
pub open spec fn run_lines(ls: Seq<Seq<char>>, n: nat) -> Result<PdlState, SpecParseError>
    decreases n,
{
    if n == 0 {
        Ok(initial_state())
    } else {
        match run_lines(ls, (n - 1) as nat) {
            Err(e) => Err(e),
            Ok(s) => pdl_step(s, ls[n - 1], n as int),
        }
    }
}

/// What parsing `input` yields: the state after all its lines, with the last
/// element closed, provided a version header was seen.
pub open spec fn spec_parse(input: Seq<char>) -> Result<SpecProtocol, SpecParseError> {
    let ls = lines(input);
    match run_lines(ls, ls.len()) {
        Err(e) => Err(e),
        Ok(s) => match s.version {
            None => Err(SpecParseError::MissingHeader("Missing version header"@)),
            Some(v) => Ok(
                SpecProtocol {
                    version: v,
                    domains: spec_finalise_into_last(s.domains, s.element),
                },
            ),
        },
    }
}

// ---------------------------------------------------------------------------
// Executable parser state
// ---------------------------------------------------------------------------

struct ParserState {
    version: Option<Version>,
    in_version: bool,
    domains: Vec<Domain>,
    pending_desc: Option<String>,
    current_element: Option<CurrentElement>,
    current_member: Option<MemberSection>,
    member_enum_active: bool,
}

pub open spec fn opt_version(v: Option<Version>) -> Option<SpecVersion> {
    match v {
        Some(x) => Some(x@),
        None => None,
    }
}

impl View for ParserState {
    type V = PdlState;

    closed spec fn view(&self) -> PdlState {
        PdlState {
            version: opt_version(self.version),
            in_version: self.in_version,
            domains: domains_view(self.domains@),
            pending_desc: opt_str(self.pending_desc),
            element: opt_element(self.current_element),
            member: opt_member(self.current_member),
            member_enum_active: self.member_enum_active,
        }
    }
}

fn step_comment_exec(st: &mut ParserState, trimmed: &[char])
    requires
        old(st)@ == old(st)@,
        trimmed@.len() > 0,
    ensures
        final(st)@ == step_comment(old(st)@, trimmed@),
{
    let tail = slice_chars(trimmed, 1, trimmed.len());
    assert(tail@ =~= trimmed@.drop_first());
    let text = string_of(&trim_start_chars(&tail));
    match st.pending_desc.take() {
        Some(mut d) => {
            push_char_to(&mut d, '\n');
            push_str(&mut d, text.as_str());
            st.pending_desc = Some(d);
        },
        None => {
            st.pending_desc = Some(text);
        },
    }
    assert(st@ == step_comment(old(st)@, trimmed@));
}

fn push_char_to(s: &mut String, c: char)
    ensures
        final(s)@ == old(s)@ + seq![c],
{
    crate::text::push_char(s, c);
    assert(old(s)@.push(c) =~= old(s)@ + seq![c]);
}

fn domain_line(trimmed: &[char]) -> (b: bool)
    ensures
        b == is_domain_line(trimmed@),
{
    let mut rest = slice_chars(trimmed, 0, trimmed.len());
    assert(rest@ =~= trimmed@);
    let _ = consume_flag(&mut rest, "experimental ");
    let _ = consume_flag(&mut rest, "deprecated ");
    starts_with_str(&rest, "domain ")
}

fn step_top_level_exec(st: &mut ParserState, trimmed: &[char])
    ensures
        final(st)@ == step_top_level(old(st)@, trimmed@),
{
    st.in_version = false;
    let el = st.current_element.take();
    finalise_into_last(&mut st.domains, el);
    st.current_member = None;
    st.member_enum_active = false;
    let mut rest = slice_chars(trimmed, 0, trimmed.len());
    assert(rest@ =~= trimmed@);
    let experimental = consume_flag(&mut rest, "experimental ");
    let deprecated = consume_flag(&mut rest, "deprecated ");
    match strip_prefix_str(&rest, "domain ") {
        Some(name) => {
            let n = trim_chars(&name);
            let d = Domain {
                name: string_of(&n),
                description: st.pending_desc.take(),
                experimental,
                deprecated,
                dependencies: Vec::new(),
                types: Vec::new(),
                commands: Vec::new(),
                events: Vec::new(),
            };
            proof {
                lemma_domains_push(st.domains@, d);
                assert(strs(d.dependencies@) =~= Seq::<Seq<char>>::empty());
                assert(typedefs_view(d.types@) =~= Seq::<SpecTypeDef>::empty());
                assert(commands_view(d.commands@) =~= Seq::<SpecCommand>::empty());
                assert(events_view(d.events@) =~= Seq::<SpecEvent>::empty());
            }
            st.domains.push(d);
        },
        None => {
            st.pending_desc = None;
        },
    }
}

fn step_indent2_exec(st: &mut ParserState, rest: &[char], line_num: usize) -> (r: Result<
    (),
    ParseError,
>)
    ensures
        match r {
            Ok(()) => step_indent2(old(st)@, rest@, line_num as int) == Ok::<
                PdlState,
                SpecParseError,
            >(final(st)@),
            Err(e) => step_indent2(old(st)@, rest@, line_num as int) == Err::<
                PdlState,
                SpecParseError,
            >(e@),
        },
{
    st.member_enum_active = false;
    if let Some(dep) = strip_prefix_str(rest, "depends on ") {
        match st.domains.pop() {
            None => {
                return Err(
                    ParseError::Syntax {
                        line: line_num,
                        message: "'depends on' without domain".to_owned(),
                    },
                );
            },
            Some(mut d) => {
                proof {
                    lemma_domains_pop(old(st).domains@);
                }
                let dt = string_of(&trim_chars(&dep));
                proof {
                    lemma_strs_push(d.dependencies@, dt);
                }
                d.dependencies.push(dt);
                proof {
                    lemma_domains_push(st.domains@, d);
                }
                st.domains.push(d);
                st.pending_desc = None;
                proof {
                    assert(st@.domains =~= old(st)@.domains.update(
                        old(st)@.domains.len() - 1,
                        SpecDomain {
                            dependencies: old(st)@.domains.last().dependencies.push(dt@),
                            ..old(st)@.domains.last()
                        },
                    ));
                }
                return Ok(());
            },
        }
    }
    let mut tok = slice_chars(rest, 0, rest.len());
    assert(tok@ =~= rest@);
    let experimental = consume_flag(&mut tok, "experimental ");
    let deprecated = consume_flag(&mut tok, "deprecated ");
    if let Some(rest2) = strip_prefix_str(&tok, "type ") {
        let el = st.current_element.take();
        finalise_into_last(&mut st.domains, el);
        st.current_member = None;
        let (name, extends) = parse_type_extends(&rest2, line_num)?;
        let enum_started = match extends {
            TypeExtends::Enum => true,
            _ => false,
        };
        let vs: Vec<EnumVariant> = Vec::new();
        let ps: Vec<Property> = Vec::new();
        proof {
            assert(variants_view(vs@) =~= Seq::<SpecEnumVariant>::empty());
            assert(props_view(ps@) =~= Seq::<SpecProperty>::empty());
        }
        st.current_element = Some(
            CurrentElement::TypeDef {
                id: name,
                description: st.pending_desc.take(),
                experimental,
                deprecated,
                enum_started,
                variants: vs,
                properties: ps,
                extends,
            },
        );
        return Ok(());
    }
    if let Some(name) = strip_prefix_str(&tok, "command ") {
        let el = st.current_element.take();
        finalise_into_last(&mut st.domains, el);
        st.current_member = None;
        let n = trim_chars(&name);
        let ps: Vec<Property> = Vec::new();
        let rs: Vec<Property> = Vec::new();
        proof {
            assert(props_view(ps@) =~= Seq::<SpecProperty>::empty());
            assert(props_view(rs@) =~= Seq::<SpecProperty>::empty());
        }
        st.current_element = Some(
            CurrentElement::Command {
                name: string_of(&n),
                description: st.pending_desc.take(),
                experimental,
                deprecated,
                parameters: ps,
                returns: rs,
            },
        );
        return Ok(());
    }
    if let Some(name) = strip_prefix_str(&tok, "event ") {
        let el = st.current_element.take();
        finalise_into_last(&mut st.domains, el);
        st.current_member = None;
        let n = trim_chars(&name);
        let ps: Vec<Property> = Vec::new();
        proof {
            assert(props_view(ps@) =~= Seq::<SpecProperty>::empty());
        }
        st.current_element = Some(
            CurrentElement::Event {
                name: string_of(&n),
                description: st.pending_desc.take(),
                experimental,
                deprecated,
                parameters: ps,
            },
        );
        return Ok(());
    }
    st.pending_desc = None;
    Ok(())
}

fn step_indent4_exec(st: &mut ParserState, rest: &[char])
    ensures
        final(st)@ == step_indent4(old(st)@, rest@),
{
    st.member_enum_active = false;
    st.pending_desc = None;
    let k = trim_chars(rest);
    if eq_str(&k, "parameters") {
        st.current_member = Some(MemberSection::Parameters);
    } else if eq_str(&k, "returns") {
        st.current_member = Some(MemberSection::Returns);
    } else if eq_str(&k, "properties") {
        st.current_member = Some(MemberSection::Properties);
    } else if eq_str(&k, "enum") {
        let el = st.current_element.take();
        st.current_element = match el {
            Some(
                CurrentElement::TypeDef {
                    id,
                    description,
                    experimental,
                    deprecated,
                    enum_started: _,
                    variants,
                    properties,
                    extends: _,
                },
            ) => Some(
                CurrentElement::TypeDef {
                    id,
                    description,
                    experimental,
                    deprecated,
                    enum_started: true,
                    variants,
                    properties,
                    extends: TypeExtends::Enum,
                },
            ),
            other => other,
        };
    }
}

fn is_enum_ref(t: &CdpType) -> (b: bool)
    ensures
        b == (t@ == SpecCdpType::Ref("enum"@)),
{
    match t {
        CdpType::Ref(r) => {
            let rc = chars_of(r.as_str());
            eq_str(&rc, "enum")
        },
        _ => false,
    }
}

fn step_indent6_exec(st: &mut ParserState, rest: &[char], line_num: usize) -> (r: Result<
    (),
    ParseError,
>)
    ensures
        match r {
            Ok(()) => step_indent6(old(st)@, rest@, line_num as int) == Ok::<
                PdlState,
                SpecParseError,
            >(final(st)@),
            Err(e) => step_indent6(old(st)@, rest@, line_num as int) == Err::<
                PdlState,
                SpecParseError,
            >(e@),
        },
{
    let trimmed6 = trim_start_chars(rest);
    let desc = st.pending_desc.take();
    if let Some(prop) = try_parse_property(&trimmed6, desc) {
        let is_enum = is_enum_ref(&prop.kind);
        let prop2 = if is_enum {
            let v: Vec<EnumVariant> = Vec::new();
            proof {
                assert(variants_view(v@) =~= Seq::<SpecEnumVariant>::empty());
            }
            Property {
                name: prop.name,
                description: prop.description,
                experimental: prop.experimental,
                deprecated: prop.deprecated,
                optional: prop.optional,
                kind: CdpType::InlineEnum(v),
            }
        } else {
            prop
        };
        if is_enum {
            st.member_enum_active = true;
        }
        let member = st.current_member;
        push_property_to_member(prop2, &mut st.current_element, member, line_num)?;
        return Ok(());
    }
    if trimmed6.len() == 0 {
        return Ok(());
    }
    let literal = string_of(&trimmed6);
    if st.member_enum_active {
        let member = st.current_member;
        push_enum_variant_to_member_field(literal, &mut st.current_element, member, line_num)?;
        return Ok(());
    }
    let el = st.current_element.take();
    st.current_element = match el {
        Some(
            CurrentElement::TypeDef {
                id,
                description,
                experimental,
                deprecated,
                enum_started,
                mut variants,
                properties,
                extends,
            },
        ) => {
            if enum_started {
                let v = EnumVariant { name: literal, description: None };
                proof {
                    lemma_variants_push(variants@, v);
                }
                variants.push(v);
            }
            Some(
                CurrentElement::TypeDef {
                    id,
                    description,
                    experimental,
                    deprecated,
                    enum_started,
                    variants,
                    properties,
                    extends,
                },
            )
        },
        other => other,
    };
    Ok(())
}

/// Apply line number `line_num` (1-based) to the parser state.
fn pdl_step_exec(st: &mut ParserState, raw: &[char], line_num: usize) -> (r: Result<
    (),
    ParseError,
>)
    ensures
        match r {
            Ok(()) => pdl_step(old(st)@, raw@, line_num as int) == Ok::<PdlState, SpecParseError>(
                final(st)@,
            ),
            Err(e) => pdl_step(old(st)@, raw@, line_num as int) == Err::<
                PdlState,
                SpecParseError,
            >(e@),
        },
{
    let trimmed = trim_chars(raw);
    if trimmed.len() == 0 {
        return Ok(());
    }
    if trimmed[0] == '#' {
        step_comment_exec(st, &trimmed);
        return Ok(());
    }
    if starts_with_str(raw, "version") && !starts_with_str(raw, "  ") {
        st.in_version = true;
        st.version = Some(Version { major: String::new(), minor: String::new() });
        st.pending_desc = None;
        return Ok(());
    }
    if st.in_version {
        if let Some(rest) = strip_prefix_spaces(raw, 2) {
            if let Some(n) = strip_prefix_str(&rest, "major ") {
                proof {
                    reveal_strlit("major ");
                }
                let v = string_of(&trim_chars(&n));
                if let Some(ver) = st.version.take() {
                    st.version = Some(Version { major: v, minor: ver.minor });
                }
                return Ok(());
            }
            if let Some(n) = strip_prefix_str(&rest, "minor ") {
                proof {
                    reveal_strlit("minor ");
                }
                let v = string_of(&trim_chars(&n));
                if let Some(ver) = st.version.take() {
                    st.version = Some(Version { major: ver.major, minor: v });
                }
                return Ok(());
            }
        }
    }
    if !starts_with_str(raw, " ") {
        if !domain_line(&trimmed) {
            return Err(syntax_err(line_num, "unrecognised top-level line '", &trimmed, "'"));
        }
        step_top_level_exec(st, &trimmed);
        return Ok(());
    }
    if let Some(rest) = strip_prefix_spaces(raw, 2) {
        if !starts_with_str(&rest, " ") {
            return step_indent2_exec(st, &rest, line_num);
        }
    }
    if let Some(rest) = strip_prefix_spaces(raw, 4) {
        if !starts_with_str(&rest, " ") {
            step_indent4_exec(st, &rest);
            return Ok(());
        }
    }
    if let Some(rest) = strip_prefix_spaces(raw, 6) {
        return step_indent6_exec(st, &rest, line_num);
    }
    st.pending_desc = None;
    Ok(())
}

proof fn lemma_run_lines_err(ls: Seq<Seq<char>>, k: nat, n: nat)
    requires
        k <= n,
        run_lines(ls, k) is Err,
    ensures
        run_lines(ls, n) == run_lines(ls, k),
    decreases n - k,
{
    if k < n {
        lemma_run_lines_err(ls, k, (n - 1) as nat);
    }
}

/// Parse a PDL file (with `include` directives already resolved) into a
/// [`Protocol`].
///
/// Fails with the [`ParseError::Syntax`] of the first malformed or
/// unrecognised line (an unindented line that is neither the `version`
/// header nor a `domain` declaration is unrecognised), or with
/// [`ParseError::MissingHeader`] when the file has no `version` header.
pub fn parse(input: &str) -> (r: Result<Protocol, ParseError>)
    ensures
        match r {
            Ok(p) => spec_parse(input@) == Ok::<SpecProtocol, SpecParseError>(p@),
            Err(e) => spec_parse(input@) == Err::<SpecProtocol, SpecParseError>(e@),
        },
{
    let chars = chars_of(input);
    let ls = split_lines(&chars);
    let ghost sl = lines(input@);
    let mut st = ParserState {
        version: None,
        in_version: false,
        domains: Vec::new(),
        pending_desc: None,
        current_element: None,
        current_member: None,
        member_enum_active: false,
    };
    proof {
        assert(domains_view(st.domains@) =~= Seq::<SpecDomain>::empty());
        assert(st@ == initial_state());
    }
    let mut i: usize = 0;
    while i < ls.len()
        invariant
            sl == lines(input@),
            sl == words_view(ls@),
            i <= ls@.len(),
            run_lines(sl, i as nat) == Ok::<PdlState, SpecParseError>(st@),
        decreases ls@.len() - i,
    {
        let ghost before = st@;
        proof {
            assert(sl[i as int] == ls@[i as int]@);
        }
        match pdl_step_exec(&mut st, &ls[i], i + 1) {
            Err(e) => {
                proof {
                    assert(run_lines(sl, (i + 1) as nat) == Err::<PdlState, SpecParseError>(e@));
                    lemma_run_lines_err(sl, (i + 1) as nat, sl.len());
                    assert(spec_parse(input@) == Err::<SpecProtocol, SpecParseError>(e@));
                }
                return Err(e);
            },
            Ok(()) => {},
        }
        i = i + 1;
    }
    let el = st.current_element.take();
    finalise_into_last(&mut st.domains, el);
    match st.version {
        None => Err(ParseError::MissingHeader("Missing version header".to_owned())),
        Some(version) => Ok(Protocol { version, domains: st.domains }),
    }
}

/// How a [`ParseError`] reads: `line N: message`, or the header message.
pub open spec fn spec_parse_error_text(e: SpecParseError) -> Seq<char> {
    match e {
        SpecParseError::Syntax { line, message } => "line "@ + crate::num::decimal(line as nat)
            + ": "@ + message,
        SpecParseError::MissingHeader(m) => m,
    }
}

impl ParseError {
    /// The error's message, as its `Display` form reads.
    pub fn to_display_string(&self) -> (s: String)
        ensures
            s@ == spec_parse_error_text(self@),
    {
        match self {
            ParseError::Syntax { line, message } => {
                let mut s = "line ".to_owned();
                let n = crate::num::u64_to_decimal(*line as u64);
                push_str(&mut s, n.as_str());
                push_str(&mut s, ": ");
                push_str(&mut s, message.as_str());
                s
            },
            ParseError::MissingHeader(m) => m.clone(),
        }
    }
}

} // verus!

verus! {

// ---------------------------------------------------------------------------
// Laws
// ---------------------------------------------------------------------------

/// A blank (or whitespace-only) line changes nothing.
pub proof fn law_blank_line_changes_nothing(st: PdlState, raw: Seq<char>, line: int)
    requires
        trim(raw).len() == 0,
    ensures
        pdl_step(st, raw, line) == Ok::<PdlState, SpecParseError>(st),
{
}

proof fn lemma_step_keeps_no_version(st: PdlState, raw: Seq<char>, line: int)
    requires
        st.version is None,
        !has_prefix(raw, "version"@),
    ensures
        pdl_step(st, raw, line) matches Ok(s) ==> s.version is None,
{
}

proof fn lemma_run_keeps_no_version(ls: Seq<Seq<char>>, n: nat)
    requires
        n <= ls.len(),
        forall|i: int| 0 <= i < ls.len() ==> !has_prefix(#[trigger] ls[i], "version"@),
    ensures
        run_lines(ls, n) matches Ok(s) ==> s.version is None,
    decreases n,
{
    if n > 0 {
        lemma_run_keeps_no_version(ls, (n - 1) as nat);
        if let Ok(s) = run_lines(ls, (n - 1) as nat) {
            lemma_step_keeps_no_version(s, ls[n - 1], n as int);
        }
    }
}

/// Whether a line is blank or a comment.
pub open spec fn blank_or_comment(raw: Seq<char>) -> bool {
    trim(raw).len() == 0 || trim(raw)[0] == '#'
}

/// Input without a `version` line is rejected: with a syntax error, or
/// else for the missing header; input of blank and comment lines only is
/// rejected for the missing header.
pub proof fn law_no_version_line_is_rejected(input: Seq<char>)
    requires
        forall|i: int| 0 <= i < lines(input).len() ==> !has_prefix(#[trigger] lines(input)[i], "version"@),
    ensures
        spec_parse(input) is Err,
        (forall|i: int| 0 <= i < lines(input).len() ==> blank_or_comment(#[trigger] lines(input)[i]))
            ==> spec_parse(input) == Err::<SpecProtocol, SpecParseError>(
            SpecParseError::MissingHeader("Missing version header"@),
        ),
{
    let ls = lines(input);
    lemma_run_keeps_no_version(ls, ls.len());
    if forall|i: int| 0 <= i < ls.len() ==> blank_or_comment(#[trigger] ls[i]) {
        lemma_run_blank_or_comment(ls, ls.len());
    }
}

proof fn lemma_run_blank_or_comment(ls: Seq<Seq<char>>, n: nat)
    requires
        n <= ls.len(),
        forall|i: int| 0 <= i < ls.len() ==> blank_or_comment(#[trigger] ls[i]),
    ensures
        run_lines(ls, n) is Ok,
    decreases n,
{
    if n > 0 {
        lemma_run_blank_or_comment(ls, (n - 1) as nat);
        assert(blank_or_comment(ls[n - 1]));
    }
}

} // verus!
