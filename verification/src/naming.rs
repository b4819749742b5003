//! How the code generator names what it emits: struct fields, enum
//! variants, the spellings an enum accepts when parsed, builder setters,
//! and the paths of referenced types.

use vstd::prelude::*;

use crate::generator::{to_upper_camel_case, upper_camel_case};
use crate::launch::{listed, str_views};
use crate::pdl::{strs, CdpType, SpecCdpType};
use crate::text::{chars_of, contains, occurs_at, contains_str, eq_str, find, find_chars, lemma_find, push_str, slice_chars, string_of};

verus! {

/// The `snake_case` form of `s` (`heck::ToSnakeCase`).
pub uninterp spec fn snake_case(s: Seq<char>) -> Seq<char>;

/// `heck::ToSnakeCase::to_snake_case` on a string.
///
/// Trusted: the result is the form named by `snake_case`, a function of
/// the text alone.
#[verifier::external_body]
fn to_snake_case(s: &str) -> (r: String)
    ensures
        r@ == snake_case(s@),
{
    heck::ToSnakeCase::to_snake_case(s)
}

/// The module name of a domain: its `snake_case` form.
pub fn ref_domain_snake(domain: &str) -> (r: String)
    ensures
        r@ == snake_case(domain@),
{
    to_snake_case(domain)
}

/// The lowercase form of `s` (`str::to_lowercase`).
pub uninterp spec fn lowercase(s: Seq<char>) -> Seq<char>;

/// `str::to_lowercase`.
///
/// Trusted: the result is the form named by `lowercase`, a function of the
/// text alone (Unicode's lowercase mapping, with no locale).
#[verifier::external_body]
fn to_lowercase(s: &str) -> (r: String)
    ensures
        r@ == lowercase(s@),
{
    s.to_lowercase()
}

/// The Rust keywords that a field name is escaped from, as raw identifiers.
pub open spec fn escaped_keywords() -> Seq<Seq<char>> {
    seq![
        "type"@, "mod"@, "override"@, "ref"@, "use"@, "move"@, "loop"@, "return"@, "self"@,
        "super"@, "crate"@, "extern"@, "in"@, "where"@, "as"@, "trait"@, "impl"@, "for"@,
        "match"@, "if"@, "else"@, "enum"@, "struct"@, "fn"@, "let"@, "const"@, "static"@,
        "pub"@, "async"@, "await"@,
    ]
}

fn keywords() -> (v: Vec<&'static str>)
    ensures
        str_views(v@) == escaped_keywords(),
{
    let v = vec![
        "type", "mod", "override", "ref", "use", "move", "loop", "return", "self", "super",
        "crate", "extern", "in", "where", "as", "trait", "impl", "for", "match", "if", "else",
        "enum", "struct", "fn", "let", "const", "static", "pub", "async", "await",
    ];
    assert(str_views(v@) =~= escaped_keywords());
    v
}

fn is_escaped_keyword(s: &str) -> (b: bool)
    ensures
        b == escaped_keywords().contains(s@),
{
    let kws = keywords();
    let cs = chars_of(s);
    let mut i: usize = 0;
    while i < kws.len()
        invariant
            i <= kws@.len(),
            str_views(kws@) == escaped_keywords(),
            cs@ == s@,
            forall|j: int| 0 <= j < i ==> escaped_keywords()[j] != s@,
        decreases kws@.len() - i,
    {
        if eq_str(cs.as_slice(), kws[i]) {
            assert(str_views(kws@)[i as int] == s@);
            return true;
        }
        assert(str_views(kws@)[i as int] == kws@[i as int]@);
        i = i + 1;
    }
    false
}

/// The Rust name of a field: the `snake_case` form of its protocol name,
/// written as a raw identifier (`r#type`) where that is a keyword.
pub open spec fn field_name_text(name: Seq<char>) -> Seq<char> {
    let s = snake_case(name);
    if escaped_keywords().contains(s) {
        "r#"@ + s
    } else {
        s
    }
}

/// The Rust name of the field with protocol name `name`.
pub fn field_name(name: &str) -> (r: String)
    ensures
        r@ == field_name_text(name@),
{
    let snake = to_snake_case(name);
    if is_escaped_keyword(snake.as_str()) {
        let mut r = "r#".to_owned();
        push_str(&mut r, snake.as_str());
        r
    } else {
        snake
    }
}

/// The name of an enum variant: `KSelf` for `Self` and `self`, which
/// cannot be variant names, else the `UpperCamelCase` form.
pub open spec fn variant_name_text(name: Seq<char>) -> Seq<char> {
    if name == "Self"@ || name == "self"@ {
        "KSelf"@
    } else {
        upper_camel_case(name)
    }
}

/// The name of the enum variant for the protocol value `name`.
pub fn enum_variant_name(name: &str) -> (r: String)
    ensures
        r@ == variant_name_text(name@),
{
    let cs = chars_of(name);
    if eq_str(cs.as_slice(), "Self") || eq_str(cs.as_slice(), "self") {
        "KSelf".to_owned()
    } else {
        to_upper_camel_case(name)
    }
}

/// The spellings a generated enum accepts for the protocol value `s`: the
/// value itself, then its variant name, then its lowercase form, each only
/// once.
pub open spec fn spec_from_str_patterns(s: Seq<char>) -> Seq<Seq<char>> {
    let camel = variant_name_text(s);
    let lower = lowercase(s);
    let first = seq![s];
    let with_camel = if camel != s && !first.contains(camel) {
        first.push(camel)
    } else {
        first
    };
    if !with_camel.contains(lower) {
        with_camel.push(lower)
    } else {
        with_camel
    }
}

/// The spellings a generated enum accepts for the protocol value `s`.
pub fn from_str_patterns(s: &str) -> (r: Vec<String>)
    ensures
        strs(r@) == spec_from_str_patterns(s@),
{
    let camel = enum_variant_name(s);
    let lower = to_lowercase(s);
    let mut r: Vec<String> = Vec::new();
    r.push(s.to_owned());
    assert(strs(r@) =~= seq![s@]);
    let same = eq_str(chars_of(camel.as_str()).as_slice(), s);
    if !same && !listed(&r, camel.as_str()) {
        let ghost before = r@;
        r.push(camel);
        assert(strs(r@) =~= strs(before).push(variant_name_text(s@)));
    }
    let ghost mid = strs(r@);
    if !listed(&r, lower.as_str()) {
        let ghost before = r@;
        r.push(lower);
        assert(strs(r@) =~= strs(before).push(lowercase(s@)));
    }
    r
}

/// The setters of a builder for the list field `field` (its Rust name): a
/// field ending in `s` is set item by item through its singular form and
/// wholesale through itself; any other field item by item through itself
/// and wholesale through its name with an `s` added. The pair is the
/// wholesale setter, then the one-item setter.
pub open spec fn spec_list_setter_names(field: Seq<char>) -> (Seq<char>, Seq<char>) {
    if field.len() > 0 && field.last() == 's' {
        (field, field_name_text(field.drop_last()))
    } else {
        (field + seq!['s'], field)
    }
}

/// The names of the two setters of a builder for the list field `field`.
pub fn list_setter_names(field: &str) -> (r: (String, String))
    ensures
        (r.0@, r.1@) == spec_list_setter_names(field@),
{
    let cs = chars_of(field);
    let n = cs.len();
    if n > 0 && cs[n - 1] == 's' {
        let stem = string_of(slice_chars(cs.as_slice(), 0, n - 1).as_slice());
        assert(stem@ =~= field@.drop_last());
        (field.to_owned(), field_name(stem.as_str()))
    } else {
        let mut plural = field.to_owned();
        crate::text::push_char(&mut plural, 's');
        (plural, field.to_owned())
    }
}

/// The full name of a type referred to as `name` from `domain`: a name
/// with a dot is already `Domain.Type`; any other is prefixed by `domain`.
pub open spec fn qualified_name(domain: Seq<char>, name: Seq<char>) -> Seq<char> {
    if contains(name, "."@) {
        name
    } else {
        domain + "."@ + name
    }
}

/// Whether a field of type `ty`, in `domain`, has an enum type, given the
/// full names of the enum types: an inline enum does, a reference does when
/// the type it names is among them, nothing else does.
pub open spec fn spec_is_enum_type(ty: SpecCdpType, domain: Seq<char>, enum_types: Seq<Seq<char>>) -> bool {
    match ty {
        SpecCdpType::InlineEnum(_) => true,
        SpecCdpType::Ref(n) => enum_types.contains(qualified_name(domain, n)),
        _ => false,
    }
}

/// The full name of the type referred to as `name` from `domain`.
pub fn qualified_type(domain: &str, name: &str) -> (r: String)
    ensures
        r@ == qualified_name(domain@, name@),
{
    if contains_str(chars_of(name).as_slice(), ".") {
        name.to_owned()
    } else {
        let mut r = domain.to_owned();
        push_str(&mut r, ".");
        push_str(&mut r, name);
        r
    }
}

/// Whether a field of type `ty` in `domain` has an enum type, given the
/// full names of the enum types (`Domain.Type`).
pub fn is_enum_type(ty: &CdpType, domain: &str, enum_types: &Vec<String>) -> (b: bool)
    ensures
        b == spec_is_enum_type(ty@, domain@, strs(enum_types@)),
{
    match ty {
        CdpType::InlineEnum(_) => true,
        CdpType::Ref(n) => {
            let q = qualified_type(domain, n.as_str());
            listed(enum_types, q.as_str())
        },
        _ => false,
    }
}

/// Where a referenced type lives, seen from the module that refers to it.
#[derive(Debug, Clone, PartialEq, Eq)]
pub enum RefPath {
    /// In the referring domain itself: the type's name alone.
    Local(String),
    /// In another domain of the same protocol file.
    SameFile { domain_module: String, type_ident: String },
    /// In a domain of another protocol file, given by its index.
    OtherFile { file: usize, domain_module: String, type_ident: String },
}

/// A reference path as plain text.
pub ghost enum SpecRefPath {
    Local(Seq<char>),
    SameFile { domain_module: Seq<char>, type_ident: Seq<char> },
    OtherFile { file: usize, domain_module: Seq<char>, type_ident: Seq<char> },
}

impl View for RefPath {
    type V = SpecRefPath;

    open spec fn view(&self) -> SpecRefPath {
        match self {
            RefPath::Local(t) => SpecRefPath::Local(t@),
            RefPath::SameFile { domain_module, type_ident } => SpecRefPath::SameFile {
                domain_module: domain_module@,
                type_ident: type_ident@,
            },
            RefPath::OtherFile { file, domain_module, type_ident } => SpecRefPath::OtherFile {
                file: *file,
                domain_module: domain_module@,
                type_ident: type_ident@,
            },
        }
    }
}

/// The domain named by a reference `Domain.Type`: the text before its
/// first dot; none for a reference without one.
pub open spec fn spec_ref_domain(name: Seq<char>) -> Option<Seq<char>> {
    match find(name, "."@) {
        Some(dot) => Some(name.take(dot)),
        None => None,
    }
}

/// The domain named by the reference `name`, if it names one.
pub fn ref_domain(name: &str) -> (r: Option<String>)
    ensures
        match r {
            Some(d) => spec_ref_domain(name@) == Some(d@),
            None => spec_ref_domain(name@) is None,
        },
{
    let cs = chars_of(name);
    let dot_p = chars_of(".");
    match find_chars(cs.as_slice(), dot_p.as_slice()) {
        Some(dot) => {
            proof {
                lemma_find(name@, "."@);
            }
            let d = string_of(slice_chars(cs.as_slice(), 0, dot).as_slice());
            assert(d@ =~= name@.take(dot as int));
            Some(d)
        },
        None => None,
    }
}

/// Where the type referred to as `name` lives, seen from `current_domain`
/// in protocol file `current_file`; `ref_file` is the file of the domain the
/// reference names, where that domain is known. A reference `Domain.Type`
/// to the current domain, or one without a dot, names a local type; one to
/// another domain names a module in the same file (also when the domain is
/// unknown) or in the other file. Type names are `UpperCamelCase`, module
/// names `snake_case`.
pub open spec fn spec_ref_path(
    name: Seq<char>,
    current_domain: Seq<char>,
    current_file: usize,
    ref_file: Option<usize>,
) -> SpecRefPath {
    match find(name, "."@) {
        Some(dot) => {
            let d = name.take(dot);
            let t = upper_camel_case(name.skip(dot + 1));
            if d == current_domain {
                SpecRefPath::Local(t)
            } else {
                let file = match ref_file {
                    Some(f) => f,
                    None => current_file,
                };
                if file == current_file {
                    SpecRefPath::SameFile { domain_module: snake_case(d), type_ident: t }
                } else {
                    SpecRefPath::OtherFile { file, domain_module: snake_case(d), type_ident: t }
                }
            }
        },
        None => SpecRefPath::Local(upper_camel_case(name)),
    }
}

/// Where the type referred to as `name` lives, seen from `current_domain`
/// in protocol file `current_file`, given the file of the referenced domain
/// where it is known.
pub fn ref_path(name: &str, current_domain: &str, current_file: usize, ref_file: Option<usize>) -> (r: RefPath)
    ensures
        r@ == spec_ref_path(name@, current_domain@, current_file, ref_file),
{
    let cs = chars_of(name);
    let n = cs.len();
    let dot_p = chars_of(".");
    match find_chars(cs.as_slice(), dot_p.as_slice()) {
        Some(dot) => {
            proof {
                reveal_strlit(".");
                lemma_find(cs@, dot_p@);
                assert(occurs_at(cs@, dot_p@, dot as int));
                assert(dot_p@.len() == 1);
            }
            let d = string_of(slice_chars(cs.as_slice(), 0, dot).as_slice());
            let t = string_of(slice_chars(cs.as_slice(), dot + 1, n).as_slice());
            assert(d@ =~= name@.take(dot as int));
            assert(t@ =~= name@.skip(dot + 1));
            let type_ident = to_upper_camel_case(t.as_str());
            if eq_str(chars_of(d.as_str()).as_slice(), current_domain) {
                RefPath::Local(type_ident)
            } else {
                let file = match ref_file {
                    Some(f) => f,
                    None => current_file,
                };
                let domain_module = to_snake_case(d.as_str());
                if file == current_file {
                    RefPath::SameFile { domain_module, type_ident }
                } else {
                    RefPath::OtherFile { file, domain_module, type_ident }
                }
            }
        },
        None => RefPath::Local(to_upper_camel_case(name)),
    }
}

} // verus!
