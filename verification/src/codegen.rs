//! The plan of the Rust code generated from protocol definitions: which
//! Rust type each protocol type becomes, the fields of the generated
//! structs and what their constructors and builders look like, the impls of
//! primitive aliases, and the entries of the event enums. Turning the plan
//! into Rust tokens is left to the caller.

use vstd::prelude::*;

use crate::generator::{subenum_name, upper_camel_case};
use crate::naming::{
    field_name, field_name_text, is_enum_type, ref_domain, ref_path, spec_is_enum_type, spec_ref_domain,
    spec_ref_path, RefPath, SpecRefPath,
};
use crate::pdl::{
    domains_view, opt_str, props_view, strs, typedefs_view, variants_view, CdpType, Domain, EnumVariant,
    PrimitiveType, Property, Protocol, SpecCdpType, SpecDomain, SpecEnumVariant, SpecProperty, SpecProtocol,
    SpecTypeDef, SpecTypeKind, TypeKind,
};
use crate::launch::listed;
use crate::naming::{snake_case, ref_domain_snake};
use crate::generator::to_upper_camel_case;
use crate::text::push_str;
use crate::text::{chars_of, eq_str};

verus! {

// ---------------------------------------------------------------------------
// The index of domains by protocol file
// ---------------------------------------------------------------------------

#[verifier::external_type_specification]
#[verifier::external_body]
#[verifier::reject_recursive_types(K)]
#[verifier::reject_recursive_types(V)]
#[verifier::reject_recursive_types(S)]
pub struct ExIndexMap<K, V, S>(indexmap::IndexMap<K, V, S>);

/// An index from domain names to the protocol file each lives in.
pub type DomainIndex = indexmap::IndexMap<String, usize>;

/// The protocol file of each domain, as an index of domains records it.
pub uninterp spec fn domain_files(m: DomainIndex) -> Map<Seq<char>, usize>;

/// An index that records no domain.
pub open spec fn no_domains() -> Map<Seq<char>, usize> {
    Map::empty()
}

/// `IndexMap::new`.
///
/// Trusted: the new index records no domain.
#[verifier::external_body]
fn new_domain_index() -> (m: DomainIndex)
    ensures
        domain_files(m) == no_domains(),
{
    indexmap::IndexMap::new()
}

/// `IndexMap::insert`.
///
/// Trusted: afterwards `name` is recorded with `file`, replacing any
/// earlier entry for it, and every other entry is unchanged.
#[verifier::external_body]
fn index_domain(m: &mut DomainIndex, name: String, file: usize)
    ensures
        domain_files(*final(m)) == domain_files(*old(m)).insert(name@, file),
{
    m.insert(name, file);
}

/// `IndexMap::get`, the value copied out.
///
/// Trusted: the file recorded for `name`, or `None` when the index does not
/// record it.
#[verifier::external_body]
fn file_of_domain(m: &DomainIndex, name: &str) -> (r: Option<usize>)
    ensures
        r == (if domain_files(*m).contains_key(name@) {
            Some(domain_files(*m)[name@])
        } else {
            None
        }),
{
    m.get(name).copied()
}

/// The file of the domain a reference names, where the index records that
/// domain.
pub open spec fn spec_ref_file(name: Seq<char>, files: Map<Seq<char>, usize>) -> Option<usize> {
    match spec_ref_domain(name) {
        Some(d) => if files.contains_key(d) {
            Some(files[d])
        } else {
            None
        },
        None => None,
    }
}

/// Where the type referred to as `name` from `current_domain` (in protocol
/// file `current_pdl_index`) lives, the file of a referenced domain looked
/// up in `domains`.
pub fn resolve_ref_type(
    name: &str,
    current_domain: &str,
    current_pdl_index: usize,
    domains: &DomainIndex,
) -> (r: RefPath)
    ensures
        r@ == spec_ref_path(
            name@,
            current_domain@,
            current_pdl_index,
            spec_ref_file(name@, domain_files(*domains)),
        ),
{
    let ref_file = match ref_domain(name) {
        Some(d) => file_of_domain(domains, d.as_str()),
        None => None,
    };
    ref_path(name, current_domain, current_pdl_index, ref_file)
}

// ---------------------------------------------------------------------------
// Rust types
// ---------------------------------------------------------------------------

/// The Rust type a protocol type stands for, without `Option`, `Vec` or
/// `Box` around it.
#[derive(Debug, Clone, PartialEq, Eq)]
pub enum RustBase {
    /// `i64`.
    I64,
    /// `f64`.
    F64,
    /// `bool`.
    Bool,
    /// `String`.
    Str,
    /// `serde_json::Value`.
    Json,
    /// `chromist_types::Binary`.
    Binary,
    /// A generated type, at this path.
    Path(RefPath),
}

pub ghost enum SpecRustBase {
    I64,
    F64,
    Bool,
    Str,
    Json,
    Binary,
    Path(SpecRefPath),
}

impl View for RustBase {
    type V = SpecRustBase;

    open spec fn view(&self) -> SpecRustBase {
        match self {
            RustBase::I64 => SpecRustBase::I64,
            RustBase::F64 => SpecRustBase::F64,
            RustBase::Bool => SpecRustBase::Bool,
            RustBase::Str => SpecRustBase::Str,
            RustBase::Json => SpecRustBase::Json,
            RustBase::Binary => SpecRustBase::Binary,
            RustBase::Path(p) => SpecRustBase::Path(p@),
        }
    }
}

/// A protocol type resolved to its Rust type, with the wrapping a field of
/// it needs (`Vec<_>`, `Box<_>`).
#[derive(Debug, Clone)]
pub struct RustType {
    /// The base type, without `Option<>` or `Vec<>`.
    pub inner: RustBase,
    /// The field is a `Vec<_>`.
    pub is_vec: bool,
    /// The field is boxed (a self-referential type).
    pub needs_box: bool,
}

pub ghost struct SpecRustType {
    pub inner: SpecRustBase,
    pub is_vec: bool,
    pub needs_box: bool,
}

impl View for RustType {
    type V = SpecRustType;

    open spec fn view(&self) -> SpecRustType {
        SpecRustType { inner: self.inner@, is_vec: self.is_vec, needs_box: self.needs_box }
    }
}

impl RustType {
    /// The type itself.
    pub fn simple(inner: RustBase) -> (r: Self)
        ensures
            r@ == (SpecRustType { inner: inner@, is_vec: false, needs_box: false }),
    {
        RustType { inner, is_vec: false, needs_box: false }
    }

    /// A `Vec` of the type.
    pub fn vec(inner: RustBase) -> (r: Self)
        ensures
            r@ == (SpecRustType { inner: inner@, is_vec: true, needs_box: false }),
    {
        RustType { inner, is_vec: true, needs_box: false }
    }

    /// The type in a `Box`.
    pub fn boxed(inner: RustBase) -> (r: Self)
        ensures
            r@ == (SpecRustType { inner: inner@, is_vec: false, needs_box: true }),
    {
        RustType { inner, is_vec: false, needs_box: true }
    }
}

/// The Rust type of a field of protocol type `t`, declared in type
/// `parent` of `domain` (in protocol file `file`): primitives map to Rust
/// primitives, `object` and `any` to JSON values, arrays to a `Vec` of
/// their item's type, references to the referenced type (boxed when it is
/// the parent itself), and inline enums, which are named before they get
/// here, to JSON values.
pub open spec fn spec_map_cdp_type(
    t: SpecCdpType,
    domain: Seq<char>,
    parent: Seq<char>,
    file: usize,
    files: Map<Seq<char>, usize>,
) -> SpecRustType
    decreases t,
{
    let simple = |b: SpecRustBase| SpecRustType { inner: b, is_vec: false, needs_box: false };
    match t {
        SpecCdpType::Integer => simple(SpecRustBase::I64),
        SpecCdpType::Number => simple(SpecRustBase::F64),
        SpecCdpType::Boolean => simple(SpecRustBase::Bool),
        SpecCdpType::String => simple(SpecRustBase::Str),
        SpecCdpType::Object => simple(SpecRustBase::Json),
        SpecCdpType::Any => simple(SpecRustBase::Json),
        SpecCdpType::Binary => simple(SpecRustBase::Binary),
        SpecCdpType::Array(inner) => SpecRustType {
            inner: spec_map_cdp_type(*inner, domain, parent, file, files).inner,
            is_vec: true,
            needs_box: false,
        },
        SpecCdpType::Ref(name) => SpecRustType {
            inner: SpecRustBase::Path(spec_ref_path(name, domain, file, spec_ref_file(name, files))),
            is_vec: false,
            needs_box: name == parent,
        },
        SpecCdpType::InlineEnum(_) => simple(SpecRustBase::Json),
    }
}

/// The Rust type of a field of protocol type `cdp_type`, declared in type
/// `parent_name` of `domain_name`, which lives in protocol file
/// `domain_pdl_index`.
pub fn map_cdp_type(
    cdp_type: &CdpType,
    domain_name: &str,
    parent_name: &str,
    domain_pdl_index: usize,
    domains: &DomainIndex,
) -> (r: RustType)
    ensures
        r@ == spec_map_cdp_type(cdp_type@, domain_name@, parent_name@, domain_pdl_index, domain_files(*domains)),
    decreases cdp_type,
{
    match cdp_type {
        CdpType::Integer => RustType::simple(RustBase::I64),
        CdpType::Number => RustType::simple(RustBase::F64),
        CdpType::Boolean => RustType::simple(RustBase::Bool),
        CdpType::String => RustType::simple(RustBase::Str),
        CdpType::Object | CdpType::Any => RustType::simple(RustBase::Json),
        CdpType::Binary => RustType::simple(RustBase::Binary),
        CdpType::Array(inner) => {
            let inner_rt = map_cdp_type(inner, domain_name, parent_name, domain_pdl_index, domains);
            RustType::vec(inner_rt.inner)
        },
        CdpType::Ref(name) => {
            let needs_box = eq_str(chars_of(name.as_str()).as_slice(), parent_name);
            let path = resolve_ref_type(name.as_str(), domain_name, domain_pdl_index, domains);
            if needs_box {
                RustType::boxed(RustBase::Path(path))
            } else {
                RustType::simple(RustBase::Path(path))
            }
        },
        CdpType::InlineEnum(_) => RustType::simple(RustBase::Json),
    }
}

// ---------------------------------------------------------------------------
// Struct fields
// ---------------------------------------------------------------------------

/// How a field is read back from JSON.
#[derive(Debug, Clone, Copy, PartialEq, Eq, Structural)]
pub enum EnumSerde {
    /// The field's own deserialisation.
    Plain,
    /// An enum field, parsed from its string.
    FromStr,
    /// An optional enum field, parsed from its string; an empty string is
    /// no value.
    FromStrOptional,
}

/// A field of a generated struct.
#[derive(Debug, Clone)]
pub struct FieldSpec {
    /// The protocol's name of the field (used to rename it in JSON).
    pub cdp_name: String,
    /// The Rust name of the field.
    pub rust_name: String,
    /// The base Rust type, without `Option`, `Vec` or `Box`.
    pub base_ty: RustBase,
    /// The field is a `Vec<_>`.
    pub is_vec: bool,
    /// The field is boxed.
    pub needs_box: bool,
    /// The field is optional.
    pub optional: bool,
    /// The field's documentation.
    pub doc: Option<String>,
    /// The field is left out of JSON.
    pub serde_skip: bool,
    /// How the field is read back from JSON.
    pub enum_serde: EnumSerde,
}

pub ghost struct SpecFieldSpec {
    pub cdp_name: Seq<char>,
    pub rust_name: Seq<char>,
    pub base_ty: SpecRustBase,
    pub is_vec: bool,
    pub needs_box: bool,
    pub optional: bool,
    pub doc: Option<Seq<char>>,
    pub serde_skip: bool,
    pub enum_serde: EnumSerde,
}

impl View for FieldSpec {
    type V = SpecFieldSpec;

    open spec fn view(&self) -> SpecFieldSpec {
        SpecFieldSpec {
            cdp_name: self.cdp_name@,
            rust_name: self.rust_name@,
            base_ty: self.base_ty@,
            is_vec: self.is_vec,
            needs_box: self.needs_box,
            optional: self.optional,
            doc: opt_str(self.doc),
            serde_skip: self.serde_skip,
            enum_serde: self.enum_serde,
        }
    }
}

pub open spec fn fields_view(v: Seq<FieldSpec>) -> Seq<SpecFieldSpec> {
    v.map_values(|f: FieldSpec| f@)
}

/// An enum to generate for a property whose values are listed inline.
#[derive(Debug, Clone)]
pub struct InlineEnum {
    /// The generated enum's name.
    pub name: String,
    /// Its values.
    pub variants: Vec<EnumVariant>,
}

pub ghost struct SpecInlineEnum {
    pub name: Seq<char>,
    pub variants: Seq<SpecEnumVariant>,
}

impl View for InlineEnum {
    type V = SpecInlineEnum;

    open spec fn view(&self) -> SpecInlineEnum {
        SpecInlineEnum { name: self.name@, variants: variants_view(self.variants@) }
    }
}

pub open spec fn inline_enums_view(v: Seq<InlineEnum>) -> Seq<SpecInlineEnum> {
    v.map_values(|e: InlineEnum| e@)
}

/// The type a field of property `p` in type `parent` has: an inline enum
/// becomes a reference to the enum generated for it, named after the
/// parent and the property.
pub open spec fn field_kind(p: SpecProperty, parent: Seq<char>) -> SpecCdpType {
    match p.kind {
        SpecCdpType::InlineEnum(_) => SpecCdpType::Ref(parent + upper_camel_case(p.name)),
        k => k,
    }
}

/// The field generated for property `p` of type `parent` in `domain` (in
/// protocol file `file`), given the domain index and the full names of the
/// enum types.
pub open spec fn spec_field_spec(
    p: SpecProperty,
    parent: Seq<char>,
    domain: Seq<char>,
    file: usize,
    files: Map<Seq<char>, usize>,
    enum_types: Seq<Seq<char>>,
) -> SpecFieldSpec {
    let kind = field_kind(p, parent);
    let rt = spec_map_cdp_type(kind, domain, parent, file, files);
    SpecFieldSpec {
        cdp_name: p.name,
        rust_name: field_name_text(p.name),
        base_ty: rt.inner,
        is_vec: rt.is_vec,
        needs_box: rt.needs_box,
        optional: p.optional,
        doc: p.description,
        serde_skip: false,
        enum_serde: if spec_is_enum_type(kind, domain, enum_types) {
            if p.optional {
                EnumSerde::FromStrOptional
            } else {
                EnumSerde::FromStr
            }
        } else {
            EnumSerde::Plain
        },
    }
}

/// The enum to generate for property `p` of type `parent`, when its values
/// are listed inline.
pub open spec fn inline_enum_of(p: SpecProperty, parent: Seq<char>) -> Seq<SpecInlineEnum> {
    match p.kind {
        SpecCdpType::InlineEnum(vs) => seq![SpecInlineEnum { name: parent + upper_camel_case(p.name), variants: vs }],
        _ => seq![],
    }
}

/// The enums to generate for the inline enums among `ps`, in order.
pub open spec fn spec_inline_enums(ps: Seq<SpecProperty>, parent: Seq<char>) -> Seq<SpecInlineEnum>
    decreases ps.len(),
{
    if ps.len() == 0 {
        seq![]
    } else {
        spec_inline_enums(ps.drop_last(), parent) + inline_enum_of(ps.last(), parent)
    }
}

fn copy_opt(o: &Option<String>) -> (r: Option<String>)
    ensures
        opt_str(r) == opt_str(*o),
{
    match o {
        Some(s) => Some(s.clone()),
        None => None,
    }
}

fn copy_variants(vs: &Vec<EnumVariant>) -> (r: Vec<EnumVariant>)
    ensures
        variants_view(r@) == variants_view(vs@),
{
    let mut r: Vec<EnumVariant> = Vec::new();
    let mut i: usize = 0;
    while i < vs.len()
        invariant
            i <= vs@.len(),
            variants_view(r@) == variants_view(vs@.take(i as int)),
        decreases vs@.len() - i,
    {
        let v = EnumVariant { name: vs[i].name.clone(), description: copy_opt(&vs[i].description) };
        r.push(v);
        assert(vs@.take(i + 1) =~= vs@.take(i as int).push(vs@[i as int]));
        assert(variants_view(r@) =~= variants_view(vs@.take(i as int)).push(v@));
        i = i + 1;
    }
    assert(vs@.take(vs@.len() as int) =~= vs@);
    r
}

/// The field generated for property `prop` of type `parent_camel` in
/// `domain`, and the enum to generate for it when its values are listed
/// inline.
pub fn field_spec(
    prop: &Property,
    parent_camel: &str,
    domain: &str,
    pdl_idx: usize,
    domains: &DomainIndex,
    enum_types: &Vec<String>,
) -> (r: (FieldSpec, Option<InlineEnum>))
    ensures
        r.0@ == spec_field_spec(prop@, parent_camel@, domain@, pdl_idx, domain_files(*domains), strs(enum_types@)),
        match r.1 {
            Some(e) => inline_enum_of(prop@, parent_camel@) == seq![e@],
            None => inline_enum_of(prop@, parent_camel@) == Seq::<SpecInlineEnum>::empty(),
        },
{
    match &prop.kind {
        CdpType::InlineEnum(vs) => {
            let enum_name = subenum_name(parent_camel, prop.name.as_str());
            let kind = CdpType::Ref(enum_name.clone());
            let is_enum = is_enum_type(&kind, domain, enum_types);
            let rt = map_cdp_type(&kind, domain, parent_camel, pdl_idx, domains);
            let f = FieldSpec {
                cdp_name: prop.name.clone(),
                rust_name: field_name(prop.name.as_str()),
                base_ty: rt.inner,
                is_vec: rt.is_vec,
                needs_box: rt.needs_box,
                optional: prop.optional,
                doc: copy_opt(&prop.description),
                serde_skip: false,
                enum_serde: if is_enum {
                    if prop.optional {
                        EnumSerde::FromStrOptional
                    } else {
                        EnumSerde::FromStr
                    }
                } else {
                    EnumSerde::Plain
                },
            };
            let e = InlineEnum { name: enum_name, variants: copy_variants(vs) };
            (f, Some(e))
        },
        kind => {
            let is_enum = is_enum_type(kind, domain, enum_types);
            let rt = map_cdp_type(kind, domain, parent_camel, pdl_idx, domains);
            let f = FieldSpec {
                cdp_name: prop.name.clone(),
                rust_name: field_name(prop.name.as_str()),
                base_ty: rt.inner,
                is_vec: rt.is_vec,
                needs_box: rt.needs_box,
                optional: prop.optional,
                doc: copy_opt(&prop.description),
                serde_skip: false,
                enum_serde: if is_enum {
                    if prop.optional {
                        EnumSerde::FromStrOptional
                    } else {
                        EnumSerde::FromStr
                    }
                } else {
                    EnumSerde::Plain
                },
            };
            (f, None)
        },
    }
}

proof fn lemma_inline_enums_push(ps: Seq<SpecProperty>, p: SpecProperty, parent: Seq<char>)
    ensures
        spec_inline_enums(ps.push(p), parent) == spec_inline_enums(ps, parent) + inline_enum_of(p, parent),
{
    assert(ps.push(p).drop_last() =~= ps);
}

/// The fields generated for properties `props` of type `parent_camel` in
/// `domain`, in order, and the enums to generate for the inline enums among
/// them.
pub fn build_fields(
    props: &Vec<Property>,
    parent_camel: &str,
    domain: &str,
    pdl_idx: usize,
    domains: &DomainIndex,
    enum_types: &Vec<String>,
) -> (r: (Vec<FieldSpec>, Vec<InlineEnum>))
    ensures
        r.0@.len() == props@.len(),
        forall|i: int|
            0 <= i < props@.len() ==> (#[trigger] r.0@[i])@ == spec_field_spec(
                props@[i]@,
                parent_camel@,
                domain@,
                pdl_idx,
                domain_files(*domains),
                strs(enum_types@),
            ),
        inline_enums_view(r.1@) == spec_inline_enums(props_view(props@), parent_camel@),
{
    let mut fields: Vec<FieldSpec> = Vec::new();
    let mut inline: Vec<InlineEnum> = Vec::new();
    let mut i: usize = 0;
    while i < props.len()
        invariant
            i <= props@.len(),
            fields@.len() == i,
            forall|j: int|
                0 <= j < i ==> (#[trigger] fields@[j])@ == spec_field_spec(
                    props@[j]@,
                    parent_camel@,
                    domain@,
                    pdl_idx,
                    domain_files(*domains),
                    strs(enum_types@),
                ),
            inline_enums_view(inline@) == spec_inline_enums(props_view(props@.take(i as int)), parent_camel@),
        decreases props@.len() - i,
    {
        let (f, e) = field_spec(&props[i], parent_camel, domain, pdl_idx, domains, enum_types);
        proof {
            assert(props_view(props@.take(i + 1)) =~= props_view(props@.take(i as int)).push(props@[i as int]@));
            lemma_inline_enums_push(props_view(props@.take(i as int)), props@[i as int]@, parent_camel@);
        }
        fields.push(f);
        match e {
            Some(x) => {
                let ghost before = inline@;
                inline.push(x);
                proof {
                    assert(inline_enums_view(inline@) =~= inline_enums_view(before) + seq![x@]);
                }
            },
            None => {
                proof {
                    assert(inline_enums_view(inline@) =~= inline_enums_view(inline@) + Seq::<SpecInlineEnum>::empty());
                }
            },
        }
        i = i + 1;
    }
    proof {
        assert(props@.take(props@.len() as int) =~= props@);
    }
    (fields, inline)
}

// ---------------------------------------------------------------------------
// Structs, their constructors and builders
// ---------------------------------------------------------------------------

/// The mandatory fields among `fs`, in order.
pub open spec fn mandatory_of(fs: Seq<SpecFieldSpec>) -> Seq<SpecFieldSpec>
    decreases fs.len(),
{
    if fs.len() == 0 {
        seq![]
    } else {
        mandatory_of(fs.drop_last()) + if fs.last().optional {
            seq![]
        } else {
            seq![fs.last()]
        }
    }
}

/// A field whose type reads as `String`.
pub open spec fn string_field(f: SpecFieldSpec) -> bool {
    !f.is_vec && (f.base_ty == SpecRustBase::Str || f.base_ty == SpecRustBase::Path(SpecRefPath::Local("String"@)))
}

proof fn lemma_mandatory_push(fs: Seq<SpecFieldSpec>, f: SpecFieldSpec)
    ensures
        mandatory_of(fs.push(f)) == mandatory_of(fs) + if f.optional {
            seq![]
        } else {
            seq![f]
        },
{
    assert(fs.push(f).drop_last() =~= fs);
}

/// Whether any of `fields` is mandatory: a struct with none derives
/// `Default`, and its builder's `build` cannot fail.
pub fn has_mandatory(fields: &Vec<FieldSpec>) -> (b: bool)
    ensures
        b == (mandatory_of(fields_view(fields@)).len() > 0),
{
    let mut i: usize = 0;
    while i < fields.len()
        invariant
            i <= fields@.len(),
            mandatory_of(fields_view(fields@.take(i as int))).len() == 0,
        decreases fields@.len() - i,
    {
        proof {
            assert(fields_view(fields@.take(i + 1)) =~= fields_view(fields@.take(i as int)).push(fields@[i as int]@));
            lemma_mandatory_push(fields_view(fields@.take(i as int)), fields@[i as int]@);
        }
        if !fields[i].optional {
            proof {
                lemma_mandatory_prefix(fields_view(fields@), i as int + 1);
                assert(fields_view(fields@).take(i + 1) =~= fields_view(fields@.take(i + 1)));
            }
            return true;
        }
        i = i + 1;
    }
    proof {
        assert(fields@.take(fields@.len() as int) =~= fields@);
    }
    false
}

/// The mandatory fields of a prefix are no more than those of the whole.
proof fn lemma_mandatory_prefix(fs: Seq<SpecFieldSpec>, n: int)
    requires
        0 <= n <= fs.len(),
    ensures
        mandatory_of(fs.take(n)).len() <= mandatory_of(fs).len(),
    decreases fs.len() - n,
{
    if n < fs.len() {
        lemma_mandatory_prefix(fs, n + 1);
        assert(fs.take(n + 1) =~= fs.take(n).push(fs[n]));
        lemma_mandatory_push(fs.take(n), fs[n]);
    } else {
        assert(fs.take(n) =~= fs);
    }
}

/// A generated struct: its name and its fields, in declaration order.
pub struct StructBuilder {
    /// The struct's name.
    pub name: String,
    /// Its fields, in declaration order.
    pub fields: Vec<FieldSpec>,
}

impl StructBuilder {
    /// A struct with no fields yet.
    pub fn new(name: String) -> (r: Self)
        ensures
            r.name@ == name@,
            r.fields@.len() == 0,
    {
        StructBuilder { name, fields: Vec::new() }
    }

    /// The positions of the mandatory fields, in order.
    pub fn mandatory_fields(&self) -> (r: Vec<usize>)
        ensures
            r@.len() == mandatory_of(fields_view(self.fields@)).len(),
            forall|k: int|
                0 <= k < r@.len() ==> #[trigger] r@[k] < self.fields@.len() && self.fields@[r@[k] as int]@
                    == mandatory_of(fields_view(self.fields@))[k],
            forall|k: int, l: int| 0 <= k < l < r@.len() ==> #[trigger] r@[k] < #[trigger] r@[l],
    {
        let mut r: Vec<usize> = Vec::new();
        let mut i: usize = 0;
        while i < self.fields.len()
            invariant
                i <= self.fields@.len(),
                r@.len() == mandatory_of(fields_view(self.fields@.take(i as int))).len(),
                forall|k: int|
                    0 <= k < r@.len() ==> #[trigger] r@[k] < i && self.fields@[r@[k] as int]@ == mandatory_of(
                        fields_view(self.fields@.take(i as int)),
                    )[k],
                forall|k: int, l: int| 0 <= k < l < r@.len() ==> #[trigger] r@[k] < #[trigger] r@[l],
            decreases self.fields@.len() - i,
        {
            let ghost before = fields_view(self.fields@.take(i as int));
            proof {
                assert(fields_view(self.fields@.take(i + 1)) =~= before.push(self.fields@[i as int]@));
                lemma_mandatory_push(before, self.fields@[i as int]@);
            }
            if !self.fields[i].optional {
                r.push(i);
            }
            i = i + 1;
        }
        proof {
            assert(self.fields@.take(self.fields@.len() as int) =~= self.fields@);
        }
        r
    }

    /// Whether the struct gets a `new` constructor taking its mandatory
    /// fields: it does when it has one to four of them.
    pub fn has_constructor(&self) -> (b: bool)
        ensures
            b == (1 <= mandatory_of(fields_view(self.fields@)).len() <= 4),
    {
        let m = self.mandatory_fields();
        1 <= m.len() && m.len() <= 4
    }

    /// Whether the struct converts from anything that converts into a
    /// `String`: it does when its one mandatory field is a string.
    pub fn has_string_from(&self) -> (b: bool)
        ensures
            b == (mandatory_of(fields_view(self.fields@)).len() == 1 && string_field(
                mandatory_of(fields_view(self.fields@))[0],
            )),
    {
        let m = self.mandatory_fields();
        if m.len() != 1 {
            return false;
        }
        let f = &self.fields[m[0]];
        proof {
            assert(f@ == mandatory_of(fields_view(self.fields@))[0]);
        }
        if f.is_vec {
            return false;
        }
        match &f.base_ty {
            RustBase::Str => true,
            RustBase::Path(RefPath::Local(t)) => {
                proof {
                    reveal_strlit("String");
                }
                eq_str(chars_of(t.as_str()).as_slice(), "String")
            },
            _ => false,
        }
    }
}

// ---------------------------------------------------------------------------
// Primitive aliases
// ---------------------------------------------------------------------------

/// The Rust type a primitive alias wraps.
pub open spec fn spec_primitive_base(p: PrimitiveType) -> SpecRustBase {
    match p {
        PrimitiveType::Integer => SpecRustBase::I64,
        PrimitiveType::Number => SpecRustBase::F64,
        PrimitiveType::Boolean => SpecRustBase::Bool,
        PrimitiveType::String => SpecRustBase::Str,
        PrimitiveType::Object => SpecRustBase::Json,
        PrimitiveType::Any => SpecRustBase::Json,
        PrimitiveType::Binary => SpecRustBase::Binary,
    }
}

/// The Rust type a primitive alias wraps.
pub fn primitive_base(p: PrimitiveType) -> (r: RustBase)
    ensures
        r@ == spec_primitive_base(p),
{
    match p {
        PrimitiveType::Integer => RustBase::I64,
        PrimitiveType::Number => RustBase::F64,
        PrimitiveType::Boolean => RustBase::Bool,
        PrimitiveType::String => RustBase::Str,
        PrimitiveType::Object | PrimitiveType::Any => RustBase::Json,
        PrimitiveType::Binary => RustBase::Binary,
    }
}

/// The impls a primitive alias gets beyond its derives.
#[derive(Debug, Clone, Copy, PartialEq, Eq, Structural)]
pub struct PrimitiveImpls {
    /// `Eq` and `Hash`.
    pub eq_hash: bool,
    /// `Copy`.
    pub copy: bool,
    /// `AsRef<str>` and `From` to and from `String`.
    pub string_conversions: bool,
    /// `Borrow<str>`.
    pub borrow_str: bool,
}

/// Whether `s` ends with `p`.
pub open spec fn has_suffix(s: Seq<char>, p: Seq<char>) -> bool {
    s.len() >= p.len() && s.skip(s.len() - p.len()) == p
}

/// The impls a primitive alias named `id` over `p` gets: integers and
/// strings are `Eq` and `Hash`, integers `Copy`, strings convert to and from
/// `String`, and string identifiers (names ending in `Id`) borrow as `str`.
pub open spec fn spec_primitive_impls(p: PrimitiveType, id: Seq<char>) -> PrimitiveImpls {
    PrimitiveImpls {
        eq_hash: p == PrimitiveType::Integer || p == PrimitiveType::String,
        copy: p == PrimitiveType::Integer,
        string_conversions: p == PrimitiveType::String,
        borrow_str: p == PrimitiveType::String && has_suffix(id, "Id"@),
    }
}

/// The impls a primitive alias named `id` over `p` gets beyond its derives.
pub fn primitive_impls(p: PrimitiveType, id: &str) -> (r: PrimitiveImpls)
    ensures
        r == spec_primitive_impls(p, id@),
{
    let cs = chars_of(id);
    let n = cs.len();
    let ends_id = n >= 2 && cs[n - 2] == 'I' && cs[n - 1] == 'd';
    proof {
        reveal_strlit("Id");
        if n >= 2 {
            let t = id@.skip(n - 2);
            assert(t.len() == 2 && t[0] == cs@[n - 2] && t[1] == cs@[n - 1]);
            if ends_id {
                assert(t =~= "Id"@);
            } else if t == "Id"@ {
                assert(t[0] == 'I' && t[1] == 'd');
            }
        }
    }
    match p {
        PrimitiveType::Integer => PrimitiveImpls { eq_hash: true, copy: true, string_conversions: false, borrow_str: false },
        PrimitiveType::String => PrimitiveImpls { eq_hash: true, copy: false, string_conversions: true, borrow_str: ends_id },
        _ => PrimitiveImpls { eq_hash: false, copy: false, string_conversions: false, borrow_str: false },
    }
}

// ---------------------------------------------------------------------------
// Names of generated items
// ---------------------------------------------------------------------------

/// The method name of a command or an event: `Domain.name`.
pub fn method_identifier(domain: &str, name: &str) -> (r: String)
    ensures
        r@ == domain@ + "."@ + name@,
{
    let mut r = domain.to_owned();
    push_str(&mut r, ".");
    push_str(&mut r, name);
    r
}

/// The name of a generated type: `name` in `UpperCamelCase`, then `suffix`
/// (`Params`, `Response`, `Event`, or nothing).
pub fn type_name_with_suffix(name: &str, suffix: &str) -> (r: String)
    ensures
        r@ == upper_camel_case(name@) + suffix@,
{
    let mut r = to_upper_camel_case(name);
    push_str(&mut r, suffix);
    r
}

pub ghost struct SpecEventEntry {
    pub variant: Seq<char>,
    pub struct_name: Seq<char>,
    pub method_id: Seq<char>,
    pub domain_module: Seq<char>,
    pub file: usize,
}

/// The entry of the enum of all events for event `event` of `domain`.
pub open spec fn spec_event_entry(domain: Seq<char>, event: Seq<char>, files: Map<Seq<char>, usize>) -> SpecEventEntry {
    SpecEventEntry {
        variant: upper_camel_case(domain) + upper_camel_case(event),
        struct_name: upper_camel_case(event) + "Event"@,
        method_id: domain + "."@ + event,
        domain_module: snake_case(domain),
        file: if files.contains_key(domain) {
            files[domain]
        } else {
            0
        },
    }
}

/// An entry of the enum of all events: its variant, the event's struct,
/// its method name, and where that struct lives.
#[derive(Debug, Clone)]
pub struct EventEntry {
    /// The variant: domain and event in `UpperCamelCase`.
    pub variant: String,
    /// The event's struct.
    pub struct_name: String,
    /// The method name, `Domain.event`.
    pub method_id: String,
    /// The module of the domain.
    pub domain_module: String,
    /// The protocol file of the domain.
    pub file: usize,
}

impl View for EventEntry {
    type V = SpecEventEntry;

    open spec fn view(&self) -> SpecEventEntry {
        SpecEventEntry {
            variant: self.variant@,
            struct_name: self.struct_name@,
            method_id: self.method_id@,
            domain_module: self.domain_module@,
            file: self.file,
        }
    }
}

/// The entry of the enum of all events for event `event_name` of
/// `domain_name`; a domain the index does not record is taken to be in the
/// first file.
pub fn global_event_entry(domain_name: &str, event_name: &str, domains: &DomainIndex) -> (r: EventEntry)
    ensures
        r@ == spec_event_entry(domain_name@, event_name@, domain_files(*domains)),
{
    let domain_camel = to_upper_camel_case(domain_name);
    let event_camel = to_upper_camel_case(event_name);
    let mut variant = domain_camel;
    push_str(&mut variant, event_camel.as_str());
    let struct_name = type_name_with_suffix(event_name, "Event");
    let method_id = method_identifier(domain_name, event_name);
    let domain_module = ref_domain_snake(domain_name);
    let file = match file_of_domain(domains, domain_name) {
        Some(f) => f,
        None => 0,
    };
    EventEntry { variant, struct_name, method_id, domain_module, file }
}

// ---------------------------------------------------------------------------
// What the generator gathers from all protocol files first
// ---------------------------------------------------------------------------

pub open spec fn protocols_view(v: Seq<Protocol>) -> Seq<SpecProtocol> {
    v.map_values(|p: Protocol| p@)
}

/// The index `m` after each domain of `ds` is recorded with `file`.
pub open spec fn record_domains(m: Map<Seq<char>, usize>, ds: Seq<SpecDomain>, file: usize) -> Map<Seq<char>, usize>
    decreases ds.len(),
{
    if ds.len() == 0 {
        m
    } else {
        record_domains(m, ds.drop_last(), file).insert(ds.last().name, file)
    }
}

/// The index of the domains of protocol files `ps`, recorded file by file:
/// a domain name that several files use ends with the last of them.
pub open spec fn spec_domain_index(ps: Seq<SpecProtocol>) -> Map<Seq<char>, usize>
    decreases ps.len(),
{
    if ps.len() == 0 {
        Map::empty()
    } else {
        record_domains(spec_domain_index(ps.drop_last()), ps.last().domains, (ps.len() - 1) as usize)
    }
}

/// The index of the domains of protocol files `protocols`, each with the
/// position of its file.
pub fn collect_domains(protocols: &Vec<Protocol>) -> (m: DomainIndex)
    ensures
        domain_files(m) == spec_domain_index(protocols_view(protocols@)),
{
    let ghost pv = protocols_view(protocols@);
    let mut m = new_domain_index();
    let mut i: usize = 0;
    while i < protocols.len()
        invariant
            i <= protocols@.len(),
            pv == protocols_view(protocols@),
            domain_files(m) == spec_domain_index(pv.take(i as int)),
        decreases protocols@.len() - i,
    {
        let ds = &protocols[i].domains;
        let ghost base = domain_files(m);
        let ghost dv = domains_view(ds@);
        let mut j: usize = 0;
        while j < ds.len()
            invariant
                j <= ds@.len(),
                dv == domains_view(ds@),
                domain_files(m) == record_domains(base, dv.take(j as int), i),
            decreases ds@.len() - j,
        {
            index_domain(&mut m, ds[j].name.clone(), i);
            proof {
                assert(dv.take(j + 1).drop_last() =~= dv.take(j as int));
                assert(dv.take(j + 1).last() == ds@[j as int]@);
            }
            j = j + 1;
        }
        proof {
            assert(dv.take(ds@.len() as int) =~= dv);
            assert(pv.take(i + 1).drop_last() =~= pv.take(i as int));
            assert(pv.take(i + 1).last() == protocols@[i as int]@);
        }
        i = i + 1;
    }
    proof {
        assert(pv.take(protocols@.len() as int) =~= pv);
    }
    m
}

/// `s` with `x` added at its end unless it holds it already.
pub open spec fn add_unique(s: Seq<Seq<char>>, x: Seq<char>) -> Seq<Seq<char>> {
    if s.contains(x) {
        s
    } else {
        s.push(x)
    }
}

/// `s` with each of `xs` added in turn unless already there.
pub open spec fn add_all(s: Seq<Seq<char>>, xs: Seq<Seq<char>>) -> Seq<Seq<char>>
    decreases xs.len(),
{
    if xs.len() == 0 {
        s
    } else {
        add_unique(add_all(s, xs.drop_last()), xs.last())
    }
}

proof fn lemma_add_all_concat(s: Seq<Seq<char>>, xs: Seq<Seq<char>>, ys: Seq<Seq<char>>)
    ensures
        add_all(s, xs + ys) == add_all(add_all(s, xs), ys),
    decreases ys.len(),
{
    if ys.len() == 0 {
        assert(xs + ys =~= xs);
    } else {
        lemma_add_all_concat(s, xs, ys.drop_last());
        assert((xs + ys).drop_last() =~= xs + ys.drop_last());
    }
}

/// The full names (`Domain.Type`) of the enum types among `ts`, of domain
/// `domain`, in order.
pub open spec fn type_enum_names(domain: Seq<char>, ts: Seq<SpecTypeDef>) -> Seq<Seq<char>>
    decreases ts.len(),
{
    if ts.len() == 0 {
        seq![]
    } else {
        type_enum_names(domain, ts.drop_last()) + if ts.last().kind is Enum {
            seq![domain + "."@ + ts.last().id]
        } else {
            seq![]
        }
    }
}

/// The full names of the enum types of domains `ds`, in order.
pub open spec fn domains_enum_names(ds: Seq<SpecDomain>) -> Seq<Seq<char>>
    decreases ds.len(),
{
    if ds.len() == 0 {
        seq![]
    } else {
        domains_enum_names(ds.drop_last()) + type_enum_names(ds.last().name, ds.last().types)
    }
}

/// The full names of the enum types of protocol files `ps`, in order.
pub open spec fn protocols_enum_names(ps: Seq<SpecProtocol>) -> Seq<Seq<char>>
    decreases ps.len(),
{
    if ps.len() == 0 {
        seq![]
    } else {
        protocols_enum_names(ps.drop_last()) + domains_enum_names(ps.last().domains)
    }
}

fn add_domain_enums(d: &Domain, r: &mut Vec<String>)
    ensures
        strs(final(r)@) == add_all(strs(old(r)@), type_enum_names(d.name@, typedefs_view(d.types@))),
{
    let ghost r0 = strs(r@);
    let ghost tv = typedefs_view(d.types@);
    let mut k: usize = 0;
    while k < d.types.len()
        invariant
            k <= d.types@.len(),
            tv == typedefs_view(d.types@),
            strs(r@) == add_all(r0, type_enum_names(d.name@, tv.take(k as int))),
        decreases d.types@.len() - k,
    {
        let ghost prefix = tv.take(k as int);
        proof {
            assert(tv.take(k + 1).drop_last() =~= prefix);
            assert(tv.take(k + 1).last() == d.types@[k as int]@);
        }
        if let TypeKind::Enum(_) = &d.types[k].kind {
            let full = method_identifier(d.name.as_str(), d.types[k].id.as_str());
            let ghost before = strs(r@);
            if !listed(r, full.as_str()) {
                r.push(full);
                proof {
                    assert(strs(r@) =~= before.push(full@));
                }
            }
            proof {
                let names = type_enum_names(d.name@, prefix);
                assert(type_enum_names(d.name@, tv.take(k + 1)) == names + seq![full@]);
                assert((names + seq![full@]).drop_last() =~= names);
            }
        } else {
            proof {
                let names = type_enum_names(d.name@, prefix);
                assert(type_enum_names(d.name@, tv.take(k + 1)) =~= names);
            }
        }
        k = k + 1;
    }
    proof {
        assert(tv.take(d.types@.len() as int) =~= tv);
    }
}

/// The full names (`Domain.Type`) of the enum types of protocol files
/// `protocols`, each once, in the order they first appear.
pub fn collect_enum_types(protocols: &Vec<Protocol>) -> (r: Vec<String>)
    ensures
        strs(r@) == add_all(seq![], protocols_enum_names(protocols_view(protocols@))),
{
    let ghost pv = protocols_view(protocols@);
    let mut r: Vec<String> = Vec::new();
    proof {
        assert(strs(r@) =~= Seq::<Seq<char>>::empty());
    }
    let mut i: usize = 0;
    while i < protocols.len()
        invariant
            i <= protocols@.len(),
            pv == protocols_view(protocols@),
            strs(r@) == add_all(seq![], protocols_enum_names(pv.take(i as int))),
        decreases protocols@.len() - i,
    {
        let ds = &protocols[i].domains;
        let ghost before = protocols_enum_names(pv.take(i as int));
        let ghost dv = domains_view(ds@);
        let mut j: usize = 0;
        while j < ds.len()
            invariant
                j <= ds@.len(),
                dv == domains_view(ds@),
                strs(r@) == add_all(add_all(seq![], before), domains_enum_names(dv.take(j as int))),
            decreases ds@.len() - j,
        {
            let ghost mid = domains_enum_names(dv.take(j as int));
            add_domain_enums(&ds[j], &mut r);
            proof {
                assert(dv.take(j + 1).drop_last() =~= dv.take(j as int));
                assert(dv.take(j + 1).last() == ds@[j as int]@);
                lemma_add_all_concat(add_all(seq![], before), mid, type_enum_names(ds@[j as int].name@, typedefs_view(ds@[j as int].types@)));
            }
            j = j + 1;
        }
        proof {
            assert(dv.take(ds@.len() as int) =~= dv);
            assert(pv.take(i + 1).drop_last() =~= pv.take(i as int));
            assert(pv.take(i + 1).last() == protocols@[i as int]@);
            lemma_add_all_concat(seq![], before, domains_enum_names(dv));
        }
        i = i + 1;
    }
    proof {
        assert(pv.take(protocols@.len() as int) =~= pv);
    }
    r
}

/// The events of protocol files `ps`, each as its domain's name and its
/// own, file by file and domain by domain.
pub open spec fn all_events(ps: Seq<SpecProtocol>) -> Seq<(Seq<char>, Seq<char>)>
    decreases ps.len(),
{
    if ps.len() == 0 {
        seq![]
    } else {
        all_events(ps.drop_last()) + domains_events(ps.last().domains)
    }
}

/// The events of domains `ds`, each as its domain's name and its own.
pub open spec fn domains_events(ds: Seq<SpecDomain>) -> Seq<(Seq<char>, Seq<char>)>
    decreases ds.len(),
{
    if ds.len() == 0 {
        seq![]
    } else {
        domains_events(ds.drop_last()) + ds.last().events.map_values(
            |e: crate::pdl::SpecEvent| (ds.last().name, e.name),
        )
    }
}

/// The entries of the enum of all events, one per event of each protocol
/// file, in order.
pub fn global_event_entries(protocols: &Vec<Protocol>, domains: &DomainIndex) -> (r: Vec<EventEntry>)
    ensures
        r@.len() == all_events(protocols_view(protocols@)).len(),
        forall|k: int|
            0 <= k < r@.len() ==> (#[trigger] r@[k])@ == spec_event_entry(
                all_events(protocols_view(protocols@))[k].0,
                all_events(protocols_view(protocols@))[k].1,
                domain_files(*domains),
            ),
{
    let ghost pv = protocols_view(protocols@);
    let ghost files = domain_files(*domains);
    let mut r: Vec<EventEntry> = Vec::new();
    let mut i: usize = 0;
    while i < protocols.len()
        invariant
            i <= protocols@.len(),
            pv == protocols_view(protocols@),
            files == domain_files(*domains),
            r@.len() == all_events(pv.take(i as int)).len(),
            forall|k: int|
                0 <= k < r@.len() ==> (#[trigger] r@[k])@ == spec_event_entry(
                    all_events(pv.take(i as int))[k].0,
                    all_events(pv.take(i as int))[k].1,
                    files,
                ),
        decreases protocols@.len() - i,
    {
        let ds = &protocols[i].domains;
        let ghost dv = domains_view(ds@);
        let ghost before = all_events(pv.take(i as int));
        let mut j: usize = 0;
        while j < ds.len()
            invariant
                j <= ds@.len(),
                dv == domains_view(ds@),
                files == domain_files(*domains),
                r@.len() == (before + domains_events(dv.take(j as int))).len(),
                forall|k: int|
                    0 <= k < r@.len() ==> (#[trigger] r@[k])@ == spec_event_entry(
                        (before + domains_events(dv.take(j as int)))[k].0,
                        (before + domains_events(dv.take(j as int)))[k].1,
                        files,
                    ),
            decreases ds@.len() - j,
        {
            let d = &ds[j];
            let ghost so_far = before + domains_events(dv.take(j as int));
            let ghost evs = d@.events.map_values(|e: crate::pdl::SpecEvent| (d@.name, e.name));
            proof {
                assert(dv.take(j + 1).drop_last() =~= dv.take(j as int));
                assert(dv.take(j + 1).last() == d@);
                assert(before + domains_events(dv.take(j + 1)) =~= so_far + evs);
            }
            let mut k: usize = 0;
            while k < d.events.len()
                invariant
                    k <= d.events@.len(),
                    files == domain_files(*domains),
                    evs == d@.events.map_values(|e: crate::pdl::SpecEvent| (d@.name, e.name)),
                    r@.len() == so_far.len() + k,
                    forall|x: int|
                        0 <= x < r@.len() ==> (#[trigger] r@[x])@ == spec_event_entry(
                            (so_far + evs)[x].0,
                            (so_far + evs)[x].1,
                            files,
                        ),
                decreases d.events@.len() - k,
            {
                let e = global_event_entry(d.name.as_str(), d.events[k].name.as_str(), domains);
                proof {
                    assert((so_far + evs)[so_far.len() + k] == evs[k as int]);
                    assert(evs[k as int] == (d.name@, d.events@[k as int].name@));
                }
                r.push(e);
                k = k + 1;
            }
            j = j + 1;
        }
        proof {
            assert(dv.take(ds@.len() as int) =~= dv);
            assert(pv.take(i + 1).drop_last() =~= pv.take(i as int));
            assert(pv.take(i + 1).last() == protocols@[i as int]@);
        }
        i = i + 1;
    }
    proof {
        assert(pv.take(protocols@.len() as int) =~= pv);
    }
    r
}

// ---------------------------------------------------------------------------
// Laws
// ---------------------------------------------------------------------------

proof fn lemma_push_contains(s: Seq<Seq<char>>, y: Seq<char>, x: Seq<char>)
    ensures
        s.push(y).contains(x) <==> (s.contains(x) || x == y),
{
    if s.contains(x) {
        let i = choose|i: int| 0 <= i < s.len() && s[i] == x;
        assert(s.push(y)[i] == x);
    }
    if x == y {
        assert(s.push(y)[s.len() as int] == x);
    }
    if s.push(y).contains(x) {
        let i = choose|i: int| 0 <= i < s.push(y).len() && s.push(y)[i] == x;
        if i < s.len() {
            assert(s[i] == x);
        }
    }
}

proof fn lemma_add_all(s: Seq<Seq<char>>, xs: Seq<Seq<char>>)
    requires
        s.no_duplicates(),
    ensures
        add_all(s, xs).no_duplicates(),
        forall|x: Seq<char>| #[trigger] add_all(s, xs).contains(x) <==> (s.contains(x) || xs.contains(x)),
    decreases xs.len(),
{
    if xs.len() == 0 {
        assert forall|x: Seq<char>| #[trigger] add_all(s, xs).contains(x) <==> (s.contains(x) || xs.contains(x)) by {
            if xs.contains(x) {
                let i = choose|i: int| 0 <= i < xs.len() && xs[i] == x;
            }
        }
    } else {
        let init = xs.drop_last();
        let y = xs.last();
        lemma_add_all(s, init);
        let a = add_all(s, init);
        assert(xs =~= init.push(y));
        if !a.contains(y) {
            assert forall|i: int, j: int| 0 <= i < j < a.push(y).len() implies a.push(y)[i] != a.push(y)[j] by {
                if j == a.len() {
                    assert(a[i] == a.push(y)[i]);
                }
            }
        }
        assert forall|x: Seq<char>| #[trigger] add_all(s, xs).contains(x) <==> (s.contains(x) || xs.contains(x)) by {
            lemma_push_contains(init, y, x);
            lemma_push_contains(a, y, x);
            assert(a.contains(x) <==> (s.contains(x) || init.contains(x)));
        }
    }
}

/// A protocol `number` becomes an `f64` and an `integer` an `i64`, whether
/// it is the type of a property or the type a primitive alias wraps; the
/// other primitives too map alike in both places, never to a list or a box.
pub proof fn law_primitive_types_map_alike(
    domain: Seq<char>,
    parent: Seq<char>,
    file: usize,
    files: Map<Seq<char>, usize>,
)
    ensures
        spec_map_cdp_type(SpecCdpType::Number, domain, parent, file, files).inner == SpecRustBase::F64,
        spec_primitive_base(PrimitiveType::Number) == SpecRustBase::F64,
        spec_map_cdp_type(SpecCdpType::Integer, domain, parent, file, files).inner == SpecRustBase::I64,
        spec_primitive_base(PrimitiveType::Integer) == SpecRustBase::I64,
        spec_map_cdp_type(SpecCdpType::Boolean, domain, parent, file, files).inner == spec_primitive_base(PrimitiveType::Boolean),
        spec_map_cdp_type(SpecCdpType::String, domain, parent, file, files).inner == spec_primitive_base(PrimitiveType::String),
        spec_map_cdp_type(SpecCdpType::Object, domain, parent, file, files).inner == spec_primitive_base(PrimitiveType::Object),
        spec_map_cdp_type(SpecCdpType::Any, domain, parent, file, files).inner == spec_primitive_base(PrimitiveType::Any),
        spec_map_cdp_type(SpecCdpType::Binary, domain, parent, file, files).inner == spec_primitive_base(PrimitiveType::Binary),
        spec_primitive_base(PrimitiveType::Boolean) == SpecRustBase::Bool,
        spec_primitive_base(PrimitiveType::String) == SpecRustBase::Str,
        !spec_map_cdp_type(SpecCdpType::Number, domain, parent, file, files).is_vec,
        !spec_map_cdp_type(SpecCdpType::Number, domain, parent, file, files).needs_box,
        !spec_map_cdp_type(SpecCdpType::Integer, domain, parent, file, files).is_vec,
        !spec_map_cdp_type(SpecCdpType::Integer, domain, parent, file, files).needs_box,
{
}

/// A reference is boxed exactly when it names the type that holds the
/// property (so that the type is finite), is never a list, and names a
/// generated type rather than a primitive.
pub proof fn law_only_self_references_are_boxed(
    name: Seq<char>,
    domain: Seq<char>,
    parent: Seq<char>,
    file: usize,
    files: Map<Seq<char>, usize>,
)
    ensures
        spec_map_cdp_type(SpecCdpType::Ref(name), domain, parent, file, files).needs_box == (name == parent),
        !spec_map_cdp_type(SpecCdpType::Ref(name), domain, parent, file, files).is_vec,
        spec_map_cdp_type(SpecCdpType::Ref(name), domain, parent, file, files).inner is Path,
{
}

/// A list of a protocol type is a vector of that type's Rust base.
pub proof fn law_arrays_are_vectors_of_their_item(
    item: SpecCdpType,
    domain: Seq<char>,
    parent: Seq<char>,
    file: usize,
    files: Map<Seq<char>, usize>,
)
    ensures
        spec_map_cdp_type(SpecCdpType::Array(Box::new(item)), domain, parent, file, files).is_vec,
        spec_map_cdp_type(SpecCdpType::Array(Box::new(item)), domain, parent, file, files).inner
            == spec_map_cdp_type(item, domain, parent, file, files).inner,
{
}

/// The enum type names the generator gathers are each listed once, and are
/// exactly the full names of the enum types of the protocol files.
pub proof fn law_enum_types_listed_once(ps: Seq<SpecProtocol>)
    ensures
        add_all(seq![], protocols_enum_names(ps)).no_duplicates(),
        forall|x: Seq<char>|
            #[trigger] add_all(seq![], protocols_enum_names(ps)).contains(x) <==> protocols_enum_names(ps).contains(x),
{
    let e = Seq::<Seq<char>>::empty();
    lemma_add_all(e, protocols_enum_names(ps));
    assert forall|x: Seq<char>|
        #[trigger] add_all(seq![], protocols_enum_names(ps)).contains(x) <==> protocols_enum_names(ps).contains(x) by {
        if e.contains(x) {
            let i = choose|i: int| 0 <= i < e.len() && e[i] == x;
        }
    }
}

/// Whether protocol file `p` has a domain named `n`.
pub open spec fn has_domain(p: SpecProtocol, n: Seq<char>) -> bool {
    exists|j: int| 0 <= j < p.domains.len() && #[trigger] p.domains[j].name == n
}

proof fn lemma_record_domains(m: Map<Seq<char>, usize>, ds: Seq<SpecDomain>, file: usize, n: Seq<char>)
    ensures
        record_domains(m, ds, file).contains_key(n) <==> (m.contains_key(n) || exists|j: int|
            0 <= j < ds.len() && #[trigger] ds[j].name == n),
        (exists|j: int| 0 <= j < ds.len() && #[trigger] ds[j].name == n) ==> record_domains(m, ds, file)[n] == file,
        !(exists|j: int| 0 <= j < ds.len() && #[trigger] ds[j].name == n) ==> record_domains(m, ds, file)[n] == m[n],
    decreases ds.len(),
{
    if ds.len() > 0 {
        let init = ds.drop_last();
        lemma_record_domains(m, init, file, n);
        if exists|j: int| 0 <= j < init.len() && #[trigger] init[j].name == n {
            let j = choose|j: int| 0 <= j < init.len() && #[trigger] init[j].name == n;
            assert(ds[j].name == n);
        }
        if exists|j: int| 0 <= j < ds.len() && #[trigger] ds[j].name == n {
            let j = choose|j: int| 0 <= j < ds.len() && #[trigger] ds[j].name == n;
            if j < ds.len() - 1 {
                assert(init[j].name == n);
            }
        }
    }
}

/// The domain index the generator builds records every domain of every
/// protocol file, and only those, each with the last file that has a domain
/// of that name.
pub proof fn law_domain_index_records_last_file(ps: Seq<SpecProtocol>, n: Seq<char>)
    requires
        ps.len() <= usize::MAX,
    ensures
        spec_domain_index(ps).contains_key(n) <==> exists|i: int| 0 <= i < ps.len() && #[trigger] has_domain(ps[i], n),
        spec_domain_index(ps).contains_key(n) ==> {
            let f = spec_domain_index(ps)[n] as int;
            &&& 0 <= f < ps.len()
            &&& has_domain(ps[f], n)
            &&& forall|i: int| f < i < ps.len() ==> !#[trigger] has_domain(ps[i], n)
        },
    decreases ps.len(),
{
    if ps.len() > 0 {
        let init = ps.drop_last();
        law_domain_index_records_last_file(init, n);
        let last = ps.last();
        lemma_record_domains(spec_domain_index(init), last.domains, (ps.len() - 1) as usize, n);
        assert(has_domain(last, n) <==> exists|j: int| 0 <= j < last.domains.len() && #[trigger] last.domains[j].name == n);
        assert(has_domain(ps[ps.len() - 1], n) == has_domain(last, n));
        if exists|i: int| 0 <= i < init.len() && #[trigger] has_domain(init[i], n) {
            let i = choose|i: int| 0 <= i < init.len() && #[trigger] has_domain(init[i], n);
            assert(has_domain(ps[i], n));
        }
        if exists|i: int| 0 <= i < ps.len() && #[trigger] has_domain(ps[i], n) {
            let i = choose|i: int| 0 <= i < ps.len() && #[trigger] has_domain(ps[i], n);
            if i < ps.len() - 1 {
                assert(init[i] == ps[i]);
            }
        }
        if has_domain(last, n) {
            assert(spec_domain_index(ps)[n] == (ps.len() - 1) as usize);
            assert(((ps.len() - 1) as usize) as int == ps.len() - 1);
        }
        if spec_domain_index(ps).contains_key(n) && !has_domain(last, n) {
            let f = spec_domain_index(init)[n] as int;
            assert(init[f] == ps[f]);
            assert forall|i: int| f < i < ps.len() implies !#[trigger] has_domain(ps[i], n) by {
                if i < ps.len() - 1 {
                    assert(init[i] == ps[i]);
                }
            }
        }
    }
}

} // verus!
