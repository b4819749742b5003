use chromist::codegen::{
    build_fields, collect_domains, collect_enum_types, global_event_entries, has_mandatory, map_cdp_type,
    method_identifier, primitive_base, primitive_impls, resolve_ref_type, type_name_with_suffix, EnumSerde,
    RustBase, StructBuilder,
};
use chromist::naming::RefPath;
use chromist::pdl::{parse, CdpType, EnumVariant, PrimitiveType, Property, Protocol};

fn protocol(text: &str) -> Protocol {
    parse(text).expect("valid PDL")
}

fn two_files() -> Vec<Protocol> {
    vec![
        protocol(
            "version\n  major 1\n  minor 0\n\ndomain Page\n  type FrameId extends string\n  type Mode extends string\n    enum\n      a\n      b\n  event loadEventFired\n  event frameNavigated\n\ndomain Network\n  type Kind extends string\n    enum\n      x\n",
        ),
        protocol(
            "version\n  major 1\n  minor 0\n\ndomain Runtime\n  type Mode extends string\n    enum\n      y\n  event consoleAPICalled\n\ndomain Page\n",
        ),
    ]
}

fn prop(name: &str, optional: bool, kind: CdpType) -> Property {
    Property {
        name: name.to_string(),
        description: None,
        experimental: false,
        deprecated: false,
        optional,
        kind,
    }
}

#[test]
fn domain_index_keeps_the_last_file_of_each_domain() {
    let ps = two_files();
    let index = collect_domains(&ps);
    assert_eq!(index.get("Page"), Some(&1));
    assert_eq!(index.get("Network"), Some(&0));
    assert_eq!(index.get("Runtime"), Some(&1));
    assert_eq!(index.get("DOM"), None);
    assert_eq!(index.len(), 3);
}

#[test]
fn enum_types_are_collected_once_in_order() {
    let ps = two_files();
    assert_eq!(collect_enum_types(&ps), vec!["Page.Mode", "Network.Kind", "Runtime.Mode"]);
}

#[test]
fn references_resolve_through_the_domain_index() {
    let ps = two_files();
    let index = collect_domains(&ps);
    assert_eq!(resolve_ref_type("FrameId", "Page", 1, &index), RefPath::Local("FrameId".to_string()));
    assert_eq!(resolve_ref_type("Page.FrameId", "Page", 1, &index), RefPath::Local("FrameId".to_string()));
    assert_eq!(
        resolve_ref_type("Network.Kind", "Runtime", 1, &index),
        RefPath::OtherFile { file: 0, domain_module: "network".to_string(), type_ident: "Kind".to_string() }
    );
    assert_eq!(
        resolve_ref_type("Runtime.Mode", "Page", 1, &index),
        RefPath::SameFile { domain_module: "runtime".to_string(), type_ident: "Mode".to_string() }
    );
    assert_eq!(
        resolve_ref_type("Unknown.Thing", "Page", 1, &index),
        RefPath::SameFile { domain_module: "unknown".to_string(), type_ident: "Thing".to_string() }
    );
}

#[test]
fn protocol_types_map_to_rust_types() {
    let index = collect_domains(&two_files());
    let t = map_cdp_type(&CdpType::Integer, "Page", "Frame", 0, &index);
    assert!(t.inner == RustBase::I64 && !t.is_vec && !t.needs_box);
    let t = map_cdp_type(&CdpType::Any, "Page", "Frame", 0, &index);
    assert!(t.inner == RustBase::Json);
    let t = map_cdp_type(&CdpType::Array(Box::new(CdpType::String)), "Page", "Frame", 0, &index);
    assert!(t.inner == RustBase::Str && t.is_vec && !t.needs_box);
    let t = map_cdp_type(&CdpType::Ref("Frame".to_string()), "Page", "Frame", 0, &index);
    assert!(t.inner == RustBase::Path(RefPath::Local("Frame".to_string())) && t.needs_box && !t.is_vec);
    let t = map_cdp_type(&CdpType::Ref("FrameId".to_string()), "Page", "Frame", 0, &index);
    assert!(!t.needs_box);
    let t = map_cdp_type(&CdpType::InlineEnum(vec![]), "Page", "Frame", 0, &index);
    assert!(t.inner == RustBase::Json);
}

#[test]
fn fields_follow_their_properties() {
    let index = collect_domains(&two_files());
    let enums = vec!["Page.Mode".to_string()];
    let props = vec![
        prop("type", false, CdpType::String),
        prop("mode", true, CdpType::Ref("Mode".to_string())),
        prop("level", false, CdpType::InlineEnum(vec![EnumVariant { name: "log".to_string(), description: None }])),
        prop("frameIds", true, CdpType::Array(Box::new(CdpType::Ref("FrameId".to_string())))),
    ];
    let (fields, inline) = build_fields(&props, "ConsoleMessage", "Page", 0, &index, &enums);
    assert_eq!(fields.len(), 4);
    assert_eq!(fields[0].rust_name, "r#type");
    assert_eq!(fields[0].cdp_name, "type");
    assert!(fields[0].enum_serde == EnumSerde::Plain);
    assert!(fields[1].enum_serde == EnumSerde::FromStrOptional);
    assert!(fields[1].base_ty == RustBase::Path(RefPath::Local("Mode".to_string())));
    assert!(fields[2].base_ty == RustBase::Path(RefPath::Local("ConsoleMessageLevel".to_string())));
    assert!(fields[2].enum_serde == EnumSerde::Plain);
    assert_eq!(fields[3].rust_name, "frame_ids");
    assert!(fields[3].is_vec && fields[3].optional);
    assert_eq!(inline.len(), 1);
    assert_eq!(inline[0].name, "ConsoleMessageLevel");
    assert_eq!(inline[0].variants[0].name, "log");
}

#[test]
fn constructors_and_string_conversions_follow_mandatory_fields() {
    let index = collect_domains(&two_files());
    let props = vec![prop("url", false, CdpType::String), prop("referrer", true, CdpType::String)];
    let (fields, _) = build_fields(&props, "NavigateParams", "Page", 0, &index, &vec![]);
    assert!(has_mandatory(&fields));
    let mut sb = StructBuilder::new("NavigateParams".to_string());
    sb.fields = fields;
    assert_eq!(sb.mandatory_fields(), vec![0]);
    assert!(sb.has_constructor());
    assert!(sb.has_string_from());

    let many: Vec<Property> = (0..5).map(|i| prop(&format!("f{i}"), false, CdpType::Integer)).collect();
    let (fields, _) = build_fields(&many, "Big", "Page", 0, &index, &vec![]);
    let mut big = StructBuilder::new("Big".to_string());
    big.fields = fields;
    assert!(!big.has_constructor());
    assert!(!big.has_string_from());

    let none = vec![prop("x", true, CdpType::Integer)];
    let (fields, _) = build_fields(&none, "Opt", "Page", 0, &index, &vec![]);
    assert!(!has_mandatory(&fields));
    let mut opt = StructBuilder::new("Opt".to_string());
    opt.fields = fields;
    assert!(!opt.has_constructor());
    assert!(opt.mandatory_fields().is_empty());
}

#[test]
fn primitive_aliases_get_their_impls() {
    let i = primitive_impls(PrimitiveType::Integer, "NodeId");
    assert!(i.eq_hash && i.copy && !i.string_conversions && !i.borrow_str);
    let s = primitive_impls(PrimitiveType::String, "FrameId");
    assert!(s.eq_hash && !s.copy && s.string_conversions && s.borrow_str);
    let u = primitive_impls(PrimitiveType::String, "Url");
    assert!(u.string_conversions && !u.borrow_str);
    let n = primitive_impls(PrimitiveType::Number, "TimeSinceEpoch");
    assert!(!n.eq_hash && !n.copy && !n.string_conversions && !n.borrow_str);
    assert!(primitive_base(PrimitiveType::Object) == RustBase::Json);
    assert!(primitive_base(PrimitiveType::Binary) == RustBase::Binary);
}

#[test]
fn generated_names() {
    assert_eq!(method_identifier("Page", "navigate"), "Page.navigate");
    assert_eq!(type_name_with_suffix("navigate", "Params"), "NavigateParams");
    assert_eq!(type_name_with_suffix("loadEventFired", "Event"), "LoadEventFiredEvent");
}

#[test]
fn event_entries_cover_every_event_in_order() {
    let ps = two_files();
    let index = collect_domains(&ps);
    let entries = global_event_entries(&ps, &index);
    assert_eq!(entries.len(), 3);
    assert_eq!(entries[0].variant, "PageLoadEventFired");
    assert_eq!(entries[0].struct_name, "LoadEventFiredEvent");
    assert_eq!(entries[0].method_id, "Page.loadEventFired");
    assert_eq!(entries[0].domain_module, "page");
    assert_eq!(entries[0].file, 1);
    assert_eq!(entries[2].variant, "RuntimeConsoleApiCalled");
    assert_eq!(entries[2].file, 1);
}
