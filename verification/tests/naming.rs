use chromist::naming::{ref_domain_snake, 
    enum_variant_name, field_name, from_str_patterns, is_enum_type, list_setter_names,
    qualified_type, ref_domain, ref_path, RefPath,
};
use chromist::pdl::{CdpType, EnumVariant};

#[test]
fn field_names_are_snake_case_and_escape_keywords() {
    assert_eq!(field_name("frameId"), "frame_id");
    assert_eq!(field_name("type"), "r#type");
    assert_eq!(field_name("override"), "r#override");
    assert_eq!(field_name("URL"), "url");
    assert_eq!(field_name("typeName"), "type_name");
}

#[test]
fn enum_variants_are_camel_case_except_self() {
    assert_eq!(enum_variant_name("Self"), "KSelf");
    assert_eq!(enum_variant_name("self"), "KSelf");
    assert_eq!(enum_variant_name("same-site"), "SameSite");
    assert_eq!(enum_variant_name("ltr"), "Ltr");
}

#[test]
fn from_str_accepts_each_spelling_once() {
    assert_eq!(from_str_patterns("ltr"), vec!["ltr", "Ltr"]);
    assert_eq!(from_str_patterns("Self"), vec!["Self", "KSelf", "self"]);
    assert_eq!(from_str_patterns("Strict"), vec!["Strict", "strict"]);
    assert_eq!(from_str_patterns("same-site"), vec!["same-site", "SameSite"]);
}

#[test]
fn list_setters_use_the_singular_form() {
    assert_eq!(list_setter_names("args"), ("args".to_string(), "arg".to_string()));
    assert_eq!(list_setter_names("frame_id"), ("frame_ids".to_string(), "frame_id".to_string()));
    assert_eq!(list_setter_names("types"), ("types".to_string(), "r#type".to_string()));
}

#[test]
fn enum_types_are_found_by_their_full_name() {
    let enums = vec!["Page.DialogType".to_string(), "Network.CookieSameSite".to_string()];
    assert_eq!(qualified_type("Page", "DialogType"), "Page.DialogType");
    assert_eq!(qualified_type("Page", "Network.CookieSameSite"), "Network.CookieSameSite");
    assert!(is_enum_type(&CdpType::Ref("DialogType".into()), "Page", &enums));
    assert!(is_enum_type(&CdpType::Ref("Network.CookieSameSite".into()), "Page", &enums));
    assert!(!is_enum_type(&CdpType::Ref("FrameId".into()), "Page", &enums));
    assert!(!is_enum_type(&CdpType::Ref("DialogType".into()), "Network", &enums));
    let inline = CdpType::InlineEnum(vec![EnumVariant { name: "a".into(), description: None }]);
    assert!(is_enum_type(&inline, "Page", &enums));
    assert!(!is_enum_type(&CdpType::String, "Page", &enums));
}

#[test]
fn reference_paths_follow_domain_and_file() {
    assert_eq!(ref_domain("Network.LoaderId"), Some("Network".to_string()));
    assert_eq!(ref_domain("FrameId"), None);
    assert_eq!(ref_path("FrameId", "Page", 0, None), RefPath::Local("FrameId".into()));
    assert_eq!(ref_path("Page.frameId", "Page", 0, Some(0)), RefPath::Local("FrameId".into()));
    assert_eq!(
        ref_path("Network.LoaderId", "Page", 0, Some(0)),
        RefPath::SameFile { domain_module: "network".into(), type_ident: "LoaderId".into() }
    );
    assert_eq!(
        ref_path("Runtime.RemoteObject", "DOM", 0, Some(1)),
        RefPath::OtherFile { file: 1, domain_module: "runtime".into(), type_ident: "RemoteObject".into() }
    );
    assert_eq!(
        ref_path("Unknown.Thing", "DOM", 1, None),
        RefPath::SameFile { domain_module: "unknown".into(), type_ident: "Thing".into() }
    );
}

#[test]
fn domain_module_names_are_snake_case() {
    assert_eq!(ref_domain_snake("ServiceWorker"), "service_worker");
    assert_eq!(ref_domain_snake("Page"), "page");
}
