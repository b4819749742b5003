use chromist::pdl::{parse, parse_base_type, parse_primitive, CdpType, ParseError, PrimitiveType, TypeKind};
use chromist::pdl::{Command, Domain, EnumVariant, Event, Property, Protocol, TypeDef, Version};

#[test]
fn parse_minimal() {
    let pdl = r#"
version
  major 1
  minor 2

experimental domain DummyDomain
  depends on DOM

  # node identifier.
  type NodeId extends string

  type SomeValueType extends string
    enum
      boolean
      undefined
      booleanOrUndefined

  type ConsoleMessage extends object
    properties
      string text
      optional string url
      optional integer line

  command navigate
    parameters
      string url
    returns
      NodeId frameId

  event loadEventFired
    parameters
      number timestamp
"#;
    let proto = parse(pdl).unwrap();
    assert_eq!(proto.version.major, "1");
    assert_eq!(proto.version.minor, "2");
    assert_eq!(proto.domains.len(), 1);
    let dom = &proto.domains[0];
    assert_eq!(dom.name, "DummyDomain");
    assert!(dom.experimental);
    assert_eq!(dom.dependencies, vec!["DOM"]);
    assert_eq!(dom.types.len(), 3);
    assert_eq!(dom.commands.len(), 1);
    assert_eq!(dom.events.len(), 1);

    assert!(matches!(dom.types[0].kind, TypeKind::Primitive(PrimitiveType::String)));

    if let TypeKind::Enum(vars) = &dom.types[1].kind {
        assert_eq!(vars.len(), 3);
        assert_eq!(vars[0].name, "boolean");
    } else {
        panic!("expected enum");
    }

    if let TypeKind::Object(props) = &dom.types[2].kind {
        assert_eq!(props.len(), 3);
        assert!(!props[0].optional);
        assert!(props[1].optional);
    } else {
        panic!("expected object");
    }

    let cmd = &dom.commands[0];
    assert_eq!(cmd.name, "navigate");
    assert_eq!(cmd.parameters.len(), 1);
    assert_eq!(cmd.returns.len(), 1);

    let ev = &dom.events[0];
    assert_eq!(ev.name, "loadEventFired");
    assert_eq!(ev.parameters.len(), 1);
}

#[test]
fn empty_input_is_rejected() {
    assert!(parse("").is_err());
}

#[test]
fn comments_and_blank_lines_are_ignored() {
    let pdl = r#"
# leading comment
version
  major 1
  minor 0

# between domains

domain Foo
  # a type
  type Id extends string
"#;
    let proto = parse(pdl).unwrap();
    assert_eq!(proto.version.major, "1");
    assert_eq!(proto.domains.len(), 1);
    assert_eq!(proto.domains[0].types.len(), 1);
}

#[test]
fn deprecated_and_experimental_domain_flags() {
    let pdl = r#"
version
  major 1
  minor 0

experimental deprecated domain Weird
  type X extends string
"#;
    let proto = parse(pdl).unwrap();
    let d = &proto.domains[0];
    assert!(d.experimental);
    assert!(d.deprecated);
}

#[test]
fn primitive_type_aliases() {
    let pdl = r#"
version
  major 1
  minor 0

domain P
  type I extends integer
  type N extends number
  type B extends boolean
  type S extends string
  type O extends object
  type A extends any
"#;
    let proto = parse(pdl).unwrap();
    let types = &proto.domains[0].types;
    assert!(matches!(types[0].kind, TypeKind::Primitive(PrimitiveType::Integer)));
    assert!(matches!(types[1].kind, TypeKind::Primitive(PrimitiveType::Number)));
    assert!(matches!(types[2].kind, TypeKind::Primitive(PrimitiveType::Boolean)));
    assert!(matches!(types[3].kind, TypeKind::Primitive(PrimitiveType::String)));
    assert!(matches!(types[4].kind, TypeKind::Primitive(PrimitiveType::Object)));
    assert!(matches!(types[5].kind, TypeKind::Primitive(PrimitiveType::Any)));
}

#[test]
fn parse_base_type_refs_unknown() {
    assert_eq!(parse_base_type("integer"), CdpType::Integer);
    assert_eq!(parse_base_type("Foo.Bar"), CdpType::Ref("Foo.Bar".to_string()));
}

#[test]
fn parse_primitive_rejects_non_primitive() {
    assert!(parse_primitive("not_a_type").is_none());
    assert_eq!(parse_primitive("integer"), Some(PrimitiveType::Integer));
}

#[test]
fn multiple_dependencies() {
    let pdl = r#"
version
  major 1
  minor 0

domain Page
  depends on DOM
  depends on Network
"#;
    let proto = parse(pdl).unwrap();
    assert_eq!(proto.domains[0].dependencies, vec!["DOM", "Network"]);
}

#[test]
fn command_without_parameters_or_returns() {
    let pdl = r#"
version
  major 1
  minor 0

domain D
  command ping
"#;
    let proto = parse(pdl).unwrap();
    let cmd = &proto.domains[0].commands[0];
    assert_eq!(cmd.name, "ping");
    assert!(cmd.parameters.is_empty());
    assert!(cmd.returns.is_empty());
}

#[test]
fn property_optional_flag() {
    let pdl = r#"
version
  major 1
  minor 0

domain D
  type Foo extends object
    properties
      string required
      optional integer maybe
"#;
    let proto = parse(pdl).unwrap();
    if let TypeKind::Object(props) = &proto.domains[0].types[0].kind {
        assert_eq!(props.len(), 2);
        assert!(!props[0].optional);
        assert!(props[1].optional);
    } else {
        panic!("expected object");
    }
}

#[test]
fn parse_error_is_returned_for_malformed_indent() {
    let pdl = "definitely not pdl syntax\n";
    let result = parse(pdl);
    assert!(result.is_err(), "expected parse error, got: {:?}", result);
}

#[test]
fn parse_error_display_syntax() {
    let e = ParseError::Syntax { line: 5, message: "boom".into() };
    assert!(e.to_display_string().contains("boom"));
    assert!(e.to_display_string().contains("5"));
}

#[test]
fn parse_error_display_missing_header() {
    let e = ParseError::MissingHeader("no version".into());
    assert_eq!(e.to_display_string(), "no version");
}

#[test]
fn inline_enum_on_parameter() {
    let pdl = r#"
version
  major 1
  minor 0

domain D
  command send
    parameters
      enum level
        verbose
        info
        warning
"#;
    let proto = parse(pdl).unwrap();
    let param = &proto.domains[0].commands[0].parameters[0];
    assert_eq!(param.name, "level");
    if let CdpType::InlineEnum(variants) = &param.kind {
        assert_eq!(variants.len(), 3);
        assert_eq!(variants[0].name, "verbose");
        assert_eq!(variants[2].name, "warning");
    } else {
        panic!("expected InlineEnum, got {:?}", param.kind);
    }
}

#[test]
fn event_with_no_parameters() {
    let pdl = r#"
version
  major 1
  minor 0

domain D
  event ready
"#;
    let proto = parse(pdl).unwrap();
    let ev = &proto.domains[0].events[0];
    assert_eq!(ev.name, "ready");
    assert!(ev.parameters.is_empty());
}

#[test]
fn parse_rejects_empty_input() {
    let err = parse("").expect_err("empty input must fail");
    assert!(matches!(err, ParseError::MissingHeader(_)));
}

#[test]
fn parse_rejects_whitespace_only_input() {
    let err = parse("   \n\n\t\n").expect_err("whitespace-only input must fail");
    assert!(matches!(err, ParseError::MissingHeader(_)));
}

#[test]
fn parse_rejects_comments_without_version_header() {
    let err = parse("# just a comment\n# another one\n").expect_err("comment-only input must fail");
    assert!(matches!(err, ParseError::MissingHeader(_)));
}

#[test]
fn parse_accepts_minimal_version_only_protocol() {
    let src = "version\n  major 1\n  minor 3\n";
    let proto = parse(src).expect("minimal protocol parses");
    assert_eq!(proto.version.major, "1");
    assert_eq!(proto.version.minor, "3");
    assert!(proto.domains.is_empty());
}

#[test]
fn missing_header_message_is_exact() {
    let err = parse("domain Lonely\n").expect_err("no version header");
    assert_eq!(err.to_display_string(), "Missing version header");
}

#[test]
fn syntax_error_message_names_the_line() {
    let e = ParseError::Syntax { line: 12, message: "unexpected token".into() };
    assert_eq!(e.to_display_string(), "line 12: unexpected token");
}

#[test]
fn canonical_text_parses_back_to_the_protocol() {
    let text = "version\n  major 1\n  minor 3\n\nexperimental domain Dx\n  depends on Dy\n  type Tp extends integer\n  deprecated type Te extends string\n    enum\n      Va\n      Vb\n  type To extends object\n    properties\n      optional string fa\n      array of Tp fb\n  type Ta extends array of number\n  type Tr extends Tp\n  experimental command cGo\n    parameters\n      deprecated boolean fc\n    returns\n      any fd\n  event eDone\n\ndomain Dy\n";
    let prop = |name: &str, optional: bool, deprecated: bool, kind: CdpType| Property {
        name: name.to_string(),
        description: None,
        experimental: false,
        deprecated,
        optional,
        kind,
    };
    let ty = |id: &str, deprecated: bool, kind: TypeKind| TypeDef {
        id: id.to_string(),
        description: None,
        experimental: false,
        deprecated,
        kind,
    };
    let expected = Protocol {
        version: Version { major: "1".to_string(), minor: "3".to_string() },
        domains: vec![
            Domain {
                name: "Dx".to_string(),
                description: None,
                experimental: true,
                deprecated: false,
                dependencies: vec!["Dy".to_string()],
                types: vec![
                    ty("Tp", false, TypeKind::Primitive(PrimitiveType::Integer)),
                    ty(
                        "Te",
                        true,
                        TypeKind::Enum(vec![
                            EnumVariant { name: "Va".to_string(), description: None },
                            EnumVariant { name: "Vb".to_string(), description: None },
                        ]),
                    ),
                    ty(
                        "To",
                        false,
                        TypeKind::Object(vec![
                            prop("fa", true, false, CdpType::String),
                            prop("fb", false, false, CdpType::Array(Box::new(CdpType::Ref("Tp".to_string())))),
                        ]),
                    ),
                    ty("Ta", false, TypeKind::Array(Box::new(CdpType::Number))),
                    ty("Tr", false, TypeKind::Ref("Tp".to_string())),
                ],
                commands: vec![Command {
                    name: "cGo".to_string(),
                    description: None,
                    experimental: true,
                    deprecated: false,
                    parameters: vec![prop("fc", false, true, CdpType::Boolean)],
                    returns: vec![prop("fd", false, false, CdpType::Any)],
                }],
                events: vec![Event {
                    name: "eDone".to_string(),
                    description: None,
                    experimental: false,
                    deprecated: false,
                    parameters: vec![],
                }],
            },
            Domain {
                name: "Dy".to_string(),
                description: None,
                experimental: false,
                deprecated: false,
                dependencies: vec![],
                types: vec![],
                commands: vec![],
                events: vec![],
            },
        ],
    };
    let parsed = parse(text).expect("canonical text parses");
    assert_eq!(parsed, expected);
}

#[test]
fn unrecognised_top_level_line_is_an_error() {
    let r = parse("version\n  major 1\n  minor 0\nbogus line\n");
    match r {
        Err(ParseError::Syntax { line, message }) => {
            assert_eq!(line, 4);
            assert_eq!(message, "unrecognised top-level line 'bogus line'");
        }
        other => panic!("expected a syntax error, got {:?}", other.map(|_| ())),
    }
}
