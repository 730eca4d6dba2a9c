use react_docgen_core::resolver::tsconfig_aliases;
use react_docgen_core::resolver::tsconfig::{tsconfig_paths_from_text, tsconfig_paths_of, JsonValue};
use react_docgen_core::react_types::react_19;
use react_docgen_core::resolver::prop_types::try_expand_template_literal;
use react_docgen_core::resolver::chain::resolve_props_chain;
use react_docgen_core::resolver::context::{is_declared_at, lookup_interface_at};
use react_docgen_core::resolver::{
    find_discriminant_prop, resolve_collected_type, resolve_component, strip_json_comments, ResolutionContext,
};
use react_docgen_core::types::{
    CollectedInterface, CollectedType, CollectedTypeAlias, ComponentMapping, DefaultSource, Diagnostic,
    DiagnosticCode, ExtendsRef, GlobalSourceData, OpaqueReason, ParsedProp, PropType, RawDefault, RawProp,
};

fn ctx_of(global: GlobalSourceData) -> ResolutionContext {
    ResolutionContext::new(global, vec![], react_19(), vec![])
}

fn empty_ctx() -> ResolutionContext {
    ctx_of(GlobalSourceData::default())
}

fn resolve_type(ct: &CollectedType, ctx: &ResolutionContext) -> PropType {
    let mut visited: Vec<String> = Vec::new();
    let mut diagnostics: Vec<Diagnostic> = Vec::new();
    resolve_collected_type(ct, "/test/button.tsx", ctx, &mut visited, 0, &mut diagnostics)
}

fn mapping(file: &str, param_defaults: Vec<(String, RawDefault)>) -> ComponentMapping {
    ComponentMapping {
        component_name: "Button".into(),
        props_type_name: "ButtonProps".into(),
        props_type_args: vec![],
        file_path: file.into(),
        description: String::new(),
        tags: vec![],
        span_start: 0,
        span_end: 0,
        param_defaults,
    }
}

fn interface(file: &str, props: Vec<RawProp>, extends: Vec<ExtendsRef>) -> (String, CollectedInterface) {
    let scoped_key = format!("{}:ButtonProps", file);
    (
        scoped_key.clone(),
        CollectedInterface {
            scoped_key,
            name: "ButtonProps".into(),
            file_path: file.into(),
            props,
            extends,
            description: String::new(),
            tags: vec![],
        },
    )
}

fn raw_prop(name: &str, collected_type: CollectedType, tags: Vec<(String, String)>) -> RawProp {
    RawProp {
        name: name.into(),
        collected_type,
        required: false,
        description: String::new(),
        tags,
        span_start: 0,
        span_end: 0,
    }
}

#[test]
fn test_string_literal_union() {
    let ctx = empty_ctx();
    let ct = CollectedType::Union(vec![
        CollectedType::StringLiteral("default".into()),
        CollectedType::StringLiteral("destructive".into()),
        CollectedType::StringLiteral("outline".into()),
    ]);
    let result = resolve_type(&ct, &ctx);
    assert!(matches!(&result, PropType::Union(members) if members.len() == 3), "got {:?}", result);
}

#[test]
fn test_simple_interface_resolution() {
    let file = "/test/types.ts";
    let mut global = GlobalSourceData::default();
    global.interfaces.push(interface(
        file,
        vec![RawProp {
            description: "The visual variant".into(),
            ..raw_prop(
                "variant",
                CollectedType::Union(vec![
                    CollectedType::StringLiteral("default".into()),
                    CollectedType::StringLiteral("destructive".into()),
                ]),
                vec![],
            )
        }],
        vec![],
    ));
    let ctx = ctx_of(global);
    let (entry, _diagnostics) = resolve_component(&mapping(file, vec![]), &ctx);
    let variant_prop = entry.props.iter().find(|p| p.name == "variant").expect("variant prop should exist");
    assert!(matches!(&variant_prop.prop_type, PropType::Union(m) if m.len() == 2));
}

#[test]
fn test_string_and_empty_object_normalizes_to_string() {
    let ctx = empty_ctx();
    let ct = CollectedType::Intersection(vec![CollectedType::String, CollectedType::Object(vec![])]);
    assert_eq!(resolve_type(&ct, &ctx), PropType::String);
}

#[test]
fn test_sx_props_known_pattern() {
    let ctx = empty_ctx();
    let ct = CollectedType::Named { name: "SxProps".into(), args: vec![] };
    assert_eq!(resolve_type(&ct, &ctx), PropType::SxProps);
}

#[test]
fn test_indexed_access_css_properties_string_key() {
    let ctx = empty_ctx();
    let ct = CollectedType::IndexedAccess {
        obj: Box::new(CollectedType::Named { name: "CSSProperties".into(), args: vec![] }),
        key: Box::new(CollectedType::StringLiteral("justifyContent".into())),
    };
    assert_eq!(resolve_type(&ct, &ctx), PropType::String);
}

#[test]
fn test_indexed_access_css_properties_numeric_key() {
    let ctx = empty_ctx();
    let ct = CollectedType::IndexedAccess {
        obj: Box::new(CollectedType::Named { name: "CSSProperties".into(), args: vec![] }),
        key: Box::new(CollectedType::StringLiteral("zIndex".into())),
    };
    assert_eq!(resolve_type(&ct, &ctx), PropType::Number);
}

#[test]
fn test_primitive_types() {
    let ctx = empty_ctx();
    assert_eq!(resolve_type(&CollectedType::String, &ctx), PropType::String);
    assert_eq!(resolve_type(&CollectedType::Number, &ctx), PropType::Number);
    assert_eq!(resolve_type(&CollectedType::Boolean, &ctx), PropType::Boolean);
    assert_eq!(resolve_type(&CollectedType::Null, &ctx), PropType::Null);
    assert_eq!(resolve_type(&CollectedType::Undefined, &ctx), PropType::Undefined);
    assert_eq!(resolve_type(&CollectedType::Any, &ctx), PropType::Any);
    assert_eq!(resolve_type(&CollectedType::Never, &ctx), PropType::Never);
    assert_eq!(resolve_type(&CollectedType::Unknown, &ctx), PropType::Unknown);
    assert_eq!(resolve_type(&CollectedType::Void, &ctx), PropType::Void);
}

#[test]
fn test_react_node() {
    let ctx = empty_ctx();
    let ct = CollectedType::Named { name: "ReactNode".into(), args: vec![] };
    assert_eq!(resolve_type(&ct, &ctx), PropType::ReactNode);
}

#[test]
fn test_css_properties() {
    let ctx = empty_ctx();
    let ct = CollectedType::Named { name: "CSSProperties".into(), args: vec![] };
    assert_eq!(resolve_type(&ct, &ctx), PropType::CssProperties);
}

#[test]
fn test_ref_type() {
    let ctx = empty_ctx();
    let ct = CollectedType::Named {
        name: "Ref".into(),
        args: vec![CollectedType::Named { name: "HTMLButtonElement".into(), args: vec![] }],
    };
    let result = resolve_type(&ct, &ctx);
    assert!(
        matches!(&result, PropType::Ref { element: Some(e) } if e == "HTMLButtonElement"),
        "Expected Ref<HTMLButtonElement>, got {:?}",
        result
    );
}

#[test]
fn test_element_type() {
    let ctx = empty_ctx();
    let ct = CollectedType::Named { name: "ElementType".into(), args: vec![] };
    assert_eq!(resolve_type(&ct, &ctx), PropType::ElementType);
}

#[test]
fn test_default_value_jsdoc_mismatch_emits_diagnostic() {
    let file = "/test/types.ts";
    let mut global = GlobalSourceData::default();
    global.interfaces.push(interface(
        file,
        vec![raw_prop("variant", CollectedType::String, vec![("default".into(), "outline".into())])],
        vec![],
    ));
    let ctx = ctx_of(global);
    let defaults = vec![(
        "variant".to_string(),
        RawDefault { value: "\"default\"".into(), computed: false, source: DefaultSource::Destructuring },
    )];
    let (entry, diagnostics) = resolve_component(&mapping(file, defaults), &ctx);
    let variant_prop = entry.props.iter().find(|p| p.name == "variant").expect("variant prop");
    // The code default wins.
    assert_eq!(variant_prop.default_value.as_ref().map(|d| d.value.as_str()), Some("\"default\""));
    assert!(
        diagnostics.iter().any(|d| d.code == DiagnosticCode::JsDocDefaultMismatch),
        "Expected JsDocDefaultMismatch diagnostic"
    );
}

fn literal_prop(name: &str, value: &str) -> ParsedProp {
    ParsedProp {
        name: name.into(),
        prop_type: PropType::StringLiteral(value.into()),
        required: true,
        default_value: None,
        description: String::new(),
        tags: vec![],
        parent: None,
        declarations: vec![],
    }
}

#[test]
fn test_discriminated_union_detection() {
    let members: Vec<(&str, Vec<ParsedProp>)> = vec![
        ("ButtonBaseProps", vec![literal_prop("variant", "default")]),
        ("ButtonOutlineProps", vec![literal_prop("variant", "outline")]),
    ];
    assert_eq!(find_discriminant_prop(&members), Some("variant".to_string()));
}

#[test]
fn test_extends_builtin_html_attrs_creates_inherited_layer() {
    let file = "/test/button.tsx";
    let mut global = GlobalSourceData::default();
    global.interfaces.push(interface(
        file,
        vec![],
        vec![ExtendsRef::Builtin { name: "ButtonHTMLAttributes".into(), element: Some("button".into()), type_args: vec![] }],
    ));
    let ctx = ctx_of(global);
    let (entry, _diagnostics) = resolve_component(&mapping(file, vec![]), &ctx);
    assert!(
        entry.inheritance.iter().any(|l| l.html_element.as_deref() == Some("button")),
        "Expected 'button' in inheritance layers, got {:?}",
        entry.inheritance
    );
}

#[test]
fn test_array_type() {
    let ctx = empty_ctx();
    let ct = CollectedType::Array(Box::new(CollectedType::String));
    let result = resolve_type(&ct, &ctx);
    assert!(matches!(result, PropType::Array(inner) if *inner == PropType::String));
}

#[test]
fn test_template_literal_opaque_on_unknown_type() {
    let ctx = empty_ctx();
    // `compact-${UnknownSize}`: UnknownSize is not declared anywhere.
    let ct = CollectedType::TemplateLiteral(vec![
        CollectedType::StringLiteral("compact-".into()),
        CollectedType::Named { name: "UnknownSize".into(), args: vec![] },
    ]);
    let result = resolve_type(&ct, &ctx);
    assert!(
        matches!(result, PropType::Opaque { reason: OpaqueReason::TemplateLiteral { .. }, .. }),
        "Expected Opaque TemplateLiteral, got {:?}",
        result
    );
}

#[test]
fn test_template_literal_expansion() {
    let file = "/test/types.ts";
    let mut global = GlobalSourceData::default();
    global.type_aliases.push((
        format!("{}:Size", file),
        CollectedTypeAlias::LiteralUnion {
            members: vec!["sm".into(), "md".into(), "lg".into()],
            file_path: file.into(),
        },
    ));
    let ctx = ctx_of(global);
    let mut diagnostics: Vec<Diagnostic> = Vec::new();
    let parts = vec![CollectedType::StringLiteral("compact-".into()), CollectedType::StringLiteral("sm".into())];
    let result = try_expand_template_literal(&parts, "/test/types.ts", &ctx, 0, &mut diagnostics);
    assert_eq!(result, Some(vec!["compact-sm".to_string()]));
}

#[test]
fn test_conditional_type_is_opaque() {
    let ctx = empty_ctx();
    let ct = CollectedType::Conditional {
        check: Box::new(CollectedType::String),
        extends_type: Box::new(CollectedType::String),
        true_type: Box::new(CollectedType::Boolean),
        false_type: Box::new(CollectedType::Number),
    };
    let result = resolve_type(&ct, &ctx);
    assert!(matches!(result, PropType::Opaque { reason: OpaqueReason::ConditionalType, .. }), "got {:?}", result);
}

#[test]
fn test_mapped_type_is_opaque() {
    let ctx = empty_ctx();
    let ct = CollectedType::Mapped {
        key_type: Box::new(CollectedType::String),
        value_type: Box::new(CollectedType::Boolean),
    };
    let result = resolve_type(&ct, &ctx);
    assert!(matches!(result, PropType::Opaque { reason: OpaqueReason::MappedType, .. }), "got {:?}", result);
}

#[test]
fn test_function_type_single_param() {
    let ctx = empty_ctx();
    let ct = CollectedType::Function {
        params: vec![CollectedType::Named { name: "MouseEvent".into(), args: vec![] }],
        return_type: Box::new(CollectedType::Void),
    };
    let result = resolve_type(&ct, &ctx);
    assert!(
        matches!(&result, PropType::EventHandler { event_type } if event_type == "MouseEvent"),
        "Expected EventHandler<MouseEvent>, got {:?}",
        result
    );
}

#[test]
fn test_strip_json_comments() {
    let input = r#"{
  // This is a comment
  "compilerOptions": {
    "baseUrl": "./src", // another comment
    "paths": {
      "@lib/*": ["./src/lib/*"]
    }
  }
}"#;
    let stripped = strip_json_comments(input);
    let parsed: serde_json::Value = serde_json::from_str(&stripped).unwrap();
    assert_eq!(parsed["compilerOptions"]["baseUrl"].as_str(), Some("./src"));
}

#[test]
fn test_union_filters_undefined() {
    let ctx = empty_ctx();
    // string | undefined: the undefined member is dropped, the single rest unwrapped.
    let ct = CollectedType::Union(vec![CollectedType::String, CollectedType::Undefined]);
    assert_eq!(resolve_type(&ct, &ctx), PropType::String);
}

#[test]
fn strip_json_comments_removes_line_comments_outside_strings() {
    let src = "{\n  // leading comment\n  \"a\": 1, // trailing\n  \"url\": \"http://x\"\n}";
    assert_eq!(strip_json_comments(src), "{\n  \n  \"a\": 1, \n  \"url\": \"http://x\"\n}");
    assert_eq!(strip_json_comments("a\r\nb\n"), "a\nb");
}

#[test]
fn tsconfig_aliases_resolve_targets_against_base_url() {
    let paths = vec![
        ("@/*".to_owned(), Some(vec![Some("./src/*".to_owned()), None, Some("lib*".to_owned())])),
        ("ignored".to_owned(), None),
        ("@ui".to_owned(), Some(vec![Some("packages/ui".to_owned())])),
    ];
    let aliases = tsconfig_aliases("/repo/tsconfig.json", Some("."), &paths);
    assert_eq!(
        aliases,
        vec![
            ("@".to_owned(), vec!["/repo/././src".to_owned(), "/repo/./lib".to_owned()]),
            ("@ui".to_owned(), vec!["/repo/./packages/ui".to_owned()]),
        ]
    );
    let aliases = tsconfig_aliases("/repo/tsconfig.json", None, &paths);
    assert_eq!(aliases[0].1, vec!["/repo/./src".to_owned(), "/repo/lib".to_owned()]);
}

#[test]
fn own_props_take_priority_over_a_parents() {
    let file = "/test/button.tsx";
    let mut global = GlobalSourceData::default();
    global.interfaces.push((
        format!("{}:BaseProps", file),
        CollectedInterface {
            scoped_key: format!("{}:BaseProps", file),
            name: "BaseProps".into(),
            file_path: file.into(),
            props: vec![
                RawProp { description: "from parent".into(), ..raw_prop("size", CollectedType::Number, vec![]) },
                raw_prop("color", CollectedType::String, vec![]),
            ],
            extends: vec![],
            description: String::new(),
            tags: vec![],
        },
    ));
    global.interfaces.push(interface(
        file,
        vec![RawProp { description: "own".into(), ..raw_prop("size", CollectedType::String, vec![]) }],
        vec![ExtendsRef::SameFile { name: "BaseProps".into(), type_args: vec![] }],
    ));
    let ctx = ctx_of(global);
    let (entry, _diagnostics) = resolve_component(&mapping(file, vec![]), &ctx);
    let size = entry.props.iter().find(|p| p.name == "size").expect("size prop");
    assert_eq!(size.description, "own");
    assert_eq!(size.prop_type, PropType::String);
    assert!(entry.props.iter().any(|p| p.name == "color"), "the parent's other prop is kept");
    assert_eq!(entry.props.iter().filter(|p| p.name == "size").count(), 1);
}

#[test]
fn resolved_props_come_once_each_in_name_order() {
    let file = "/test/button.tsx";
    let mut global = GlobalSourceData::default();
    global.interfaces.push(interface(
        file,
        vec![
            raw_prop("zeta", CollectedType::String, vec![]),
            raw_prop("alpha", CollectedType::Number, vec![]),
            raw_prop("mid", CollectedType::Boolean, vec![]),
            raw_prop("alpha", CollectedType::String, vec![]),
        ],
        vec![],
    ));
    let ctx = ctx_of(global);
    let (entry, _diagnostics) = resolve_component(&mapping(file, vec![]), &ctx);
    let names: Vec<&str> = entry.props.iter().map(|p| p.name.as_str()).collect();
    assert_eq!(names, vec!["alpha", "mid", "zeta"]);
    // The first declaration of a repeated name is the one kept.
    assert_eq!(entry.props[0].prop_type, PropType::Number);
}

#[test]
fn tsconfig_text_with_comments_gives_its_aliases() {
    let text = "{\n  // paths for the app\n  \"compilerOptions\": {\n    \"baseUrl\": \"src\",\n    \"paths\": { \"@/*\": [\"./*\", 3], \"x\": \"not-an-array\" }\n  }\n}";
    let aliases = tsconfig_paths_from_text("/repo/tsconfig.json", text);
    assert_eq!(aliases, vec![("@".to_owned(), vec!["/repo/src/.".to_owned()])]);
}

#[test]
fn tsconfig_without_paths_or_not_json_gives_no_aliases() {
    assert!(tsconfig_paths_from_text("/repo/tsconfig.json", "{ \"compilerOptions\": {} }").is_empty());
    assert!(tsconfig_paths_from_text("/repo/tsconfig.json", "{ \"compilerOptions\": { \"paths\": [] } }").is_empty());
    assert!(tsconfig_paths_from_text("/repo/tsconfig.json", "not json").is_empty());
    assert!(tsconfig_paths_from_text("/repo/tsconfig.json", "").is_empty());
}

#[test]
fn tsconfig_paths_are_read_from_compiler_options() {
    let config = JsonValue::Object(vec![(
        "compilerOptions".to_owned(),
        JsonValue::Object(vec![
            ("baseUrl".to_owned(), JsonValue::Number("1".to_owned())),
            (
                "paths".to_owned(),
                JsonValue::Object(vec![(
                    "@ui/*".to_owned(),
                    JsonValue::Array(vec![JsonValue::String("ui/*".to_owned()), JsonValue::Null]),
                )]),
            ),
        ]),
    )]);
    let (base_url, paths) = tsconfig_paths_of(&config).unwrap();
    // A baseUrl that is not a string is ignored.
    assert_eq!(base_url, None);
    assert_eq!(paths, vec![("@ui/*".to_owned(), Some(vec![Some("ui/*".to_owned()), None]))]);
    assert!(tsconfig_paths_of(&JsonValue::Array(vec![])).is_none());
}

#[test]
fn interface_chain_keeps_inherited_order_with_own_props_in_place() {
    let file = "/test/button.tsx";
    let mut global = GlobalSourceData::default();
    global.interfaces.push((
        format!("{}:BaseProps", file),
        CollectedInterface {
            scoped_key: format!("{}:BaseProps", file),
            name: "BaseProps".into(),
            file_path: file.into(),
            props: vec![
                RawProp { description: "from parent".into(), ..raw_prop("size", CollectedType::Number, vec![]) },
                raw_prop("color", CollectedType::String, vec![]),
            ],
            extends: vec![],
            description: String::new(),
            tags: vec![],
        },
    ));
    global.interfaces.push(interface(
        file,
        vec![
            raw_prop("extra", CollectedType::Boolean, vec![]),
            RawProp { description: "own".into(), ..raw_prop("size", CollectedType::String, vec![]) },
        ],
        vec![ExtendsRef::SameFile { name: "BaseProps".into(), type_args: vec![] }],
    ));
    let ctx = ctx_of(global);
    let mut visited: Vec<String> = Vec::new();
    let mut diagnostics: Vec<Diagnostic> = Vec::new();
    let chain = resolve_props_chain("ButtonProps", &vec![], file, &mapping(file, vec![]), &ctx, &mut visited, 0, &mut diagnostics);
    let names: Vec<&str> = chain.props.iter().map(|p| p.name.as_str()).collect();
    assert_eq!(names, vec!["size", "color", "extra"]);
    assert_eq!(chain.props[0].description, "own");
    assert_eq!(chain.props[0].prop_type, PropType::String);
}

#[test]
fn template_expansion_is_an_ordered_product() {
    let file = "/test/types.ts";
    let mut global = GlobalSourceData::default();
    global.type_aliases.push((
        format!("{}:Size", file),
        CollectedTypeAlias::LiteralUnion { members: vec!["sm".into(), "lg".into()], file_path: file.into() },
    ));
    global.type_aliases.push((
        format!("{}:Tone", file),
        CollectedTypeAlias::LiteralUnion { members: vec!["a".into(), "b".into(), "c".into()], file_path: file.into() },
    ));
    let ctx = ctx_of(global);
    let mut diagnostics: Vec<Diagnostic> = Vec::new();
    let parts = vec![
        CollectedType::Named { name: "Size".into(), args: vec![] },
        CollectedType::StringLiteral("-".into()),
        CollectedType::Named { name: "Tone".into(), args: vec![] },
    ];
    let result = try_expand_template_literal(&parts, file, &ctx, 0, &mut diagnostics);
    assert_eq!(
        result,
        Some(vec!["sm-a", "sm-b", "sm-c", "lg-a", "lg-b", "lg-c"].into_iter().map(String::from).collect())
    );
}

#[test]
fn template_expansion_at_a_spent_depth() {
    let ctx = empty_ctx();
    let mut diagnostics: Vec<Diagnostic> = Vec::new();
    let parts = vec![CollectedType::StringLiteral("x".into())];
    assert_eq!(
        try_expand_template_literal(&parts, "/test/types.ts", &ctx, 255, &mut diagnostics),
        Some(vec!["x".to_string()])
    );
    let parts = vec![CollectedType::String];
    assert_eq!(try_expand_template_literal(&parts, "/test/types.ts", &ctx, 255, &mut diagnostics), None);
    assert_eq!(diagnostics.len(), 1);
    assert_eq!(diagnostics[0].code, DiagnosticCode::MaxDepthExceeded);
}

#[test]
fn discriminant_is_the_first_distinct_literal() {
    let lit = |name: &str, v: &str| ParsedProp {
        name: name.into(),
        prop_type: PropType::StringLiteral(v.into()),
        required: true,
        default_value: None,
        description: String::new(),
        tags: vec![],
        parent: None,
        declarations: vec![],
    };
    let members = vec![("A", vec![lit("kind", "x"), lit("variant", "default")]), ("B", vec![lit("kind", "x"), lit("variant", "outline")])];
    assert_eq!(find_discriminant_prop(&members), Some("variant".to_string()));
    let none: Vec<(&str, Vec<ParsedProp>)> = vec![];
    assert_eq!(find_discriminant_prop(&none), None);
}

fn named_interface(scoped_key: &str, file_path: &str, name: &str) -> CollectedInterface {
    CollectedInterface {
        scoped_key: scoped_key.to_owned(),
        name: name.to_owned(),
        file_path: file_path.to_owned(),
        props: vec![],
        extends: vec![],
        description: String::new(),
        tags: vec![],
    }
}

#[test]
fn lookup_interface_finds_a_bare_key() {
    let mut global = GlobalSourceData::default();
    let key = "/project/src/Button.tsx:ButtonProps".to_owned();
    global.interfaces.push((key.clone(), named_interface(&key, "/project/src/Button.tsx", "ButtonProps")));
    let found = lookup_interface_at(&global, "/project/src/Button.tsx", "ButtonProps");
    assert!(found.is_some(), "expected to find ButtonProps");
    assert_eq!(found.unwrap().name.as_str(), "ButtonProps");
}

#[test]
fn lookup_interface_falls_back_to_react_qualified_key() {
    let mut global = GlobalSourceData::default();
    let key = "/lib/react.d.ts:React.HTMLAttributes".to_owned();
    global.interfaces.push((key.clone(), named_interface(&key, "/lib/react.d.ts", "HTMLAttributes")));
    let found = lookup_interface_at(&global, "/lib/react.d.ts", "HTMLAttributes");
    assert!(found.is_some(), "expected the React.-qualified fallback to match");
}

#[test]
fn lookup_interface_returns_none_for_a_different_file() {
    let mut global = GlobalSourceData::default();
    let key = "/project/src/Button.tsx:ButtonProps".to_owned();
    global.interfaces.push((key.clone(), named_interface(&key, "/project/src/Button.tsx", "ButtonProps")));
    assert!(lookup_interface_at(&global, "/project/src/Other.tsx", "ButtonProps").is_none());
}

#[test]
fn is_declared_at_is_true_for_an_interface_and_false_for_an_unrelated_name() {
    let mut global = GlobalSourceData::default();
    let key = "/project/src/Button.tsx:ButtonProps".to_owned();
    global.interfaces.push((key.clone(), named_interface(&key, "/project/src/Button.tsx", "ButtonProps")));
    assert!(is_declared_at(&global, "/project/src/Button.tsx", "ButtonProps"));
    assert!(!is_declared_at(&global, "/project/src/Button.tsx", "SomethingElse"));
}

#[test]
fn is_declared_at_sees_a_react_qualified_alias() {
    let mut global = GlobalSourceData::default();
    global.type_aliases.push((
        "/lib/react.d.ts:React.Key".to_owned(),
        CollectedTypeAlias::LiteralUnion { members: vec!["a".into()], file_path: "/lib/react.d.ts".into() },
    ));
    assert!(is_declared_at(&global, "/lib/react.d.ts", "Key"));
    assert!(!is_declared_at(&global, "/lib/other.d.ts", "Key"));
}
