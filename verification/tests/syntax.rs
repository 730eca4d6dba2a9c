use react_docgen_core::jsdoc::{JsDocIndex, OwnedComment};
use react_docgen_core::syntax::{
    collect_string_union_keys, component_class, cva_variant_entries, defaults_from, eval_expr_as_default, is_fc_family, EnumMemberNode, LiteralExpr, ObjectMember, exotic_props, extract_param_defaults, DefaultExpr, KeyNode,
    MemberNode, PropsTypeRef, TemplatePart, TupleMember, TypeCollector, TypeKeyword, TypeNode,
};
use react_docgen_core::types::{CollectedType, CollectedTypeAlias, DefaultSource, EnumValue};

fn collector() -> TypeCollector {
    TypeCollector::new("src/Button.tsx".to_owned(), JsDocIndex::new(Vec::new()))
}

fn collector_with(comments: Vec<OwnedComment>) -> TypeCollector {
    TypeCollector::new("src/Button.tsx".to_owned(), JsDocIndex::new(comments))
}

fn comment(start: u32, text: &str) -> OwnedComment {
    OwnedComment { span_start: start, span_end: start + text.len() as u32, is_block: true, text: text.to_owned() }
}

fn kw(k: TypeKeyword) -> TypeNode {
    TypeNode::Keyword(k)
}

fn reference(name: &str, args: Vec<TypeNode>) -> TypeNode {
    TypeNode::Reference { name: name.to_owned(), args }
}

fn lit(s: &str) -> TypeNode {
    TypeNode::StringLiteral(s.to_owned())
}

fn named(r: Option<PropsTypeRef>) -> Option<(String, Vec<String>)> {
    match r {
        Some(PropsTypeRef::Named { name, args }) => Some((name, args)),
        Some(PropsTypeRef::Inline(a)) => panic!("unexpected inline props {a:?}"),
        None => None,
    }
}

fn text(c: &CollectedType) -> String {
    c.to_raw_string()
}

fn prop(name: &str, annotation: Option<TypeNode>, optional: bool, start: u32) -> MemberNode {
    MemberNode::Property {
        key: KeyNode::Identifier(name.to_owned()),
        annotation,
        optional,
        span_start: start,
        span_end: start + 10,
    }
}

#[test]
fn keywords_and_literals_are_collected_as_themselves() {
    let c = collector();
    assert!(matches!(c.ts_type_to_collected(&kw(TypeKeyword::String)), CollectedType::String));
    assert!(matches!(c.ts_type_to_collected(&kw(TypeKeyword::Never)), CollectedType::Never));
    assert_eq!(text(&c.ts_type_to_collected(&kw(TypeKeyword::Object))), "object");
    assert_eq!(text(&c.ts_type_to_collected(&lit("md"))), "\"md\"");
    assert_eq!(text(&c.ts_type_to_collected(&TypeNode::NumberLiteral("42".to_owned()))), "42");
    assert_eq!(text(&c.ts_type_to_collected(&TypeNode::BoolLiteral(true))), "true");
    assert_eq!(text(&c.ts_type_to_collected(&TypeNode::Query("config".to_owned()))), "typeof config");
    assert_eq!(text(&c.ts_type_to_collected(&TypeNode::Source("keyof T".to_owned()))), "keyof T");
}

#[test]
fn references_unions_and_parentheses() {
    let c = collector();
    let node = TypeNode::Parenthesized(Box::new(TypeNode::Union(vec![
        reference("Array", vec![kw(TypeKeyword::Number)]),
        kw(TypeKeyword::Null),
    ])));
    let collected = c.ts_type_to_collected(&node);
    assert!(matches!(&collected, CollectedType::Union(m) if m.len() == 2));
    assert_eq!(text(&collected), "Array<number> | null");
    let inter = TypeNode::Intersection(vec![reference("A", vec![]), reference("B", vec![])]);
    assert_eq!(text(&c.ts_type_to_collected(&inter)), "A & B");
    let arr = TypeNode::Array(Box::new(kw(TypeKeyword::String)));
    assert_eq!(text(&c.ts_type_to_collected(&arr)), "string[]");
}

#[test]
fn tuple_elements_optional_rest_and_plain() {
    let c = collector();
    let node = TypeNode::Tuple(vec![
        TupleMember::Optional(kw(TypeKeyword::String)),
        TupleMember::Rest(kw(TypeKeyword::Number)),
        TupleMember::Plain("boolean".to_owned()),
    ]);
    let collected = c.ts_type_to_collected(&node);
    match &collected {
        CollectedType::Tuple(m) => {
            assert!(matches!(&m[0], CollectedType::Union(u) if u.len() == 2 && matches!(u[1], CollectedType::Undefined)));
            assert!(matches!(&m[1], CollectedType::Array(b) if matches!(**b, CollectedType::Number)));
            assert!(matches!(&m[2], CollectedType::Raw(s) if s == "boolean"));
        },
        _ => panic!("expected a tuple"),
    }
}

#[test]
fn object_literal_fields_keep_static_keys_and_read_their_docs() {
    // `{ /** Text color */ color?: string; onClick(): void; [k]: any }`
    let c = collector_with(vec![comment(2, "/** Text color */")]);
    let node = TypeNode::Literal(vec![
        prop("color", Some(kw(TypeKeyword::String)), true, 22),
        MemberNode::Method { key: KeyNode::StringLiteral("onClick".to_owned()), optional: false, span_start: 40, span_end: 50 },
        MemberNode::Property { key: KeyNode::Computed, annotation: None, optional: false, span_start: 60, span_end: 70 },
        MemberNode::Other,
    ]);
    let collected = c.ts_type_to_collected(&node);
    match &collected {
        CollectedType::Object(fields) => {
            assert_eq!(fields.len(), 2);
            assert_eq!(fields[0].name, "color");
            assert!(!fields[0].required);
            assert_eq!(fields[0].description, "Text color");
            assert_eq!(fields[1].name, "onClick");
            assert!(fields[1].required);
            assert_eq!(text(&fields[1].collected_type), "(...) => any");
        },
        _ => panic!("expected an object"),
    }
    // Reading a field's description does not claim the comment.
    assert!(c.jsdoc.consumed.is_empty());
}

#[test]
fn numeric_keys_are_not_object_literal_fields() {
    let c = collector();
    let node = TypeNode::Literal(vec![MemberNode::Property {
        key: KeyNode::OtherStatic("0".to_owned()),
        annotation: Some(kw(TypeKeyword::String)),
        optional: false,
        span_start: 0,
        span_end: 5,
    }]);
    assert_eq!(text(&c.ts_type_to_collected(&node)), "{}");
}

#[test]
fn functions_templates_and_mapped_types() {
    let c = collector();
    let f = TypeNode::Function {
        params: vec![Some(kw(TypeKeyword::String)), None],
        return_type: Box::new(kw(TypeKeyword::Void)),
    };
    assert_eq!(text(&c.ts_type_to_collected(&f)), "(string, any) => void");
    let t = TypeNode::Template(vec![
        TemplatePart::Text(String::new()),
        TemplatePart::Slot(kw(TypeKeyword::Number)),
        TemplatePart::Text("px".to_owned()),
    ]);
    let collected = c.ts_type_to_collected(&t);
    assert!(matches!(&collected, CollectedType::TemplateLiteral(p) if p.len() == 2));
    assert_eq!(text(&collected), "`${number}px`");
    let m = TypeNode::Mapped { constraint: Box::new(reference("K", vec![])), annotation: None };
    assert_eq!(text(&c.ts_type_to_collected(&m)), "{ [K in K]: unknown }");
    let ia = TypeNode::IndexedAccess { object: Box::new(reference("Props", vec![])), index: Box::new(lit("size")) };
    assert_eq!(text(&c.ts_type_to_collected(&ia)), "Props[\"size\"]");
    let cond = TypeNode::Conditional {
        check: Box::new(reference("T", vec![])),
        extends_type: Box::new(kw(TypeKeyword::String)),
        true_type: Box::new(lit("s")),
        false_type: Box::new(kw(TypeKeyword::Never)),
    };
    assert_eq!(text(&c.ts_type_to_collected(&cond)), "T extends string ? \"s\" : never");
}

#[test]
fn type_names_look_through_transparent_wrappers() {
    let c = collector();
    let node = reference("Readonly", vec![reference("PropsWithChildren", vec![reference("Props", vec![reference("T", vec![])])])]);
    assert_eq!(c.extract_type_name_from_type(&node), Some(("Props".to_owned(), vec!["T".to_owned()])));
    let paren = TypeNode::Parenthesized(Box::new(reference("Props", vec![])));
    assert_eq!(c.extract_type_name_from_type(&paren), Some(("Props".to_owned(), vec![])));
    // A wrapper with no argument is a name of its own.
    assert_eq!(c.extract_type_name_from_type(&reference("Required", vec![])), Some(("Required".to_owned(), vec![])));
    assert_eq!(c.extract_type_name_from_type(&kw(TypeKeyword::String)), None);
    assert_eq!(c.extract_type_args(&vec![lit("a"), kw(TypeKeyword::Number)]), vec!["\"a\"".to_owned(), "number".to_owned()]);
}

#[test]
fn union_keys_are_collected_in_order() {
    let node = TypeNode::Union(vec![lit("a"), TypeNode::Union(vec![lit("b"), kw(TypeKeyword::Null)]), lit("c")]);
    assert_eq!(collect_string_union_keys(&node), vec!["a".to_owned(), "b".to_owned(), "c".to_owned()]);
    assert!(collect_string_union_keys(&TypeNode::Parenthesized(Box::new(lit("a")))).is_empty());
}

#[test]
fn omit_and_pick_aliases() {
    let c = collector();
    let omit = reference("Omit", vec![reference("ButtonProps", vec![]), TypeNode::Union(vec![lit("a"), lit("b")])]);
    match c.classify_type_alias(&omit) {
        Some(CollectedTypeAlias::Omit { base, omitted_keys, file_path }) => {
            assert_eq!(text(&base), "ButtonProps");
            assert_eq!(omitted_keys, vec!["a".to_owned(), "b".to_owned()]);
            assert_eq!(file_path, "src/Button.tsx");
        },
        other => panic!("unexpected {other:?}"),
    }
    let pick = reference("Pick", vec![reference("Base", vec![reference("T", vec![])]), lit("x")]);
    match c.classify_type_alias(&pick) {
        Some(CollectedTypeAlias::Pick { base, picked_keys, .. }) => {
            assert_eq!(text(&base), "Base<T>");
            assert_eq!(picked_keys, vec!["x".to_owned()]);
        },
        other => panic!("unexpected {other:?}"),
    }
    // Missing key argument, or a base that is not simply named.
    assert!(c.classify_type_alias(&reference("Omit", vec![reference("P", vec![])])).is_none());
    assert!(c.classify_type_alias(&reference("Omit", vec![kw(TypeKeyword::String), lit("a")])).is_none());
}

#[test]
fn partial_required_and_passthrough_aliases() {
    let c = collector();
    assert!(matches!(
        c.classify_type_alias(&reference("Partial", vec![reference("P", vec![])])),
        Some(CollectedTypeAlias::Partial { .. })
    ));
    assert!(matches!(
        c.classify_type_alias(&reference("Required", vec![reference("P", vec![])])),
        Some(CollectedTypeAlias::Required { .. })
    ));
    assert!(c.classify_type_alias(&reference("Partial", vec![])).is_none());
    match c.classify_type_alias(&reference("Foo", vec![kw(TypeKeyword::String)])) {
        Some(CollectedTypeAlias::Passthrough { target, .. }) => {
            assert!(matches!(&target, CollectedType::Named { args, .. } if matches!(&args[0], CollectedType::Raw(s) if s == "string")));
            assert_eq!(text(&target), "Foo<string>");
        },
        other => panic!("unexpected {other:?}"),
    }
}

#[test]
fn union_and_intersection_aliases() {
    let c = collector();
    let literal = TypeNode::Parenthesized(Box::new(TypeNode::Union(vec![lit("sm"), lit("md"), kw(TypeKeyword::Undefined)])));
    match c.classify_type_alias(&literal) {
        Some(CollectedTypeAlias::LiteralUnion { members, .. }) => {
            assert_eq!(members, vec!["\"sm\"".to_owned(), "\"md\"".to_owned(), "undefined".to_owned()]);
        },
        other => panic!("unexpected {other:?}"),
    }
    let mixed = TypeNode::Union(vec![lit("sm"), kw(TypeKeyword::Number)]);
    assert!(matches!(c.classify_type_alias(&mixed), Some(CollectedTypeAlias::Union { members, .. }) if members.len() == 2));
    let inter = TypeNode::Intersection(vec![reference("A", vec![]), reference("B", vec![])]);
    assert!(matches!(c.classify_type_alias(&inter), Some(CollectedTypeAlias::Intersection { members, .. }) if members.len() == 2));
    assert!(c.classify_type_alias(&reference("Readonly", vec![])).is_none());
}

#[test]
fn readonly_and_other_shapes_pass_through() {
    let c = collector();
    match c.classify_type_alias(&reference("Readonly", vec![reference("Props", vec![])])) {
        Some(CollectedTypeAlias::Passthrough { target, .. }) => assert_eq!(text(&target), "Props"),
        other => panic!("unexpected {other:?}"),
    }
    let literal = TypeNode::Literal(vec![prop("a", Some(kw(TypeKeyword::String)), false, 0)]);
    match c.classify_type_alias(&literal) {
        Some(CollectedTypeAlias::Passthrough { target, .. }) => assert_eq!(text(&target), "{ a: string }"),
        other => panic!("unexpected {other:?}"),
    }
    let array = TypeNode::Array(Box::new(kw(TypeKeyword::String)));
    assert!(matches!(
        c.classify_type_alias(&array),
        Some(CollectedTypeAlias::Passthrough { target: CollectedType::Array(_), .. })
    ));
    assert!(matches!(
        c.classify_type_alias(&kw(TypeKeyword::String)),
        Some(CollectedTypeAlias::Passthrough { target: CollectedType::String, .. })
    ));
}

#[test]
fn interface_members_claim_their_docs_once() {
    // /** Size docs */ at 0..16; `size` starts at 20; `variant` at 40 has no
    // comment of its own and must not reuse the claimed one.
    let mut c = collector_with(vec![comment(0, "/** Size docs\n * @default \"md\" */")]);
    let members = vec![
        prop("size", Some(kw(TypeKeyword::String)), true, 40),
        prop("variant", None, false, 60),
        MemberNode::Property { key: KeyNode::Computed, annotation: None, optional: false, span_start: 80, span_end: 90 },
        MemberNode::Method { key: KeyNode::OtherStatic("1".to_owned()), optional: true, span_start: 100, span_end: 110 },
    ];
    let props = c.collect_interface_props(&members);
    assert_eq!(props.len(), 3);
    assert_eq!(props[0].name, "size");
    assert_eq!(props[0].description, "Size docs");
    assert_eq!(props[0].tags, vec![("default".to_owned(), "\"md\"".to_owned())]);
    assert!(!props[0].required);
    assert_eq!((props[0].span_start, props[0].span_end), (40, 50));
    assert_eq!(props[1].name, "variant");
    assert_eq!(props[1].description, "");
    assert!(props[1].tags.is_empty());
    assert!(matches!(props[1].collected_type, CollectedType::Any));
    assert_eq!(props[2].name, "1");
    assert_eq!(text(&props[2].collected_type), "(...) => any");
    assert_eq!(c.jsdoc.consumed.len(), 1);
}

#[test]
fn an_inline_field_does_not_take_its_props_comment() {
    // /** The style */ style?: { color: string }
    let mut c = collector_with(vec![comment(0, "/** The style */")]);
    let inner = TypeNode::Literal(vec![prop("color", Some(kw(TypeKeyword::String)), false, 27)]);
    let p = c.collect_property_signature(&prop("style", Some(inner), true, 17)).unwrap();
    assert_eq!(p.description, "The style");
    match &p.collected_type {
        CollectedType::Object(fields) => assert_eq!(fields[0].description, ""),
        _ => panic!("expected an object"),
    }
}

#[test]
fn function_component_annotations_name_their_props() {
    let c = collector();
    let fc = reference("React.FC", vec![reference("ButtonProps", vec![])]);
    assert_eq!(named(c.props_from_fc_type(&fc)), Some(("ButtonProps".to_owned(), vec![])));
    let vfc = TypeNode::Parenthesized(Box::new(reference("VoidFunctionComponent", vec![reference("P", vec![])])));
    assert_eq!(named(c.props_from_fc_type(&vfc)), Some(("P".to_owned(), vec![])));
    assert!(c.props_from_fc_type(&reference("FC", vec![])).is_none());
    assert!(c.props_from_fc_type(&reference("Props", vec![reference("P", vec![])])).is_none());
    assert!(c.props_from_fc_type(&reference("Preact.FC", vec![reference("P", vec![])])).is_none());
}

#[test]
fn forward_ref_props_are_its_second_type_argument() {
    let c = collector();
    let args = vec![reference("HTMLButtonElement", vec![]), reference("ButtonProps", vec![])];
    assert_eq!(named(c.forward_ref_props("React.forwardRef", &args)), Some(("ButtonProps".to_owned(), vec![])));
    assert_eq!(named(c.forward_ref_props("forwardRef", &args)), Some(("ButtonProps".to_owned(), vec![])));
    assert!(c.forward_ref_props("memo", &args).is_none());
    assert!(c.forward_ref_props("forwardRef", &vec![reference("P", vec![])]).is_none());
}

#[test]
fn exotic_component_props_skip_ref_attributes() {
    let c = collector();
    let node = reference(
        "React.ForwardRefExoticComponent",
        vec![TypeNode::Intersection(vec![
            reference("React.RefAttributes", vec![reference("HTMLButtonElement", vec![])]),
            reference("ButtonProps", vec![reference("T", vec![])]),
        ])],
    );
    let ct = c.ts_type_to_collected(&node);
    assert_eq!(exotic_props(&ct), Some(("ButtonProps".to_owned(), vec!["T".to_owned()])));
    let plain = c.ts_type_to_collected(&reference("ForwardRefExoticComponent", vec![reference("P", vec![])]));
    assert_eq!(exotic_props(&plain), Some(("P".to_owned(), vec![])));
    let only_ref = c.ts_type_to_collected(&reference(
        "ForwardRefExoticComponent",
        vec![TypeNode::Intersection(vec![reference("RefAttributes", vec![])])],
    ));
    assert_eq!(exotic_props(&only_ref), None);
    let other = c.ts_type_to_collected(&reference("ComponentType", vec![reference("P", vec![])]));
    assert_eq!(exotic_props(&other), None);
}

#[test]
fn default_values_by_kind() {
    let d = eval_expr_as_default(&DefaultExpr::String("md".to_owned()), DefaultSource::Destructuring);
    assert_eq!((d.value.as_str(), d.computed), ("\"md\"", false));
    assert!(matches!(d.source, DefaultSource::Destructuring));
    let d = eval_expr_as_default(&DefaultExpr::Number("1.5".to_owned()), DefaultSource::Destructuring);
    assert_eq!((d.value.as_str(), d.computed), ("1.5", false));
    let d = eval_expr_as_default(&DefaultExpr::Bool(false), DefaultSource::Destructuring);
    assert_eq!((d.value.as_str(), d.computed), ("false", false));
    let d = eval_expr_as_default(&DefaultExpr::Null, DefaultSource::Destructuring);
    assert_eq!((d.value.as_str(), d.computed), ("null", false));
    let d = eval_expr_as_default(&DefaultExpr::Identifier("undefined".to_owned()), DefaultSource::Destructuring);
    assert_eq!((d.value.as_str(), d.computed), ("undefined", false));
    let d = eval_expr_as_default(&DefaultExpr::Identifier("DEFAULT_SIZE".to_owned()), DefaultSource::Destructuring);
    assert_eq!((d.value.as_str(), d.computed), ("DEFAULT_SIZE", true));
    let d = eval_expr_as_default(&DefaultExpr::ArrayOrObject("[1, 2]".to_owned()), DefaultSource::Destructuring);
    assert_eq!((d.value.as_str(), d.computed), ("[1, 2]", false));
    let d = eval_expr_as_default(&DefaultExpr::Other("getSize()".to_owned()), DefaultSource::Destructuring);
    assert_eq!((d.value.as_str(), d.computed), ("getSize()", true));
}

#[test]
fn a_repeated_default_keeps_its_place_and_last_value() {
    let entries = vec![
        ("size".to_owned(), DefaultExpr::String("md".to_owned())),
        ("disabled".to_owned(), DefaultExpr::Bool(false)),
        ("size".to_owned(), DefaultExpr::String("lg".to_owned())),
    ];
    let defaults = extract_param_defaults(&entries);
    assert_eq!(defaults.len(), 2);
    assert_eq!(defaults[0].0, "size");
    assert_eq!(defaults[0].1.value, "\"lg\"");
    assert_eq!(defaults[1].0, "disabled");
    assert_eq!(defaults[1].1.value, "false");
}

#[test]
fn enum_members_without_a_value_are_named_by_themselves() {
    // /** Small */ at 0..13, member `Sm` at 14, `Md = "md"` at 30.
    let mut c = collector_with(vec![comment(0, "/** Small */")]);
    let members = vec![
        EnumMemberNode { name: "Sm".to_owned(), value: None, span_start: 14 },
        EnumMemberNode { name: "Md".to_owned(), value: Some(EnumValue::String("md".to_owned())), span_start: 30 },
    ];
    let entries = c.collect_enum_entries(&members, true);
    assert_eq!(entries.len(), 2);
    assert_eq!(entries[0].name, "Sm");
    assert!(matches!(&entries[0].value, EnumValue::String(s) if s == "Sm"));
    assert_eq!(entries[0].description, "Small");
    assert!(matches!(&entries[1].value, EnumValue::String(s) if s == "md"));
    assert_eq!(entries[1].description, "");
}

#[test]
fn const_object_properties_without_a_literal_are_skipped_and_claim_nothing() {
    // /** Primary */ at 0..15; `a: f()` at 16 is skipped, so `b: 1` at 30 reads the comment.
    let mut c = collector_with(vec![comment(0, "/** Primary */")]);
    let members = vec![
        EnumMemberNode { name: "a".to_owned(), value: None, span_start: 16 },
        EnumMemberNode { name: "b".to_owned(), value: Some(EnumValue::Number("1".to_owned())), span_start: 30 },
    ];
    let entries = c.collect_enum_entries(&members, false);
    assert_eq!(entries.len(), 1);
    assert_eq!(entries[0].name, "b");
    assert!(matches!(&entries[0].value, EnumValue::Number(s) if s == "1"));
    assert_eq!(entries[0].description, "Primary");
}

fn obj(members: Vec<(&str, LiteralExpr)>) -> LiteralExpr {
    LiteralExpr::Object(
        members
            .into_iter()
            .map(|(k, v)| ObjectMember::Property { key: KeyNode::Identifier(k.to_owned()), value: v })
            .collect(),
    )
}

fn entry_pairs(entries: &[react_docgen_core::types::EnumEntry]) -> Vec<(String, String)> {
    entries
        .iter()
        .map(|e| match &e.value {
            EnumValue::String(v) => (e.name.clone(), v.clone()),
            _ => panic!("variant values are strings"),
        })
        .collect()
}

#[test]
fn cva_variants_become_enum_entries_in_order() {
    let config = obj(vec![
        ("variants", obj(vec![
            ("size", obj(vec![("sm", LiteralExpr::Other), ("lg", LiteralExpr::Other)])),
            ("tone", obj(vec![("quiet", LiteralExpr::Other)])),
            ("loose", LiteralExpr::Other),
        ])),
        ("defaultVariants", obj(vec![("size", LiteralExpr::Other)])),
    ]);
    let entries = cva_variant_entries("cva", &vec![LiteralExpr::Other, config]);
    assert_eq!(
        entry_pairs(&entries),
        vec![
            ("size".to_owned(), "sm".to_owned()),
            ("size".to_owned(), "lg".to_owned()),
            ("tone".to_owned(), "quiet".to_owned()),
        ]
    );
    assert!(entries.iter().all(|e| e.description.is_empty()));
}

#[test]
fn other_variant_functions_take_their_config_first() {
    let config = obj(vec![("variants", obj(vec![("size", obj(vec![("sm", LiteralExpr::Other)]))]))]);
    let entries = cva_variant_entries("tv", &vec![config]);
    assert_eq!(entry_pairs(&entries), vec![("size".to_owned(), "sm".to_owned())]);
    let config = obj(vec![("variants", obj(vec![("size", obj(vec![("sm", LiteralExpr::Other)]))]))]);
    // `cva` with only its base argument has no config.
    assert!(cva_variant_entries("cva", &vec![config]).is_empty());
    assert!(cva_variant_entries("styled", &vec![LiteralExpr::Other, LiteralExpr::Spread]).is_empty());
}

#[test]
fn the_first_object_valued_variants_member_is_read() {
    let config = LiteralExpr::Object(vec![
        ObjectMember::Spread,
        ObjectMember::Property {
            key: KeyNode::StringLiteral("variants".to_owned()),
            value: obj(vec![("quoted", obj(vec![("x", LiteralExpr::Other)]))]),
        },
        ObjectMember::Property { key: KeyNode::Identifier("variants".to_owned()), value: LiteralExpr::Other },
        ObjectMember::Property {
            key: KeyNode::Identifier("variants".to_owned()),
            value: obj(vec![("size", obj(vec![("md", LiteralExpr::Other)]))]),
        },
    ]);
    let entries = cva_variant_entries("recipe", &vec![config]);
    assert_eq!(entry_pairs(&entries), vec![("size".to_owned(), "md".to_owned())]);
}

#[test]
fn default_props_values_are_recorded_as_such() {
    let entries = vec![("size".to_owned(), DefaultExpr::String("md".to_owned()))];
    let defaults = defaults_from(&entries, DefaultSource::DefaultProps);
    assert_eq!(defaults[0].1.value, "\"md\"");
    assert!(matches!(defaults[0].1.source, DefaultSource::DefaultProps));
}

#[test]
fn function_component_family_and_component_classes() {
    assert!(is_fc_family(&TypeNode::Parenthesized(Box::new(reference("React.FC", vec![])))));
    assert!(is_fc_family(&reference("ForwardRefComponent", vec![TypeNode::Literal(vec![])])));
    assert!(!is_fc_family(&reference("Props", vec![])));
    let c = collector();
    assert_eq!(named(c.props_from_fc_type(&reference("ForwardRefComponent", vec![reference("P", vec![])]))), Some(("P".to_owned(), vec![])));
    assert_eq!(component_class("React.PureComponent"), Some("PureComponent".to_owned()));
    assert_eq!(component_class("Component"), Some("Component".to_owned()));
    assert_eq!(component_class("React.Fragment"), None);
    assert_eq!(component_class("BaseComponent"), None);
}

#[test]
fn inline_props_types_become_aliases_of_their_own() {
    let c = collector();
    let inline = TypeNode::Literal(vec![prop("x", Some(kw(TypeKeyword::String)), false, 0)]);
    match c.props_from_fc_type(&reference("FC", vec![inline])) {
        Some(PropsTypeRef::Inline(CollectedTypeAlias::Passthrough { target, file_path })) => {
            assert_eq!(text(&target), "{ x: string }");
            assert_eq!(file_path, "src/Button.tsx");
        },
        other => panic!("unexpected {other:?}"),
    }
    let union = TypeNode::Union(vec![reference("A", vec![]), reference("B", vec![])]);
    assert!(matches!(
        c.props_type_of(&TypeNode::Parenthesized(Box::new(union))),
        Some(PropsTypeRef::Inline(CollectedTypeAlias::Union { .. }))
    ));
    let inter = TypeNode::Intersection(vec![reference("A", vec![]), reference("B", vec![])]);
    assert!(matches!(
        c.forward_ref_props("forwardRef", &vec![reference("E", vec![]), inter]),
        Some(PropsTypeRef::Inline(CollectedTypeAlias::Intersection { .. }))
    ));
    assert!(c.props_type_of(&kw(TypeKeyword::String)).is_none());
}
