use react_docgen_core::collect::{
    alias_component, merge_default_props,
    classify_extends, finish_mappings, find_import_specifier, is_pascal_case, max_bracket_nesting_depth,
    pascal_case_from_file_stem, scoped_key,
};
use react_docgen_core::types::{ComponentMapping, DefaultSource, ExtendsRef, ImportBinding, RawDefault};

fn mapping(name: &str) -> ComponentMapping {
    ComponentMapping {
        component_name: name.to_owned(),
        props_type_name: format!("{name}Props"),
        props_type_args: vec![],
        file_path: "/src/Button.tsx".to_owned(),
        description: String::new(),
        tags: vec![],
        span_start: 0,
        span_end: 0,
        param_defaults: vec![],
    }
}

fn binding(local: &str, specifier: &str) -> ImportBinding {
    ImportBinding {
        local_name: local.to_owned(),
        exported_name: local.to_owned(),
        specifier: specifier.to_owned(),
        is_type_only: false,
    }
}

#[test]
fn test_nesting_guard_ignores_brackets_inside_comments() {
    let noisy_comment = "/** MISSING: RFC(5646, 'tag')]. */\n".repeat(10);
    let source = format!("{noisy_comment}interface Foo {{ bar: string; }}");
    let observed = max_bracket_nesting_depth(&source);
    assert!(observed < 5, "expected shallow depth (comment brackets should not count), got {observed}");
}

#[test]
fn nesting_depth_counts_the_deepest_bracket() {
    assert_eq!(max_bracket_nesting_depth(""), 0);
    assert_eq!(max_bracket_nesting_depth("((a))"), 2);
    assert_eq!(max_bracket_nesting_depth("{ [ ( ) ] } ( )"), 3);
    assert_eq!(max_bracket_nesting_depth("([)]"), 2);
    assert_eq!(max_bracket_nesting_depth("interface Foo { bar: string; }"), 1);
}

#[test]
fn nesting_depth_never_goes_below_zero() {
    // Stray closers first: the depth stays at zero, so the opener after them
    // counts as one level, not as a return to zero.
    assert_eq!(max_bracket_nesting_depth(")))("), 1);
    assert_eq!(max_bracket_nesting_depth("]]]]]]{{"), 2);
}

#[test]
fn nesting_depth_skips_comments_and_literals() {
    assert_eq!(max_bracket_nesting_depth("/* ((( */ ("), 1);
    assert_eq!(max_bracket_nesting_depth("// (((\n("), 1);
    assert_eq!(max_bracket_nesting_depth("'((('"), 0);
    assert_eq!(max_bracket_nesting_depth("\"(\\\"(\" ("), 1);
    assert_eq!(max_bracket_nesting_depth("`${(}` {"), 1);
    assert_eq!(max_bracket_nesting_depth("a / (b)"), 1);
    assert_eq!(max_bracket_nesting_depth("/**/ ( /*/ ( */"), 1);
}

#[test]
fn nesting_depth_of_deeply_nested_source() {
    let nested = "(".repeat(2500) + &")".repeat(2500);
    let source = format!("const x = {nested};");
    assert_eq!(max_bracket_nesting_depth(&source), 2500);
}

#[test]
fn pascal_case_means_an_uppercase_first_character() {
    assert!(is_pascal_case("Button"));
    assert!(is_pascal_case("B"));
    assert!(is_pascal_case("Ébauche"));
    assert!(!is_pascal_case("button"));
    assert!(!is_pascal_case("_Button"));
    assert!(!is_pascal_case(""));
}

#[test]
fn classify_extends_html_attributes_with_react_prefix() {
    match classify_extends("React.ButtonHTMLAttributes", vec!["HTMLButtonElement".to_owned()], &vec![], &vec![]) {
        ExtendsRef::Builtin { name, element, type_args } => {
            assert_eq!(name, "React.ButtonHTMLAttributes");
            assert_eq!(element.as_deref(), Some("button"));
            assert_eq!(type_args, vec!["HTMLButtonElement".to_owned()]);
        },
        other => panic!("expected Builtin, got {:?}", other),
    }
}

#[test]
fn classify_extends_takes_the_element_of_svg_attributes_from_its_argument() {
    match classify_extends("SVGAttributes", vec!["SVGSVGElement".to_owned()], &vec![], &vec![]) {
        ExtendsRef::Builtin { element, .. } => assert_eq!(element.as_deref(), Some("svg")),
        other => panic!("expected Builtin, got {:?}", other),
    }
    match classify_extends("React.HTMLProps", vec!["HTMLAnchorElement".to_owned()], &vec![], &vec![]) {
        ExtendsRef::Builtin { element, .. } => assert_eq!(element.as_deref(), Some("a")),
        other => panic!("expected Builtin, got {:?}", other),
    }
    // An argument that names no known element falls back to the name's own table.
    match classify_extends("HTMLProps", vec!["Whatever".to_owned()], &vec![], &vec![]) {
        ExtendsRef::Builtin { element, .. } => assert_eq!(element.as_deref(), Some("div")),
        other => panic!("expected Builtin, got {:?}", other),
    }
    match classify_extends("SVGProps", vec![], &vec![], &vec![]) {
        ExtendsRef::Builtin { element, .. } => assert_eq!(element, None),
        other => panic!("expected Builtin, got {:?}", other),
    }
}

#[test]
fn classify_extends_react_builtin_without_element() {
    match classify_extends("React.ComponentProps", vec!["\"button\"".to_owned()], &vec![], &vec![]) {
        ExtendsRef::Builtin { name, element, .. } => {
            assert_eq!(name, "React.ComponentProps");
            assert_eq!(element, None);
        },
        other => panic!("expected Builtin, got {:?}", other),
    }
}

#[test]
fn classify_extends_imported_and_same_file() {
    let imported = vec!["BaseProps".to_owned()];
    let imports = vec![binding("Other", "./other"), binding("BaseProps", "./base"), binding("BaseProps", "./later")];
    match classify_extends("BaseProps", vec![], &imported, &imports) {
        ExtendsRef::Imported { local_name, source_specifier, .. } => {
            assert_eq!(local_name, "BaseProps");
            assert_eq!(source_specifier.as_deref(), Some("./base"));
        },
        other => panic!("expected Imported, got {:?}", other),
    }
    match classify_extends("LocalProps", vec!["T".to_owned()], &imported, &imports) {
        ExtendsRef::SameFile { name, type_args } => {
            assert_eq!(name, "LocalProps");
            assert_eq!(type_args, vec!["T".to_owned()]);
        },
        other => panic!("expected SameFile, got {:?}", other),
    }
    // A name that counts as imported but has no binding keeps no specifier.
    match classify_extends("Ghost", vec![], &vec!["Ghost".to_owned()], &imports) {
        ExtendsRef::Imported { source_specifier, .. } => assert_eq!(source_specifier, None),
        other => panic!("expected Imported, got {:?}", other),
    }
}

#[test]
fn find_import_specifier_takes_the_first_binding() {
    let imports = vec![binding("A", "./a"), binding("B", "./b1"), binding("B", "./b2")];
    assert_eq!(find_import_specifier(&imports, "B").as_deref(), Some("./b1"));
    assert_eq!(find_import_specifier(&imports, "C"), None);
}

#[test]
fn scoped_key_with_and_without_namespaces() {
    assert_eq!(scoped_key("/src/a.ts", &vec![], "Foo"), "/src/a.ts:Foo");
    assert_eq!(scoped_key("/src/a.ts", &vec!["NS".to_owned()], "Foo"), "/src/a.ts:NS.Foo");
    assert_eq!(
        scoped_key("/src/a.ts", &vec!["Outer".to_owned(), "Inner".to_owned()], "Foo"),
        "/src/a.ts:Outer.Inner.Foo"
    );
}

#[test]
fn pascal_case_from_file_stems() {
    assert_eq!(pascal_case_from_file_stem("/src/button-group.tsx").as_deref(), Some("ButtonGroup"));
    assert_eq!(pascal_case_from_file_stem("/src/useButton.tsx").as_deref(), Some("UseButton"));
    assert_eq!(pascal_case_from_file_stem("/src/my_nice.widget.tsx").as_deref(), Some("MyNiceWidget"));
    assert_eq!(pascal_case_from_file_stem("/src/--_.tsx"), None);
    assert_eq!(pascal_case_from_file_stem("/"), None);
}

#[test]
fn finish_drops_aliased_components_then_applies_renames_in_order() {
    let ms = vec![mapping("InternalButton"), mapping("Button"), mapping("Card"), mapping("Card")];
    let aliased = vec!["InternalButton".to_owned()];
    let renames = vec![
        ("Card".to_owned(), "FancyCard".to_owned()),
        ("Missing".to_owned(), "Nothing".to_owned()),
        ("Card".to_owned(), "PlainCard".to_owned()),
    ];
    let out = finish_mappings(ms, &aliased, renames);
    let names: Vec<&str> = out.iter().map(|m| m.component_name.as_str()).collect();
    assert_eq!(names, vec!["Button", "FancyCard", "PlainCard"]);
    assert_eq!(out[1].props_type_name, "CardProps");
}

fn raw_default(value: &str, source: DefaultSource) -> RawDefault {
    RawDefault { value: value.to_owned(), computed: false, source }
}

#[test]
fn an_alias_copies_the_first_mapping_under_its_public_name() {
    let mut ms = vec![mapping("Other"), mapping("InternalButton"), mapping("InternalButton")];
    ms[1].props_type_name = "ButtonProps".to_owned();
    ms[1].param_defaults = vec![("size".to_owned(), raw_default("\"md\"", DefaultSource::Destructuring))];
    assert!(alias_component(&mut ms, "InternalButton", "Button"));
    assert_eq!(ms.len(), 4);
    assert_eq!(ms[3].component_name, "Button");
    assert_eq!(ms[3].props_type_name, "ButtonProps");
    assert_eq!(ms[3].param_defaults.len(), 1);
    assert_eq!(ms[1].component_name, "InternalButton");
    assert!(!alias_component(&mut ms, "Missing", "Alias"));
    assert_eq!(ms.len(), 4);
}

#[test]
fn default_props_merge_into_the_named_component() {
    let mut ms = vec![mapping("Card"), mapping("Button")];
    ms[1].param_defaults = vec![
        ("size".to_owned(), raw_default("\"sm\"", DefaultSource::Destructuring)),
        ("tone".to_owned(), raw_default("\"quiet\"", DefaultSource::Destructuring)),
    ];
    let defaults = vec![
        ("size".to_owned(), raw_default("\"lg\"", DefaultSource::DefaultProps)),
        ("disabled".to_owned(), raw_default("false", DefaultSource::DefaultProps)),
    ];
    merge_default_props(&mut ms, "Button", defaults);
    let d = &ms[1].param_defaults;
    assert_eq!(d.len(), 3);
    assert_eq!((d[0].0.as_str(), d[0].1.value.as_str()), ("size", "\"lg\""));
    assert!(matches!(d[0].1.source, DefaultSource::DefaultProps));
    assert_eq!(d[1].0, "tone");
    assert_eq!(d[2].0, "disabled");
    assert!(ms[0].param_defaults.is_empty());
    merge_default_props(&mut ms, "Missing", vec![("x".to_owned(), raw_default("1", DefaultSource::DefaultProps))]);
    assert_eq!(ms[0].param_defaults.len() + ms[1].param_defaults.len(), 3);
}

#[test]
fn two_aliases_of_one_base_both_survive_settling() {
    let mut ms = vec![mapping("Base")];
    assert!(alias_component(&mut ms, "Base", "A"));
    assert!(alias_component(&mut ms, "Base", "B"));
    let settled = finish_mappings(ms, &vec!["Base".to_owned()], vec![]);
    let names: Vec<&str> = settled.iter().map(|m| m.component_name.as_str()).collect();
    assert_eq!(names, vec!["A", "B"]);
    assert!(settled.iter().all(|m| m.props_type_name == "BaseProps"));
}
