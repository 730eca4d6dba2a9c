use react_docgen_core::detect::{
    after_pattern, class_skipped_note, nesting_guard, push_decimal, record_inline_props, skipped_note, type_depth_cut, DeclaratorPattern,
    DeclaratorStep, SkippedKind,
};
use react_docgen_core::types::{CollectedTypeAlias, ComponentMapping, DiagnosticCode, DiagnosticSeverity};

fn mapping(name: &str) -> ComponentMapping {
    ComponentMapping {
        component_name: name.to_owned(),
        props_type_name: format!("{name}Props"),
        props_type_args: vec![],
        file_path: "/src/Button.tsx".to_owned(),
        description: String::new(),
        tags: vec![],
        span_start: 0,
        span_end: 0,
        param_defaults: vec![],
    }
}

#[test]
fn decimal_text_of_numbers() {
    let mut s = String::from("n=");
    push_decimal(&mut s, 0);
    push_decimal(&mut s, 7);
    s.push(',');
    push_decimal(&mut s, 2048);
    assert_eq!(s, "n=07,2048");
}

#[test]
fn shallow_source_passes_the_nesting_guard() {
    assert!(nesting_guard("/src/a.ts", "type A = { b: { c: string } };").is_none());
}

#[test]
fn deep_source_is_skipped_with_an_error() {
    let source = "(".repeat(2001);
    let d = nesting_guard("/src/deep.ts", &source).expect("too deep");
    assert_eq!(d.severity, DiagnosticSeverity::Error);
    assert_eq!(d.code, DiagnosticCode::ExcessiveNesting);
    assert_eq!(
        d.message,
        "File exceeds maximum type nesting depth (2001 > 2000), skipped to avoid parser stack overflow"
    );
    assert_eq!(d.file.as_deref(), Some("/src/deep.ts"));
}

#[test]
fn nesting_at_the_bound_is_parsed() {
    let source = "(".repeat(2000);
    assert!(nesting_guard("/src/edge.ts", &source).is_none());
}

#[test]
fn type_depth_cut_past_the_bound() {
    assert!(type_depth_cut("/src/a.ts", 200).is_none());
    let d = type_depth_cut("/src/a.ts", 201).expect("past the bound");
    assert_eq!(d.code, DiagnosticCode::MaxDepthExceeded);
    assert_eq!(d.severity, DiagnosticSeverity::Warning);
    assert_eq!(d.message, "Type nesting exceeds maximum extractor recursion depth (201 > 200)");
}

#[test]
fn patterns_are_tried_in_order() {
    let next = |p: DeclaratorPattern, has_init: bool| match after_pattern("/f.tsx", "Button", has_init, p, None, false) {
        DeclaratorStep::Try(q) => Some(q),
        _ => None,
    };
    assert_eq!(next(DeclaratorPattern::FcAnnotation, true), Some(DeclaratorPattern::ForwardRef));
    assert_eq!(next(DeclaratorPattern::ForwardRef, true), Some(DeclaratorPattern::HocWrapped));
    assert_eq!(next(DeclaratorPattern::HocWrapped, true), Some(DeclaratorPattern::ClassExpression));
    assert_eq!(next(DeclaratorPattern::ClassExpression, true), Some(DeclaratorPattern::Renamed));
    assert_eq!(next(DeclaratorPattern::ClassExpression, false), None);
}

#[test]
fn a_found_component_is_recorded() {
    match after_pattern("/f.tsx", "Button", true, DeclaratorPattern::ForwardRef, Some(mapping("Button")), false) {
        DeclaratorStep::Record(m) => assert_eq!(m.component_name, "Button"),
        _ => panic!("expected the mapping to be recorded"),
    }
}

#[test]
fn an_unmatched_binding_gets_a_note() {
    match after_pattern("/f.tsx", "Thing", true, DeclaratorPattern::Renamed, None, false) {
        DeclaratorStep::Skip(d) => {
            assert_eq!(d.code, DiagnosticCode::SkippedCandidate);
            assert_eq!(d.severity, DiagnosticSeverity::Info);
            assert_eq!(
                d.message,
                "'Thing' is a PascalCase binding but matched no known component pattern (FC annotation, forwardRef, HOC wrapper, or identifier alias)"
            );
        },
        _ => panic!("expected a note"),
    }
    assert!(matches!(
        after_pattern("/f.tsx", "Thing", true, DeclaratorPattern::Renamed, None, true),
        DeclaratorStep::Done
    ));
}

#[test]
fn skipped_notes_name_the_declaration() {
    let d = skipped_note("/f.tsx", SkippedKind::UntypedFunction, "Card");
    assert_eq!(d.message, "'Card' is a PascalCase function declaration with an untyped first param");
    assert_eq!(d.file.as_deref(), Some("/f.tsx"));
    let c = class_skipped_note("/f.tsx", "Card", "Component");
    assert_eq!(
        c.message,
        "'Card' is a class component extending Component whose props type argument isn't a recognizable props type reference"
    );
}

#[test]
fn inline_props_are_recorded_under_a_numbered_name() {
    let lit = |m: &str| CollectedTypeAlias::LiteralUnion { members: vec![m.to_owned()], file_path: "/src/a.tsx".into() };
    let mut aliases = vec![("/src/a.tsx:Size".to_owned(), lit("sm"))];
    let name = record_inline_props(&mut aliases, "/src/a.tsx", &vec![], lit("x"));
    assert_eq!(name, "__anon_1");
    assert_eq!(aliases.len(), 2);
    assert_eq!(aliases[1].0, "/src/a.tsx:__anon_1");
    let ns = vec!["UI".to_owned()];
    let name = record_inline_props(&mut aliases, "/src/a.tsx", &ns, lit("y"));
    assert_eq!(name, "__anon_2");
    assert_eq!(aliases[2].0, "/src/a.tsx:UI.__anon_2");
}
