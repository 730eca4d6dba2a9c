use react_docgen_core::known::{html_attrs_from_first_arg, resolve_known, KnownPatternResult};
use react_docgen_core::types::{EnumEntry, EnumValue, GlobalSourceData, OpaqueReason, PropType};

fn empty() -> GlobalSourceData {
    GlobalSourceData::default()
}

#[test]
fn test_sx_props_is_opaque() {
    let result = resolve_known("SxProps", &[], &empty());
    assert!(matches!(result, Some(KnownPatternResult::Type(PropType::SxProps))));
}

#[test]
fn test_component_props_without_ref_string_literal() {
    let args = vec![PropType::StringLiteral("button".into())];
    let result = resolve_known("ComponentPropsWithoutRef", &args, &empty());
    assert!(
        matches!(result, Some(KnownPatternResult::Type(PropType::HtmlAttributes { ref element, .. })) if element == "button")
    );
}

#[test]
fn test_html_chakra_props() {
    let args = vec![PropType::StringLiteral("input".into())];
    let result = resolve_known("HTMLChakraProps", &args, &empty());
    assert!(
        matches!(result, Some(KnownPatternResult::Type(PropType::HtmlAttributes { ref element, .. })) if element == "input")
    );
}

#[test]
fn test_props_with_children_aliases() {
    let args = vec![PropType::Named { name: "ButtonProps".into(), args: vec![] }];
    let result = resolve_known("PropsWithChildren", &args, &empty());
    assert!(matches!(result, Some(KnownPatternResult::Alias { ref name, .. }) if name == "ButtonProps"));
}

#[test]
fn test_partial_returns_none() {
    let result = resolve_known("Partial", &[], &empty());
    assert!(result.is_none());
}

#[test]
fn test_render_props_returns_two_props() {
    let result = resolve_known("RenderProps", &[], &empty());
    let Some(KnownPatternResult::Props(props)) = result else { panic!("expected Props result") };
    assert!(props.iter().any(|p| p.name == "className"));
    assert!(props.iter().any(|p| p.name == "style"));
}

#[test]
fn test_system_style_object_is_sx_props() {
    let result = resolve_known("SystemStyleObject", &[], &empty());
    assert!(matches!(result, Some(KnownPatternResult::Type(PropType::SxProps))));
}

#[test]
fn test_system_css_properties_is_sx_props() {
    let result = resolve_known("SystemCssProperties", &[], &empty());
    assert!(matches!(result, Some(KnownPatternResult::Type(PropType::SxProps))));
}

#[test]
fn test_overridable_string_union_with_base_arg() {
    let args = vec![PropType::Union(vec![
        PropType::StringLiteral("contained".into()),
        PropType::StringLiteral("outlined".into()),
    ])];
    let result = resolve_known("OverridableStringUnion", &args, &empty());
    assert!(matches!(result, Some(KnownPatternResult::Type(PropType::Union(_)))));
}

#[test]
fn test_overridable_string_union_no_args() {
    let result = resolve_known("OverridableStringUnion", &[], &empty());
    assert!(matches!(
        result,
        Some(KnownPatternResult::Type(PropType::Opaque { reason: OpaqueReason::ModuleAugmentation, .. }))
    ));
}

#[test]
fn test_slot_props_returns_slot_prop() {
    let result = resolve_known("SlotProps", &[], &empty());
    let Some(KnownPatternResult::Props(props)) = result else { panic!("expected Props result") };
    assert_eq!(props.len(), 1);
    assert_eq!(props[0].name, "slot");
    assert!(!props[0].required);
}

#[test]
fn test_html_ark_props() {
    let args = vec![PropType::StringLiteral("div".into())];
    let result = resolve_known("HTMLArkProps", &args, &empty());
    assert!(
        matches!(result, Some(KnownPatternResult::Type(PropType::HtmlAttributes { ref element, .. })) if element == "div")
    );
}

#[test]
fn test_html_styled_props() {
    let args = vec![PropType::StringLiteral("span".into())];
    let result = resolve_known("HTMLStyledProps", &args, &empty());
    assert!(
        matches!(result, Some(KnownPatternResult::Type(PropType::HtmlAttributes { ref element, .. })) if element == "span")
    );
}

#[test]
fn test_theming_props_is_runtime_dependent() {
    let result = resolve_known("ThemingProps", &[], &empty());
    assert!(matches!(
        result,
        Some(KnownPatternResult::Type(PropType::Opaque { reason: OpaqueReason::RuntimeDependent { .. }, .. }))
    ));
}

#[test]
fn test_styles_api_props_is_runtime_dependent() {
    let result = resolve_known("StylesApiProps", &[], &empty());
    assert!(matches!(
        result,
        Some(KnownPatternResult::Type(PropType::Opaque { reason: OpaqueReason::RuntimeDependent { .. }, .. }))
    ));
}

#[test]
fn test_mantine_color_returns_none() {
    assert!(resolve_known("MantineColor", &[], &empty()).is_none());
}

#[test]
fn test_mantine_size_returns_none() {
    assert!(resolve_known("MantineSize", &[], &empty()).is_none());
}

#[test]
fn test_mantine_radius_returns_none() {
    assert!(resolve_known("MantineRadius", &[], &empty()).is_none());
}

#[test]
fn test_props_with_ref_aliases() {
    let args = vec![PropType::Named { name: "InputProps".into(), args: vec![] }];
    let result = resolve_known("PropsWithRef", &args, &empty());
    assert!(matches!(result, Some(KnownPatternResult::Alias { ref name, .. }) if name == "InputProps"));
}

#[test]
fn test_component_props_without_ref_named_type() {
    let args = vec![PropType::Named { name: "MyComponent".into(), args: vec![] }];
    let result = resolve_known("ComponentPropsWithoutRef", &args, &empty());
    assert!(matches!(result, Some(KnownPatternResult::Alias { ref name, .. }) if name == "MyComponent"));
}

#[test]
fn test_component_props_with_ref() {
    let args = vec![PropType::StringLiteral("a".into())];
    let result = resolve_known("ComponentPropsWithRef", &args, &empty());
    assert!(
        matches!(result, Some(KnownPatternResult::Type(PropType::HtmlAttributes { ref element, .. })) if element == "a")
    );
}

#[test]
fn test_element_ref_returns_ref() {
    let result = resolve_known("ElementRef", &[], &empty());
    assert!(matches!(result, Some(KnownPatternResult::Type(PropType::Ref { element: None }))));
}

#[test]
fn test_required_returns_none() {
    assert!(resolve_known("Required", &[], &empty()).is_none());
}

#[test]
fn test_readonly_returns_none() {
    assert!(resolve_known("Readonly", &[], &empty()).is_none());
}

#[test]
fn test_non_nullable_returns_none() {
    assert!(resolve_known("NonNullable", &[], &empty()).is_none());
}

#[test]
fn test_omit_returns_none() {
    assert!(resolve_known("Omit", &[], &empty()).is_none());
}

#[test]
fn test_pick_returns_none() {
    assert!(resolve_known("Pick", &[], &empty()).is_none());
}

#[test]
fn test_unknown_type_returns_none() {
    assert!(resolve_known("SomeRandomType", &[], &empty()).is_none());
}

#[test]
fn test_recipe_variant_props_no_args_is_opaque() {
    let result = resolve_known("RecipeVariantProps", &[], &empty());
    assert!(matches!(
        result,
        Some(KnownPatternResult::Type(PropType::Opaque { reason: OpaqueReason::RuntimeDependent { .. }, .. }))
    ));
}

#[test]
fn test_variant_props_named_not_in_global_is_opaque() {
    let args = vec![PropType::Named { name: "buttonVariants".into(), args: vec![] }];
    let result = resolve_known("VariantProps", &args, &empty());
    assert!(matches!(
        result,
        Some(KnownPatternResult::Type(PropType::Opaque { reason: OpaqueReason::RuntimeDependent { .. }, .. }))
    ));
}

fn entry(name: &str, value: &str) -> EnumEntry {
    EnumEntry { name: name.into(), value: EnumValue::String(value.into()), description: String::new() }
}

#[test]
fn test_variant_props_found_in_global_returns_props() {
    let global = GlobalSourceData {
        enums: vec![(
            "/src/button.ts:buttonVariants".to_string(),
            vec![entry("variant", "default"), entry("variant", "destructive"), entry("size", "sm")],
        )],
        ..Default::default()
    };
    let args = vec![PropType::Named { name: "buttonVariants".into(), args: vec![] }];
    let result = resolve_known("VariantProps", &args, &global);
    let Some(KnownPatternResult::Props(props)) = result else {
        panic!("expected Props result, got something else")
    };
    // Two variant keys: "variant" and "size".
    assert_eq!(props.len(), 2);
    assert!(props.iter().any(|p| p.name == "variant"));
    assert!(props.iter().any(|p| p.name == "size"));
}

#[test]
fn test_component_props_no_args_returns_none() {
    assert!(resolve_known("ComponentProps", &[], &empty()).is_none());
}

#[test]
fn test_html_chakra_props_no_args_returns_none() {
    assert!(resolve_known("HTMLChakraProps", &[], &empty()).is_none());
}

#[test]
fn variant_props_are_sorted_by_key_with_values_in_declaration_order() {
    let global = GlobalSourceData {
        enums: vec![(
            "/src/button.ts:buttonVariants".to_string(),
            vec![entry("variant", "default"), entry("size", "sm"), entry("variant", "outline")],
        )],
        ..Default::default()
    };
    let args = vec![PropType::Named { name: "buttonVariants".into(), args: vec![] }];
    let Some(KnownPatternResult::Props(props)) = resolve_known("VariantProps", &args, &global) else {
        panic!("expected Props")
    };
    assert_eq!(props.len(), 2);
    assert_eq!(props[0].name, "size");
    assert_eq!(props[1].name, "variant");
    let variant = &props[1];
    assert_eq!(
        variant.prop_type,
        PropType::LiteralUnion { members: vec!["default".to_string(), "outline".to_string()], has_default: false }
    );
    assert!(!variant.required);
}

#[test]
fn html_attributes_element_is_lowercased() {
    let result = html_attrs_from_first_arg(&[PropType::StringLiteral("BUTTON".into())]);
    assert!(
        matches!(result, Some(KnownPatternResult::Type(PropType::HtmlAttributes { ref element, .. })) if element == "button")
    );
}

#[test]
fn variant_props_group_values_by_name_in_order() {
    let global = GlobalSourceData {
        enums: vec![(
            "/src/button.ts:buttonVariants".to_string(),
            vec![entry("variant", "default"), entry("size", "sm"), entry("variant", "outline"), entry("size", "lg")],
        )],
        ..Default::default()
    };
    let args = vec![PropType::Named { name: "buttonVariants".into(), args: vec![] }];
    let Some(KnownPatternResult::Props(props)) = resolve_known("VariantProps", &args, &global) else {
        panic!("expected Props result")
    };
    let names: Vec<&str> = props.iter().map(|p| p.name.as_str()).collect();
    assert_eq!(names, vec!["size", "variant"]);
    assert_eq!(props[0].prop_type, PropType::LiteralUnion { members: vec!["sm".into(), "lg".into()], has_default: false });
    assert_eq!(
        props[1].prop_type,
        PropType::LiteralUnion { members: vec!["default".into(), "outline".into()], has_default: false }
    );
    assert!(!props[0].required);
}
