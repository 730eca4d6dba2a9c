use react_docgen_core::react_types::{
    html_element_for, html_element_from_type_arg, is_react_builtin, notable_html_attrs, parse_react_version,
    react_18, react_19,
};

#[test]
fn parse_react_version_accepts_known_values() {
    assert_eq!(parse_react_version("react18"), Ok(react_18()));
    assert_eq!(parse_react_version("react19"), Ok(react_19()));
}

#[test]
fn parse_react_version_rejects_a_typo_instead_of_silently_defaulting() {
    assert_eq!(parse_react_version("react20"), Err("react20"));
    assert_eq!(parse_react_version("React18"), Err("React18"));
}

#[test]
fn react_versions_differ_in_children_and_ref() {
    assert!(react_18().implicit_children);
    assert!(!react_18().ref_as_prop);
    assert!(!react_19().implicit_children);
    assert!(react_19().ref_as_prop);
}

#[test]
fn test_html_element_for_table() {
    let cases: Vec<(&str, Option<&str>)> = vec![
        ("ButtonHTMLAttributes", Some("button")),
        ("InputHTMLAttributes", Some("input")),
        ("TextareaHTMLAttributes", Some("textarea")),
        ("SelectHTMLAttributes", Some("select")),
        ("AnchorHTMLAttributes", Some("a")),
        ("FormHTMLAttributes", Some("form")),
        ("LabelHTMLAttributes", Some("label")),
        ("ImgHTMLAttributes", Some("img")),
        ("VideoHTMLAttributes", Some("video")),
        ("AudioHTMLAttributes", Some("audio")),
        ("HTMLAttributes", Some("div")),
        ("DOMAttributes", Some("div")),
        ("AriaAttributes", None),
        ("SVGAttributes", None),
        ("SVGProps", None),
        ("HTMLProps", Some("div")),
        ("UnknownAttributes", None),
        ("", None),
    ];
    for (input, expected) in cases {
        assert_eq!(html_element_for(input), expected, "input {input}");
    }
}

#[test]
fn test_html_element_from_type_arg_table() {
    let cases: Vec<(&str, Option<&str>)> = vec![
        ("HTMLAnchorElement", Some("a")),
        ("HTMLButtonElement", Some("button")),
        ("HTMLDivElement", Some("div")),
        ("HTMLSpanElement", Some("span")),
        ("HTMLFormElement", Some("form")),
        ("HTMLImageElement", Some("img")),
        ("HTMLInputElement", Some("input")),
        ("HTMLLabelElement", Some("label")),
        ("HTMLSelectElement", Some("select")),
        ("HTMLTextAreaElement", Some("textarea")),
        ("HTMLVideoElement", Some("video")),
        ("HTMLAudioElement", Some("audio")),
        ("HTMLParagraphElement", Some("p")),
        ("HTMLUListElement", Some("ul")),
        ("HTMLOListElement", Some("ol")),
        ("HTMLLIElement", Some("li")),
        ("HTMLTableElement", Some("table")),
        ("SVGSVGElement", Some("svg")),
        ("SVGCircleElement", Some("circle")),
        ("SVGPathElement", Some("path")),
        ("SVGRectElement", Some("rect")),
        ("SVGLineElement", Some("line")),
        ("SVGGElement", Some("g")),
        ("UnknownElement", None),
        ("HTMLElement", None),
        ("", None),
    ];
    for (input, expected) in cases {
        assert_eq!(html_element_from_type_arg(input), expected, "input {input}");
    }
}

#[test]
fn is_react_builtin_recognizes_every_hardcoded_name() {
    let names = [
        "ReactNode", "ReactElement", "JSX.Element", "CSSProperties", "CSSObject", "SyntheticEvent",
        "MouseEvent", "KeyboardEvent", "ChangeEvent", "FocusEvent", "FormEvent", "DragEvent",
        "TouchEvent", "WheelEvent", "AnimationEvent", "TransitionEvent", "ClipboardEvent",
        "CompositionEvent", "MouseEventHandler", "KeyboardEventHandler", "ChangeEventHandler",
        "FocusEventHandler", "FormEventHandler", "DragEventHandler", "TouchEventHandler",
        "WheelEventHandler", "AnimationEventHandler", "TransitionEventHandler", "ClipboardEventHandler",
        "CompositionEventHandler", "PointerEventHandler", "ReactEventHandler", "SubmitEventHandler",
        "InputEventHandler", "ToggleEventHandler", "FC", "FunctionComponent", "VFC",
        "VoidFunctionComponent", "ComponentType", "PropsWithChildren", "PropsWithRef", "RefObject",
        "Ref", "ForwardedRef", "MutableRefObject", "RefCallback", "LegacyRef", "Context", "Consumer",
        "Provider", "ComponentPropsWithoutRef", "ComponentPropsWithRef", "ComponentProps", "ElementRef",
        "ElementType", "ReactPortal", "ReactFragment", "ReactChild", "ForwardRefExoticComponent",
        "RefAttributes", "ComponentRef", "JSXElementConstructor", "SVGAttributes", "SVGProps",
        "HTMLProps",
    ];
    let empty: Vec<String> = Vec::new();
    for name in names {
        assert!(is_react_builtin(name, &empty), "expected '{name}' to be recognized as a builtin");
    }
}

#[test]
fn is_react_builtin_rejects_a_name_in_neither_the_hardcoded_list_nor_extra() {
    let empty: Vec<String> = Vec::new();
    assert!(!is_react_builtin("SomeProjectSpecificType", &empty));
}

#[test]
fn is_react_builtin_recognizes_a_name_present_only_in_extra() {
    let extra = vec!["MyLibraryVariant".to_string()];
    assert!(is_react_builtin("MyLibraryVariant", &extra));
    assert!(!is_react_builtin("SomeOtherType", &extra));
}

#[test]
fn is_react_builtin_recognizes_a_hardcoded_name_even_with_an_unrelated_extra_set() {
    let extra = vec!["MyLibraryVariant".to_string()];
    assert!(is_react_builtin("ReactNode", &extra), "the hardcoded list must not be masked by a non-empty extra set");
}

#[test]
fn notable_html_attrs_button_is_exact() {
    assert_eq!(
        notable_html_attrs("button"),
        &[
            "onClick",
            "onKeyDown",
            "onKeyUp",
            "onFocus",
            "onBlur",
            "disabled",
            "type",
            "form",
            "name",
            "value",
            "tabIndex",
            "aria-label",
            "aria-describedby",
            "aria-expanded",
            "aria-pressed",
            "aria-haspopup",
        ]
    );
}

#[test]
fn notable_html_attrs_input_is_exact() {
    assert_eq!(
        notable_html_attrs("input"),
        &[
            "onChange",
            "onInput",
            "onFocus",
            "onBlur",
            "value",
            "defaultValue",
            "placeholder",
            "type",
            "disabled",
            "readOnly",
            "required",
            "name",
            "min",
            "max",
            "pattern",
            "autoComplete",
            "checked",
            "defaultChecked",
        ]
    );
}

#[test]
fn notable_html_attrs_anchor_is_exact() {
    assert_eq!(notable_html_attrs("a"), &["href", "target", "rel", "download", "onClick"]);
}

#[test]
fn notable_html_attrs_textarea_is_exact() {
    assert_eq!(
        notable_html_attrs("textarea"),
        &["onChange", "value", "defaultValue", "placeholder", "disabled", "readOnly", "required", "rows", "maxLength"]
    );
}

#[test]
fn notable_html_attrs_select_is_exact() {
    assert_eq!(notable_html_attrs("select"), &["onChange", "value", "defaultValue", "disabled", "multiple", "required"]);
}

#[test]
fn notable_html_attrs_form_is_exact() {
    assert_eq!(notable_html_attrs("form"), &["onSubmit", "onReset", "action", "method", "encType", "noValidate"]);
}

#[test]
fn notable_html_attrs_img_is_exact() {
    assert_eq!(notable_html_attrs("img"), &["src", "alt", "width", "height", "loading", "onLoad", "onError"]);
}

#[test]
fn notable_html_attrs_falls_back_to_the_generic_default_for_an_unrecognized_element() {
    let generic = &["onClick", "onFocus", "onBlur", "className", "style", "id", "tabIndex", "aria-label"];
    assert_eq!(notable_html_attrs("div"), generic);
    assert_eq!(notable_html_attrs("span"), generic);
    assert_eq!(notable_html_attrs(""), generic, "an empty element name should also hit the generic default");
}

#[test]
fn every_notable_attr_list_is_nonempty_and_distinct() {
    for el in ["button", "input", "a", "textarea", "select", "form", "img", "div", "span"] {
        let attrs = notable_html_attrs(el);
        assert!(!attrs.is_empty());
        let mut sorted = attrs.clone();
        sorted.sort();
        sorted.dedup();
        assert_eq!(sorted.len(), attrs.len(), "duplicate attribute for {el}");
    }
}
