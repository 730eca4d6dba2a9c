//! Baked-in knowledge of React and DOM types.

use vstd::prelude::*;
use crate::text::str_eq;
use crate::types::strs_view;

verus! {

/// The DOM element named by an `@types/react` HTML attribute interface.
pub open spec fn spec_html_element_for(name: Seq<char>) -> Option<Seq<char>> {
    if name == "ButtonHTMLAttributes"@ { Some("button"@) }
    else if name == "InputHTMLAttributes"@ { Some("input"@) }
    else if name == "TextareaHTMLAttributes"@ { Some("textarea"@) }
    else if name == "SelectHTMLAttributes"@ { Some("select"@) }
    else if name == "AnchorHTMLAttributes"@ { Some("a"@) }
    else if name == "FormHTMLAttributes"@ { Some("form"@) }
    else if name == "LabelHTMLAttributes"@ { Some("label"@) }
    else if name == "ImgHTMLAttributes"@ { Some("img"@) }
    else if name == "VideoHTMLAttributes"@ { Some("video"@) }
    else if name == "AudioHTMLAttributes"@ { Some("audio"@) }
    else if name == "HTMLAttributes"@ { Some("div"@) }
    else if name == "DOMAttributes"@ { Some("div"@) }
    else if name == "HTMLProps"@ { Some("div"@) }
    else { None }
}

pub open spec fn opt_str_view(o: Option<&str>) -> Option<Seq<char>> {
    match o {
        Some(s) => Some(s@),
        None => None,
    }
}

/// HTML element names recognized as component-level inheritors: maps
/// `@types/react` HTML attribute type names to their DOM element names.
pub fn html_element_for(attrs_name: &str) -> (res: Option<&'static str>)
    ensures
        opt_str_view(res) == spec_html_element_for(attrs_name@),
{
    if str_eq(attrs_name, "ButtonHTMLAttributes") { Some("button") }
    else if str_eq(attrs_name, "InputHTMLAttributes") { Some("input") }
    else if str_eq(attrs_name, "TextareaHTMLAttributes") { Some("textarea") }
    else if str_eq(attrs_name, "SelectHTMLAttributes") { Some("select") }
    else if str_eq(attrs_name, "AnchorHTMLAttributes") { Some("a") }
    else if str_eq(attrs_name, "FormHTMLAttributes") { Some("form") }
    else if str_eq(attrs_name, "LabelHTMLAttributes") { Some("label") }
    else if str_eq(attrs_name, "ImgHTMLAttributes") { Some("img") }
    else if str_eq(attrs_name, "VideoHTMLAttributes") { Some("video") }
    else if str_eq(attrs_name, "AudioHTMLAttributes") { Some("audio") }
    else if str_eq(attrs_name, "HTMLAttributes") { Some("div") }
    else if str_eq(attrs_name, "DOMAttributes") { Some("div") }
    else if str_eq(attrs_name, "HTMLProps") { Some("div") }
    else { None }
}


/// The DOM element named by a concrete element interface used as the type
/// argument of `SVGAttributes<T>`, `SVGProps<T>` or `HTMLProps<T>`.
pub open spec fn spec_html_element_from_type_arg(arg: Seq<char>) -> Option<Seq<char>> {
    if arg == "HTMLAnchorElement"@ { Some("a"@) }
    else if arg == "HTMLButtonElement"@ { Some("button"@) }
    else if arg == "HTMLDivElement"@ { Some("div"@) }
    else if arg == "HTMLSpanElement"@ { Some("span"@) }
    else if arg == "HTMLFormElement"@ { Some("form"@) }
    else if arg == "HTMLImageElement"@ { Some("img"@) }
    else if arg == "HTMLInputElement"@ { Some("input"@) }
    else if arg == "HTMLLabelElement"@ { Some("label"@) }
    else if arg == "HTMLSelectElement"@ { Some("select"@) }
    else if arg == "HTMLTextAreaElement"@ { Some("textarea"@) }
    else if arg == "HTMLVideoElement"@ { Some("video"@) }
    else if arg == "HTMLAudioElement"@ { Some("audio"@) }
    else if arg == "HTMLParagraphElement"@ { Some("p"@) }
    else if arg == "HTMLUListElement"@ { Some("ul"@) }
    else if arg == "HTMLOListElement"@ { Some("ol"@) }
    else if arg == "HTMLLIElement"@ { Some("li"@) }
    else if arg == "HTMLTableElement"@ { Some("table"@) }
    else if arg == "SVGSVGElement"@ { Some("svg"@) }
    else if arg == "SVGCircleElement"@ { Some("circle"@) }
    else if arg == "SVGPathElement"@ { Some("path"@) }
    else if arg == "SVGRectElement"@ { Some("rect"@) }
    else if arg == "SVGLineElement"@ { Some("line"@) }
    else if arg == "SVGGElement"@ { Some("g"@) }
    else { None }
}

/// Derives the element tag from the concrete DOM element type given as the
/// argument of a generic attribute type; `None` for anything not in the table.
pub fn html_element_from_type_arg(type_arg: &str) -> (res: Option<&'static str>)
    ensures
        opt_str_view(res) == spec_html_element_from_type_arg(type_arg@),
{
    if str_eq(type_arg, "HTMLAnchorElement") { Some("a") }
    else if str_eq(type_arg, "HTMLButtonElement") { Some("button") }
    else if str_eq(type_arg, "HTMLDivElement") { Some("div") }
    else if str_eq(type_arg, "HTMLSpanElement") { Some("span") }
    else if str_eq(type_arg, "HTMLFormElement") { Some("form") }
    else if str_eq(type_arg, "HTMLImageElement") { Some("img") }
    else if str_eq(type_arg, "HTMLInputElement") { Some("input") }
    else if str_eq(type_arg, "HTMLLabelElement") { Some("label") }
    else if str_eq(type_arg, "HTMLSelectElement") { Some("select") }
    else if str_eq(type_arg, "HTMLTextAreaElement") { Some("textarea") }
    else if str_eq(type_arg, "HTMLVideoElement") { Some("video") }
    else if str_eq(type_arg, "HTMLAudioElement") { Some("audio") }
    else if str_eq(type_arg, "HTMLParagraphElement") { Some("p") }
    else if str_eq(type_arg, "HTMLUListElement") { Some("ul") }
    else if str_eq(type_arg, "HTMLOListElement") { Some("ol") }
    else if str_eq(type_arg, "HTMLLIElement") { Some("li") }
    else if str_eq(type_arg, "HTMLTableElement") { Some("table") }
    else if str_eq(type_arg, "SVGSVGElement") { Some("svg") }
    else if str_eq(type_arg, "SVGCircleElement") { Some("circle") }
    else if str_eq(type_arg, "SVGPathElement") { Some("path") }
    else if str_eq(type_arg, "SVGRectElement") { Some("rect") }
    else if str_eq(type_arg, "SVGLineElement") { Some("line") }
    else if str_eq(type_arg, "SVGGElement") { Some("g") }
    else { None }
}

/// The React type names that are terminal: never expanded further.
pub open spec fn spec_react_builtin_names() -> Seq<Seq<char>> {
    seq![
        "ReactNode"@, "ReactElement"@, "JSX.Element"@, "CSSProperties"@, "CSSObject"@,
        "SyntheticEvent"@, "MouseEvent"@, "KeyboardEvent"@, "ChangeEvent"@, "FocusEvent"@,
        "FormEvent"@, "DragEvent"@, "TouchEvent"@, "WheelEvent"@, "AnimationEvent"@,
        "TransitionEvent"@, "ClipboardEvent"@, "CompositionEvent"@, "MouseEventHandler"@,
        "KeyboardEventHandler"@, "ChangeEventHandler"@, "FocusEventHandler"@, "FormEventHandler"@,
        "DragEventHandler"@, "TouchEventHandler"@, "WheelEventHandler"@, "AnimationEventHandler"@,
        "TransitionEventHandler"@, "ClipboardEventHandler"@, "CompositionEventHandler"@,
        "PointerEventHandler"@, "ReactEventHandler"@, "SubmitEventHandler"@, "InputEventHandler"@,
        "ToggleEventHandler"@, "FC"@, "FunctionComponent"@, "VFC"@, "VoidFunctionComponent"@,
        "ComponentType"@, "PropsWithChildren"@, "PropsWithRef"@, "RefObject"@, "Ref"@,
        "ForwardedRef"@, "MutableRefObject"@, "RefCallback"@, "LegacyRef"@, "Context"@,
        "Consumer"@, "Provider"@, "ComponentPropsWithoutRef"@, "ComponentPropsWithRef"@,
        "ComponentProps"@, "ElementRef"@, "ElementType"@, "ReactPortal"@, "ReactFragment"@,
        "ReactChild"@, "ForwardRefExoticComponent"@, "RefAttributes"@, "ComponentRef"@,
        "JSXElementConstructor"@, "SVGAttributes"@, "SVGProps"@, "HTMLProps"@
    ]
}

pub open spec fn static_strs_view(v: Seq<&'static str>) -> Seq<Seq<char>> {
    v.map_values(|s: &'static str| s@)
}

fn react_builtin_names() -> (res: Vec<&'static str>)
    ensures
        static_strs_view(res@) == spec_react_builtin_names(),
{
    let v: Vec<&'static str> = vec![
        "ReactNode", "ReactElement", "JSX.Element", "CSSProperties", "CSSObject",
        "SyntheticEvent", "MouseEvent", "KeyboardEvent", "ChangeEvent", "FocusEvent",
        "FormEvent", "DragEvent", "TouchEvent", "WheelEvent", "AnimationEvent",
        "TransitionEvent", "ClipboardEvent", "CompositionEvent", "MouseEventHandler",
        "KeyboardEventHandler", "ChangeEventHandler", "FocusEventHandler", "FormEventHandler",
        "DragEventHandler", "TouchEventHandler", "WheelEventHandler", "AnimationEventHandler",
        "TransitionEventHandler", "ClipboardEventHandler", "CompositionEventHandler",
        "PointerEventHandler", "ReactEventHandler", "SubmitEventHandler", "InputEventHandler",
        "ToggleEventHandler", "FC", "FunctionComponent", "VFC", "VoidFunctionComponent",
        "ComponentType", "PropsWithChildren", "PropsWithRef", "RefObject", "Ref",
        "ForwardedRef", "MutableRefObject", "RefCallback", "LegacyRef", "Context",
        "Consumer", "Provider", "ComponentPropsWithoutRef", "ComponentPropsWithRef",
        "ComponentProps", "ElementRef", "ElementType", "ReactPortal", "ReactFragment",
        "ReactChild", "ForwardRefExoticComponent", "RefAttributes", "ComponentRef",
        "JSXElementConstructor", "SVGAttributes", "SVGProps", "HTMLProps"
    ];
    proof { assert(static_strs_view(v@) =~= spec_react_builtin_names()); }
    v
}

/// Whether `name` occurs in `names` (by string equality).
pub fn contains_str(names: &Vec<String>, name: &str) -> (res: bool)
    ensures
        res == strs_view(names@).contains(name@),
{
    let mut i: usize = 0;
    while i < names.len()
        invariant
            i <= names.len(),
            forall|j: int| 0 <= j < i ==> names@[j]@ != name@,
        decreases names.len() - i,
    {
        if str_eq(names[i].as_str(), name) {
            proof { assert(strs_view(names@)[i as int] == name@); }
            return true;
        }
        i = i + 1;
    }
    proof {
        if strs_view(names@).contains(name@) {
            let k = choose|k: int| 0 <= k < strs_view(names@).len() && strs_view(names@)[k] == name@;
            assert(names@[k]@ == name@);
        }
    }
    false
}

/// Whether `name` occurs in a list of static names.
fn contains_static(names: &Vec<&'static str>, name: &str) -> (res: bool)
    ensures
        res == static_strs_view(names@).contains(name@),
{
    let mut i: usize = 0;
    while i < names.len()
        invariant
            i <= names.len(),
            forall|j: int| 0 <= j < i ==> names@[j]@ != name@,
        decreases names.len() - i,
    {
        if str_eq(names[i], name) {
            proof { assert(static_strs_view(names@)[i as int] == name@); }
            return true;
        }
        i = i + 1;
    }
    proof {
        if static_strs_view(names@).contains(name@) {
            let k = choose|k: int| 0 <= k < static_strs_view(names@).len() && static_strs_view(names@)[k] == name@;
            assert(names@[k]@ == name@);
        }
    }
    false
}

pub open spec fn spec_is_react_builtin(name: Seq<char>, extra: Seq<Seq<char>>) -> bool {
    extra.contains(name) || spec_react_builtin_names().contains(name)
}

/// Types that are terminal: React-specific names that are never chased
/// through imports. `extra` holds additional builtin names supplied by the
/// caller.
pub fn is_react_builtin(name: &str, extra: &Vec<String>) -> (res: bool)
    ensures
        res == spec_is_react_builtin(name@, strs_view(extra@)),
{
    if contains_str(extra, name) {
        return true;
    }
    let names = react_builtin_names();
    contains_static(&names, name)
}

/// The names a caller supplies as extra builtins are builtins, as are the
/// React names of the fixed table, whatever the caller supplies.
pub proof fn law_extra_names_are_builtin(name: Seq<char>, extra: Seq<Seq<char>>)
    ensures
        extra.contains(name) ==> spec_is_react_builtin(name, extra),
        spec_is_react_builtin(name, Seq::empty()) ==> spec_is_react_builtin(name, extra),
{
}

/// The curated notable HTML attributes of `element`.
pub open spec fn spec_notable_html_attrs(element: Seq<char>) -> Seq<Seq<char>> {
    if element == "button"@ {
        seq![
            "onClick"@, "onKeyDown"@, "onKeyUp"@, "onFocus"@, "onBlur"@, "disabled"@, "type"@,
            "form"@, "name"@, "value"@, "tabIndex"@, "aria-label"@, "aria-describedby"@,
            "aria-expanded"@, "aria-pressed"@, "aria-haspopup"@
        ]
    } else if element == "input"@ {
        seq![
            "onChange"@, "onInput"@, "onFocus"@, "onBlur"@, "value"@, "defaultValue"@,
            "placeholder"@, "type"@, "disabled"@, "readOnly"@, "required"@, "name"@, "min"@,
            "max"@, "pattern"@, "autoComplete"@, "checked"@, "defaultChecked"@
        ]
    } else if element == "a"@ {
        seq!["href"@, "target"@, "rel"@, "download"@, "onClick"@]
    } else if element == "textarea"@ {
        seq![
            "onChange"@, "value"@, "defaultValue"@, "placeholder"@, "disabled"@, "readOnly"@,
            "required"@, "rows"@, "maxLength"@
        ]
    } else if element == "select"@ {
        seq!["onChange"@, "value"@, "defaultValue"@, "disabled"@, "multiple"@, "required"@]
    } else if element == "form"@ {
        seq!["onSubmit"@, "onReset"@, "action"@, "method"@, "encType"@, "noValidate"@]
    } else if element == "img"@ {
        seq!["src"@, "alt"@, "width"@, "height"@, "loading"@, "onLoad"@, "onError"@]
    } else {
        seq!["onClick"@, "onFocus"@, "onBlur"@, "className"@, "style"@, "id"@, "tabIndex"@, "aria-label"@]
    }
}

/// The curated list of notable HTML attribute prop names for an element:
/// the subset of inherited HTML props most relevant for prop tables.
pub fn notable_html_attrs(element: &str) -> (res: Vec<&'static str>)
    ensures
        static_strs_view(res@) == spec_notable_html_attrs(element@),
{
    if str_eq(element, "button") {
        let v: Vec<&'static str> = vec![
            "onClick", "onKeyDown", "onKeyUp", "onFocus", "onBlur", "disabled", "type", "form",
            "name", "value", "tabIndex", "aria-label", "aria-describedby", "aria-expanded",
            "aria-pressed", "aria-haspopup"
        ];
        proof { assert(static_strs_view(v@) =~= spec_notable_html_attrs(element@)); }
        v
    } else if str_eq(element, "input") {
        let v: Vec<&'static str> = vec![
            "onChange", "onInput", "onFocus", "onBlur", "value", "defaultValue", "placeholder",
            "type", "disabled", "readOnly", "required", "name", "min", "max", "pattern",
            "autoComplete", "checked", "defaultChecked"
        ];
        proof { assert(static_strs_view(v@) =~= spec_notable_html_attrs(element@)); }
        v
    } else if str_eq(element, "a") {
        let v: Vec<&'static str> = vec!["href", "target", "rel", "download", "onClick"];
        proof { assert(static_strs_view(v@) =~= spec_notable_html_attrs(element@)); }
        v
    } else if str_eq(element, "textarea") {
        let v: Vec<&'static str> = vec![
            "onChange", "value", "defaultValue", "placeholder", "disabled", "readOnly", "required",
            "rows", "maxLength"
        ];
        proof { assert(static_strs_view(v@) =~= spec_notable_html_attrs(element@)); }
        v
    } else if str_eq(element, "select") {
        let v: Vec<&'static str> = vec!["onChange", "value", "defaultValue", "disabled", "multiple", "required"];
        proof { assert(static_strs_view(v@) =~= spec_notable_html_attrs(element@)); }
        v
    } else if str_eq(element, "form") {
        let v: Vec<&'static str> = vec!["onSubmit", "onReset", "action", "method", "encType", "noValidate"];
        proof { assert(static_strs_view(v@) =~= spec_notable_html_attrs(element@)); }
        v
    } else if str_eq(element, "img") {
        let v: Vec<&'static str> = vec!["src", "alt", "width", "height", "loading", "onLoad", "onError"];
        proof { assert(static_strs_view(v@) =~= spec_notable_html_attrs(element@)); }
        v
    } else {
        let v: Vec<&'static str> = vec![
            "onClick", "onFocus", "onBlur", "className", "style", "id", "tabIndex", "aria-label"
        ];
        proof { assert(static_strs_view(v@) =~= spec_notable_html_attrs(element@)); }
        v
    }
}

/// React 18 vs 19 behavioral differences for component detection.
#[derive(Clone, Copy, Debug, PartialEq, Eq, Structural)]
pub struct ReactVersion {
    /// React 18: function components implicitly include a `children` prop.
    pub implicit_children: bool,
    /// React 19: `ref` is a plain prop, not passed via `forwardRef`.
    pub ref_as_prop: bool,
}

pub open spec fn spec_react_18() -> ReactVersion {
    ReactVersion { implicit_children: true, ref_as_prop: false }
}

pub open spec fn spec_react_19() -> ReactVersion {
    ReactVersion { implicit_children: false, ref_as_prop: true }
}

/// React 18: children are implicit, ref requires forwardRef.
pub fn react_18() -> (res: ReactVersion)
    ensures
        res == spec_react_18(),
{
    ReactVersion { implicit_children: true, ref_as_prop: false }
}

/// React 19: no implicit children, ref is a regular prop.
pub fn react_19() -> (res: ReactVersion)
    ensures
        res == spec_react_19(),
{
    ReactVersion { implicit_children: false, ref_as_prop: true }
}

/// Parses a react-version string (`"react18"` / `"react19"`). Anything else
/// is rejected with the original string, never silently defaulted.
pub fn parse_react_version(s: &str) -> (res: Result<ReactVersion, &str>)
    ensures
        s@ == "react18"@ ==> res == Ok::<ReactVersion, &str>(spec_react_18()),
        s@ != "react18"@ && s@ == "react19"@ ==> res == Ok::<ReactVersion, &str>(spec_react_19()),
        s@ != "react18"@ && s@ != "react19"@ ==> res == Err::<ReactVersion, &str>(s),
{
    if str_eq(s, "react18") {
        Ok(react_18())
    } else if str_eq(s, "react19") {
        Ok(react_19())
    } else {
        Err(s)
    }
}

} // verus!
verus! {

// ─── Law of the curated lists ────────────────────────────────────────────────

/// Whether no two entries of `s` are equal.
pub open spec fn all_distinct(s: Seq<Seq<char>>) -> bool {
    forall|i: int, j: int| 0 <= i < j < s.len() ==> s[i] != s[j]
}

/// A short fingerprint of a name: two names with different fingerprints
/// differ.
spec fn name_key(x: Seq<char>) -> (nat, char, char, char) {
    (x.len(), x[0], x[2], x.last())
}

/// Whether none of the first `n` entries of `s` has the fingerprint of `x`.
spec fn key_absent(s: Seq<Seq<char>>, x: Seq<char>, n: nat) -> bool
    decreases n,
{
    n == 0 || (name_key(s[n - 1]) != name_key(x) && key_absent(s, x, (n - 1) as nat))
}

/// Whether the first `n` entries of `s` have pairwise different fingerprints.
spec fn keys_distinct(s: Seq<Seq<char>>, n: nat) -> bool
    decreases n,
{
    n == 0 || (key_absent(s, s[n - 1], (n - 1) as nat) && keys_distinct(s, (n - 1) as nat))
}

proof fn lemma_keys_distinct(s: Seq<Seq<char>>, n: nat)
    requires
        n <= s.len(),
        keys_distinct(s, n),
    ensures
        forall|i: int, j: int| 0 <= i < j < n ==> s[i] != s[j],
    decreases n,
{
    if n > 0 {
        lemma_keys_distinct(s, (n - 1) as nat);
        lemma_key_absent(s, s[n - 1], (n - 1) as nat);
    }
}

proof fn lemma_key_absent(s: Seq<Seq<char>>, x: Seq<char>, n: nat)
    requires
        n <= s.len(),
        key_absent(s, x, n),
    ensures
        forall|i: int| 0 <= i < n ==> s[i] != x,
    decreases n,
{
    if n > 0 {
        lemma_key_absent(s, x, (n - 1) as nat);
    }
}

/// Every curated list of notable HTML attributes, the one for any other
/// element included, is non-empty and names no attribute twice.
pub proof fn law_notable_attrs_distinct(element: Seq<char>)
    ensures
        spec_notable_html_attrs(element).len() > 0,
        all_distinct(spec_notable_html_attrs(element)),
{
    let s = spec_notable_html_attrs(element);
    reveal_with_fuel(keys_distinct, 19);
    reveal_with_fuel(key_absent, 19);
    if element == "button"@ {
        reveal_strlit("aria-describedby");
        reveal_strlit("aria-expanded");
        reveal_strlit("aria-haspopup");
        reveal_strlit("aria-label");
        reveal_strlit("aria-pressed");
        reveal_strlit("disabled");
        reveal_strlit("form");
        reveal_strlit("name");
        reveal_strlit("onBlur");
        reveal_strlit("onClick");
        reveal_strlit("onFocus");
        reveal_strlit("onKeyDown");
        reveal_strlit("onKeyUp");
        reveal_strlit("tabIndex");
        reveal_strlit("type");
        reveal_strlit("value");
        assert(keys_distinct(s, 16));
    } else if element == "input"@ {
        reveal_strlit("autoComplete");
        reveal_strlit("checked");
        reveal_strlit("defaultChecked");
        reveal_strlit("defaultValue");
        reveal_strlit("disabled");
        reveal_strlit("max");
        reveal_strlit("min");
        reveal_strlit("name");
        reveal_strlit("onBlur");
        reveal_strlit("onChange");
        reveal_strlit("onFocus");
        reveal_strlit("onInput");
        reveal_strlit("pattern");
        reveal_strlit("placeholder");
        reveal_strlit("readOnly");
        reveal_strlit("required");
        reveal_strlit("type");
        reveal_strlit("value");
        assert(keys_distinct(s, 18));
    } else if element == "a"@ {
        reveal_strlit("download");
        reveal_strlit("href");
        reveal_strlit("onClick");
        reveal_strlit("rel");
        reveal_strlit("target");
        assert(keys_distinct(s, 5));
    } else if element == "textarea"@ {
        reveal_strlit("defaultValue");
        reveal_strlit("disabled");
        reveal_strlit("maxLength");
        reveal_strlit("onChange");
        reveal_strlit("placeholder");
        reveal_strlit("readOnly");
        reveal_strlit("required");
        reveal_strlit("rows");
        reveal_strlit("value");
        assert(keys_distinct(s, 9));
    } else if element == "select"@ {
        reveal_strlit("defaultValue");
        reveal_strlit("disabled");
        reveal_strlit("multiple");
        reveal_strlit("onChange");
        reveal_strlit("required");
        reveal_strlit("value");
        assert(keys_distinct(s, 6));
    } else if element == "form"@ {
        reveal_strlit("action");
        reveal_strlit("encType");
        reveal_strlit("method");
        reveal_strlit("noValidate");
        reveal_strlit("onReset");
        reveal_strlit("onSubmit");
        assert(keys_distinct(s, 6));
    } else if element == "img"@ {
        reveal_strlit("alt");
        reveal_strlit("height");
        reveal_strlit("loading");
        reveal_strlit("onError");
        reveal_strlit("onLoad");
        reveal_strlit("src");
        reveal_strlit("width");
        assert(keys_distinct(s, 7));
    } else {
        reveal_strlit("aria-label");
        reveal_strlit("className");
        reveal_strlit("id");
        reveal_strlit("onBlur");
        reveal_strlit("onClick");
        reveal_strlit("onFocus");
        reveal_strlit("style");
        reveal_strlit("tabIndex");
        assert(keys_distinct(s, 8));
    }
    lemma_keys_distinct(s, s.len());
}

} // verus!
