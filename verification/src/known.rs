//! Resolution of known generic type patterns: types that appear across many
//! libraries and need special handling, because static analysis alone cannot
//! resolve them or because their full expansion is noise for documentation.

use vstd::prelude::*;
use crate::render::{bool_text, render_prop};
use crate::text::{seq_ends_with, seq_lt, str_eq, str_ends_with, str_lt, spec_to_lowercase, to_lowercase};
use crate::types::{
    clone_strings, enum_entries_view, prop_types_view, strs_view, EnumEntry, EnumValue, GlobalSourceData,
    OpaqueReason, ParsedProp, PropType, SpecEnumEntry, SpecEnumValue, SpecOpaqueReason, SpecParsedProp,
    SpecPropType,
};

verus! {

/// Result of recognizing a known type pattern.
#[derive(Debug)]
pub enum KnownPatternResult {
    /// The pattern resolves to a set of props.
    Props(Vec<ParsedProp>),
    /// The pattern is opaque: use this prop type directly.
    Type(PropType),
    /// The pattern transparently delegates to another type name.
    Alias { name: String, args: Vec<PropType> },
}

pub enum SpecKnown {
    Props(Seq<SpecParsedProp>),
    Type(SpecPropType),
    Alias { name: Seq<char>, args: Seq<SpecPropType> },
}

impl View for KnownPatternResult {
    type V = SpecKnown;

    open spec fn view(&self) -> SpecKnown {
        match self {
            KnownPatternResult::Props(v) => SpecKnown::Props(v@.map_values(|p: ParsedProp| p@)),
            KnownPatternResult::Type(t) => SpecKnown::Type(t@),
            KnownPatternResult::Alias { name, args } => SpecKnown::Alias {
                name: name@,
                args: prop_types_view(args@),
            },
        }
    }
}

pub open spec fn known_opt_view(o: Option<KnownPatternResult>) -> Option<SpecKnown> {
    match o {
        Some(k) => Some(k@),
        None => None,
    }
}

// ─── Specification ───────────────────────────────────────────────────────────

pub open spec fn spec_simple_prop(
    name: Seq<char>,
    prop_type: SpecPropType,
    required: bool,
    description: Seq<char>,
) -> SpecParsedProp {
    SpecParsedProp {
        name,
        prop_type,
        required,
        default_value: None,
        description,
        tags: Seq::empty(),
        parent: None,
        declarations: Seq::empty(),
    }
}

pub open spec fn spec_render_props() -> Seq<SpecParsedProp> {
    seq![
        spec_simple_prop(
            "className"@,
            SpecPropType::String,
            false,
            "CSS class name. Accepts a function receiving render state."@,
        ),
        spec_simple_prop(
            "style"@,
            SpecPropType::CssProperties,
            false,
            "Inline styles. Accepts a function receiving render state."@,
        ),
    ]
}

pub open spec fn spec_slot_prop() -> SpecParsedProp {
    spec_simple_prop(
        "slot"@,
        SpecPropType::Union(seq![SpecPropType::String, SpecPropType::Null]),
        false,
        "Slot name for component context composition."@,
    )
}

/// `PropsWithChildren<T>` / `PropsWithRef<T>`: delegate to `T`.
pub open spec fn spec_first_arg_alias(args: Seq<SpecPropType>) -> Option<SpecKnown> {
    if args.len() > 0 {
        Some(SpecKnown::Alias { name: render_prop(args[0]), args: Seq::empty() })
    } else {
        None
    }
}

pub open spec fn spec_html_attrs(element: Seq<char>) -> SpecKnown {
    SpecKnown::Type(SpecPropType::HtmlAttributes { element: spec_to_lowercase(element), omitted: Seq::empty() })
}

pub open spec fn spec_html_attrs_from_first_arg(args: Seq<SpecPropType>) -> Option<SpecKnown> {
    if args.len() > 0 {
        match args[0] {
            SpecPropType::StringLiteral(element) => Some(spec_html_attrs(element)),
            _ => None,
        }
    } else {
        None
    }
}

pub open spec fn spec_component_props(args: Seq<SpecPropType>) -> Option<SpecKnown> {
    if args.len() > 0 {
        match args[0] {
            SpecPropType::StringLiteral(element) => Some(spec_html_attrs(element)),
            SpecPropType::Named { name, .. } => Some(SpecKnown::Alias { name, args: Seq::empty() }),
            _ => None,
        }
    } else {
        None
    }
}

/// Whether an enum table key names the value `name`: keys are scoped
/// `"{file}:{name}"`, or bare names.
pub open spec fn enum_key_matches(key: Seq<char>, name: Seq<char>) -> bool {
    seq_ends_with(key, ":"@ + name) || key == name
}

pub open spec fn is_first_enum_match(enums: Seq<(Seq<char>, Seq<SpecEnumEntry>)>, name: Seq<char>, i: int) -> bool {
    &&& 0 <= i < enums.len()
    &&& enum_key_matches(enums[i].0, name)
    &&& forall|j: int| 0 <= j < i ==> !enum_key_matches(#[trigger] enums[j].0, name)
}

/// The first enum table entry whose key names `name`.
pub open spec fn first_enum_match(enums: Seq<(Seq<char>, Seq<SpecEnumEntry>)>, name: Seq<char>) -> Option<int> {
    if exists|i: int| is_first_enum_match(enums, name, i) {
        Some(choose|i: int| is_first_enum_match(enums, name, i))
    } else {
        None
    }
}

/// The text of one variant value.
pub open spec fn variant_value_text(v: SpecEnumValue) -> Seq<char> {
    match v {
        SpecEnumValue::String(s) => s,
        SpecEnumValue::Number(t) => t,
        SpecEnumValue::Bool(b) => bool_text(b),
    }
}

/// Index of the group keyed `k` (the last one, if several), or -1.
pub open spec fn group_index(groups: Seq<(Seq<char>, Seq<Seq<char>>)>, k: Seq<char>) -> int
    decreases groups.len(),
{
    if groups.len() == 0 {
        -1
    } else if groups.last().0 == k {
        groups.len() - 1
    } else {
        group_index(groups.drop_last(), k)
    }
}

/// Number of groups whose key sorts before `k`.
pub open spec fn groups_below(groups: Seq<(Seq<char>, Seq<Seq<char>>)>, k: Seq<char>) -> int
    decreases groups.len(),
{
    if groups.len() == 0 {
        0
    } else {
        groups_below(groups.drop_last(), k) + if seq_lt(groups.last().0, k) { 1int } else { 0int }
    }
}

/// Adds value `v` under key `k` to a key-ordered grouping: appended to the
/// existing group, or a new group inserted after every smaller key.
pub open spec fn group_insert(
    groups: Seq<(Seq<char>, Seq<Seq<char>>)>,
    k: Seq<char>,
    v: Seq<char>,
) -> Seq<(Seq<char>, Seq<Seq<char>>)> {
    let i = group_index(groups, k);
    if i >= 0 {
        groups.update(i, (k, groups[i].1.push(v)))
    } else {
        groups.insert(groups_below(groups, k), (k, seq![v]))
    }
}

/// Variant values grouped by variant key, keys in sorted order, values in
/// declaration order.
pub open spec fn group_variants(entries: Seq<SpecEnumEntry>) -> Seq<(Seq<char>, Seq<Seq<char>>)>
    decreases entries.len(),
{
    if entries.len() == 0 {
        Seq::empty()
    } else {
        group_insert(group_variants(entries.drop_last()), entries.last().name, variant_value_text(entries.last().value))
    }
}

pub open spec fn spec_cva_opaque(raw: Seq<char>) -> SpecKnown {
    SpecKnown::Type(SpecPropType::Opaque {
        raw,
        reason: SpecOpaqueReason::RuntimeDependent { function_name: "cva"@ },
    })
}

pub open spec fn spec_variant_prop(group: (Seq<char>, Seq<Seq<char>>)) -> SpecParsedProp {
    spec_simple_prop(group.0, SpecPropType::LiteralUnion { members: group.1, has_default: false }, false, ""@)
}

/// `VariantProps<typeof x>`: one literal-union prop per variant key of the
/// `cva()`-like call recorded under `x`, or an opaque type when unknown.
pub open spec fn spec_cva_variant_props(
    args: Seq<SpecPropType>,
    enums: Seq<(Seq<char>, Seq<SpecEnumEntry>)>,
) -> SpecKnown {
    if args.len() > 0 && args[0] is Named {
        let name = args[0]->Named_name;
        let opaque = spec_cva_opaque("VariantProps<typeof "@ + name + ">"@);
        match first_enum_match(enums, name) {
            Some(i) => {
                let groups = group_variants(enums[i].1);
                if groups.len() == 0 {
                    opaque
                } else {
                    SpecKnown::Props(groups.map_values(|g: (Seq<char>, Seq<Seq<char>>)| spec_variant_prop(g)))
                }
            },
            None => opaque,
        }
    } else {
        spec_cva_opaque("VariantProps<...>"@)
    }
}

/// What `resolve_known` answers for the named generic type `name<args>`.
pub open spec fn spec_resolve_known(
    name: Seq<char>,
    args: Seq<SpecPropType>,
    enums: Seq<(Seq<char>, Seq<SpecEnumEntry>)>,
) -> Option<SpecKnown> {
    if name == "VariantProps"@ || name == "RecipeVariantProps"@ || name == "RecipeVariants"@ {
        Some(spec_cva_variant_props(args, enums))
    } else if name == "SxProps"@ || name == "SystemStyleObject"@ || name == "SystemCssProperties"@ {
        Some(SpecKnown::Type(SpecPropType::SxProps))
    } else if name == "OverridableStringUnion"@ {
        if args.len() > 0 {
            Some(SpecKnown::Type(SpecPropType::Union(seq![
                args[0],
                SpecPropType::Opaque {
                    raw: "/* module augmentation */"@,
                    reason: SpecOpaqueReason::ModuleAugmentation,
                },
            ])))
        } else {
            Some(SpecKnown::Type(SpecPropType::Opaque {
                raw: "OverridableStringUnion"@,
                reason: SpecOpaqueReason::ModuleAugmentation,
            }))
        }
    } else if name == "RenderProps"@ {
        Some(SpecKnown::Props(spec_render_props()))
    } else if name == "SlotProps"@ {
        Some(SpecKnown::Props(seq![spec_slot_prop()]))
    } else if name == "HTMLChakraProps"@ || name == "HTMLArkProps"@ || name == "HTMLStyledProps"@ {
        spec_html_attrs_from_first_arg(args)
    } else if name == "ThemingProps"@ {
        Some(SpecKnown::Type(SpecPropType::Opaque {
            raw: "ThemingProps"@,
            reason: SpecOpaqueReason::RuntimeDependent { function_name: "chakra"@ },
        }))
    } else if name == "StylesApiProps"@ {
        Some(SpecKnown::Type(SpecPropType::Opaque {
            raw: "StylesApiProps"@,
            reason: SpecOpaqueReason::RuntimeDependent { function_name: "createStyles"@ },
        }))
    } else if name == "PropsWithChildren"@ || name == "PropsWithRef"@ {
        spec_first_arg_alias(args)
    } else if name == "ComponentPropsWithoutRef"@ || name == "ComponentProps"@ || name == "ComponentPropsWithRef"@ {
        spec_component_props(args)
    } else if name == "ElementRef"@ {
        Some(SpecKnown::Type(SpecPropType::Ref { element: None }))
    } else {
        None
    }
}

// ─── Implementation ──────────────────────────────────────────────────────────

/// A prop with no default, tags or parent.
pub fn simple_prop(name: &str, prop_type: PropType, required: bool, description: &str) -> (res: ParsedProp)
    ensures
        res@ == spec_simple_prop(name@, prop_type@, required, description@),
{
    let res = ParsedProp {
        name: name.to_owned(),
        prop_type,
        required,
        default_value: None,
        description: description.to_owned(),
        tags: Vec::new(),
        parent: None,
        declarations: Vec::new(),
    };
    proof {
        assert(res@.tags =~= Seq::empty());
        assert(res@.declarations =~= Seq::empty());
    }
    res
}

/// React Aria `RenderProps<T>`, simplified to scalar `className` and `style`.
pub fn render_props() -> (res: Vec<ParsedProp>)
    ensures
        res@.map_values(|p: ParsedProp| p@) == spec_render_props(),
{
    let a = simple_prop(
        "className",
        PropType::String,
        false,
        "CSS class name. Accepts a function receiving render state.",
    );
    let b = simple_prop("style", PropType::CssProperties, false, "Inline styles. Accepts a function receiving render state.");
    let res = vec![a, b];
    proof { assert(res@.map_values(|p: ParsedProp| p@) =~= spec_render_props()); }
    res
}

/// `SlotProps`: `{ slot?: string | null }`.
pub fn slot_prop() -> (res: ParsedProp)
    ensures
        res@ == spec_slot_prop(),
{
    let members = vec![PropType::String, PropType::Null];
    let t = PropType::Union(members);
    proof {
        crate::types::lemma_prop_type_view_union(members);
        assert(prop_types_view(members@) =~= seq![SpecPropType::String, SpecPropType::Null]);
    }
    simple_prop("slot", t, false, "Slot name for component context composition.")
}

/// `PropsWithChildren<T>` delegates to `T`; the `children` prop comes from
/// the HTML attribute tables.
pub fn props_with_children(args: &[PropType]) -> (res: Option<KnownPatternResult>)
    ensures
        known_opt_view(res) == spec_first_arg_alias(prop_types_view(args@)),
{
    first_arg_alias(args)
}

/// `PropsWithRef<T>` delegates to `T`.
pub fn props_with_ref(args: &[PropType]) -> (res: Option<KnownPatternResult>)
    ensures
        known_opt_view(res) == spec_first_arg_alias(prop_types_view(args@)),
{
    first_arg_alias(args)
}

fn first_arg_alias(args: &[PropType]) -> (res: Option<KnownPatternResult>)
    ensures
        known_opt_view(res) == spec_first_arg_alias(prop_types_view(args@)),
{
    if args.len() > 0 {
        let name = args[0].raw_string();
        let empty: Vec<PropType> = Vec::new();
        proof { assert(prop_types_view(empty@) =~= Seq::<SpecPropType>::empty()); }
        let res = KnownPatternResult::Alias { name, args: empty };
        proof { assert(res@ == SpecKnown::Alias { name: render_prop(args@[0]@), args: Seq::empty() }); }
        Some(res)
    } else {
        None
    }
}

fn html_attrs_result(element: &String) -> (res: KnownPatternResult)
    ensures
        res@ == spec_html_attrs(element@),
{
    let omitted: Vec<String> = Vec::new();
    proof { assert(strs_view(omitted@) =~= Seq::<Seq<char>>::empty()); }
    KnownPatternResult::Type(PropType::HtmlAttributes { element: to_lowercase(element.as_str()), omitted })
}

/// `HTMLChakraProps<'button'>`: the HTML attributes of the named element.
pub fn html_attrs_from_first_arg(args: &[PropType]) -> (res: Option<KnownPatternResult>)
    ensures
        known_opt_view(res) == spec_html_attrs_from_first_arg(prop_types_view(args@)),
{
    if args.len() > 0 {
        match &args[0] {
            PropType::StringLiteral(element) => Some(html_attrs_result(element)),
            _ => None,
        }
    } else {
        None
    }
}

/// `ComponentPropsWithoutRef<'button'>` gives the element's HTML
/// attributes; `ComponentPropsWithoutRef<typeof X>` delegates to `X`.
/// Refs are not modelled, so `include_ref` changes nothing.
pub fn component_props(args: &[PropType], include_ref: bool) -> (res: Option<KnownPatternResult>)
    ensures
        known_opt_view(res) == spec_component_props(prop_types_view(args@)),
{
    let _ = include_ref;
    if args.len() > 0 {
        match &args[0] {
            PropType::StringLiteral(element) => Some(html_attrs_result(element)),
            PropType::Named { name, .. } => {
                let empty: Vec<PropType> = Vec::new();
                proof {
                    crate::types::lemma_prop_type_view_named(args@[0]->Named_name, args@[0]->Named_args);
                    assert(prop_types_view(empty@) =~= Seq::<SpecPropType>::empty());
                }
                let res = KnownPatternResult::Alias { name: name.clone(), args: empty };
                Some(res)
            },
            _ => None,
        }
    } else {
        None
    }
}

fn variant_value(v: &EnumValue) -> (res: String)
    ensures
        res@ == variant_value_text(v@),
{
    match v {
        EnumValue::String(s) => s.clone(),
        EnumValue::Number(t) => t.clone(),
        EnumValue::Bool(b) => if *b { "true".to_owned() } else { "false".to_owned() },
    }
}

pub open spec fn groups_view(g: Seq<(String, Vec<String>)>) -> Seq<(Seq<char>, Seq<Seq<char>>)> {
    g.map_values(|p: (String, Vec<String>)| (p.0@, strs_view(p.1@)))
}

fn insert_into_group(groups: &mut Vec<(String, Vec<String>)>, key: String, value: String)
    ensures
        groups_view(final(groups)@) == group_insert(groups_view(old(groups)@), key@, value@),
{
    let ghost g0 = groups_view(groups@);
    let ghost raw0 = groups@;
    // Search from the back, as `group_index` does.
    let mut i: usize = groups.len();
    proof { assert(g0.subrange(0, g0.len() as int) =~= g0); }
    while i > 0
        invariant
            i <= groups@.len(),
            g0 == groups_view(groups@),
            g0 == groups_view(old(groups)@),
            raw0 == groups@,
            group_index(g0, key@) == group_index(g0.subrange(0, i as int), key@),
        decreases i,
    {
        proof { assert(g0.subrange(0, i as int).drop_last() =~= g0.subrange(0, i - 1)); }
        if str_eq(groups[i - 1].0.as_str(), key.as_str()) {
            let (k, mut vals) = groups.remove(i - 1);
            let ghost old_vals = vals@;
            let ghost kv = k@;
            vals.push(value);
            let ghost new_vals = vals@;
            groups.insert(i - 1, (k, vals));
            proof {
                assert(groups@ =~= raw0.update(i - 1, (groups@[i - 1].0, groups@[i - 1].1)));
                assert(strs_view(new_vals) =~= strs_view(old_vals).push(value@));
                assert(group_index(g0, key@) == i - 1);
                assert(groups_view(groups@) =~= g0.update(i - 1, (key@, g0[i - 1].1.push(value@))));
                assert(group_insert(g0, key@, value@) == g0.update(i - 1, (key@, g0[i - 1].1.push(value@))));
            }
            return;
        }
        i = i - 1;
    }
    proof { assert(g0.subrange(0, 0) =~= Seq::<(Seq<char>, Seq<Seq<char>>)>::empty()); }
    // Count the keys that sort before `key`.
    let mut below: usize = 0;
    let mut j: usize = 0;
    while j < groups.len()
        invariant
            j <= groups@.len(),
            below <= j,
            g0 == groups_view(groups@),
            below as int == groups_below(g0.subrange(0, j as int), key@),
        decreases groups.len() - j,
    {
        proof { assert(g0.subrange(0, j + 1).drop_last() =~= g0.subrange(0, j as int)); }
        if str_lt(groups[j].0.as_str(), key.as_str()) {
            below = below + 1;
        }
        j = j + 1;
    }
    proof { assert(g0.subrange(0, groups@.len() as int) =~= g0); }
    let ghost kv = key@;
    let ghost vv = value@;
    let vals = vec![value];
    groups.insert(below, (key, vals));
    proof {
        assert(strs_view(vals@) =~= seq![vv]);
        assert(groups_view(groups@) =~= g0.insert(below as int, (kv, seq![vv])));
    }
}

fn group_entries(entries: &Vec<EnumEntry>) -> (res: Vec<(String, Vec<String>)>)
    ensures
        groups_view(res@) == group_variants(enum_entries_view(entries@)),
{
    let mut groups: Vec<(String, Vec<String>)> = Vec::new();
    proof {
        assert(groups_view(groups@) =~= Seq::empty());
        assert(enum_entries_view(entries@).subrange(0, 0) =~= Seq::empty());
    }
    let mut i: usize = 0;
    while i < entries.len()
        invariant
            i <= entries@.len(),
            groups_view(groups@) == group_variants(enum_entries_view(entries@).subrange(0, i as int)),
        decreases entries.len() - i,
    {
        proof {
            let s = enum_entries_view(entries@).subrange(0, i + 1);
            assert(s.drop_last() =~= enum_entries_view(entries@).subrange(0, i as int));
        }
        let v = variant_value(&entries[i].value);
        insert_into_group(&mut groups, entries[i].name.clone(), v);
        i = i + 1;
    }
    proof {
        assert(enum_entries_view(entries@).subrange(0, entries@.len() as int) =~= enum_entries_view(entries@));
    }
    groups
}

fn cva_opaque(raw: String) -> (res: KnownPatternResult)
    ensures
        res@ == spec_cva_opaque(raw@),
{
    KnownPatternResult::Type(PropType::Opaque {
        raw,
        reason: OpaqueReason::RuntimeDependent { function_name: "cva".to_owned() },
    })
}

/// `VariantProps<typeof buttonVariants>` and friends: the variants of the
/// `cva()`-like call were stored in the enum table during extraction; one
/// literal-union prop per variant key, or an opaque type if they are unknown.
pub fn resolve_cva_variant_props(args: &[PropType], global: &GlobalSourceData) -> (res: KnownPatternResult)
    ensures
        res@ == spec_cva_variant_props(prop_types_view(args@), global@.enums),
{
    if args.len() == 0 {
        return cva_opaque("VariantProps<...>".to_owned());
    }
    let name = match &args[0] {
        PropType::Named { name, .. } => name,
        _ => {
            return cva_opaque("VariantProps<...>".to_owned());
        },
    };
    proof { crate::types::lemma_prop_type_view_named(args@[0]->Named_name, args@[0]->Named_args); }
    let mut raw = "VariantProps<typeof ".to_owned();
    raw.append(name.as_str());
    raw.append(">");
    let mut suffix = ":".to_owned();
    suffix.append(name.as_str());
    let ghost enums = global@.enums;
    let ghost sargs = prop_types_view(args@);
    proof {
        assert(sargs[0] == args@[0]@);
    }
    let mut i: usize = 0;
    while i < global.enums.len()
        invariant
            i <= global.enums@.len(),
            enums == global@.enums,
            sargs == prop_types_view(args@),
            sargs.len() > 0,
            sargs[0] is Named,
            sargs[0]->Named_name == name@,
            raw@ == "VariantProps<typeof "@ + name@ + ">"@,
            suffix@ == ":"@ + name@,
            forall|j: int| 0 <= j < i ==> !enum_key_matches(#[trigger] enums[j].0, name@),
        decreases global.enums.len() - i,
    {
        let key = global.enums[i].0.as_str();
        if str_ends_with(key, suffix.as_str()) || str_eq(key, name.as_str()) {
            proof {
                assert(is_first_enum_match(enums, name@, i as int));
                let k = choose|k: int| is_first_enum_match(enums, name@, k);
                assert(k == i);
                assert(first_enum_match(enums, name@) == Some(i as int));
                assert(enums[i as int].1 == enum_entries_view(global.enums@[i as int].1@));
            }
            let groups = group_entries(&global.enums[i].1);
            if groups.len() == 0 {
                return cva_opaque(raw);
            }
            let mut props: Vec<ParsedProp> = Vec::new();
            let mut g: usize = 0;
            while g < groups.len()
                invariant
                    g <= groups@.len(),
                    props@.len() == g,
                    forall|m: int| 0 <= m < g ==> props@[m]@ == spec_variant_prop(groups_view(groups@)[m]),
                decreases groups.len() - g,
            {
                let members = clone_strings(&groups[g].1);
                let p = simple_prop(
                    groups[g].0.as_str(),
                    PropType::LiteralUnion { members, has_default: false },
                    false,
                    "",
                );
                props.push(p);
                g = g + 1;
            }
            let res = KnownPatternResult::Props(props);
            proof {
                let gv = groups_view(groups@);
                assert(res@ == SpecKnown::Props(
                    gv.map_values(|x: (Seq<char>, Seq<Seq<char>>)| spec_variant_prop(x)),
                )) by {
                    assert(props@.map_values(|p: ParsedProp| p@) =~= gv.map_values(
                        |x: (Seq<char>, Seq<Seq<char>>)| spec_variant_prop(x),
                    ));
                }
            }
            return res;
        }
        i = i + 1;
    }
    proof {
        if exists|k: int| is_first_enum_match(enums, name@, k) {
            let k = choose|k: int| is_first_enum_match(enums, name@, k);
            assert(!enum_key_matches(enums[k].0, name@));
        }
    }
    cva_opaque(raw)
}

/// Attempts to resolve a named generic type (such as `SxProps<Theme>` or
/// `VariantProps<typeof buttonVariants>`) as a known pattern. `None` means
/// the name is not recognized and normal resolution should continue.
pub fn resolve_known(name: &str, args: &[PropType], global: &GlobalSourceData) -> (res: Option<KnownPatternResult>)
    ensures
        known_opt_view(res) == spec_resolve_known(name@, prop_types_view(args@), global@.enums),
{
    if str_eq(name, "VariantProps") || str_eq(name, "RecipeVariantProps") || str_eq(name, "RecipeVariants") {
        Some(resolve_cva_variant_props(args, global))
    } else if str_eq(name, "SxProps") || str_eq(name, "SystemStyleObject") || str_eq(name, "SystemCssProperties") {
        Some(KnownPatternResult::Type(PropType::SxProps))
    } else if str_eq(name, "OverridableStringUnion") {
        if args.len() > 0 {
            let members = vec![
                args[0].clone(),
                PropType::Opaque {
                    raw: "/* module augmentation */".to_owned(),
                    reason: OpaqueReason::ModuleAugmentation,
                },
            ];
            let t = PropType::Union(members);
            proof {
                crate::types::lemma_prop_type_view_union(members);
                assert(prop_types_view(members@) =~= seq![
                    args@[0]@,
                    SpecPropType::Opaque {
                        raw: "/* module augmentation */"@,
                        reason: SpecOpaqueReason::ModuleAugmentation,
                    },
                ]);
            }
            Some(KnownPatternResult::Type(t))
        } else {
            Some(KnownPatternResult::Type(PropType::Opaque {
                raw: "OverridableStringUnion".to_owned(),
                reason: OpaqueReason::ModuleAugmentation,
            }))
        }
    } else if str_eq(name, "RenderProps") {
        Some(KnownPatternResult::Props(render_props()))
    } else if str_eq(name, "SlotProps") {
        let v = vec![slot_prop()];
        proof { assert(v@.map_values(|p: ParsedProp| p@) =~= seq![spec_slot_prop()]); }
        Some(KnownPatternResult::Props(v))
    } else if str_eq(name, "HTMLChakraProps") || str_eq(name, "HTMLArkProps") || str_eq(name, "HTMLStyledProps") {
        html_attrs_from_first_arg(args)
    } else if str_eq(name, "ThemingProps") {
        Some(KnownPatternResult::Type(PropType::Opaque {
            raw: "ThemingProps".to_owned(),
            reason: OpaqueReason::RuntimeDependent { function_name: "chakra".to_owned() },
        }))
    } else if str_eq(name, "StylesApiProps") {
        Some(KnownPatternResult::Type(PropType::Opaque {
            raw: "StylesApiProps".to_owned(),
            reason: OpaqueReason::RuntimeDependent { function_name: "createStyles".to_owned() },
        }))
    } else if str_eq(name, "PropsWithChildren") {
        props_with_children(args)
    } else if str_eq(name, "PropsWithRef") {
        props_with_ref(args)
    } else if str_eq(name, "ComponentPropsWithoutRef") || str_eq(name, "ComponentProps") {
        component_props(args, false)
    } else if str_eq(name, "ComponentPropsWithRef") {
        component_props(args, true)
    } else if str_eq(name, "ElementRef") {
        Some(KnownPatternResult::Type(PropType::Ref { element: None }))
    } else {
        None
    }
}

// ─── Law of the variant groups ───────────────────────────────────────────────

/// The value texts of the entries named `k`, in declaration order.
pub open spec fn values_named(entries: Seq<SpecEnumEntry>, k: Seq<char>) -> Seq<Seq<char>>
    decreases entries.len(),
{
    if entries.len() == 0 {
        Seq::empty()
    } else if entries.last().name == k {
        values_named(entries.drop_last(), k).push(variant_value_text(entries.last().value))
    } else {
        values_named(entries.drop_last(), k)
    }
}

proof fn lemma_group_index_is_sorted_index(groups: Seq<(Seq<char>, Seq<Seq<char>>)>, k: Seq<char>)
    ensures
        group_index(groups, k) == crate::pipeline::vsorted_index(groups, k),
        groups_below(groups, k) == crate::pipeline::vsorted_below(groups, k),
    decreases groups.len(),
{
    if groups.len() > 0 {
        lemma_group_index_is_sorted_index(groups.drop_last(), k);
    }
}

/// The variants of a `cva()`-like call, grouped into one prop per variant
/// name: no name has two groups, the names come in increasing order, every
/// entry's name has its group, and each group holds the values of the
/// entries of its name, in declaration order.
pub proof fn law_variant_groups(entries: Seq<SpecEnumEntry>)
    ensures
        crate::pipeline::keys_increasing(group_variants(entries)),
        forall|i: int| 0 <= i < group_variants(entries).len() ==> {
            &&& (#[trigger] group_variants(entries)[i]).1 == values_named(entries, group_variants(entries)[i].0)
            &&& group_variants(entries)[i].1.len() > 0
        },
        forall|k: Seq<char>| #[trigger] values_named(entries, k).len() > 0
            ==> exists|i: int| 0 <= i < group_variants(entries).len() && (#[trigger] group_variants(entries)[i]).0 == k,
        forall|j: int| 0 <= j < entries.len()
            ==> exists|i: int| 0 <= i < group_variants(entries).len()
                && (#[trigger] group_variants(entries)[i]).0 == (#[trigger] entries[j]).name,
    decreases entries.len(),
{
    if entries.len() > 0 {
        let es = entries.drop_last();
        law_variant_groups(es);
        let g = group_variants(es);
        let k = entries.last().name;
        let v = variant_value_text(entries.last().value);
        let r = group_variants(entries);
        lemma_group_index_is_sorted_index(g, k);
        crate::pipeline::lemma_vsorted_index(g, k);
        let i = group_index(g, k);
        let w = if i >= 0 { g[i].1.push(v) } else { seq![v] };
        assert(r == crate::pipeline::vsorted_put(g, k, w));
        crate::pipeline::lemma_vsorted_put_increasing(g, k, w);
        assert forall|a: int| 0 <= a < r.len() implies {
            &&& (#[trigger] r[a]).1 == values_named(entries, r[a].0)
            &&& r[a].1.len() > 0
        } by {
            if i >= 0 {
                if a != i {
                    assert(r[a] == g[a]);
                    if a < i {
                        crate::text::lemma_seq_lt_total(g[a].0, g[i].0);
                    } else {
                        crate::text::lemma_seq_lt_total(g[i].0, g[a].0);
                    }
                }
            } else {
                crate::pipeline::lemma_below_is_prefix(g, k);
                let b = groups_below(g, k);
                if a < b {
                    assert(r[a] == g[a]);
                } else if a > b {
                    assert(r[a] == g[a - 1]);
                } else {
                    if values_named(es, k).len() > 0 {
                        let c = choose|c: int| 0 <= c < g.len() && (#[trigger] g[c]).0 == k;
                        assert(g[c].0 != k);
                    }
                    assert(values_named(es, k) =~= Seq::<Seq<char>>::empty());
                    assert(values_named(entries, k) =~= seq![v]);
                }
            }
        }
        assert forall|k2: Seq<char>| #[trigger] values_named(entries, k2).len() > 0
            implies exists|a: int| 0 <= a < r.len() && (#[trigger] r[a]).0 == k2 by {
            if k2 == k {
                if i >= 0 {
                    assert(r[i].0 == k);
                } else {
                    crate::pipeline::lemma_below_is_prefix(g, k);
                    let b = groups_below(g, k);
                    assert(r[b].0 == k);
                }
            } else {
                assert(values_named(es, k2).len() > 0);
                let c = choose|c: int| 0 <= c < g.len() && (#[trigger] g[c]).0 == k2;
                if i >= 0 {
                    assert(r[c].0 == k2);
                } else {
                    crate::pipeline::lemma_below_is_prefix(g, k);
                    let b = groups_below(g, k);
                    if c < b {
                        assert(r[c] == g[c]);
                    } else {
                        assert(r[c + 1] == g[c]);
                    }
                }
            }
        }
        assert forall|j: int| 0 <= j < entries.len()
            implies exists|a: int| 0 <= a < r.len() && (#[trigger] r[a]).0 == (#[trigger] entries[j]).name by {
            lemma_values_named_nonempty(entries, j);
            assert(values_named(entries, entries[j].name).len() > 0);
        }
    }
}

proof fn lemma_values_named_nonempty(entries: Seq<SpecEnumEntry>, j: int)
    requires
        0 <= j < entries.len(),
    ensures
        values_named(entries, entries[j].name).len() > 0,
    decreases entries.len(),
{
    if j < entries.len() - 1 {
        lemma_values_named_nonempty(entries.drop_last(), j);
        assert(entries.drop_last()[j] == entries[j]);
    }
}

/// `VariantProps<typeof x>` for a `cva()`-like call recorded under `x` with
/// at least one variant gives one prop per distinct variant name, the names
/// in increasing order, each prop optional, without description, and typed
/// as the union of the values of that name in declaration order; every
/// variant name has its prop.
pub proof fn law_cva_props_follow_the_variants(args: Seq<SpecPropType>, enums: Seq<(Seq<char>, Seq<SpecEnumEntry>)>)
    ensures
        (args.len() > 0 && args[0] is Named && first_enum_match(enums, args[0]->Named_name) is Some
            && enums[first_enum_match(enums, args[0]->Named_name)->0].1.len() > 0) ==> {
            let es = enums[first_enum_match(enums, args[0]->Named_name)->0].1;
            let ps = spec_cva_variant_props(args, enums)->Props_0;
            &&& spec_cva_variant_props(args, enums) is Props
            &&& ps.len() == group_variants(es).len()
            &&& forall|a: int, b: int| 0 <= a < b < ps.len() ==> seq_lt(#[trigger] ps[a].name, #[trigger] ps[b].name)
            &&& forall|a: int| 0 <= a < ps.len() ==> {
                &&& (#[trigger] ps[a]).prop_type == SpecPropType::LiteralUnion {
                    members: values_named(es, ps[a].name),
                    has_default: false,
                }
                &&& !ps[a].required
                &&& ps[a].description == ""@
            }
            &&& forall|j: int| 0 <= j < es.len()
                ==> exists|a: int| 0 <= a < ps.len() && (#[trigger] ps[a]).name == (#[trigger] es[j]).name
        },
{
    if args.len() > 0 && args[0] is Named && first_enum_match(enums, args[0]->Named_name) is Some
        && enums[first_enum_match(enums, args[0]->Named_name)->0].1.len() > 0 {
        let es = enums[first_enum_match(enums, args[0]->Named_name)->0].1;
        let g = group_variants(es);
        law_variant_groups(es);
        assert(es[0] == es[0]);
        assert(g.len() > 0);
        let ps = spec_cva_variant_props(args, enums)->Props_0;
        assert(ps == g.map_values(|x: (Seq<char>, Seq<Seq<char>>)| spec_variant_prop(x)));
        assert forall|a: int, b: int| 0 <= a < b < ps.len() implies seq_lt(#[trigger] ps[a].name, #[trigger] ps[b].name) by {
            assert(ps[a].name == g[a].0 && ps[b].name == g[b].0);
        }
        assert forall|a: int| 0 <= a < ps.len() implies {
            &&& (#[trigger] ps[a]).prop_type == SpecPropType::LiteralUnion {
                members: values_named(es, ps[a].name),
                has_default: false,
            }
            &&& !ps[a].required
            &&& ps[a].description == ""@
        } by {
            assert(ps[a] == spec_variant_prop(g[a]));
            assert(g[a].1 == values_named(es, g[a].0));
        }
        assert forall|j: int| 0 <= j < es.len()
            implies exists|a: int| 0 <= a < ps.len() && (#[trigger] ps[a]).name == (#[trigger] es[j]).name by {
            let a = choose|a: int| 0 <= a < g.len() && (#[trigger] g[a]).0 == es[j].name;
            assert(ps[a].name == g[a].0);
        }
    }
}

/// `ComponentPropsWithoutRef`, `ComponentProps`, `ComponentPropsWithRef`,
/// `HTMLChakraProps`, `HTMLArkProps` and `HTMLStyledProps` over a string
/// literal element give that element's HTML attributes, the element
/// lowercased and nothing omitted.
pub proof fn law_element_props_are_html_attributes(
    name: Seq<char>,
    args: Seq<SpecPropType>,
    enums: Seq<(Seq<char>, Seq<SpecEnumEntry>)>,
)
    requires
        name == "ComponentPropsWithoutRef"@ || name == "ComponentProps"@ || name == "ComponentPropsWithRef"@
            || name == "HTMLChakraProps"@ || name == "HTMLArkProps"@ || name == "HTMLStyledProps"@,
        args.len() > 0,
        args[0] is StringLiteral,
    ensures
        spec_resolve_known(name, args, enums) == Some(SpecKnown::Type(SpecPropType::HtmlAttributes {
            element: spec_to_lowercase(args[0]->StringLiteral_0),
            omitted: Seq::empty(),
        })),
{
    reveal_strlit("HTMLArkProps");
    reveal_strlit("HTMLChakraProps");
    reveal_strlit("HTMLStyledProps");
    reveal_strlit("OverridableStringUnion");
    reveal_strlit("RecipeVariantProps");
    reveal_strlit("RecipeVariants");
    reveal_strlit("RenderProps");
    reveal_strlit("SlotProps");
    reveal_strlit("StylesApiProps");
    reveal_strlit("SxProps");
    reveal_strlit("SystemCssProperties");
    reveal_strlit("SystemStyleObject");
    reveal_strlit("ThemingProps");
    reveal_strlit("VariantProps");
    reveal_strlit("PropsWithChildren");
    reveal_strlit("PropsWithRef");
    reveal_strlit("ComponentPropsWithoutRef");
    reveal_strlit("ComponentProps");
    reveal_strlit("ComponentPropsWithRef");
    assert("ComponentProps"@[0] != "RecipeVariants"@[0]);
    assert("ComponentProps"@[0] != "StylesApiProps"@[0]);
    assert("HTMLArkProps"@[0] != "VariantProps"@[0]);
    assert("HTMLArkProps"@[0] != "ThemingProps"@[0]);
    assert("HTMLArkProps"@[0] != "PropsWithRef"@[0]);
    assert("HTMLArkProps"@.len() == 12);
    assert("HTMLChakraProps"@.len() == 15);
    assert("HTMLStyledProps"@.len() == 15);
    assert("OverridableStringUnion"@.len() == 22);
    assert("RecipeVariantProps"@.len() == 18);
    assert("RecipeVariants"@.len() == 14);
    assert("RenderProps"@.len() == 11);
    assert("SlotProps"@.len() == 9);
    assert("StylesApiProps"@.len() == 14);
    assert("SxProps"@.len() == 7);
    assert("SystemCssProperties"@.len() == 19);
    assert("SystemStyleObject"@.len() == 17);
    assert("ThemingProps"@.len() == 12);
    assert("VariantProps"@.len() == 12);
    assert("PropsWithChildren"@.len() == 17);
    assert("PropsWithRef"@.len() == 12);
    assert("ComponentPropsWithoutRef"@.len() == 24);
    assert("ComponentProps"@.len() == 14);
    assert("ComponentPropsWithRef"@.len() == 21);
}

} // verus!
