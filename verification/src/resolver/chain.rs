//! Resolution of a component's props type to the chain of props it
//! provides: interfaces with their `extends` clauses, type aliases (`Omit`,
//! `Pick`, `Partial`, `Required`, unions, intersections), known patterns,
//! and finally the component entry.

use vstd::prelude::*;
use crate::chars::{trim, trim_end_matches, trim_start_matches};
use crate::import_map::assoc_get;
use crate::jsdoc::pair_index;
use crate::known::{spec_resolve_known, SpecKnown};
use crate::react_types::{spec_is_react_builtin, spec_notable_html_attrs};
use crate::render::render_prop;
use crate::resolver::context::{
    depth_measure, max_depth, scoped, spec_canonical_key, spec_react_types_file, spec_resolve_specifier, SpecCtx,
};
use crate::resolver::prop_types::{plain_diag, spec_resolve_list, spec_resolve_type};
use crate::chars::{trim_end_matches_range, trim_range, trim_start_matches_range};
use crate::import_map::{first_key_pos, lemma_first_key_index_is};
use crate::known::{resolve_known, KnownPatternResult};
use crate::react_types::{contains_str, is_react_builtin, notable_html_attrs, static_strs_view};
use crate::resolver::context::{
    canonical_key, file_diag, lookup_alias, lookup_interface, push_diag, resolve_import_specifier,
    resolve_react_types_file, ResolutionContext,
};
use crate::resolver::prop_types::{resolve_list, resolve_type};
use crate::text::{chars_of, seq_lt, str_eq, str_lt, string_from_chars};
use crate::types::{
    lemma_prop_type_view_union, prop_types_view, ComponentEntry, PropType, clone_pairs, clone_strings, collected_seq_view, lemma_collected_view_children, CollectedTypeAlias, diags_view, opt_default_view, pairs_view, parents_view, CollectedInterface,
    CollectedType, ComponentMapping, DefaultValue, Diagnostic, ExtendsRef, PropParent, RawDefault, RawProp,
    layers_view, opt_str_view, parsed_props_view, strs_view, InheritedLayer, ParsedProp,
    spec_file_diag, DiagnosticCode, DiagnosticSeverity, SpecAlias, SpecCollected, SpecDefaultValue,
    SpecDiagnostic, SpecExtendsRef, SpecInheritedLayer, SpecInterface, SpecParsedProp, SpecPropParent,
    SpecPropType, SpecRawDefault, SpecRawProp, SpecComponentEntry, SpecComponentMapping,
};

verus! {

// ─── Specification: props tables ─────────────────────────────────────────────

/// Index of the prop named `name` (the last one, if several), or -1.
pub open spec fn prop_index(props: Seq<SpecParsedProp>, name: Seq<char>) -> int
    decreases props.len(),
{
    if props.len() == 0 {
        -1
    } else if props.last().name == name {
        props.len() - 1
    } else {
        prop_index(props.drop_last(), name)
    }
}

/// Number of props whose name sorts before `name`.
pub open spec fn props_below(props: Seq<SpecParsedProp>, name: Seq<char>) -> int
    decreases props.len(),
{
    if props.len() == 0 {
        0
    } else {
        props_below(props.drop_last(), name) + if seq_lt(props.last().name, name) { 1int } else { 0int }
    }
}

/// Insertion into a name-ordered props table that keeps an existing entry.
pub open spec fn insert_keep(props: Seq<SpecParsedProp>, p: SpecParsedProp) -> Seq<SpecParsedProp> {
    if prop_index(props, p.name) >= 0 {
        props
    } else {
        props.insert(props_below(props, p.name), p)
    }
}

/// Insertion into a name-ordered props table that replaces an existing entry.
pub open spec fn insert_replace(props: Seq<SpecParsedProp>, p: SpecParsedProp) -> Seq<SpecParsedProp> {
    let i = prop_index(props, p.name);
    if i >= 0 {
        props.update(i, p)
    } else {
        props.insert(props_below(props, p.name), p)
    }
}

/// Each of `ps` inserted in order, keeping existing entries.
pub open spec fn insert_all_keep(props: Seq<SpecParsedProp>, ps: Seq<SpecParsedProp>) -> Seq<SpecParsedProp>
    decreases ps.len(),
{
    if ps.len() == 0 {
        props
    } else {
        insert_keep(insert_all_keep(props, ps.drop_last()), ps.last())
    }
}

/// Each of `ps` inserted in order, replacing existing entries.
pub open spec fn insert_all_replace(props: Seq<SpecParsedProp>, ps: Seq<SpecParsedProp>) -> Seq<SpecParsedProp>
    decreases ps.len(),
{
    if ps.len() == 0 {
        props
    } else {
        insert_replace(insert_all_replace(props, ps.drop_last()), ps.last())
    }
}

/// The prop named `name` in a props table.
pub open spec fn prop_get(props: Seq<SpecParsedProp>, name: Seq<char>) -> Option<SpecParsedProp> {
    let i = prop_index(props, name);
    if i >= 0 { Some(props[i]) } else { None }
}

/// Whether some prop of `props` is named `name`.
pub open spec fn has_prop_named(props: Seq<SpecParsedProp>, name: Seq<char>) -> bool {
    exists|i: int| 0 <= i < props.len() && (#[trigger] props[i]).name == name
}

/// The props of `ps` whose name no prop of `own` has, in order.
pub open spec fn props_not_in(ps: Seq<SpecParsedProp>, own: Seq<SpecParsedProp>) -> Seq<SpecParsedProp>
    decreases ps.len(),
{
    if ps.len() == 0 {
        Seq::empty()
    } else if has_prop_named(own, ps.last().name) {
        props_not_in(ps.drop_last(), own)
    } else {
        props_not_in(ps.drop_last(), own).push(ps.last())
    }
}

// ─── Specification: chains ───────────────────────────────────────────────────

/// What a props type provides: its props, the inherited layers (outermost
/// first), the inherited props by name, the names it composes without
/// resolving them, and the discriminant of a discriminated union.
pub struct SpecChain {
    pub props: Seq<SpecParsedProp>,
    pub inheritance: Seq<SpecInheritedLayer>,
    pub inherited_by_name: Seq<SpecParsedProp>,
    pub composes: Seq<Seq<char>>,
    pub discriminant_prop: Option<Seq<char>>,
}

pub open spec fn empty_chain() -> SpecChain {
    SpecChain {
        props: Seq::empty(),
        inheritance: Seq::empty(),
        inherited_by_name: Seq::empty(),
        composes: Seq::empty(),
        discriminant_prop: None,
    }
}

/// A chain that only records `name` as composed.
pub open spec fn compose_chain(name: Seq<char>) -> SpecChain {
    SpecChain { composes: seq![name], ..empty_chain() }
}

/// A parent chain merged into `own`: own props win over the parent's of the
/// same name, the parent's layers come first, composes accumulate.
pub open spec fn spec_merge_parent(own: SpecChain, parent: SpecChain) -> SpecChain {
    SpecChain {
        props: own.props + props_not_in(parent.props, own.props),
        inheritance: parent.inheritance + own.inheritance,
        inherited_by_name: insert_all_replace(
            insert_all_keep(own.inherited_by_name, parent.props),
            parent.inherited_by_name,
        ),
        composes: own.composes + parent.composes,
        discriminant_prop: own.discriminant_prop,
    }
}

/// Type arguments as raw collected types.
pub open spec fn raw_args(args: Seq<Seq<char>>) -> Seq<SpecCollected> {
    args.map_values(|a: Seq<char>| SpecCollected::Raw(a))
}

/// The result of a chain step: the chain, the visited set after it, and the
/// diagnostics it reports.
pub type ChainResult = (SpecChain, Seq<Seq<char>>, Seq<SpecDiagnostic>);

/// The chain of props that `tn` (with `type_args`), used in `file`,
/// provides. `visited` holds the `"{file}:{name}"` keys already entered,
/// which breaks cycles; `defaults` are the component's code defaults.
pub open spec fn spec_props_chain(
    c: SpecCtx,
    defaults: Seq<(Seq<char>, SpecRawDefault)>,
    tn: Seq<char>,
    type_args: Seq<Seq<char>>,
    file: Seq<char>,
    visited: Seq<Seq<char>>,
    depth: int,
) -> ChainResult
    decreases depth_measure(depth), 4int, 0int,
{
    if depth > max_depth() {
        (
            compose_chain(tn),
            visited,
            seq![spec_file_diag(
                DiagnosticSeverity::Warning,
                DiagnosticCode::MaxDepthExceeded,
                "Max resolution depth exceeded for type '"@ + tn + "'"@,
                file,
                Some("This may indicate a circular type reference"@),
            )],
        )
    } else if visited.contains(scoped(file, tn)) {
        (empty_chain(), visited, Seq::empty())
    } else {
        let v1 = visited.push(scoped(file, tn));
        if spec_is_react_builtin(tn, c.extra_builtins) {
            (compose_chain(tn), v1, Seq::empty())
        } else {
            let ra = spec_resolve_list(c, raw_args(type_args), file, depth + 1);
            match spec_resolve_known(tn, ra.0, c.global.enums) {
                Some(SpecKnown::Props(ps)) => (SpecChain { props: ps, ..empty_chain() }, v1, ra.1),
                Some(SpecKnown::Type(pt)) => (compose_chain(render_prop(pt)), v1, ra.1),
                Some(SpecKnown::Alias { name, .. }) => {
                    let r = spec_props_chain(c, defaults, name, Seq::empty(), file, v1, depth + 1);
                    (r.0, r.1, ra.1 + r.2)
                },
                None => {
                    let k = spec_canonical_key(c, tn, file);
                    match assoc_get(c.global.type_aliases, k.0) {
                        Some(alias) => {
                            let r = spec_alias_chain(c, defaults, alias, v1, depth);
                            (r.0, r.1, ra.1 + k.1 + r.2)
                        },
                        None => match assoc_get(c.global.interfaces, k.0) {
                            Some(iface) => {
                                let r = spec_interface_chain(c, defaults, iface, v1, depth);
                                (r.0, r.1, ra.1 + k.1 + r.2)
                            },
                            None => (
                                compose_chain(tn),
                                v1,
                                (ra.1 + k.1).push(spec_file_diag(
                                    DiagnosticSeverity::Warning,
                                    DiagnosticCode::UnresolvableImport,
                                    "Cannot resolve type '"@ + tn + "' in '"@ + file + "' (scoped key: '"@ + k.0
                                        + "')"@,
                                    file,
                                    Some(
                                        "Type may be in an unresolvable cross-package location. Check that the package is installed."@,
                                    ),
                                )),
                            ),
                        },
                    }
                },
            }
        }
    }
}

/// The prop that stands where the inherited prop `p` stood: the first own
/// prop of its name where there is one (the own declaration wins), else `p`
/// itself.
pub open spec fn own_or_inherited(own: Seq<SpecParsedProp>, p: SpecParsedProp) -> SpecParsedProp {
    match first_prop_named(own, p.name) {
        Some(q) => q,
        None => p,
    }
}

/// The inherited props in their order, each replaced in place by the own
/// prop of its name where there is one, followed by the own props that no
/// inherited prop names, in their order.
pub open spec fn overlay_own(inherited: Seq<SpecParsedProp>, own: Seq<SpecParsedProp>) -> Seq<SpecParsedProp> {
    inherited.map_values(|p: SpecParsedProp| own_or_inherited(own, p)) + props_not_in(own, inherited)
}

/// An interface: the chains of its `extends` clauses merged in order, the
/// inherited props first; an own prop takes the place of the inherited prop
/// of its name, so the own declaration wins, and the other own props follow.
pub open spec fn spec_interface_chain(
    c: SpecCtx,
    defaults: Seq<(Seq<char>, SpecRawDefault)>,
    iface: SpecInterface,
    visited: Seq<Seq<char>>,
    depth: int,
) -> ChainResult
    decreases depth_measure(depth), 3int, 0int,
    when depth <= max_depth()
{
    let e = spec_extends_fold(c, defaults, iface.file_path, iface.extends, visited, depth);
    let own = spec_own_props(c, defaults, iface, iface.props, depth);
    (SpecChain { props: overlay_own(e.0.props, own.0), ..e.0 }, e.1, e.2 + own.1)
}

/// The `extends` clauses `es` of an interface in `iface_file`, merged in order.
pub open spec fn spec_extends_fold(
    c: SpecCtx,
    defaults: Seq<(Seq<char>, SpecRawDefault)>,
    iface_file: Seq<char>,
    es: Seq<SpecExtendsRef>,
    visited: Seq<Seq<char>>,
    depth: int,
) -> ChainResult
    decreases depth_measure(depth), 2int, es.len(),
    when depth <= max_depth()
{
    if es.len() == 0 {
        (empty_chain(), visited, Seq::empty())
    } else {
        let prev = spec_extends_fold(c, defaults, iface_file, es.drop_last(), visited, depth);
        let r = spec_extends_ref(c, defaults, es.last(), iface_file, prev.1, depth + 1);
        let with_layer = match r.1 {
            Some(layer) => SpecChain { inheritance: prev.0.inheritance.push(layer), ..prev.0 },
            None => prev.0,
        };
        (spec_merge_parent(with_layer, r.0), r.2, prev.2 + r.3)
    }
}

/// One `extends` clause: an HTML attributes builtin becomes an inherited
/// layer; a same-file or imported parent is resolved as a props chain.
pub open spec fn spec_extends_ref(
    c: SpecCtx,
    defaults: Seq<(Seq<char>, SpecRawDefault)>,
    e: SpecExtendsRef,
    iface_file: Seq<char>,
    visited: Seq<Seq<char>>,
    depth: int,
) -> (SpecChain, Option<SpecInheritedLayer>, Seq<Seq<char>>, Seq<SpecDiagnostic>)
    decreases depth_measure(depth), 5int, 0int,
{
    match e {
        SpecExtendsRef::Builtin { name, element, .. } => match element {
            Some(el) => (
                empty_chain(),
                Some(SpecInheritedLayer {
                    layer_name: name,
                    file_name: spec_react_types_file(c, iface_file),
                    omitted: Seq::empty(),
                    html_element: Some(el),
                    total_props: 0,
                }),
                visited,
                Seq::empty(),
            ),
            None => (empty_chain(), None, visited, Seq::empty()),
        },
        SpecExtendsRef::SameFile { name, type_args } => {
            let r = spec_props_chain(c, defaults, name, type_args, iface_file, visited, depth);
            (r.0, None, r.1, r.2)
        },
        SpecExtendsRef::Imported { local_name, type_args, source_specifier } => {
            let rs = match source_specifier {
                Some(s) => spec_resolve_specifier(c, s, iface_file),
                None => (None, Seq::empty()),
            };
            let f = match rs.0 {
                Some(p) => p,
                None => iface_file,
            };
            let r = spec_props_chain(c, defaults, local_name, type_args, f, visited, depth);
            (r.0, None, r.1, rs.1 + r.2)
        },
    }
}

/// The JSDoc value of `tag` in a tag table.
pub open spec fn tag_get(tags: Seq<(Seq<char>, Seq<char>)>, tag: Seq<char>) -> Option<Seq<char>> {
    let i = pair_index(tags, tag);
    if i >= 0 { Some(tags[i].1) } else { None }
}

/// `str::trim_matches` with a single character.
pub open spec fn trim_char(s: Seq<char>, c: char) -> Seq<char> {
    trim_end_matches(trim_start_matches(s, seq![c]), seq![c])
}

/// The JSDoc `@default` (or `@defaultValue`) of a prop, trimmed.
pub open spec fn jsdoc_default(tags: Seq<(Seq<char>, Seq<char>)>) -> Option<Seq<char>> {
    match tag_get(tags, "default"@) {
        Some(v) => Some(trim(v)),
        None => match tag_get(tags, "defaultValue"@) {
            Some(v) => Some(trim(v)),
            None => None,
        },
    }
}

/// Whether a code default and a JSDoc default disagree (quotes aside).
pub open spec fn defaults_differ(code: Seq<char>, jsdoc: Seq<char>) -> bool {
    trim_char(trim_char(code, '"'), '\'') != jsdoc
}

/// The default of a prop: the code default wins over the JSDoc one; a
/// disagreement is reported.
pub open spec fn spec_prop_default(
    defaults: Seq<(Seq<char>, SpecRawDefault)>,
    raw: SpecRawProp,
    iface_file: Seq<char>,
) -> (Option<SpecDefaultValue>, Seq<SpecDiagnostic>) {
    match (assoc_get(defaults, raw.name), jsdoc_default(raw.tags)) {
        (Some(code), Some(j)) => (
            Some(SpecDefaultValue { value: code.value, computed: code.computed }),
            if defaults_differ(code.value, j) {
                seq![spec_file_diag(
                    DiagnosticSeverity::Info,
                    DiagnosticCode::JsDocDefaultMismatch,
                    "JSDoc @default '"@ + j + "' differs from code default '"@ + code.value + "' for prop '"@ + raw.name
                        + "' \u{2014} using code value"@,
                    iface_file,
                    Some("Update the JSDoc @default to match the code default."@),
                )]
            } else {
                Seq::empty()
            },
        ),
        (Some(code), None) => (Some(SpecDefaultValue { value: code.value, computed: code.computed }), Seq::empty()),
        (None, Some(j)) => (Some(SpecDefaultValue { value: j, computed: false }), Seq::empty()),
        (None, None) => (None, Seq::empty()),
    }
}

/// The own props of an interface, in order: each type resolved in the
/// interface's file at `depth`, with its default and declaring interface.
pub open spec fn spec_own_props(
    c: SpecCtx,
    defaults: Seq<(Seq<char>, SpecRawDefault)>,
    iface: SpecInterface,
    raws: Seq<SpecRawProp>,
    depth: int,
) -> (Seq<SpecParsedProp>, Seq<SpecDiagnostic>)
    decreases raws.len(),
{
    if raws.len() == 0 {
        (Seq::empty(), Seq::empty())
    } else {
        let prev = spec_own_props(c, defaults, iface, raws.drop_last(), depth);
        let raw = raws.last();
        let t = spec_resolve_type(c, raw.collected_type, iface.file_path, depth);
        let d = spec_prop_default(defaults, raw, iface.file_path);
        let parent = SpecPropParent { name: iface.name, file_name: iface.file_path };
        (
            prev.0.push(SpecParsedProp {
                name: raw.name,
                prop_type: t.0,
                required: raw.required,
                default_value: d.0,
                description: raw.description,
                tags: raw.tags,
                parent: Some(parent),
                declarations: seq![parent],
            }),
            prev.1 + t.1 + d.1,
        )
    }
}

/// `list` with each of `keys` appended unless already present.
pub open spec fn add_missing(list: Seq<Seq<char>>, keys: Seq<Seq<char>>) -> Seq<Seq<char>>
    decreases keys.len(),
{
    if keys.len() == 0 {
        list
    } else {
        let prev = add_missing(list, keys.drop_last());
        if prev.contains(keys.last()) { prev } else { prev.push(keys.last()) }
    }
}

/// The props whose name is (or is not) among `keys`, in order.
pub open spec fn filter_props_by_keys(props: Seq<SpecParsedProp>, keys: Seq<Seq<char>>, keep_listed: bool) -> Seq<SpecParsedProp>
    decreases props.len(),
{
    if props.len() == 0 {
        Seq::empty()
    } else {
        let prev = filter_props_by_keys(props.drop_last(), keys, keep_listed);
        if keys.contains(props.last().name) == keep_listed { prev.push(props.last()) } else { prev }
    }
}

/// Every prop with `required` set to `required`.
pub open spec fn set_required(props: Seq<SpecParsedProp>, required: bool) -> Seq<SpecParsedProp> {
    props.map_values(|p: SpecParsedProp| SpecParsedProp { required, ..p })
}

/// A type alias used as a props provider.
pub open spec fn spec_alias_chain(
    c: SpecCtx,
    defaults: Seq<(Seq<char>, SpecRawDefault)>,
    alias: SpecAlias,
    visited: Seq<Seq<char>>,
    depth: int,
) -> ChainResult
    decreases depth_measure(depth), 3int, 0int,
    when depth <= max_depth()
{
    match alias {
        SpecAlias::Passthrough { target, file_path } => match target {
            SpecCollected::Named { name, .. } =>
                spec_props_chain(c, defaults, name, Seq::empty(), file_path, visited, depth + 1),
            _ => (empty_chain(), visited, Seq::empty()),
        },
        SpecAlias::Omit { base, omitted_keys, file_path } => {
            let b = spec_base_chain(c, defaults, base, file_path, visited, depth);
            (
                SpecChain {
                    props: filter_props_by_keys(b.0.props, omitted_keys, false),
                    inheritance: b.0.inheritance.map_values(
                        |l: SpecInheritedLayer| SpecInheritedLayer { omitted: add_missing(l.omitted, omitted_keys), ..l },
                    ),
                    ..b.0
                },
                b.1,
                b.2,
            )
        },
        SpecAlias::Pick { base, picked_keys, file_path } => {
            let b = spec_base_chain(c, defaults, base, file_path, visited, depth);
            (SpecChain { props: filter_props_by_keys(b.0.props, picked_keys, true), ..b.0 }, b.1, b.2)
        },
        SpecAlias::Partial { base, file_path } => {
            let b = spec_base_chain(c, defaults, base, file_path, visited, depth);
            (SpecChain { props: set_required(b.0.props, false), ..b.0 }, b.1, b.2)
        },
        SpecAlias::Required { base, file_path } => {
            let b = spec_base_chain(c, defaults, base, file_path, visited, depth);
            (SpecChain { props: set_required(b.0.props, true), ..b.0 }, b.1, b.2)
        },
        SpecAlias::Union { members, file_path } => spec_union_alias(c, defaults, members, file_path, visited, depth),
        SpecAlias::Intersection { members, file_path } =>
            spec_base_list(c, defaults, members, file_path, visited, depth),
        SpecAlias::LiteralUnion { .. } => (empty_chain(), visited, Seq::empty()),
    }
}

/// The size of a collected type, counting the members of intersections.
pub open spec fn base_size(c: SpecCollected) -> int
    decreases c, 0int,
{
    match c {
        SpecCollected::Intersection(ms) => 1 + base_list_size(ms),
        _ => 1,
    }
}

/// One more than the sizes of `ms` together.
pub open spec fn base_list_size(ms: Seq<SpecCollected>) -> int
    decreases ms, 1int,
{
    if ms.len() == 0 {
        1
    } else {
        base_list_size(ms.subrange(0, ms.len() - 1)) + base_size(ms[ms.len() - 1])
    }
}

pub proof fn lemma_base_size_positive(c: SpecCollected)
    ensures
        base_size(c) >= 1,
    decreases c, 0int,
{
    match c {
        SpecCollected::Intersection(ms) => lemma_base_list_size_positive(ms),
        _ => {},
    }
}

pub proof fn lemma_base_list_size_positive(ms: Seq<SpecCollected>)
    ensures
        base_list_size(ms) >= 1,
    decreases ms, 1int,
{
    if ms.len() > 0 {
        lemma_base_list_size_positive(ms.subrange(0, ms.len() - 1));
        lemma_base_size_positive(ms[ms.len() - 1]);
    }
}

/// The base type of an alias as a props chain: a named type, or an
/// intersection of them merged in order.
pub open spec fn spec_base_chain(
    c: SpecCtx,
    defaults: Seq<(Seq<char>, SpecRawDefault)>,
    base: SpecCollected,
    file: Seq<char>,
    visited: Seq<Seq<char>>,
    depth: int,
) -> ChainResult
    decreases depth_measure(depth), 1int, base_size(base),
    when depth <= max_depth()
{
    match base {
        SpecCollected::Named { name, .. } => spec_props_chain(c, defaults, name, Seq::empty(), file, visited, depth + 1),
        SpecCollected::Intersection(ms) => {
            proof {
                lemma_base_list_size_positive(ms);
                assert(base_size(base) == 1 + base_list_size(ms));
            }
            spec_base_list(c, defaults, ms, file, visited, depth)
        },
        _ => (empty_chain(), visited, Seq::empty()),
    }
}

/// The chains of `ms`, merged in order into an empty chain.
pub open spec fn spec_base_list(
    c: SpecCtx,
    defaults: Seq<(Seq<char>, SpecRawDefault)>,
    ms: Seq<SpecCollected>,
    file: Seq<char>,
    visited: Seq<Seq<char>>,
    depth: int,
) -> ChainResult
    decreases depth_measure(depth), 1int, base_list_size(ms),
    when depth <= max_depth()
{
    if ms.len() == 0 {
        (empty_chain(), visited, Seq::empty())
    } else {
        proof {
            lemma_base_size_positive(ms[ms.len() - 1]);
            lemma_base_list_size_positive(ms.subrange(0, ms.len() - 1));
        }
        let prev = spec_base_list(c, defaults, ms.subrange(0, ms.len() - 1), file, visited, depth);
        let r = spec_base_chain(c, defaults, ms[ms.len() - 1], file, prev.1, depth);
        (spec_merge_parent(prev.0, r.0), r.1, prev.2 + r.2)
    }
}

/// The props chain of each named member of a union, each resolved from the
/// same visited set, as (name, props), with their diagnostics.
pub open spec fn spec_named_members(
    c: SpecCtx,
    defaults: Seq<(Seq<char>, SpecRawDefault)>,
    ms: Seq<SpecCollected>,
    file: Seq<char>,
    visited: Seq<Seq<char>>,
    depth: int,
) -> (Seq<(Seq<char>, Seq<SpecParsedProp>)>, Seq<SpecDiagnostic>)
    decreases depth_measure(depth), 1int, ms.len(),
    when depth <= max_depth()
{
    if ms.len() == 0 {
        (Seq::empty(), Seq::empty())
    } else {
        let prev = spec_named_members(c, defaults, ms.subrange(0, ms.len() - 1), file, visited, depth);
        match ms[ms.len() - 1] {
            SpecCollected::Named { name, .. } => {
                let r = spec_props_chain(c, defaults, name, Seq::empty(), file, visited, depth + 1);
                (prev.0.push((name, r.0.props)), prev.1 + r.2)
            },
            _ => prev,
        }
    }
}

/// The first prop of `props` named `name`.
pub open spec fn first_prop_named(props: Seq<SpecParsedProp>, name: Seq<char>) -> Option<SpecParsedProp>
    decreases props.len(),
{
    if props.len() == 0 {
        None
    } else if props[0].name == name {
        Some(props[0])
    } else {
        first_prop_named(props.drop_first(), name)
    }
}

/// The literal value of `name` in each member, when every member has it as
/// a string literal and the values are pairwise distinct.
pub open spec fn discriminant_values(members: Seq<(Seq<char>, Seq<SpecParsedProp>)>, name: Seq<char>) -> Option<Seq<Seq<char>>>
    decreases members.len(),
{
    if members.len() == 0 {
        Some(Seq::empty())
    } else {
        match discriminant_values(members.drop_last(), name) {
            None => None,
            Some(prev) => match first_prop_named(members.last().1, name) {
                Some(p) => match p.prop_type {
                    SpecPropType::StringLiteral(s) => if prev.contains(s) { None } else { Some(prev.push(s)) },
                    _ => None,
                },
                None => None,
            },
        }
    }
}

/// Whether `p` of the first member can discriminate the union.
pub open spec fn is_discriminant(members: Seq<(Seq<char>, Seq<SpecParsedProp>)>, p: SpecParsedProp) -> bool {
    p.prop_type is StringLiteral && discriminant_values(members, p.name) is Some
}

/// The first prop of the first member that has a distinct string literal
/// type in every member.
pub open spec fn spec_find_discriminant(members: Seq<(Seq<char>, Seq<SpecParsedProp>)>) -> Option<Seq<char>> {
    if members.len() == 0 {
        None
    } else {
        let first = members[0].1;
        if exists|j: int| 0 <= j < first.len() && is_discriminant(members, #[trigger] first[j]) {
            let j = choose|j: int|
                0 <= j < first.len() && is_discriminant(members, #[trigger] first[j])
                    && forall|k: int| 0 <= k < j ==> !is_discriminant(members, #[trigger] first[k]);
            Some(first[j].name)
        } else {
            None
        }
    }
}

/// The type of `name` in each member that has it, in order.
pub open spec fn member_types_of(members: Seq<(Seq<char>, Seq<SpecParsedProp>)>, name: Seq<char>) -> Seq<SpecPropType>
    decreases members.len(),
{
    if members.len() == 0 {
        Seq::empty()
    } else {
        let prev = member_types_of(members.drop_last(), name);
        match first_prop_named(members.last().1, name) {
            Some(p) => prev.push(p.prop_type),
            None => prev,
        }
    }
}

/// Every member's props merged into a name-ordered table, first one kept.
pub open spec fn merge_member_props(members: Seq<(Seq<char>, Seq<SpecParsedProp>)>) -> Seq<SpecParsedProp>
    decreases members.len(),
{
    if members.len() == 0 {
        Seq::empty()
    } else {
        insert_all_keep(merge_member_props(members.drop_last()), members.last().1)
    }
}

/// A union alias: with fewer than two named members, the members merged as
/// base chains; else the merged props of the named members, with the
/// discriminant (if any) typed as the union of its literals.
pub open spec fn spec_union_alias(
    c: SpecCtx,
    defaults: Seq<(Seq<char>, SpecRawDefault)>,
    members: Seq<SpecCollected>,
    file: Seq<char>,
    visited: Seq<Seq<char>>,
    depth: int,
) -> ChainResult
    decreases depth_measure(depth), 2int, 0int,
    when depth <= max_depth()
{
    let named = spec_named_members(c, defaults, members, file, visited, depth);
    if named.0.len() < 2 {
        let r = spec_base_list(c, defaults, members, file, visited, depth);
        (r.0, r.1, named.1 + r.2)
    } else {
        let merged = merge_member_props(named.0);
        match spec_find_discriminant(named.0) {
            Some(dn) => {
                let i = prop_index(merged, dn);
                let props = if i >= 0 {
                    merged.update(i, SpecParsedProp { prop_type: SpecPropType::Union(member_types_of(named.0, dn)), ..merged[i] })
                } else {
                    merged
                };
                (
                    SpecChain { props, discriminant_prop: Some(dn), ..empty_chain() },
                    visited,
                    named.1.push(plain_diag(
                        DiagnosticSeverity::Info,
                        DiagnosticCode::DiscriminatedUnion,
                        "Discriminated union detected with discriminant prop '"@ + dn + "'"@,
                        file,
                    )),
                )
            },
            None => (SpecChain { props: merged, ..empty_chain() }, visited, named.1),
        }
    }
}

// ─── Specification: the component entry ──────────────────────────────────────

/// The notable inherited props of one HTML element layer: each notable
/// attribute that is not an own prop and that some parent provides.
pub open spec fn notable_for_attrs(
    acc: Seq<SpecParsedProp>,
    attrs: Seq<Seq<char>>,
    props: Seq<SpecParsedProp>,
    inherited: Seq<SpecParsedProp>,
) -> Seq<SpecParsedProp>
    decreases attrs.len(),
{
    if attrs.len() == 0 {
        acc
    } else {
        let prev = notable_for_attrs(acc, attrs.drop_last(), props, inherited);
        let a = attrs.last();
        if prop_index(props, a) < 0 && prop_get(inherited, a) is Some {
            insert_replace(prev, prop_get(inherited, a)->0)
        } else {
            prev
        }
    }
}

/// The notable inherited props of every HTML element layer, in order.
pub open spec fn notable_for_layers(
    layers: Seq<SpecInheritedLayer>,
    props: Seq<SpecParsedProp>,
    inherited: Seq<SpecParsedProp>,
) -> Seq<SpecParsedProp>
    decreases layers.len(),
{
    if layers.len() == 0 {
        Seq::empty()
    } else {
        let prev = notable_for_layers(layers.drop_last(), props, inherited);
        match layers.last().html_element {
            Some(el) => notable_for_attrs(prev, spec_notable_html_attrs(el), props, inherited),
            None => prev,
        }
    }
}

/// The component entry of `mapping` and the diagnostics of resolving it.
pub open spec fn spec_resolve_component(c: SpecCtx, mapping: SpecComponentMapping) -> (SpecComponentEntry, Seq<SpecDiagnostic>) {
    let r = spec_props_chain(
        c,
        mapping.param_defaults,
        mapping.props_type_name,
        mapping.props_type_args,
        mapping.file_path,
        Seq::empty(),
        0,
    );
    let chain = r.0;
    let props = insert_all_keep(Seq::empty(), chain.props);
    (
        SpecComponentEntry {
            display_name: mapping.component_name,
            file_path: mapping.file_path,
            description: mapping.description,
            props,
            inheritance: chain.inheritance,
            notable_inherited: notable_for_layers(chain.inheritance, props, chain.inherited_by_name),
            discriminant_prop: chain.discriminant_prop,
            composes: chain.composes,
            tags: mapping.tags,
        },
        r.2,
    )
}

// ─── Implementation: props tables ────────────────────────────────────────────

/// Position of the prop named `name` (the last one, if several).
pub fn prop_pos(props: &Vec<ParsedProp>, name: &str) -> (res: Option<usize>)
    ensures
        match res {
            Some(i) => i < props.len() && prop_index(parsed_props_view(props@), name@) == i,
            None => prop_index(parsed_props_view(props@), name@) == -1,
        },
{
    let ghost pv = parsed_props_view(props@);
    let mut i: usize = props.len();
    proof { assert(pv.subrange(0, pv.len() as int) =~= pv); }
    while i > 0
        invariant
            i <= props.len(),
            pv == parsed_props_view(props@),
            prop_index(pv, name@) == prop_index(pv.subrange(0, i as int), name@),
        decreases i,
    {
        proof { assert(pv.subrange(0, i as int).drop_last() =~= pv.subrange(0, i - 1)); }
        if str_eq(props[i - 1].name.as_str(), name) {
            return Some(i - 1);
        }
        i = i - 1;
    }
    proof { assert(pv.subrange(0, 0) =~= Seq::<SpecParsedProp>::empty()); }
    None
}

/// Number of props whose name sorts before `name`.
fn count_below(props: &Vec<ParsedProp>, name: &str) -> (res: usize)
    ensures
        res <= props.len(),
        res as int == props_below(parsed_props_view(props@), name@),
{
    let ghost pv = parsed_props_view(props@);
    let mut below: usize = 0;
    let mut j: usize = 0;
    while j < props.len()
        invariant
            j <= props.len(),
            below <= j,
            pv == parsed_props_view(props@),
            below as int == props_below(pv.subrange(0, j as int), name@),
        decreases props.len() - j,
    {
        proof { assert(pv.subrange(0, j + 1).drop_last() =~= pv.subrange(0, j as int)); }
        if str_lt(props[j].name.as_str(), name) {
            below = below + 1;
        }
        j = j + 1;
    }
    proof { assert(pv.subrange(0, props.len() as int) =~= pv); }
    below
}

/// Inserts `p` into a name-ordered props table unless its name is present.
pub fn insert_prop_keep(props: &mut Vec<ParsedProp>, p: ParsedProp)
    ensures
        parsed_props_view(final(props)@) == insert_keep(parsed_props_view(old(props)@), p@),
{
    let ghost pv = parsed_props_view(props@);
    if prop_pos(props, p.name.as_str()).is_some() {
        return;
    }
    let below = count_below(props, p.name.as_str());
    let ghost v = p@;
    props.insert(below, p);
    proof { assert(parsed_props_view(props@) =~= pv.insert(below as int, v)); }
}

/// Inserts `p` into a name-ordered props table, replacing a prop of the same name.
pub fn insert_prop_replace(props: &mut Vec<ParsedProp>, p: ParsedProp)
    ensures
        parsed_props_view(final(props)@) == insert_replace(parsed_props_view(old(props)@), p@),
{
    let ghost pv = parsed_props_view(props@);
    let ghost v = p@;
    match prop_pos(props, p.name.as_str()) {
        Some(i) => {
            props.set(i, p);
            proof { assert(parsed_props_view(props@) =~= pv.update(i as int, v)); }
        },
        None => {
            let below = count_below(props, p.name.as_str());
            props.insert(below, p);
            proof { assert(parsed_props_view(props@) =~= pv.insert(below as int, v)); }
        },
    }
}

/// Inserts each of `ps`, in order, keeping existing entries.
fn insert_all_props_keep(props: &mut Vec<ParsedProp>, ps: &Vec<ParsedProp>)
    ensures
        parsed_props_view(final(props)@) == insert_all_keep(parsed_props_view(old(props)@), parsed_props_view(ps@)),
{
    let ghost start = parsed_props_view(props@);
    let ghost psv = parsed_props_view(ps@);
    let mut i: usize = 0;
    proof { assert(psv.take(0) =~= Seq::<SpecParsedProp>::empty()); }
    while i < ps.len()
        invariant
            i <= ps.len(),
            psv == parsed_props_view(ps@),
            start == parsed_props_view(old(props)@),
            parsed_props_view(props@) == insert_all_keep(start, psv.take(i as int)),
        decreases ps.len() - i,
    {
        proof {
            assert(psv.take(i + 1).drop_last() =~= psv.take(i as int));
            assert(psv.take(i + 1).last() == ps@[i as int]@);
        }
        insert_prop_keep(props, ps[i].clone());
        i = i + 1;
    }
    proof { assert(psv.take(ps.len() as int) =~= psv); }
}

/// Inserts each of `ps`, in order, replacing existing entries.
fn insert_all_props_replace(props: &mut Vec<ParsedProp>, ps: &Vec<ParsedProp>)
    ensures
        parsed_props_view(final(props)@) == insert_all_replace(parsed_props_view(old(props)@), parsed_props_view(ps@)),
{
    let ghost start = parsed_props_view(props@);
    let ghost psv = parsed_props_view(ps@);
    let mut i: usize = 0;
    proof { assert(psv.take(0) =~= Seq::<SpecParsedProp>::empty()); }
    while i < ps.len()
        invariant
            i <= ps.len(),
            psv == parsed_props_view(ps@),
            start == parsed_props_view(old(props)@),
            parsed_props_view(props@) == insert_all_replace(start, psv.take(i as int)),
        decreases ps.len() - i,
    {
        proof {
            assert(psv.take(i + 1).drop_last() =~= psv.take(i as int));
            assert(psv.take(i + 1).last() == ps@[i as int]@);
        }
        insert_prop_replace(props, ps[i].clone());
        i = i + 1;
    }
    proof { assert(psv.take(ps.len() as int) =~= psv); }
}

// ─── Implementation: chains ──────────────────────────────────────────────────

/// What a props type provides; see `SpecChain`.
pub struct ResolvedChain {
    pub props: Vec<ParsedProp>,
    pub inheritance: Vec<InheritedLayer>,
    pub inherited_by_name: Vec<ParsedProp>,
    pub composes: Vec<String>,
    pub discriminant_prop: Option<String>,
}

impl View for ResolvedChain {
    type V = SpecChain;

    open spec fn view(&self) -> SpecChain {
        SpecChain {
            props: parsed_props_view(self.props@),
            inheritance: layers_view(self.inheritance@),
            inherited_by_name: parsed_props_view(self.inherited_by_name@),
            composes: strs_view(self.composes@),
            discriminant_prop: opt_str_view(self.discriminant_prop),
        }
    }
}

impl ResolvedChain {
    pub fn empty() -> (res: Self)
        ensures
            res@ == empty_chain(),
    {
        let res = ResolvedChain {
            props: Vec::new(),
            inheritance: Vec::new(),
            inherited_by_name: Vec::new(),
            composes: Vec::new(),
            discriminant_prop: None,
        };
        proof {
            assert(res@.props =~= Seq::<SpecParsedProp>::empty());
            assert(res@.inheritance =~= Seq::<SpecInheritedLayer>::empty());
            assert(res@.inherited_by_name =~= Seq::<SpecParsedProp>::empty());
            assert(res@.composes =~= Seq::<Seq<char>>::empty());
        }
        res
    }

    /// A chain that only records `name` as composed.
    pub fn empty_with_compose(name: String) -> (res: Self)
        ensures
            res@ == compose_chain(name@),
    {
        let mut res = ResolvedChain::empty();
        res.composes.push(name);
        proof { assert(res@.composes =~= seq![name@]); }
        res
    }

    /// Merges a parent chain into `self`: own props win over the parent's
    /// of the same name, the parent's layers go first.
    pub fn merge_parent(&mut self, parent: ResolvedChain)
        ensures
            final(self)@ == spec_merge_parent(old(self)@, parent@),
    {
        let ghost own = self@;
        let ghost pp = parsed_props_view(parent.props@);
        let own_count = self.props.len();
        let mut i: usize = 0;
        proof {
            assert(pp.take(0) =~= Seq::<SpecParsedProp>::empty());
            assert(own.props + props_not_in(pp.take(0), own.props) =~= own.props);
        }
        while i < parent.props.len()
            invariant
                i <= parent.props.len(),
                own == old(self)@,
                own_count == own.props.len(),
                pp == parsed_props_view(parent.props@),
                parsed_props_view(self.props@) == own.props + props_not_in(pp.take(i as int), own.props),
                parsed_props_view(self.inherited_by_name@) == insert_all_keep(own.inherited_by_name, pp.take(i as int)),
                self.inheritance@ == old(self).inheritance@,
                self.composes@ == old(self).composes@,
                self.discriminant_prop == old(self).discriminant_prop,
            decreases parent.props.len() - i,
        {
            proof {
                assert(pp.take(i + 1).drop_last() =~= pp.take(i as int));
                assert(pp.take(i + 1).last() == parent.props@[i as int]@);
                assert(parsed_props_view(self.props@).take(own_count as int) =~= own.props);
            }
            let p = &parent.props[i];
            proof { assert(parsed_props_view(self.props@).len() == self.props@.len()); }
            let mut seen = false;
            let mut k: usize = 0;
            while k < own_count
                invariant
                    k <= own_count,
                    own_count <= self.props.len(),
                    parsed_props_view(self.props@).take(own_count as int) == own.props,
                    seen == exists|j: int| 0 <= j < k && (#[trigger] own.props[j]).name == p.name@,
                decreases own_count - k,
            {
                proof { assert(own.props[k as int] == self.props@[k as int]@); }
                if str_eq(self.props[k].name.as_str(), p.name.as_str()) {
                    seen = true;
                }
                k = k + 1;
            }
            if !seen {
                let ghost old_props = parsed_props_view(self.props@);
                self.props.push(p.clone());
                proof { assert(parsed_props_view(self.props@) =~= old_props.push(pp[i as int])); }
            }
            insert_prop_keep(&mut self.inherited_by_name, p.clone());
            i = i + 1;
        }
        proof { assert(pp.take(parent.props.len() as int) =~= pp); }
        insert_all_props_replace(&mut self.inherited_by_name, &parent.inherited_by_name);
        let mut layers = parent.inheritance;
        let ghost pl = layers_view(layers@);
        let mut own_layers = Vec::new();
        std::mem::swap(&mut own_layers, &mut self.inheritance);
        let ghost ol = layers_view(own_layers@);
        layers.append(&mut own_layers);
        proof { assert(layers_view(layers@) =~= pl + ol); }
        self.inheritance = layers;
        let ghost oc = strs_view(self.composes@);
        let mut pc = parent.composes;
        let ghost pcv = strs_view(pc@);
        self.composes.append(&mut pc);
        proof { assert(strs_view(self.composes@) =~= oc + pcv); }
    }
}

// ─── Implementation: helpers ─────────────────────────────────────────────────

/// Type arguments as raw collected types.
fn raw_type_args(args: &Vec<String>) -> (res: Vec<CollectedType>)
    ensures
        collected_seq_view(res@) == raw_args(strs_view(args@)),
{
    let mut out: Vec<CollectedType> = Vec::new();
    let mut i: usize = 0;
    while i < args.len()
        invariant
            i <= args.len(),
            out@.len() == i,
            forall|j: int| 0 <= j < i ==> (#[trigger] out@[j])@ == SpecCollected::Raw(args@[j]@),
        decreases args.len() - i,
    {
        out.push(CollectedType::Raw(args[i].clone()));
        i = i + 1;
    }
    proof { assert(collected_seq_view(out@) =~= raw_args(strs_view(args@))); }
    out
}

/// `s` with whitespace trimmed from both ends.
fn trim_str(s: &str) -> (res: String)
    ensures
        res@ == trim(s@),
{
    let c = chars_of(s);
    let (a, b) = trim_range(&c, 0, c.len());
    proof { assert(c@.subrange(0, c@.len() as int) =~= s@); }
    string_from_chars(&c, a, b)
}

/// `s` with `ch` trimmed from both ends, as often as it repeats.
fn trim_char_str(s: &str, ch: char) -> (res: String)
    ensures
        res@ == trim_char(s@, ch),
{
    let c = chars_of(s);
    let p = vec![ch];
    proof { assert(p@ =~= seq![ch]); assert(c@.subrange(0, c@.len() as int) =~= s@); }
    let a = trim_start_matches_range(&c, 0, c.len(), &p);
    let b = trim_end_matches_range(&c, a, c.len(), &p);
    string_from_chars(&c, a, b)
}

/// The JSDoc value of `tag` in a tag table.
fn tag_lookup<'a>(tags: &'a Vec<(String, String)>, tag: &str) -> (res: Option<&'a String>)
    ensures
        match res {
            Some(v) => tag_get(pairs_view(tags@), tag@) == Some(v@),
            None => tag_get(pairs_view(tags@), tag@) is None,
        },
{
    let ghost tv = pairs_view(tags@);
    let mut i: usize = tags.len();
    proof { assert(tv.subrange(0, tv.len() as int) =~= tv); }
    while i > 0
        invariant
            i <= tags.len(),
            tv == pairs_view(tags@),
            pair_index(tv, tag@) == pair_index(tv.subrange(0, i as int), tag@),
        decreases i,
    {
        proof { assert(tv.subrange(0, i as int).drop_last() =~= tv.subrange(0, i - 1)); }
        if str_eq(tags[i - 1].0.as_str(), tag) {
            return Some(&tags[i - 1].1);
        }
        i = i - 1;
    }
    proof { assert(tv.subrange(0, 0) =~= Seq::<(Seq<char>, Seq<char>)>::empty()); }
    None
}

/// The code default of the prop `name`.
fn code_default<'a>(mapping: &'a ComponentMapping, name: &str) -> (res: Option<&'a RawDefault>)
    ensures
        match res {
            Some(d) => assoc_get(mapping@.param_defaults, name@) == Some(d@),
            None => assoc_get(mapping@.param_defaults, name@) is None,
        },
{
    let ghost pd = mapping@.param_defaults;
    let idx = first_key_pos(&mapping.param_defaults, name);
    proof {
        assert forall|j: int| 0 <= j < idx implies pd[j].0 != name@ by {
            assert(pd[j].0 == mapping.param_defaults@[j].0@);
        }
        lemma_first_key_index_is(pd, name@, idx as int);
    }
    if idx < mapping.param_defaults.len() {
        Some(&mapping.param_defaults[idx].1)
    } else {
        None
    }
}

/// The default of a raw prop; reports a code/JSDoc disagreement.
fn prop_default(
    mapping: &ComponentMapping,
    raw: &RawProp,
    iface_file: &str,
    diagnostics: &mut Vec<Diagnostic>,
) -> (res: Option<DefaultValue>)
    ensures
        opt_default_view(res) == spec_prop_default(mapping@.param_defaults, raw@, iface_file@).0,
        diags_view(final(diagnostics)@)
            == diags_view(old(diagnostics)@) + spec_prop_default(mapping@.param_defaults, raw@, iface_file@).1,
{
    let ghost before = diags_view(diagnostics@);
    proof { assert(before + Seq::<SpecDiagnostic>::empty() =~= before); }
    let jsdoc: Option<String> = match tag_lookup(&raw.tags, "default") {
        Some(v) => Some(trim_str(v.as_str())),
        None => match tag_lookup(&raw.tags, "defaultValue") {
            Some(v) => Some(trim_str(v.as_str())),
            None => None,
        },
    };
    proof { assert(opt_str_view(jsdoc) == jsdoc_default(raw@.tags)); }
    match (code_default(mapping, raw.name.as_str()), jsdoc) {
        (Some(code), Some(j)) => {
            let unquoted = trim_char_str(trim_char_str(code.value.as_str(), '"').as_str(), '\'');
            if !str_eq(unquoted.as_str(), j.as_str()) {
                let mut m = "JSDoc @default '".to_owned();
                m.append(j.as_str());
                m.append("' differs from code default '");
                m.append(code.value.as_str());
                m.append("' for prop '");
                m.append(raw.name.as_str());
                m.append("' \u{2014} using code value");
                let d = file_diag(
                    DiagnosticSeverity::Info,
                    DiagnosticCode::JsDocDefaultMismatch,
                    m,
                    iface_file,
                    Some("Update the JSDoc @default to match the code default.".to_owned()),
                );
                push_diag(diagnostics, d);
                proof { assert(before.push(d@) =~= before + seq![d@]); }
            }
            Some(DefaultValue { value: code.value.clone(), computed: code.computed })
        },
        (Some(code), None) => Some(DefaultValue { value: code.value.clone(), computed: code.computed }),
        (None, Some(j)) => Some(DefaultValue { value: j, computed: false }),
        (None, None) => None,
    }
}

// ─── Implementation: chain resolution ────────────────────────────────────────

/// Resolves `tn<type_args>`, used in `consuming_file`, to the chain of
/// props it provides.
pub fn resolve_props_chain(
    tn: &str,
    type_args: &Vec<String>,
    consuming_file: &str,
    mapping: &ComponentMapping,
    ctx: &ResolutionContext,
    visited: &mut Vec<String>,
    depth: u8,
    diagnostics: &mut Vec<Diagnostic>,
) -> (res: ResolvedChain)
    ensures
        ({
            let r = spec_props_chain(
                ctx@,
                mapping@.param_defaults,
                tn@,
                strs_view(type_args@),
                consuming_file@,
                strs_view(old(visited)@),
                depth as int,
            );
            &&& res@ == r.0
            &&& strs_view(final(visited)@) == r.1
            &&& diags_view(final(diagnostics)@) == diags_view(old(diagnostics)@) + r.2
        }),
    decreases depth_measure(depth as int), 4int, 0int,
{
    let ghost before = diags_view(diagnostics@);
    let ghost v0 = strs_view(visited@);
    if depth > 20 {
        let mut m = "Max resolution depth exceeded for type '".to_owned();
        m.append(tn);
        m.append("'");
        let d = file_diag(
            DiagnosticSeverity::Warning,
            DiagnosticCode::MaxDepthExceeded,
            m,
            consuming_file,
            Some("This may indicate a circular type reference".to_owned()),
        );
        push_diag(diagnostics, d);
        proof { assert(before.push(d@) =~= before + seq![d@]); }
        return ResolvedChain::empty_with_compose(tn.to_owned());
    }
    let mut visit_key = consuming_file.to_owned();
    visit_key.append(":");
    visit_key.append(tn);
    proof { assert(before + Seq::<SpecDiagnostic>::empty() =~= before); }
    if contains_str(visited, visit_key.as_str()) {
        return ResolvedChain::empty();
    }
    let ghost key_v = visit_key@;
    visited.push(visit_key);
    proof { assert(strs_view(visited@) =~= v0.push(key_v)); }
    if is_react_builtin(tn, &ctx.extra_builtins) {
        return ResolvedChain::empty_with_compose(tn.to_owned());
    }
    let raws = raw_type_args(type_args);
    let resolved_args = resolve_list(&raws, consuming_file, ctx, depth + 1, diagnostics);
    let ghost ra = spec_resolve_list(ctx@, raw_args(strs_view(type_args@)), consuming_file@, depth + 1);
    match resolve_known(tn, resolved_args.as_slice(), &ctx.global) {
        Some(KnownPatternResult::Props(props)) => {
            let mut chain = ResolvedChain::empty();
            chain.props = props;
            return chain;
        },
        Some(KnownPatternResult::Type(pt)) => {
            return ResolvedChain::empty_with_compose(pt.raw_string());
        },
        Some(KnownPatternResult::Alias { name, .. }) => {
            let no_args: Vec<String> = Vec::new();
            proof { assert(strs_view(no_args@) =~= Seq::<Seq<char>>::empty()); }
            let r = resolve_props_chain(name.as_str(), &no_args, consuming_file, mapping, ctx, visited, depth + 1, diagnostics);
            proof {
                let rr = spec_props_chain(ctx@, mapping@.param_defaults, name@, Seq::empty(), consuming_file@, v0.push(key_v), depth + 1);
                assert(before + ra.1 + rr.2 =~= before + (ra.1 + rr.2));
            }
            return r;
        },
        None => {},
    }
    let key = canonical_key(tn, consuming_file, ctx, diagnostics);
    let ghost k = spec_canonical_key(ctx@, tn@, consuming_file@);
    if let Some(alias) = lookup_alias(ctx, key.as_str()) {
        let r = resolve_type_alias_chain(alias, mapping, ctx, visited, depth, diagnostics);
        proof {
            let rr = spec_alias_chain(ctx@, mapping@.param_defaults, alias@, v0.push(key_v), depth as int);
            assert(before + ra.1 + k.1 + rr.2 =~= before + (ra.1 + k.1 + rr.2));
        }
        return r;
    }
    if let Some(iface) = lookup_interface(ctx, key.as_str()) {
        let r = resolve_interface_chain(iface, mapping, ctx, visited, depth, diagnostics);
        proof {
            let rr = spec_interface_chain(ctx@, mapping@.param_defaults, iface@, v0.push(key_v), depth as int);
            assert(before + ra.1 + k.1 + rr.2 =~= before + (ra.1 + k.1 + rr.2));
        }
        return r;
    }
    let mut m = "Cannot resolve type '".to_owned();
    m.append(tn);
    m.append("' in '");
    m.append(consuming_file);
    m.append("' (scoped key: '");
    m.append(key.as_str());
    m.append("')");
    let d = file_diag(
        DiagnosticSeverity::Warning,
        DiagnosticCode::UnresolvableImport,
        m,
        consuming_file,
        Some("Type may be in an unresolvable cross-package location. Check that the package is installed.".to_owned()),
    );
    push_diag(diagnostics, d);
    proof { assert((before + ra.1 + k.1).push(d@) =~= before + (ra.1 + k.1).push(d@)); }
    ResolvedChain::empty_with_compose(tn.to_owned())
}

/// Resolves an interface: its `extends` clauses merged in order, each own
/// prop taking the place of the inherited prop of its name, the other own
/// props after them.
fn resolve_interface_chain(
    iface: &CollectedInterface,
    mapping: &ComponentMapping,
    ctx: &ResolutionContext,
    visited: &mut Vec<String>,
    depth: u8,
    diagnostics: &mut Vec<Diagnostic>,
) -> (res: ResolvedChain)
    requires
        depth <= 20,
    ensures
        ({
            let r = spec_interface_chain(ctx@, mapping@.param_defaults, iface@, strs_view(old(visited)@), depth as int);
            &&& res@ == r.0
            &&& strs_view(final(visited)@) == r.1
            &&& diags_view(final(diagnostics)@) == diags_view(old(diagnostics)@) + r.2
        }),
    decreases depth_measure(depth as int), 3int, 0int,
{
    let ghost c = ctx@;
    let ghost dflt = mapping@.param_defaults;
    let ghost iv = iface@;
    let ghost v0 = strs_view(visited@);
    let ghost before = diags_view(diagnostics@);
    let mut chain = ResolvedChain::empty();
    let mut i: usize = 0;
    proof {
        assert(iv.extends.take(0) =~= Seq::<SpecExtendsRef>::empty());
        assert(before + Seq::<SpecDiagnostic>::empty() =~= before);
    }
    while i < iface.extends.len()
        invariant
            i <= iface.extends.len(),
            depth <= 20,
            c == ctx@,
            dflt == mapping@.param_defaults,
            iv == iface@,
            ({
                let e = spec_extends_fold(c, dflt, iv.file_path, iv.extends.take(i as int), v0, depth as int);
                &&& chain@ == e.0
                &&& strs_view(visited@) == e.1
                &&& diags_view(diagnostics@) == before + e.2
            }),
        decreases iface.extends.len() - i,
    {
        let ghost prev = spec_extends_fold(c, dflt, iv.file_path, iv.extends.take(i as int), v0, depth as int);
        proof {
            assert(iv.extends.take(i + 1).drop_last() =~= iv.extends.take(i as int));
            assert(iv.extends.take(i + 1).last() == iface.extends@[i as int]@);
        }
        let (parent, layer) = resolve_extends_ref(
            &iface.extends[i],
            iface.file_path.as_str(),
            mapping,
            ctx,
            visited,
            depth + 1,
            diagnostics,
        );
        proof {
            let r = spec_extends_ref(c, dflt, iv.extends[i as int], iv.file_path, prev.1, depth + 1);
            assert(before + prev.2 + r.3 =~= before + (prev.2 + r.3));
        }
        match layer {
            Some(l) => {
                let ghost old_layers = layers_view(chain.inheritance@);
                chain.inheritance.push(l);
                proof { assert(layers_view(chain.inheritance@) =~= old_layers.push(l@)); }
            },
            None => {},
        }
        chain.merge_parent(parent);
        i = i + 1;
    }
    proof { assert(iv.extends.take(iface.extends.len() as int) =~= iv.extends); }
    let ghost e = spec_extends_fold(c, dflt, iv.file_path, iv.extends, v0, depth as int);
    let ghost mid = diags_view(diagnostics@);
    let mut own_props: Vec<ParsedProp> = Vec::new();
    let mut j: usize = 0;
    proof {
        assert(iv.props.take(0) =~= Seq::<SpecRawProp>::empty());
        assert(parsed_props_view(own_props@) =~= Seq::<SpecParsedProp>::empty());
        assert(mid + Seq::<SpecDiagnostic>::empty() =~= mid);
    }
    while j < iface.props.len()
        invariant
            j <= iface.props.len(),
            depth <= 20,
            c == ctx@,
            dflt == mapping@.param_defaults,
            iv == iface@,
            mid == before + e.2,
            ({
                let own = spec_own_props(c, dflt, iv, iv.props.take(j as int), depth as int);
                &&& chain@ == e.0
                &&& parsed_props_view(own_props@) == own.0
                &&& diags_view(diagnostics@) == mid + own.1
            }),
            strs_view(visited@) == e.1,
        decreases iface.props.len() - j,
    {
        let ghost prev = spec_own_props(c, dflt, iv, iv.props.take(j as int), depth as int);
        proof {
            assert(iv.props.take(j + 1).drop_last() =~= iv.props.take(j as int));
            assert(iv.props.take(j + 1).last() == iface.props@[j as int]@);
        }
        let raw = &iface.props[j];
        let t = resolve_type(&raw.collected_type, iface.file_path.as_str(), ctx, depth, diagnostics);
        let dv = prop_default(mapping, raw, iface.file_path.as_str(), diagnostics);
        let parent = PropParent { name: iface.name.clone(), file_name: iface.file_path.clone() };
        let declarations = vec![parent.clone()];
        let p = ParsedProp {
            name: raw.name.clone(),
            prop_type: t,
            required: raw.required,
            default_value: dv,
            description: raw.description.clone(),
            tags: clone_pairs(&raw.tags),
            parent: Some(parent),
            declarations,
        };
        proof { assert(parents_view(declarations@) =~= seq![parent@]); }
        let ghost old_props = parsed_props_view(own_props@);
        own_props.push(p);
        proof {
            assert(parsed_props_view(own_props@) =~= old_props.push(p@));
            let tt = spec_resolve_type(c, iv.props[j as int].collected_type, iv.file_path, depth as int);
            let dd = spec_prop_default(dflt, iv.props[j as int], iv.file_path);
            assert(mid + prev.1 + tt.1 + dd.1 =~= mid + (prev.1 + tt.1 + dd.1));
        }
        j = j + 1;
    }
    proof {
        assert(iv.props.take(iface.props.len() as int) =~= iv.props);
        let own = spec_own_props(c, dflt, iv, iv.props, depth as int);
        assert(before + e.2 + own.1 =~= before + (e.2 + own.1));
    }
    let mut inherited: Vec<ParsedProp> = Vec::new();
    std::mem::swap(&mut inherited, &mut chain.props);
    chain.props = overlay_own_props(own_props, inherited);
    chain
}

/// The inherited props in order, each replaced by the own prop of its name
/// where there is one, then the own props that no inherited prop names.
fn overlay_own_props(own: Vec<ParsedProp>, inherited: Vec<ParsedProp>) -> (res: Vec<ParsedProp>)
    ensures
        parsed_props_view(res@) == overlay_own(parsed_props_view(inherited@), parsed_props_view(own@)),
{
    let ghost ov = parsed_props_view(own@);
    let ghost iv = parsed_props_view(inherited@);
    let ghost f = |p: SpecParsedProp| own_or_inherited(ov, p);
    let mut out: Vec<ParsedProp> = Vec::new();
    let mut i: usize = 0;
    proof { assert(iv.take(0).map_values(f) =~= parsed_props_view(out@)); }
    while i < inherited.len()
        invariant
            i <= inherited.len(),
            iv == parsed_props_view(inherited@),
            ov == parsed_props_view(own@),
            f == (|p: SpecParsedProp| own_or_inherited(ov, p)),
            parsed_props_view(out@) == iv.take(i as int).map_values(f),
        decreases inherited.len() - i,
    {
        proof {
            assert(iv[i as int] == inherited@[i as int]@);
        }
        let ghost old_out = parsed_props_view(out@);
        match first_prop_pos(&own, inherited[i].name.as_str()) {
            Some(k) => {
                let q = own[k].clone();
                out.push(q);
            },
            None => {
                let q = inherited[i].clone();
                out.push(q);
            },
        }
        proof {
            assert(parsed_props_view(out@) =~= old_out.push(f(iv[i as int])));
            assert(iv.take(i + 1).map_values(f) =~= iv.take(i as int).map_values(f).push(f(iv[i as int])));
        }
        i = i + 1;
    }
    proof {
        assert(iv.take(iv.len() as int) =~= iv);
        assert(ov.take(0) =~= Seq::<SpecParsedProp>::empty());
        assert(parsed_props_view(out@) + props_not_in(ov.take(0), iv) =~= parsed_props_view(out@));
    }
    let ghost head = iv.map_values(f);
    let mut j: usize = 0;
    while j < own.len()
        invariant
            j <= own.len(),
            iv == parsed_props_view(inherited@),
            ov == parsed_props_view(own@),
            parsed_props_view(out@) == head + props_not_in(ov.take(j as int), iv),
        decreases own.len() - j,
    {
        proof {
            assert(ov.take(j + 1).drop_last() =~= ov.take(j as int));
            assert(ov.take(j + 1).last() == own@[j as int]@);
            lemma_prop_index(iv, ov[j as int].name);
        }
        let named = prop_pos(&inherited, own[j].name.as_str());
        if named.is_none() {
            let ghost old_out = parsed_props_view(out@);
            let q = own[j].clone();
            out.push(q);
            proof {
                assert(!has_prop_named(iv, ov[j as int].name));
                assert(parsed_props_view(out@) =~= old_out.push(q@));
                assert(head + props_not_in(ov.take(j + 1), iv) =~= (head + props_not_in(ov.take(j as int), iv)).push(q@));
            }
        } else {
            proof {
                let k = prop_index(iv, ov[j as int].name);
                assert(iv[k].name == ov[j as int].name);
                assert(has_prop_named(iv, ov[j as int].name));
            }
        }
        j = j + 1;
    }
    proof { assert(ov.take(ov.len() as int) =~= ov); }
    out
}

/// Resolves one `extends` clause of an interface declared in `iface_file`.
fn resolve_extends_ref(
    extends_ref: &ExtendsRef,
    iface_file: &str,
    mapping: &ComponentMapping,
    ctx: &ResolutionContext,
    visited: &mut Vec<String>,
    depth: u8,
    diagnostics: &mut Vec<Diagnostic>,
) -> (res: (ResolvedChain, Option<InheritedLayer>))
    ensures
        ({
            let r = spec_extends_ref(ctx@, mapping@.param_defaults, extends_ref@, iface_file@, strs_view(old(visited)@), depth as int);
            &&& res.0@ == r.0
            &&& match res.1 {
                Some(l) => r.1 == Some(l@),
                None => r.1 is None,
            }
            &&& strs_view(final(visited)@) == r.2
            &&& diags_view(final(diagnostics)@) == diags_view(old(diagnostics)@) + r.3
        }),
    decreases depth_measure(depth as int), 5int, 0int,
{
    let ghost before = diags_view(diagnostics@);
    proof { assert(before + Seq::<SpecDiagnostic>::empty() =~= before); }
    match extends_ref {
        ExtendsRef::Builtin { name, element, .. } => match element {
            Some(el) => {
                let layer = InheritedLayer {
                    layer_name: name.clone(),
                    file_name: resolve_react_types_file(iface_file, ctx),
                    omitted: Vec::new(),
                    html_element: Some(el.clone()),
                    total_props: 0,
                };
                proof { assert(strs_view(layer.omitted@) =~= Seq::<Seq<char>>::empty()); }
                (ResolvedChain::empty(), Some(layer))
            },
            None => (ResolvedChain::empty(), None),
        },
        ExtendsRef::SameFile { name, type_args } => {
            let chain = resolve_props_chain(name.as_str(), type_args, iface_file, mapping, ctx, visited, depth, diagnostics);
            (chain, None)
        },
        ExtendsRef::Imported { local_name, type_args, source_specifier } => {
            let resolved: Option<String> = match source_specifier {
                Some(spec) => resolve_import_specifier(spec.as_str(), iface_file, ctx, diagnostics),
                None => None,
            };
            let ghost rs_diags = diags_view(diagnostics@);
            let file: String = match resolved {
                Some(p) => p,
                None => iface_file.to_owned(),
            };
            let chain = resolve_props_chain(local_name.as_str(), type_args, file.as_str(), mapping, ctx, visited, depth, diagnostics);
            proof {
                let rs = match extends_ref@->Imported_source_specifier {
                    Some(s) => spec_resolve_specifier(ctx@, s, iface_file@),
                    None => (None, Seq::empty()),
                };
                let r = spec_props_chain(ctx@, mapping@.param_defaults, local_name@, strs_view(type_args@), file@, strs_view(old(visited)@), depth as int);
                assert(before + rs.1 + r.2 =~= before + (rs.1 + r.2));
            }
            (chain, None)
        },
    }
}

/// The props whose name is (or is not) among `keys`, in order.
fn filter_props(props: &Vec<ParsedProp>, keys: &Vec<String>, keep_listed: bool) -> (res: Vec<ParsedProp>)
    ensures
        parsed_props_view(res@) == filter_props_by_keys(parsed_props_view(props@), strs_view(keys@), keep_listed),
{
    let ghost pv = parsed_props_view(props@);
    let mut out: Vec<ParsedProp> = Vec::new();
    let mut i: usize = 0;
    proof { assert(pv.take(0) =~= Seq::<SpecParsedProp>::empty()); }
    while i < props.len()
        invariant
            i <= props.len(),
            pv == parsed_props_view(props@),
            parsed_props_view(out@) == filter_props_by_keys(pv.take(i as int), strs_view(keys@), keep_listed),
        decreases props.len() - i,
    {
        proof {
            assert(pv.take(i + 1).drop_last() =~= pv.take(i as int));
            assert(pv.take(i + 1).last() == props@[i as int]@);
        }
        if contains_str(keys, props[i].name.as_str()) == keep_listed {
            let ghost old_out = parsed_props_view(out@);
            out.push(props[i].clone());
            proof { assert(parsed_props_view(out@) =~= old_out.push(pv[i as int])); }
        }
        i = i + 1;
    }
    proof { assert(pv.take(props.len() as int) =~= pv); }
    out
}

/// Every prop with `required` set to `required`.
fn with_required(props: &Vec<ParsedProp>, required: bool) -> (res: Vec<ParsedProp>)
    ensures
        parsed_props_view(res@) == set_required(parsed_props_view(props@), required),
{
    let mut out: Vec<ParsedProp> = Vec::new();
    let mut i: usize = 0;
    while i < props.len()
        invariant
            i <= props.len(),
            out@.len() == i,
            forall|j: int| 0 <= j < i ==> (#[trigger] out@[j])@ == (SpecParsedProp { required, ..props@[j]@ }),
        decreases props.len() - i,
    {
        let mut p = props[i].clone();
        p.required = required;
        out.push(p);
        i = i + 1;
    }
    proof { assert(parsed_props_view(out@) =~= set_required(parsed_props_view(props@), required)); }
    out
}

/// `list` with each of `keys` appended unless already present.
fn add_missing_keys(list: &Vec<String>, keys: &Vec<String>) -> (res: Vec<String>)
    ensures
        strs_view(res@) == add_missing(strs_view(list@), strs_view(keys@)),
{
    let ghost kv = strs_view(keys@);
    let mut out = clone_strings(list);
    let mut i: usize = 0;
    proof { assert(kv.take(0) =~= Seq::<Seq<char>>::empty()); }
    while i < keys.len()
        invariant
            i <= keys.len(),
            kv == strs_view(keys@),
            strs_view(out@) == add_missing(strs_view(list@), kv.take(i as int)),
        decreases keys.len() - i,
    {
        proof {
            assert(kv.take(i + 1).drop_last() =~= kv.take(i as int));
            assert(kv.take(i + 1).last() == keys@[i as int]@);
        }
        if !contains_str(&out, keys[i].as_str()) {
            let ghost old_out = strs_view(out@);
            out.push(keys[i].clone());
            proof { assert(strs_view(out@) =~= old_out.push(kv[i as int])); }
        }
        i = i + 1;
    }
    proof { assert(kv.take(keys.len() as int) =~= kv); }
    out
}

/// Resolves a type alias as a props provider.
fn resolve_type_alias_chain(
    alias: &CollectedTypeAlias,
    mapping: &ComponentMapping,
    ctx: &ResolutionContext,
    visited: &mut Vec<String>,
    depth: u8,
    diagnostics: &mut Vec<Diagnostic>,
) -> (res: ResolvedChain)
    requires
        depth <= 20,
    ensures
        ({
            let r = spec_alias_chain(ctx@, mapping@.param_defaults, alias@, strs_view(old(visited)@), depth as int);
            &&& res@ == r.0
            &&& strs_view(final(visited)@) == r.1
            &&& diags_view(final(diagnostics)@) == diags_view(old(diagnostics)@) + r.2
        }),
    decreases depth_measure(depth as int), 3int, 0int,
{
    proof { assert(diags_view(diagnostics@) + Seq::<SpecDiagnostic>::empty() =~= diags_view(diagnostics@)); }
    match alias {
        CollectedTypeAlias::Passthrough { target, file_path } => {
            proof { lemma_collected_view_children(*target); }
            match target {
                CollectedType::Named { name, .. } => {
                    let no_args: Vec<String> = Vec::new();
                    proof { assert(strs_view(no_args@) =~= Seq::<Seq<char>>::empty()); }
                    resolve_props_chain(name.as_str(), &no_args, file_path.as_str(), mapping, ctx, visited, depth + 1, diagnostics)
                },
                _ => ResolvedChain::empty(),
            }
        },
        CollectedTypeAlias::Omit { base, omitted_keys, file_path } => {
            let mut chain = resolve_base_as_chain(base, file_path.as_str(), mapping, ctx, visited, depth, diagnostics);
            chain.props = filter_props(&chain.props, omitted_keys, false);
            let ghost ls = layers_view(chain.inheritance@);
            let mut layers: Vec<InheritedLayer> = Vec::new();
            let mut i: usize = 0;
            while i < chain.inheritance.len()
                invariant
                    i <= chain.inheritance.len(),
                    ls == layers_view(chain.inheritance@),
                    layers@.len() == i,
                    forall|j: int| 0 <= j < i ==> (#[trigger] layers@[j])@ == (SpecInheritedLayer {
                        omitted: add_missing(ls[j].omitted, strs_view(omitted_keys@)),
                        ..ls[j]
                    }),
                decreases chain.inheritance.len() - i,
            {
                let mut l = chain.inheritance[i].clone();
                l.omitted = add_missing_keys(&l.omitted, omitted_keys);
                layers.push(l);
                i = i + 1;
            }
            proof {
                assert(layers_view(layers@) =~= ls.map_values(
                    |l: SpecInheritedLayer| SpecInheritedLayer { omitted: add_missing(l.omitted, strs_view(omitted_keys@)), ..l },
                ));
            }
            chain.inheritance = layers;
            chain
        },
        CollectedTypeAlias::Pick { base, picked_keys, file_path } => {
            let mut chain = resolve_base_as_chain(base, file_path.as_str(), mapping, ctx, visited, depth, diagnostics);
            chain.props = filter_props(&chain.props, picked_keys, true);
            chain
        },
        CollectedTypeAlias::Partial { base, file_path } => {
            let mut chain = resolve_base_as_chain(base, file_path.as_str(), mapping, ctx, visited, depth, diagnostics);
            chain.props = with_required(&chain.props, false);
            chain
        },
        CollectedTypeAlias::Required { base, file_path } => {
            let mut chain = resolve_base_as_chain(base, file_path.as_str(), mapping, ctx, visited, depth, diagnostics);
            chain.props = with_required(&chain.props, true);
            chain
        },
        CollectedTypeAlias::Union { members, file_path } =>
            resolve_union_alias(members, file_path.as_str(), mapping, ctx, visited, depth, diagnostics),
        CollectedTypeAlias::Intersection { members, file_path } =>
            resolve_base_list(members, file_path.as_str(), mapping, ctx, visited, depth, diagnostics),
        CollectedTypeAlias::LiteralUnion { .. } => ResolvedChain::empty(),
    }
}

/// Resolves the base type of an alias as a props chain.
fn resolve_base_as_chain(
    base: &CollectedType,
    file: &str,
    mapping: &ComponentMapping,
    ctx: &ResolutionContext,
    visited: &mut Vec<String>,
    depth: u8,
    diagnostics: &mut Vec<Diagnostic>,
) -> (res: ResolvedChain)
    requires
        depth <= 20,
    ensures
        ({
            let r = spec_base_chain(ctx@, mapping@.param_defaults, base@, file@, strs_view(old(visited)@), depth as int);
            &&& res@ == r.0
            &&& strs_view(final(visited)@) == r.1
            &&& diags_view(final(diagnostics)@) == diags_view(old(diagnostics)@) + r.2
        }),
    decreases depth_measure(depth as int), 1int, base_size(base@),
{
    proof {
        lemma_collected_view_children(*base);
        assert(diags_view(diagnostics@) + Seq::<SpecDiagnostic>::empty() =~= diags_view(diagnostics@));
    }
    match base {
        CollectedType::Named { name, .. } => {
            let no_args: Vec<String> = Vec::new();
            proof { assert(strs_view(no_args@) =~= Seq::<Seq<char>>::empty()); }
            resolve_props_chain(name.as_str(), &no_args, file, mapping, ctx, visited, depth + 1, diagnostics)
        },
        CollectedType::Intersection(ms) => {
            proof {
                lemma_base_list_size_positive(collected_seq_view(ms@));
                assert(base_size(base@) == 1 + base_list_size(collected_seq_view(ms@)));
            }
            resolve_base_list(ms, file, mapping, ctx, visited, depth, diagnostics)
        },
        _ => ResolvedChain::empty(),
    }
}

/// Each member is smaller than the list it belongs to.
proof fn lemma_member_below_list(ms: Seq<SpecCollected>, i: int)
    requires
        0 <= i < ms.len(),
    ensures
        base_size(ms[i]) < base_list_size(ms),
        base_list_size(ms.take(i)) < base_list_size(ms),
    decreases ms.len(),
{
    lemma_base_list_size_positive(ms.subrange(0, ms.len() - 1));
    lemma_base_size_positive(ms[ms.len() - 1]);
    if i < ms.len() - 1 {
        lemma_member_below_list(ms.subrange(0, ms.len() - 1), i);
        assert(ms.subrange(0, ms.len() - 1)[i] == ms[i]);
        assert(ms.subrange(0, ms.len() - 1).take(i) =~= ms.take(i));
    } else {
        assert(ms.subrange(0, ms.len() - 1) =~= ms.take(i));
    }
}

/// Resolves each of `members` as a base chain, merged in order.
fn resolve_base_list(
    members: &Vec<CollectedType>,
    file: &str,
    mapping: &ComponentMapping,
    ctx: &ResolutionContext,
    visited: &mut Vec<String>,
    depth: u8,
    diagnostics: &mut Vec<Diagnostic>,
) -> (res: ResolvedChain)
    requires
        depth <= 20,
    ensures
        ({
            let r = spec_base_list(ctx@, mapping@.param_defaults, collected_seq_view(members@), file@, strs_view(old(visited)@), depth as int);
            &&& res@ == r.0
            &&& strs_view(final(visited)@) == r.1
            &&& diags_view(final(diagnostics)@) == diags_view(old(diagnostics)@) + r.2
        }),
    decreases depth_measure(depth as int), 1int, base_list_size(collected_seq_view(members@)),
{
    let ghost mv = collected_seq_view(members@);
    let ghost c = ctx@;
    let ghost dflt = mapping@.param_defaults;
    let ghost v0 = strs_view(visited@);
    let ghost before = diags_view(diagnostics@);
    let mut chain = ResolvedChain::empty();
    let mut i: usize = 0;
    proof {
        assert(mv.take(0) =~= Seq::<SpecCollected>::empty());
        assert(before + Seq::<SpecDiagnostic>::empty() =~= before);
    }
    while i < members.len()
        invariant
            i <= members.len(),
            depth <= 20,
            c == ctx@,
            dflt == mapping@.param_defaults,
            mv == collected_seq_view(members@),
            ({
                let r = spec_base_list(c, dflt, mv.take(i as int), file@, v0, depth as int);
                &&& chain@ == r.0
                &&& strs_view(visited@) == r.1
                &&& diags_view(diagnostics@) == before + r.2
            }),
        decreases members.len() - i,
    {
        let ghost t = mv.take(i + 1);
        let ghost prev = spec_base_list(c, dflt, mv.take(i as int), file@, v0, depth as int);
        proof {
            assert(t.subrange(0, t.len() - 1) =~= mv.take(i as int));
            assert(t[t.len() - 1] == members@[i as int]@);
            lemma_member_below_list(mv, i as int);
            lemma_base_size_positive(mv[i as int]);
            assert(mv[i as int] == members@[i as int]@);
        }
        let sub = resolve_base_as_chain(&members[i], file, mapping, ctx, visited, depth, diagnostics);
        proof {
            let r = spec_base_chain(c, dflt, mv[i as int], file@, prev.1, depth as int);
            assert(before + prev.2 + r.2 =~= before + (prev.2 + r.2));
        }
        chain.merge_parent(sub);
        i = i + 1;
    }
    proof { assert(mv.take(members.len() as int) =~= mv); }
    chain
}

/// The members of a union as (name, props) views.
pub open spec fn members_view(m: Seq<(&str, Vec<ParsedProp>)>) -> Seq<(Seq<char>, Seq<SpecParsedProp>)> {
    m.map_values(|x: (&str, Vec<ParsedProp>)| (x.0@, parsed_props_view(x.1@)))
}

/// Position of the first prop named `name`.
fn first_prop_pos(props: &Vec<ParsedProp>, name: &str) -> (res: Option<usize>)
    ensures
        match res {
            Some(i) => i < props.len() && first_prop_named(parsed_props_view(props@), name@) == Some(props@[i as int]@),
            None => first_prop_named(parsed_props_view(props@), name@) is None,
        },
{
    let ghost pv = parsed_props_view(props@);
    let mut i: usize = 0;
    proof { assert(pv.skip(0) =~= pv); }
    while i < props.len()
        invariant
            i <= props.len(),
            pv == parsed_props_view(props@),
            first_prop_named(pv, name@) == first_prop_named(pv.skip(i as int), name@),
        decreases props.len() - i,
    {
        proof {
            assert(pv.skip(i as int).drop_first() =~= pv.skip(i + 1));
            assert(pv.skip(i as int)[0] == props@[i as int]@);
        }
        if str_eq(props[i].name.as_str(), name) {
            return Some(i);
        }
        i = i + 1;
    }
    proof { assert(pv.skip(i as int).len() == 0); }
    None
}

proof fn lemma_discriminant_values_none(m: Seq<(Seq<char>, Seq<SpecParsedProp>)>, name: Seq<char>, i: int)
    requires
        0 <= i < m.len(),
        discriminant_values(m.take(i + 1), name) is None,
    ensures
        discriminant_values(m, name) is None,
    decreases m.len() - i,
{
    if i + 1 == m.len() {
        assert(m.take(i + 1) =~= m);
    } else {
        assert(m.take(i + 2).drop_last() =~= m.take(i + 1));
        lemma_discriminant_values_none(m, name, i + 1);
    }
}

/// Whether every member has `name` as a string literal, pairwise distinct.
fn has_discriminant_values(members: &[(&str, Vec<ParsedProp>)], name: &str) -> (res: bool)
    ensures
        res == (discriminant_values(members_view(members@), name@) is Some),
{
    let ghost mv = members_view(members@);
    let mut vals: Vec<String> = Vec::new();
    let mut i: usize = 0;
    proof { assert(mv.take(0) =~= Seq::<(Seq<char>, Seq<SpecParsedProp>)>::empty()); }
    while i < members.len()
        invariant
            i <= members.len(),
            mv == members_view(members@),
            discriminant_values(mv.take(i as int), name@) == Some(strs_view(vals@)),
        decreases members.len() - i,
    {
        proof {
            assert(mv.take(i + 1).drop_last() =~= mv.take(i as int));
            assert(mv.take(i + 1).last() == mv[i as int]);
            assert(mv[i as int].1 == parsed_props_view(members@[i as int].1@));
        }
        match first_prop_pos(&members[i].1, name) {
            Some(k) => match &members[i].1[k].prop_type {
                PropType::StringLiteral(s) => {
                    if contains_str(&vals, s.as_str()) {
                        proof { lemma_discriminant_values_none(mv, name@, i as int); }
                        return false;
                    }
                    let ghost old_vals = strs_view(vals@);
                    vals.push(s.clone());
                    proof { assert(strs_view(vals@) =~= old_vals.push(s@)); }
                },
                _ => {
                    proof { lemma_discriminant_values_none(mv, name@, i as int); }
                    return false;
                },
            },
            None => {
                proof { lemma_discriminant_values_none(mv, name@, i as int); }
                return false;
            },
        }
        i = i + 1;
    }
    proof { assert(mv.take(members.len() as int) =~= mv); }
    true
}

/// Finds the discriminant of a union's members: the first prop of the first
/// member whose type is a string literal that is present, as a string
/// literal, in every member, with pairwise distinct values.
pub fn find_discriminant_prop(members: &[(&str, Vec<ParsedProp>)]) -> (res: Option<String>)
    ensures
        opt_str_view(res) == spec_find_discriminant(members_view(members@)),
{
    let ghost mv = members_view(members@);
    if members.len() == 0 {
        return None;
    }
    let first = &members[0].1;
    let ghost fv = mv[0].1;
    proof { assert(fv == parsed_props_view(first@)); }
    let mut j: usize = 0;
    while j < first.len()
        invariant
            j <= first.len(),
            members.len() > 0,
            mv == members_view(members@),
            fv == mv[0].1,
            fv == parsed_props_view(first@),
            first == &members@[0].1,
            forall|k: int| 0 <= k < j ==> !is_discriminant(mv, #[trigger] fv[k]),
        decreases first.len() - j,
    {
        let literal = match &first[j].prop_type {
            PropType::StringLiteral(_) => true,
            _ => false,
        };
        proof { assert(fv[j as int] == first@[j as int]@); }
        if literal && has_discriminant_values(members, first[j].name.as_str()) {
            proof {
                assert(is_discriminant(mv, fv[j as int]));
                assert(0 <= j < fv.len() && is_discriminant(mv, fv[j as int])
                    && forall|k: int| 0 <= k < j ==> !is_discriminant(mv, #[trigger] fv[k]));
                let jj = choose|jj: int|
                    0 <= jj < fv.len() && is_discriminant(mv, #[trigger] fv[jj])
                        && forall|k: int| 0 <= k < jj ==> !is_discriminant(mv, #[trigger] fv[k]);
                assert(jj == j);
            }
            return Some(first[j].name.clone());
        }
        j = j + 1;
    }
    None
}

/// Resolves a union alias, detecting a discriminated union.
fn resolve_union_alias(
    members: &Vec<CollectedType>,
    file: &str,
    mapping: &ComponentMapping,
    ctx: &ResolutionContext,
    visited: &mut Vec<String>,
    depth: u8,
    diagnostics: &mut Vec<Diagnostic>,
) -> (res: ResolvedChain)
    requires
        depth <= 20,
    ensures
        ({
            let r = spec_union_alias(ctx@, mapping@.param_defaults, collected_seq_view(members@), file@, strs_view(old(visited)@), depth as int);
            &&& res@ == r.0
            &&& strs_view(final(visited)@) == r.1
            &&& diags_view(final(diagnostics)@) == diags_view(old(diagnostics)@) + r.2
        }),
    decreases depth_measure(depth as int), 2int, 0int,
{
    let ghost mv = collected_seq_view(members@);
    let ghost c = ctx@;
    let ghost dflt = mapping@.param_defaults;
    let ghost v0 = strs_view(visited@);
    let ghost before = diags_view(diagnostics@);
    let mut named: Vec<(&str, Vec<ParsedProp>)> = Vec::new();
    let mut i: usize = 0;
    proof {
        assert(mv.take(0) =~= Seq::<SpecCollected>::empty());
        assert(before + Seq::<SpecDiagnostic>::empty() =~= before);
        assert(members_view(named@) =~= Seq::<(Seq<char>, Seq<SpecParsedProp>)>::empty());
    }
    while i < members.len()
        invariant
            i <= members.len(),
            depth <= 20,
            c == ctx@,
            dflt == mapping@.param_defaults,
            mv == collected_seq_view(members@),
            strs_view(visited@) == v0,
            ({
                let nm = spec_named_members(c, dflt, mv.take(i as int), file@, v0, depth as int);
                &&& members_view(named@) == nm.0
                &&& diags_view(diagnostics@) == before + nm.1
            }),
        decreases members.len() - i,
    {
        let ghost t = mv.take(i + 1);
        let ghost prev = spec_named_members(c, dflt, mv.take(i as int), file@, v0, depth as int);
        proof {
            assert(t.subrange(0, t.len() - 1) =~= mv.take(i as int));
            assert(t[t.len() - 1] == members@[i as int]@);
            lemma_collected_view_children(members@[i as int]);
        }
        match &members[i] {
            CollectedType::Named { name, .. } => {
                let mut scratch = clone_strings(visited);
                let no_args: Vec<String> = Vec::new();
                proof { assert(strs_view(no_args@) =~= Seq::<Seq<char>>::empty()); }
                let ch = resolve_props_chain(name.as_str(), &no_args, file, mapping, ctx, &mut scratch, depth + 1, diagnostics);
                let ghost old_named = members_view(named@);
                named.push((name.as_str(), ch.props));
                proof {
                    assert(members_view(named@) =~= old_named.push((name@, ch@.props)));
                    let r = spec_props_chain(c, dflt, name@, Seq::empty(), file@, v0, depth + 1);
                    assert(before + prev.1 + r.2 =~= before + (prev.1 + r.2));
                }
            },
            _ => {},
        }
        i = i + 1;
    }
    proof { assert(mv.take(members.len() as int) =~= mv); }
    let ghost nm = spec_named_members(c, dflt, mv, file@, v0, depth as int);
    if named.len() < 2 {
        let r = resolve_base_list(members, file, mapping, ctx, visited, depth, diagnostics);
        proof {
            let b = spec_base_list(c, dflt, mv, file@, v0, depth as int);
            assert(before + nm.1 + b.2 =~= before + (nm.1 + b.2));
        }
        return r;
    }
    let merged = merge_members(&named);
    let disc = find_discriminant_prop(named.as_slice());
    let mut chain = ResolvedChain::empty();
    match disc {
        Some(dn) => {
            chain.props = with_discriminant_type(&named, merged, dn.as_str());
            let mut msg = "Discriminated union detected with discriminant prop '".to_owned();
            msg.append(dn.as_str());
            msg.append("'");
            let d = file_diag(DiagnosticSeverity::Info, DiagnosticCode::DiscriminatedUnion, msg, file, None);
            push_diag(diagnostics, d);
            chain.discriminant_prop = Some(dn);
        },
        None => {
            chain.props = merged;
        },
    }
    chain
}

/// Every member's props merged into a name-ordered table, first one kept.
fn merge_members(named: &Vec<(&str, Vec<ParsedProp>)>) -> (res: Vec<ParsedProp>)
    ensures
        parsed_props_view(res@) == merge_member_props(members_view(named@)),
{
    let ghost nv = members_view(named@);
    let mut merged: Vec<ParsedProp> = Vec::new();
    let mut k: usize = 0;
    proof {
        assert(nv.take(0) =~= Seq::<(Seq<char>, Seq<SpecParsedProp>)>::empty());
        assert(parsed_props_view(merged@) =~= Seq::<SpecParsedProp>::empty());
    }
    while k < named.len()
        invariant
            k <= named.len(),
            nv == members_view(named@),
            parsed_props_view(merged@) == merge_member_props(nv.take(k as int)),
        decreases named.len() - k,
    {
        proof {
            assert(nv.take(k + 1).drop_last() =~= nv.take(k as int));
            assert(nv.take(k + 1).last() == nv[k as int]);
        }
        insert_all_props_keep(&mut merged, &named[k].1);
        k = k + 1;
    }
    proof { assert(nv.take(named.len() as int) =~= nv); }
    merged
}

/// `merged` with the prop `dn` typed as the union of its types in the members.
fn with_discriminant_type(named: &Vec<(&str, Vec<ParsedProp>)>, merged: Vec<ParsedProp>, dn: &str) -> (res: Vec<ParsedProp>)
    ensures
        ({
            let mg = parsed_props_view(merged@);
            let i = prop_index(mg, dn@);
            parsed_props_view(res@) == if i >= 0 {
                mg.update(i, SpecParsedProp {
                    prop_type: SpecPropType::Union(member_types_of(members_view(named@), dn@)),
                    ..mg[i]
                })
            } else {
                mg
            }
        }),
{
    let ghost nv = members_view(named@);
    let mut types: Vec<PropType> = Vec::new();
    let mut m: usize = 0;
    proof {
        assert(nv.take(0) =~= Seq::<(Seq<char>, Seq<SpecParsedProp>)>::empty());
        assert(prop_types_view(types@) =~= Seq::<SpecPropType>::empty());
    }
    while m < named.len()
        invariant
            m <= named.len(),
            nv == members_view(named@),
            prop_types_view(types@) == member_types_of(nv.take(m as int), dn@),
        decreases named.len() - m,
    {
        proof {
            assert(nv.take(m + 1).drop_last() =~= nv.take(m as int));
            assert(nv.take(m + 1).last() == nv[m as int]);
        }
        match first_prop_pos(&named[m].1, dn) {
            Some(q) => {
                let ghost old_types = prop_types_view(types@);
                let t = named[m].1[q].prop_type.clone();
                types.push(t);
                proof { assert(prop_types_view(types@) =~= old_types.push(t@)); }
            },
            None => {},
        }
        m = m + 1;
    }
    proof { assert(nv.take(named.len() as int) =~= nv); }
    let mut merged = merged;
    let ghost mg = parsed_props_view(merged@);
    match prop_pos(&merged, dn) {
        Some(q) => {
            let mut p = merged[q].clone();
            proof { lemma_prop_type_view_union(types); }
            p.prop_type = PropType::Union(types);
            merged.set(q, p);
            proof { assert(parsed_props_view(merged@) =~= mg.update(q as int, p@)); }
        },
        None => {},
    }
    merged
}

// ─── Implementation: the component entry ─────────────────────────────────────

/// Resolves a component mapping to its entry: the props chain of its props
/// type, its props by name (own props win), and the notable attributes it
/// inherits from HTML elements. Returns the diagnostics of the resolution.
pub fn resolve_component(mapping: &ComponentMapping, ctx: &ResolutionContext) -> (res: (ComponentEntry, Vec<Diagnostic>))
    ensures
        res.0@ == spec_resolve_component(ctx@, mapping@).0,
        diags_view(res.1@) == spec_resolve_component(ctx@, mapping@).1,
{
    let mut diagnostics: Vec<Diagnostic> = Vec::new();
    let mut visited: Vec<String> = Vec::new();
    proof {
        assert(strs_view(visited@) =~= Seq::<Seq<char>>::empty());
        assert(diags_view(diagnostics@) =~= Seq::<SpecDiagnostic>::empty());
    }
    let chain = resolve_props_chain(
        mapping.props_type_name.as_str(),
        &mapping.props_type_args,
        mapping.file_path.as_str(),
        mapping,
        ctx,
        &mut visited,
        0,
        &mut diagnostics,
    );
    proof { assert(Seq::<SpecDiagnostic>::empty() + diags_view(diagnostics@) =~= diags_view(diagnostics@)); }
    let mut props: Vec<ParsedProp> = Vec::new();
    proof { assert(parsed_props_view(props@) =~= Seq::<SpecParsedProp>::empty()); }
    insert_all_props_keep(&mut props, &chain.props);
    let ghost pv = parsed_props_view(props@);
    let ghost iv = parsed_props_view(chain.inherited_by_name@);
    let ghost lv = layers_view(chain.inheritance@);
    let mut notable: Vec<ParsedProp> = Vec::new();
    let mut i: usize = 0;
    proof {
        assert(lv.take(0) =~= Seq::<SpecInheritedLayer>::empty());
        assert(parsed_props_view(notable@) =~= Seq::<SpecParsedProp>::empty());
    }
    while i < chain.inheritance.len()
        invariant
            i <= chain.inheritance.len(),
            pv == parsed_props_view(props@),
            iv == parsed_props_view(chain.inherited_by_name@),
            lv == layers_view(chain.inheritance@),
            parsed_props_view(notable@) == notable_for_layers(lv.take(i as int), pv, iv),
        decreases chain.inheritance.len() - i,
    {
        proof {
            assert(lv.take(i + 1).drop_last() =~= lv.take(i as int));
            assert(lv.take(i + 1).last() == chain.inheritance@[i as int]@);
        }
        match &chain.inheritance[i].html_element {
            Some(el) => {
                let attrs = notable_html_attrs(el.as_str());
                let ghost av = static_strs_view(attrs@);
                let ghost start = parsed_props_view(notable@);
                let mut a: usize = 0;
                proof { assert(av.take(0) =~= Seq::<Seq<char>>::empty()); }
                while a < attrs.len()
                    invariant
                        a <= attrs.len(),
                        av == static_strs_view(attrs@),
                        pv == parsed_props_view(props@),
                        iv == parsed_props_view(chain.inherited_by_name@),
                        parsed_props_view(notable@) == notable_for_attrs(start, av.take(a as int), pv, iv),
                    decreases attrs.len() - a,
                {
                    proof {
                        assert(av.take(a + 1).drop_last() =~= av.take(a as int));
                        assert(av.take(a + 1).last() == attrs@[a as int]@);
                    }
                    let attr: &str = attrs[a];
                    if prop_pos(&props, attr).is_none() {
                        match prop_pos(&chain.inherited_by_name, attr) {
                            Some(q) => {
                                insert_prop_replace(&mut notable, chain.inherited_by_name[q].clone());
                            },
                            None => {},
                        }
                    }
                    a = a + 1;
                }
                proof { assert(av.take(attrs.len() as int) =~= av); }
            },
            None => {},
        }
        i = i + 1;
    }
    proof { assert(lv.take(chain.inheritance.len() as int) =~= lv); }
    let entry = ComponentEntry {
        display_name: mapping.component_name.clone(),
        file_path: mapping.file_path.clone(),
        description: mapping.description.clone(),
        props,
        inheritance: chain.inheritance,
        notable_inherited: notable,
        discriminant_prop: chain.discriminant_prop,
        composes: chain.composes,
        tags: clone_pairs(&mapping.tags),
    };
    (entry, diagnostics)
}

// ─── Laws ────────────────────────────────────────────────────────────────────

proof fn lemma_props_not_in(ps: Seq<SpecParsedProp>, own: Seq<SpecParsedProp>)
    ensures
        forall|i: int| 0 <= i < props_not_in(ps, own).len()
            ==> !has_prop_named(own, (#[trigger] props_not_in(ps, own)[i]).name),
        forall|i: int| 0 <= i < ps.len() && !has_prop_named(own, ps[i].name)
            ==> props_not_in(ps, own).contains(#[trigger] ps[i]),
        forall|i: int| 0 <= i < props_not_in(ps, own).len() ==> ps.contains(#[trigger] props_not_in(ps, own)[i]),
    decreases ps.len(),
{
    if ps.len() > 0 {
        lemma_props_not_in(ps.drop_last(), own);
        let r = props_not_in(ps.drop_last(), own);
        assert forall|i: int| 0 <= i < props_not_in(ps, own).len()
            implies ps.contains(#[trigger] props_not_in(ps, own)[i]) by {
            if i < r.len() {
                assert(props_not_in(ps, own)[i] == r[i]);
                let k = choose|k: int| 0 <= k < ps.drop_last().len() && ps.drop_last()[k] == r[i];
                assert(ps[k] == r[i]);
            } else {
                assert(props_not_in(ps, own)[i] == ps.last());
                assert(ps[ps.len() - 1] == ps.last());
            }
        }
        assert forall|i: int| 0 <= i < ps.len() && !has_prop_named(own, ps[i].name)
            implies props_not_in(ps, own).contains(#[trigger] ps[i]) by {
            if i < ps.len() - 1 {
                assert(ps[i] == ps.drop_last()[i]);
                let k = choose|k: int| 0 <= k < r.len() && r[k] == ps[i];
                if !has_prop_named(own, ps.last().name) {
                    assert(props_not_in(ps, own)[k] == r.push(ps.last())[k]);
                }
            } else {
                assert(props_not_in(ps, own)[r.len() as int] == ps.last());
            }
        }
    }
}

proof fn lemma_own_first(own: Seq<SpecParsedProp>, ps: Seq<SpecParsedProp>)
    ensures
        (own + props_not_in(ps, own)).subrange(0, own.len() as int) == own,
        forall|i: int| own.len() <= i < (own + props_not_in(ps, own)).len()
            ==> !has_prop_named(own, (#[trigger] (own + props_not_in(ps, own))[i]).name),
        forall|n: Seq<char>| has_prop_named(ps, n) ==> has_prop_named(own + props_not_in(ps, own), n),
{
    let m = own + props_not_in(ps, own);
    let extra = props_not_in(ps, own);
    lemma_props_not_in(ps, own);
    assert(m.subrange(0, own.len() as int) =~= own);
    assert forall|i: int| own.len() <= i < m.len()
        implies !has_prop_named(own, (#[trigger] m[i]).name) by {
        assert(m[i] == extra[i - own.len()]);
    }
    assert forall|n: Seq<char>| has_prop_named(ps, n) implies has_prop_named(m, n) by {
        let j = choose|j: int| 0 <= j < ps.len() && (#[trigger] ps[j]).name == n;
        if has_prop_named(own, n) {
            let k = choose|k: int| 0 <= k < own.len() && (#[trigger] own[k]).name == n;
            assert(m[k] == own[k]);
        } else {
            let k = choose|k: int| 0 <= k < extra.len() && extra[k] == ps[j];
            assert(m[own.len() + k] == extra[k]);
        }
    }
}

/// When a parent chain is merged into a chain, the chain's own props take
/// priority: they stay first and unchanged, a parent prop is added only where
/// no own prop has its name, and no parent prop name is lost.
pub proof fn law_own_props_take_priority(own: SpecChain, parent: SpecChain)
    ensures
        spec_merge_parent(own, parent).props.subrange(0, own.props.len() as int) == own.props,
        forall|i: int| own.props.len() <= i < spec_merge_parent(own, parent).props.len()
            ==> !has_prop_named(own.props, (#[trigger] spec_merge_parent(own, parent).props[i]).name),
        forall|n: Seq<char>| has_prop_named(parent.props, n) ==> has_prop_named(spec_merge_parent(own, parent).props, n),
{
    lemma_own_first(own.props, parent.props);
}

/// An interface's own props win over the props it inherits through its
/// `extends` clauses, and the inherited props keep their order: each
/// inherited prop keeps its place, taken by the own prop of its name where
/// there is one; the own props that no inherited prop names follow; no own
/// or inherited prop name is lost.
pub proof fn law_interface_own_props_win(
    c: SpecCtx,
    defaults: Seq<(Seq<char>, SpecRawDefault)>,
    iface: SpecInterface,
    visited: Seq<Seq<char>>,
    depth: int,
)
    requires
        depth <= max_depth(),
    ensures
        ({
            let props = spec_interface_chain(c, defaults, iface, visited, depth).0.props;
            let own = spec_own_props(c, defaults, iface, iface.props, depth).0;
            let inherited = spec_extends_fold(c, defaults, iface.file_path, iface.extends, visited, depth).0.props;
            &&& inherited.len() <= props.len()
            &&& forall|i: int| 0 <= i < inherited.len() ==> (#[trigger] props[i]).name == inherited[i].name
            &&& forall|i: int| 0 <= i < inherited.len() && has_prop_named(own, inherited[i].name)
                ==> own.contains(#[trigger] props[i])
            &&& forall|i: int| 0 <= i < inherited.len() && !has_prop_named(own, inherited[i].name)
                ==> #[trigger] props[i] == inherited[i]
            &&& forall|i: int| inherited.len() <= i < props.len()
                ==> own.contains(#[trigger] props[i]) && !has_prop_named(inherited, props[i].name)
            &&& forall|n: Seq<char>| has_prop_named(own, n) ==> has_prop_named(props, n)
            &&& forall|n: Seq<char>| has_prop_named(inherited, n) ==> has_prop_named(props, n)
        }),
{
    let own = spec_own_props(c, defaults, iface, iface.props, depth).0;
    let inherited = spec_extends_fold(c, defaults, iface.file_path, iface.extends, visited, depth).0.props;
    lemma_overlay_own(inherited, own);
}

proof fn lemma_first_prop_named(ps: Seq<SpecParsedProp>, n: Seq<char>)
    ensures
        (first_prop_named(ps, n) is Some) == has_prop_named(ps, n),
        first_prop_named(ps, n) is Some ==> ps.contains(first_prop_named(ps, n)->0)
            && first_prop_named(ps, n)->0.name == n,
    decreases ps.len(),
{
    if ps.len() > 0 {
        let rest = ps.drop_first();
        lemma_first_prop_named(rest, n);
        if has_prop_named(ps, n) && ps[0].name != n {
            let k = choose|k: int| 0 <= k < ps.len() && (#[trigger] ps[k]).name == n;
            assert(rest[k - 1] == ps[k]);
        }
        if has_prop_named(rest, n) {
            let k = choose|k: int| 0 <= k < rest.len() && (#[trigger] rest[k]).name == n;
            assert(ps[k + 1] == rest[k]);
        }
        if first_prop_named(ps, n) is Some && ps[0].name != n {
            let k = choose|k: int| 0 <= k < rest.len() && rest[k] == first_prop_named(rest, n)->0;
            assert(ps[k + 1] == rest[k]);
        }
        if ps[0].name == n {
            assert(ps.contains(ps[0]));
        }
    }
}

proof fn lemma_overlay_own(inherited: Seq<SpecParsedProp>, own: Seq<SpecParsedProp>)
    ensures
        ({
            let props = overlay_own(inherited, own);
            &&& inherited.len() <= props.len()
            &&& forall|i: int| 0 <= i < inherited.len() ==> (#[trigger] props[i]).name == inherited[i].name
            &&& forall|i: int| 0 <= i < inherited.len() && has_prop_named(own, inherited[i].name)
                ==> own.contains(#[trigger] props[i])
            &&& forall|i: int| 0 <= i < inherited.len() && !has_prop_named(own, inherited[i].name)
                ==> #[trigger] props[i] == inherited[i]
            &&& forall|i: int| inherited.len() <= i < props.len()
                ==> own.contains(#[trigger] props[i]) && !has_prop_named(inherited, props[i].name)
            &&& forall|n: Seq<char>| has_prop_named(own, n) ==> has_prop_named(props, n)
            &&& forall|n: Seq<char>| has_prop_named(inherited, n) ==> has_prop_named(props, n)
        }),
{
    let props = overlay_own(inherited, own);
    let head = inherited.map_values(|p: SpecParsedProp| own_or_inherited(own, p));
    let extra = props_not_in(own, inherited);
    lemma_props_not_in(own, inherited);
    assert forall|i: int| 0 <= i < inherited.len() implies {
        &&& (#[trigger] props[i]).name == inherited[i].name
        &&& has_prop_named(own, inherited[i].name) ==> own.contains(props[i])
        &&& !has_prop_named(own, inherited[i].name) ==> props[i] == inherited[i]
    } by {
        lemma_first_prop_named(own, inherited[i].name);
        assert(props[i] == head[i]);
    }
    assert forall|i: int| inherited.len() <= i < props.len()
        implies own.contains(#[trigger] props[i]) && !has_prop_named(inherited, props[i].name) by {
        assert(props[i] == extra[i - inherited.len()]);
    }
    assert forall|n: Seq<char>| has_prop_named(own, n) implies has_prop_named(props, n) by {
        let k = choose|k: int| 0 <= k < own.len() && (#[trigger] own[k]).name == n;
        if has_prop_named(inherited, n) {
            let j = choose|j: int| 0 <= j < inherited.len() && (#[trigger] inherited[j]).name == n;
            assert(props[j].name == n);
        } else {
            let m = choose|m: int| 0 <= m < extra.len() && extra[m] == own[k];
            assert(props[inherited.len() + m] == extra[m]);
        }
    }
    assert forall|n: Seq<char>| has_prop_named(inherited, n) implies has_prop_named(props, n) by {
        let j = choose|j: int| 0 <= j < inherited.len() && (#[trigger] inherited[j]).name == n;
        assert(props[j].name == n);
    }
}

/// The default value written in the component's code takes precedence over a
/// JSDoc `@default`: whenever the code gives a default for a prop, that is
/// the prop's default.
pub proof fn law_code_default_wins(
    defaults: Seq<(Seq<char>, SpecRawDefault)>,
    raw: SpecRawProp,
    iface_file: Seq<char>,
)
    requires
        assoc_get(defaults, raw.name) is Some,
    ensures
        spec_prop_default(defaults, raw, iface_file).0 == Some(SpecDefaultValue {
            value: assoc_get(defaults, raw.name)->0.value,
            computed: assoc_get(defaults, raw.name)->0.computed,
        }),
{
}

// ─── Law of the props tables ─────────────────────────────────────────────────

/// Whether the prop names strictly increase: each name occurs once, in order.
pub open spec fn names_increasing(ps: Seq<SpecParsedProp>) -> bool {
    forall|i: int, j: int| 0 <= i < j < ps.len() ==> seq_lt(ps[i].name, ps[j].name)
}

proof fn lemma_prop_index(ps: Seq<SpecParsedProp>, n: Seq<char>)
    ensures
        -1 <= prop_index(ps, n) < ps.len(),
        prop_index(ps, n) >= 0 ==> ps[prop_index(ps, n)].name == n,
        prop_index(ps, n) < 0 ==> forall|j: int| 0 <= j < ps.len() ==> ps[j].name != n,
    decreases ps.len(),
{
    if ps.len() > 0 {
        lemma_prop_index(ps.drop_last(), n);
        if prop_index(ps, n) < 0 {
            assert forall|j: int| 0 <= j < ps.len() implies ps[j].name != n by {
                if j < ps.len() - 1 {
                    assert(ps[j] == ps.drop_last()[j]);
                }
            }
        }
    }
}

proof fn lemma_props_below_prefix(ps: Seq<SpecParsedProp>, n: Seq<char>)
    requires
        names_increasing(ps),
        forall|j: int| 0 <= j < ps.len() ==> ps[j].name != n,
    ensures
        0 <= props_below(ps, n) <= ps.len(),
        forall|j: int| 0 <= j < ps.len() ==> (j < props_below(ps, n) <==> seq_lt(ps[j].name, n)),
    decreases ps.len(),
{
    if ps.len() > 0 {
        let t = ps.drop_last();
        let m = ps.len() - 1;
        assert forall|i: int, j: int| 0 <= i < j < t.len() implies seq_lt(t[i].name, t[j].name) by {
            assert(t[i] == ps[i] && t[j] == ps[j]);
        }
        assert forall|j: int| 0 <= j < t.len() implies t[j].name != n by {
            assert(t[j] == ps[j]);
        }
        lemma_props_below_prefix(t, n);
        let last = ps[m].name;
        crate::text::lemma_seq_lt_total(last, n);
        if seq_lt(last, n) {
            assert forall|j: int| 0 <= j < t.len() implies seq_lt(t[j].name, n) by {
                assert(t[j] == ps[j]);
                crate::text::lemma_seq_lt_transitive(ps[j].name, last, n);
            }
            if props_below(t, n) < t.len() {
                let j = props_below(t, n);
                assert(seq_lt(t[j].name, n));
            }
        }
        assert forall|j: int| 0 <= j < ps.len() implies (j < props_below(ps, n) <==> seq_lt(ps[j].name, n)) by {
            if j < m {
                assert(t[j] == ps[j]);
            }
        }
    }
}

proof fn lemma_insert_new_increasing(ps: Seq<SpecParsedProp>, p: SpecParsedProp)
    requires
        names_increasing(ps),
        prop_index(ps, p.name) < 0,
    ensures
        names_increasing(ps.insert(props_below(ps, p.name), p)),
{
    lemma_prop_index(ps, p.name);
    lemma_props_below_prefix(ps, p.name);
    let b = props_below(ps, p.name);
    let r = ps.insert(b, p);
    assert forall|x: int, y: int| 0 <= x < y < r.len() implies seq_lt(r[x].name, r[y].name) by {
        if y < b {
            assert(r[x] == ps[x] && r[y] == ps[y]);
        } else if y == b {
            assert(r[x] == ps[x]);
        } else if x < b {
            assert(r[x] == ps[x] && r[y] == ps[y - 1]);
        } else if x == b {
            assert(r[y] == ps[y - 1]);
            crate::text::lemma_seq_lt_total(ps[y - 1].name, p.name);
        } else {
            assert(r[x] == ps[x - 1] && r[y] == ps[y - 1]);
        }
    }
}

proof fn lemma_insert_keep_increasing(ps: Seq<SpecParsedProp>, p: SpecParsedProp)
    requires
        names_increasing(ps),
    ensures
        names_increasing(insert_keep(ps, p)),
{
    if prop_index(ps, p.name) < 0 {
        lemma_insert_new_increasing(ps, p);
    }
}

proof fn lemma_insert_replace_increasing(ps: Seq<SpecParsedProp>, p: SpecParsedProp)
    requires
        names_increasing(ps),
    ensures
        names_increasing(insert_replace(ps, p)),
{
    lemma_prop_index(ps, p.name);
    let i = prop_index(ps, p.name);
    if i >= 0 {
        let r = ps.update(i, p);
        assert forall|x: int, y: int| 0 <= x < y < r.len() implies seq_lt(r[x].name, r[y].name) by {
            assert(r[x].name == ps[x].name && r[y].name == ps[y].name);
        }
    } else {
        lemma_insert_new_increasing(ps, p);
    }
}

proof fn lemma_insert_all_keep_increasing(acc: Seq<SpecParsedProp>, ps: Seq<SpecParsedProp>)
    requires
        names_increasing(acc),
    ensures
        names_increasing(insert_all_keep(acc, ps)),
    decreases ps.len(),
{
    if ps.len() > 0 {
        lemma_insert_all_keep_increasing(acc, ps.drop_last());
        lemma_insert_keep_increasing(insert_all_keep(acc, ps.drop_last()), ps.last());
    }
}

proof fn lemma_notable_for_attrs_increasing(
    acc: Seq<SpecParsedProp>,
    attrs: Seq<Seq<char>>,
    props: Seq<SpecParsedProp>,
    inherited: Seq<SpecParsedProp>,
)
    requires
        names_increasing(acc),
    ensures
        names_increasing(notable_for_attrs(acc, attrs, props, inherited)),
    decreases attrs.len(),
{
    if attrs.len() > 0 {
        lemma_notable_for_attrs_increasing(acc, attrs.drop_last(), props, inherited);
        let prev = notable_for_attrs(acc, attrs.drop_last(), props, inherited);
        let a = attrs.last();
        if prop_index(props, a) < 0 && prop_get(inherited, a) is Some {
            lemma_insert_replace_increasing(prev, prop_get(inherited, a)->0);
        }
    }
}

proof fn lemma_notable_for_layers_increasing(
    layers: Seq<SpecInheritedLayer>,
    props: Seq<SpecParsedProp>,
    inherited: Seq<SpecParsedProp>,
)
    ensures
        names_increasing(notable_for_layers(layers, props, inherited)),
    decreases layers.len(),
{
    if layers.len() > 0 {
        lemma_notable_for_layers_increasing(layers.drop_last(), props, inherited);
        let prev = notable_for_layers(layers.drop_last(), props, inherited);
        match layers.last().html_element {
            Some(el) => lemma_notable_for_attrs_increasing(prev, spec_notable_html_attrs(el), props, inherited),
            None => {},
        }
    }
}

/// A resolved component holds each prop name once, in name order, and so do
/// its notable inherited props.
pub proof fn law_resolved_props_in_name_order(c: SpecCtx, mapping: SpecComponentMapping)
    ensures
        names_increasing(spec_resolve_component(c, mapping).0.props),
        names_increasing(spec_resolve_component(c, mapping).0.notable_inherited),
{
    let r = spec_props_chain(
        c,
        mapping.param_defaults,
        mapping.props_type_name,
        mapping.props_type_args,
        mapping.file_path,
        Seq::empty(),
        0,
    );
    lemma_insert_all_keep_increasing(Seq::empty(), r.0.props);
    let props = insert_all_keep(Seq::empty(), r.0.props);
    lemma_notable_for_layers_increasing(r.0.inheritance, props, r.0.inherited_by_name);
}

// ─── Law of the discriminant search ──────────────────────────────────────────

/// The string literal that the first prop named `n` of member `i` has.
pub open spec fn member_literal(members: Seq<(Seq<char>, Seq<SpecParsedProp>)>, i: int, n: Seq<char>) -> Seq<char> {
    first_prop_named(members[i].1, n)->0.prop_type->StringLiteral_0
}

/// Whether, in every member, the first prop named `n` is a string literal,
/// and no two members have the same literal.
#[verifier::opaque]
pub open spec fn distinct_literal_everywhere(members: Seq<(Seq<char>, Seq<SpecParsedProp>)>, n: Seq<char>) -> bool {
    &&& forall|i: int| 0 <= i < members.len() ==> {
        &&& first_prop_named((#[trigger] members[i]).1, n) is Some
        &&& first_prop_named(members[i].1, n)->0.prop_type is StringLiteral
    }
    &&& forall|i: int, j: int| 0 <= i < j < members.len()
        ==> #[trigger] member_literal(members, i, n) != #[trigger] member_literal(members, j, n)
}

proof fn lemma_discriminant_values(members: Seq<(Seq<char>, Seq<SpecParsedProp>)>, n: Seq<char>)
    ensures
        (discriminant_values(members, n) is Some) == distinct_literal_everywhere(members, n),
        discriminant_values(members, n) is Some ==> {
            let vals = discriminant_values(members, n)->0;
            &&& vals.len() == members.len()
            &&& forall|i: int| 0 <= i < members.len() ==> vals[i] == #[trigger] member_literal(members, i, n)
        },
    decreases members.len(),
{
    reveal(distinct_literal_everywhere);
    if members.len() > 0 {
        let rest = members.drop_last();
        lemma_discriminant_values(rest, n);
        assert forall|i: int| 0 <= i < rest.len() implies #[trigger] rest[i] == members[i] by {}
        assert forall|i: int| 0 <= i < rest.len()
            implies #[trigger] member_literal(rest, i, n) == member_literal(members, i, n) by {
            assert(rest[i] == members[i]);
        }
        let last = members.len() - 1;
        assert(members.last() == members[last]);
        if distinct_literal_everywhere(members, n) {
            assert(distinct_literal_everywhere(rest, n)) by {
                assert forall|i: int| 0 <= i < rest.len() implies {
                    &&& first_prop_named((#[trigger] rest[i]).1, n) is Some
                    &&& first_prop_named(rest[i].1, n)->0.prop_type is StringLiteral
                } by {
                    assert(rest[i] == members[i]);
                }
                assert forall|i: int, j: int| 0 <= i < j < rest.len()
                    implies #[trigger] member_literal(rest, i, n) != #[trigger] member_literal(rest, j, n) by {
                    assert(member_literal(members, i, n) != member_literal(members, j, n));
                }
            }
            let vals = discriminant_values(rest, n)->0;
            assert(first_prop_named(members[last].1, n) is Some);
            let p = first_prop_named(members[last].1, n)->0;
            assert(p.prop_type is StringLiteral);
            let lit = member_literal(members, last, n);
            assert(p.prop_type == SpecPropType::StringLiteral(lit));
            if vals.contains(lit) {
                let k = choose|k: int| 0 <= k < vals.len() && vals[k] == lit;
                assert(vals[k] == member_literal(rest, k, n));
                assert(member_literal(rest, k, n) == member_literal(members, k, n));
                assert(member_literal(members, k, n) != member_literal(members, last, n));
            }
            assert(discriminant_values(rest, n) == Some(vals));
            assert(!vals.contains(lit));
            assert(first_prop_named(members.last().1, n) == Some(p));
            assert(discriminant_values(members, n) == Some(vals.push(lit)));
            assert forall|i: int| 0 <= i < members.len()
                implies discriminant_values(members, n)->0[i] == #[trigger] member_literal(members, i, n) by {
                if i < last {
                    assert(vals[i] == member_literal(rest, i, n));
                }
            }
        } else if discriminant_values(members, n) is Some {
            let vals = discriminant_values(rest, n)->0;
            assert(distinct_literal_everywhere(rest, n));
            let s = member_literal(members, last, n);
            assert(!vals.contains(s));
            assert forall|i: int| 0 <= i < members.len() implies {
                &&& first_prop_named((#[trigger] members[i]).1, n) is Some
                &&& first_prop_named(members[i].1, n)->0.prop_type is StringLiteral
            } by {
                if i < last {
                    assert(rest[i] == members[i]);
                }
            }
            assert forall|i: int, j: int| 0 <= i < j < members.len()
                implies #[trigger] member_literal(members, i, n) != #[trigger] member_literal(members, j, n) by {
                if j < last {
                    assert(member_literal(rest, i, n) != member_literal(rest, j, n));
                } else {
                    assert(vals[i] == member_literal(rest, i, n));
                    assert(vals[i] == member_literal(members, i, n));
                }
            }
            assert(false);
        }
    }
}

/// The discriminant search gives `None` for no members. Otherwise it gives
/// the name of the first prop of the first member whose name is, in every
/// member, a string literal distinct from the other members' literals; and
/// `None` when no prop of the first member qualifies.
proof fn lemma_least_discriminant(members: Seq<(Seq<char>, Seq<SpecParsedProp>)>, first: Seq<SpecParsedProp>, j: int)
    requires
        0 <= j < first.len(),
        is_discriminant(members, first[j]),
    ensures
        exists|i: int| 0 <= i < first.len() && is_discriminant(members, #[trigger] first[i])
            && forall|k: int| 0 <= k < i ==> !is_discriminant(members, #[trigger] first[k]),
    decreases j,
{
    if exists|k: int| 0 <= k < j && is_discriminant(members, #[trigger] first[k]) {
        let k = choose|k: int| 0 <= k < j && is_discriminant(members, #[trigger] first[k]);
        lemma_least_discriminant(members, first, k);
    } else {
        assert(0 <= j < first.len() && is_discriminant(members, first[j])
            && forall|k: int| 0 <= k < j ==> !is_discriminant(members, #[trigger] first[k]));
    }
}

#[verifier::spinoff_prover]
#[verifier::rlimit(40)]
pub proof fn law_discriminant_is_first_qualifying(members: Seq<(Seq<char>, Seq<SpecParsedProp>)>)
    ensures
        members.len() == 0 ==> spec_find_discriminant(members) is None,
        members.len() > 0 ==> match spec_find_discriminant(members) {
            Some(n) => exists|j: int| 0 <= j < members[0].1.len() && {
                &&& (#[trigger] members[0].1[j]).name == n
                &&& members[0].1[j].prop_type is StringLiteral
                &&& distinct_literal_everywhere(members, n)
                &&& forall|k: int| 0 <= k < j ==> !(members[0].1[k].prop_type is StringLiteral
                    && #[trigger] distinct_literal_everywhere(members, members[0].1[k].name))
            },
            None => forall|j: int| 0 <= j < members[0].1.len() ==> !(members[0].1[j].prop_type is StringLiteral
                && #[trigger] distinct_literal_everywhere(members, members[0].1[j].name)),
        },
{
    if members.len() > 0 {
        let first = members[0].1;
        if exists|j: int| 0 <= j < first.len() && is_discriminant(members, #[trigger] first[j]) {
            let j0 = choose|j: int| 0 <= j < first.len() && is_discriminant(members, #[trigger] first[j]);
            lemma_least_discriminant(members, first, j0);
            let j = choose|j: int|
                0 <= j < first.len() && is_discriminant(members, #[trigger] first[j])
                    && forall|k: int| 0 <= k < j ==> !is_discriminant(members, #[trigger] first[k]);
            assert(spec_find_discriminant(members) == Some(first[j].name));
            assert(members[0].1[j] == first[j]);
            lemma_discriminant_values(members, first[j].name);
            assert forall|k: int| 0 <= k < j implies !(members[0].1[k].prop_type is StringLiteral
                && #[trigger] distinct_literal_everywhere(members, members[0].1[k].name)) by {
                assert(!is_discriminant(members, first[k]));
                lemma_discriminant_values(members, first[k].name);
            }
        } else {
            assert forall|j: int| 0 <= j < first.len() implies !(members[0].1[j].prop_type is StringLiteral
                && #[trigger] distinct_literal_everywhere(members, members[0].1[j].name)) by {
                assert(!is_discriminant(members, first[j]));
                lemma_discriminant_values(members, first[j].name);
            }
        }
    }
}

// ─── Law of the alias chains ─────────────────────────────────────────────────

proof fn lemma_filter_by_keys(props: Seq<SpecParsedProp>, keys: Seq<Seq<char>>, keep_listed: bool)
    ensures
        filter_props_by_keys(props, keys, keep_listed)
            == props.filter(|p: SpecParsedProp| keys.contains(p.name) == keep_listed),
    decreases props.len(),
{
    reveal(Seq::filter);
    if props.len() > 0 {
        lemma_filter_by_keys(props.drop_last(), keys, keep_listed);
    }
}

proof fn lemma_push_keeps(s: Seq<Seq<char>>, y: Seq<char>, x: Seq<char>)
    ensures
        s.contains(x) ==> s.push(y).contains(x),
        s.push(y).contains(x) ==> s.contains(x) || x == y,
        s.push(y).contains(y),
{
    assert(s.push(y)[s.len() as int] == y);
    if s.contains(x) {
        let i = choose|i: int| 0 <= i < s.len() && s[i] == x;
        assert(s.push(y)[i] == x);
    }
    if s.push(y).contains(x) && x != y {
        let i = choose|i: int| 0 <= i < s.push(y).len() && s.push(y)[i] == x;
        assert(s[i] == x);
    }
}

proof fn lemma_add_missing(list: Seq<Seq<char>>, keys: Seq<Seq<char>>, x: Seq<char>)
    ensures
        add_missing(list, keys).contains(x) <==> list.contains(x) || keys.contains(x),
    decreases keys.len(),
{
    if keys.len() > 0 {
        let rest = keys.drop_last();
        lemma_add_missing(list, rest, x);
        let prev = add_missing(list, rest);
        lemma_push_keeps(prev, keys.last(), x);
        lemma_push_keeps(rest, keys.last(), x);
        assert(rest.push(keys.last()) =~= keys);
    }
}

/// An alias chain applies `Omit`, `Pick`, `Partial` and `Required` to the
/// chain of its base as set operations that keep the order: `Omit` keeps the
/// props not named among the omitted keys and adds those keys to every
/// inherited layer's omitted names (dropping none), `Pick` keeps the props
/// named among the picked keys, `Partial` and `Required` keep every prop in
/// place with only `required` set; the layers and composes stay the base's;
/// a literal union provides no props at all.
pub proof fn law_alias_props_are_set_operations(
    c: SpecCtx,
    defaults: Seq<(Seq<char>, SpecRawDefault)>,
    alias: SpecAlias,
    visited: Seq<Seq<char>>,
    depth: int,
)
    requires
        depth <= max_depth(),
    ensures
        ({
            let r = spec_alias_chain(c, defaults, alias, visited, depth).0;
            match alias {
                SpecAlias::Omit { base, omitted_keys, file_path } => {
                    let b = spec_base_chain(c, defaults, base, file_path, visited, depth).0;
                    &&& r.props == b.props.filter(|p: SpecParsedProp| omitted_keys.contains(p.name) == false)
                    &&& r.inheritance.len() == b.inheritance.len()
                    &&& forall|i: int, x: Seq<char>| 0 <= i < b.inheritance.len()
                        ==> (#[trigger] r.inheritance[i].omitted.contains(x)
                            <==> b.inheritance[i].omitted.contains(x) || omitted_keys.contains(x))
                    &&& r.composes == b.composes
                },
                SpecAlias::Pick { base, picked_keys, file_path } => {
                    let b = spec_base_chain(c, defaults, base, file_path, visited, depth).0;
                    &&& r.props == b.props.filter(|p: SpecParsedProp| picked_keys.contains(p.name) == true)
                    &&& r.inheritance == b.inheritance
                    &&& r.composes == b.composes
                },
                SpecAlias::Partial { base, file_path } => {
                    let b = spec_base_chain(c, defaults, base, file_path, visited, depth).0;
                    &&& r.props.len() == b.props.len()
                    &&& forall|i: int| 0 <= i < b.props.len()
                        ==> #[trigger] r.props[i] == SpecParsedProp { required: false, ..b.props[i] }
                    &&& r.inheritance == b.inheritance
                },
                SpecAlias::Required { base, file_path } => {
                    let b = spec_base_chain(c, defaults, base, file_path, visited, depth).0;
                    &&& r.props.len() == b.props.len()
                    &&& forall|i: int| 0 <= i < b.props.len()
                        ==> #[trigger] r.props[i] == SpecParsedProp { required: true, ..b.props[i] }
                    &&& r.inheritance == b.inheritance
                },
                SpecAlias::LiteralUnion { .. } => r == empty_chain(),
                _ => true,
            }
        }),
{
    match alias {
        SpecAlias::Omit { base, omitted_keys, file_path } => {
            let b = spec_base_chain(c, defaults, base, file_path, visited, depth).0;
            let r = spec_alias_chain(c, defaults, alias, visited, depth).0;
            lemma_filter_by_keys(b.props, omitted_keys, false);
            assert forall|i: int, x: Seq<char>| 0 <= i < b.inheritance.len()
                implies (#[trigger] r.inheritance[i].omitted.contains(x)
                    <==> b.inheritance[i].omitted.contains(x) || omitted_keys.contains(x)) by {
                lemma_add_missing(b.inheritance[i].omitted, omitted_keys, x);
            }
        },
        SpecAlias::Pick { base, picked_keys, file_path } => {
            let b = spec_base_chain(c, defaults, base, file_path, visited, depth).0;
            lemma_filter_by_keys(b.props, picked_keys, true);
        },
        _ => {},
    }
}

// ─── Law of the component entry ──────────────────────────────────────────────

proof fn lemma_props_below_bounds(ps: Seq<SpecParsedProp>, n: Seq<char>)
    ensures
        0 <= props_below(ps, n) <= ps.len(),
    decreases ps.len(),
{
    if ps.len() > 0 {
        lemma_props_below_bounds(ps.drop_last(), n);
    }
}

proof fn lemma_insert_replace_members(prev: Seq<SpecParsedProp>, p: SpecParsedProp, x: SpecParsedProp)
    ensures
        insert_replace(prev, p).contains(x) ==> x == p || prev.contains(x),
{
    lemma_prop_index(prev, p.name);
    lemma_props_below_bounds(prev, p.name);
    let r = insert_replace(prev, p);
    if r.contains(x) && x != p {
        let j = choose|j: int| 0 <= j < r.len() && r[j] == x;
        let i = prop_index(prev, p.name);
        if i >= 0 {
            assert(prev[j] == x);
        } else {
            let b = props_below(prev, p.name);
            if j < b {
                assert(prev[j] == x);
            } else {
                assert(prev[j - 1] == x);
            }
        }
    }
}

/// Whether `x` is an inherited prop that the layer list may show as notable:
/// no own prop has its name, it is the inherited prop of its name, and some
/// HTML element layer lists its name among that element's notable attributes.
pub open spec fn notable_from(
    x: SpecParsedProp,
    layers: Seq<SpecInheritedLayer>,
    props: Seq<SpecParsedProp>,
    inherited: Seq<SpecParsedProp>,
) -> bool {
    &&& !has_prop_named(props, x.name)
    &&& prop_get(inherited, x.name) == Some(x)
    &&& exists|l: int| 0 <= l < layers.len() && (#[trigger] layers[l]).html_element is Some
        && spec_notable_html_attrs(layers[l].html_element->0).contains(x.name)
}

proof fn lemma_notable_for_attrs(
    acc: Seq<SpecParsedProp>,
    attrs: Seq<Seq<char>>,
    props: Seq<SpecParsedProp>,
    inherited: Seq<SpecParsedProp>,
    x: SpecParsedProp,
)
    ensures
        notable_for_attrs(acc, attrs, props, inherited).contains(x) ==> acc.contains(x) || {
            &&& attrs.contains(x.name)
            &&& !has_prop_named(props, x.name)
            &&& prop_get(inherited, x.name) == Some(x)
        },
    decreases attrs.len(),
{
    if attrs.len() > 0 {
        let rest = attrs.drop_last();
        lemma_notable_for_attrs(acc, rest, props, inherited, x);
        let prev = notable_for_attrs(acc, rest, props, inherited);
        let a = attrs.last();
        if prop_index(props, a) < 0 && prop_get(inherited, a) is Some {
            let p = prop_get(inherited, a)->0;
            lemma_insert_replace_members(prev, p, x);
            lemma_prop_index(inherited, a);
            lemma_prop_index(props, a);
            if x == p {
                assert(attrs[attrs.len() - 1] == a);
                assert(x.name == a);
            }
        }
        if rest.contains(x.name) {
            let j = choose|j: int| 0 <= j < rest.len() && rest[j] == x.name;
            assert(attrs[j] == x.name);
        }
    }
}

proof fn lemma_notable_for_layers(
    layers: Seq<SpecInheritedLayer>,
    props: Seq<SpecParsedProp>,
    inherited: Seq<SpecParsedProp>,
    x: SpecParsedProp,
)
    ensures
        notable_for_layers(layers, props, inherited).contains(x) ==> notable_from(x, layers, props, inherited),
    decreases layers.len(),
{
    if layers.len() > 0 {
        let rest = layers.drop_last();
        lemma_notable_for_layers(rest, props, inherited, x);
        let prev = notable_for_layers(rest, props, inherited);
        if notable_for_layers(layers, props, inherited).contains(x) {
            if prev.contains(x) {
                let l = choose|l: int| 0 <= l < rest.len() && (#[trigger] rest[l]).html_element is Some
                    && spec_notable_html_attrs(rest[l].html_element->0).contains(x.name);
                assert(layers[l] == rest[l]);
            } else {
                let el = layers.last().html_element->0;
                lemma_notable_for_attrs(prev, spec_notable_html_attrs(el), props, inherited, x);
                assert(layers[layers.len() - 1] == layers.last());
            }
        }
    }
}

/// A resolved component keeps its mapping's name, file, description and
/// tags, and every notable inherited prop is one that no own prop names:
/// the inherited prop of its name, listed as notable by one of the
/// component's HTML element layers.
pub proof fn law_component_keeps_mapping(c: SpecCtx, mapping: SpecComponentMapping, x: SpecParsedProp)
    ensures
        ({
            let e = spec_resolve_component(c, mapping).0;
            &&& e.display_name == mapping.component_name
            &&& e.file_path == mapping.file_path
            &&& e.description == mapping.description
            &&& e.tags == mapping.tags
            &&& e.notable_inherited.contains(x) ==> {
                let chain = spec_props_chain(c, mapping.param_defaults, mapping.props_type_name,
                    mapping.props_type_args, mapping.file_path, Seq::empty(), 0).0;
                notable_from(x, e.inheritance, e.props, chain.inherited_by_name)
            }
        }),
{
    let chain = spec_props_chain(c, mapping.param_defaults, mapping.props_type_name,
        mapping.props_type_args, mapping.file_path, Seq::empty(), 0).0;
    let props = insert_all_keep(Seq::empty(), chain.props);
    lemma_notable_for_layers(chain.inheritance, props, chain.inherited_by_name, x);
}

} // verus!
