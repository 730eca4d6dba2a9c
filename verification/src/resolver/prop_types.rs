//! Resolution of a collected type to a prop type. Nothing is re-parsed:
//! the collected type is already structured. What cannot be resolved
//! statically becomes an opaque or named type with a diagnostic.

use vstd::prelude::*;
use crate::chars::{ends_with, starts_with, trim};
use crate::import_map::assoc_get;
use crate::known::{spec_resolve_known, SpecKnown};
use crate::react_types::spec_is_react_builtin;
use crate::render::{join_strs, render_collected, render_collected_seq, render_prop};
use crate::resolver::context::{depth_measure, max_depth, spec_canonical_key, SpecCtx};
use crate::text::spec_to_lowercase;
use crate::chars::{range_contains, trim_range};
use crate::render::{append_joined_collected, render_template_literal_parts};
use crate::known::{resolve_known, KnownPatternResult};
use crate::react_types::is_react_builtin;
use crate::resolver::context::{canonical_key, file_diag, lookup_alias, lookup_interface, push_diag, ResolutionContext};
use crate::text::{chars_of, seq_starts_with, str_ends_with, str_eq, str_starts_with, string_from_chars, to_lowercase};
use crate::types::{
    clone_strings, collected_fields_view, collected_seq_view, diags_view, lemma_collected_view_children, lemma_prop_type_view_named,
    lemma_prop_type_view_object, lemma_prop_type_view_union, object_fields_view, prop_types_view, strs_view,
    CollectedObjectField, CollectedType, CollectedTypeAlias, Diagnostic, ObjectField, OpaqueReason, PropType,
    spec_file_diag, DiagnosticCode, DiagnosticSeverity, SpecAlias, SpecCollected, SpecCollectedField,
    SpecDiagnostic, SpecObjectField, SpecOpaqueReason, SpecPropType,
};

verus! {

// ─── Specification: helpers ──────────────────────────────────────────────────

/// A diagnostic about `file` with no help text.
pub open spec fn plain_diag(severity: DiagnosticSeverity, code: DiagnosticCode, message: Seq<char>, file: Seq<char>) -> SpecDiagnostic {
    spec_file_diag(severity, code, message, file, None)
}

/// The members that are not `undefined`, in order.
pub open spec fn drop_undefined(s: Seq<SpecCollected>) -> Seq<SpecCollected>
    decreases s.len(),
{
    if s.len() == 0 {
        Seq::empty()
    } else if s.last() is Undefined {
        drop_undefined(s.drop_last())
    } else {
        drop_undefined(s.drop_last()).push(s.last())
    }
}

/// Whether `c` is the empty object type `{}`.
pub open spec fn is_empty_object(c: SpecCollected) -> bool {
    c matches SpecCollected::Object(f) && f.len() == 0
}

/// The members that are not the empty object type, in order.
pub open spec fn drop_empty_objects(s: Seq<SpecCollected>) -> Seq<SpecCollected>
    decreases s.len(),
{
    if s.len() == 0 {
        Seq::empty()
    } else if is_empty_object(s.last()) {
        drop_empty_objects(s.drop_last())
    } else {
        drop_empty_objects(s.drop_last()).push(s.last())
    }
}

/// Nested unions spliced into their parent, in order.
pub open spec fn flatten_unions(s: Seq<SpecPropType>) -> Seq<SpecPropType>
    decreases s.len(),
{
    if s.len() == 0 {
        Seq::empty()
    } else {
        match s.last() {
            SpecPropType::Union(inner) => flatten_unions(s.drop_last()) + inner,
            other => flatten_unions(s.drop_last()).push(other),
        }
    }
}

/// The string of each member, when every member is a string literal type.
pub open spec fn all_string_literals(s: Seq<SpecPropType>) -> Option<Seq<Seq<char>>>
    decreases s.len(),
{
    if s.len() == 0 {
        Some(Seq::empty())
    } else {
        match (all_string_literals(s.drop_last()), s.last()) {
            (Some(v), SpecPropType::StringLiteral(x)) => Some(v.push(x)),
            _ => None,
        }
    }
}

/// The string of each member, when every member is a collected string literal.
pub open spec fn all_collected_string_literals(s: Seq<SpecCollected>) -> Option<Seq<Seq<char>>>
    decreases s.len(),
{
    if s.len() == 0 {
        Some(Seq::empty())
    } else {
        match (all_collected_string_literals(s.drop_last()), s.last()) {
            (Some(v), SpecCollected::StringLiteral(x)) => Some(v.push(x)),
            _ => None,
        }
    }
}

/// The strings a resolved type stands for, when it is made of string literals.
pub open spec fn string_literals_of(p: SpecPropType) -> Option<Seq<Seq<char>>> {
    match p {
        SpecPropType::StringLiteral(s) => Some(seq![s]),
        SpecPropType::LiteralUnion { members, .. } => Some(members),
        SpecPropType::Union(ms) => all_string_literals(ms),
        _ => None,
    }
}

/// Every `prefix + alt` for a prefix of `prefixes` and an alternative of
/// `alts`, prefixes outermost.
pub open spec fn product_step(prefixes: Seq<Seq<char>>, alts: Seq<Seq<char>>) -> Seq<Seq<char>>
    decreases prefixes.len(),
{
    if prefixes.len() == 0 {
        Seq::empty()
    } else {
        let p = prefixes.last();
        product_step(prefixes.drop_last(), alts) + alts.map_values(|a: Seq<char>| p + a)
    }
}

/// Every concatenation of one alternative per part, earlier parts outermost.
pub open spec fn cartesian(parts: Seq<Seq<Seq<char>>>) -> Seq<Seq<char>>
    decreases parts.len(),
{
    if parts.len() == 0 {
        seq![Seq::empty()]
    } else {
        product_step(cartesian(parts.drop_last()), parts.last())
    }
}

/// `CSSProperties` keys whose values are numbers.
pub open spec fn is_numeric_css_key(k: Seq<char>) -> bool {
    k == "zIndex"@ || k == "opacity"@ || k == "order"@ || k == "flexGrow"@ || k == "flexShrink"@
        || k == "flexBasis"@ || k == "lineHeight"@ || k == "fontWeight"@ || k == "columnCount"@
        || k == "tabSize"@ || k == "animationIterationCount"@
}

pub open spec fn is_css_properties_name(n: Seq<char>) -> bool {
    n == "CSSProperties"@ || n == "React.CSSProperties"@
}

pub open spec fn is_html_attributes_name(n: Seq<char>) -> bool {
    n == "HTMLAttributes"@ || n == "React.HTMLAttributes"@
}

/// The statically known types of `obj[key]` for a few React types.
pub open spec fn indexed_access_known(obj: Seq<char>, key: Seq<char>) -> Option<SpecPropType> {
    if is_css_properties_name(obj) && is_numeric_css_key(key) {
        Some(SpecPropType::Number)
    } else if is_css_properties_name(obj) && key.len() > 0 {
        Some(SpecPropType::String)
    } else if (is_html_attributes_name(obj) || obj == "DOMAttributes"@ || obj == "React.DOMAttributes"@)
        && (key == "className"@ || key == "id"@ || key == "slot"@ || key == "title"@ || key == "lang"@ || key == "dir"@) {
        Some(SpecPropType::String)
    } else if is_html_attributes_name(obj) && key == "tabIndex"@ {
        Some(SpecPropType::Number)
    } else if is_html_attributes_name(obj) && key == "style"@ {
        Some(SpecPropType::CssProperties)
    } else {
        None
    }
}

/// The first field named `name`.
pub open spec fn find_field(fields: Seq<SpecObjectField>, name: Seq<char>) -> Option<SpecObjectField>
    decreases fields.len(),
{
    if fields.len() == 0 {
        None
    } else if fields[0].name == name {
        Some(fields[0])
    } else {
        find_field(fields.drop_first(), name)
    }
}

pub open spec fn is_react_node_name(n: Seq<char>) -> bool {
    n == "ReactNode"@ || n == "ReactElement"@ || n == "JSX.Element"@ || n == "ReactPortal"@
        || n == "ReactFragment"@ || n == "ReactChild"@
}

pub open spec fn is_event_name(n: Seq<char>) -> bool {
    n == "SyntheticEvent"@ || n == "MouseEvent"@ || n == "KeyboardEvent"@ || n == "ChangeEvent"@
        || n == "FocusEvent"@ || n == "FormEvent"@ || n == "DragEvent"@ || n == "TouchEvent"@
        || n == "WheelEvent"@ || n == "AnimationEvent"@ || n == "TransitionEvent"@
        || n == "ClipboardEvent"@ || n == "CompositionEvent"@ || n == "PointerEvent"@
}

pub open spec fn is_ref_name(n: Seq<char>) -> bool {
    n == "Ref"@ || n == "RefObject"@ || n == "ForwardedRef"@ || n == "MutableRefObject"@
        || n == "RefCallback"@ || n == "LegacyRef"@
}

pub open spec fn is_component_props_name(n: Seq<char>) -> bool {
    n == "ComponentPropsWithoutRef"@ || n == "ComponentProps"@ || n == "ComponentPropsWithRef"@
}

/// A React name without its `React.` namespace.
pub open spec fn strip_react_prefix(n: Seq<char>) -> Seq<char> {
    if starts_with(n, "React."@) { n.skip(6) } else { n }
}

/// `name` followed by its arguments in angle brackets, when it has any.
pub open spec fn with_type_args(name: Seq<char>, args: Seq<SpecCollected>) -> Seq<char> {
    if args.len() == 0 {
        name
    } else {
        name + "<"@ + join_strs(render_collected_seq(args), ", "@) + ">"@
    }
}

/// Whether a raw type text can stand as a bare type name.
pub open spec fn is_simple_name(t: Seq<char>) -> bool {
    t.len() > 0 && !t.contains(' ') && !t.contains('|') && !t.contains('&') && !t.contains('<')
}

/// Whether any `enums` key names `name` (`"{file}:{name}"` or `name` itself).
pub open spec fn names_enum(enums: Seq<(Seq<char>, Seq<crate::types::SpecEnumEntry>)>, name: Seq<char>) -> bool {
    exists|i: int| 0 <= i < enums.len() && (ends_with(#[trigger] enums[i].0, ":"@ + name) || enums[i].0 == name)
}

// ─── Specification: resolution ───────────────────────────────────────────────

/// The prop type of `ct`, used in `file`, at nesting `depth`, and the
/// diagnostics that resolving it reports, in order.
pub open spec fn spec_resolve_type(c: SpecCtx, ct: SpecCollected, file: Seq<char>, depth: int) -> (SpecPropType, Seq<SpecDiagnostic>)
    decreases depth_measure(depth), 6int, 0int,
{
    if depth > max_depth() {
        let raw = render_collected(ct);
        (
            SpecPropType::Opaque { raw, reason: SpecOpaqueReason::DepthExceeded },
            seq![plain_diag(
                DiagnosticSeverity::Warning,
                DiagnosticCode::MaxDepthExceeded,
                "Max resolution depth exceeded resolving type: "@ + raw,
                file,
            )],
        )
    } else {
        match ct {
            SpecCollected::String => (SpecPropType::String, Seq::empty()),
            SpecCollected::Number => (SpecPropType::Number, Seq::empty()),
            SpecCollected::Boolean => (SpecPropType::Boolean, Seq::empty()),
            SpecCollected::Null => (SpecPropType::Null, Seq::empty()),
            SpecCollected::Undefined => (SpecPropType::Undefined, Seq::empty()),
            SpecCollected::Any => (SpecPropType::Any, Seq::empty()),
            SpecCollected::Never => (SpecPropType::Never, Seq::empty()),
            SpecCollected::Unknown => (SpecPropType::Unknown, Seq::empty()),
            SpecCollected::Void => (SpecPropType::Void, Seq::empty()),
            SpecCollected::BigInt => (SpecPropType::Named { name: "bigint"@, args: Seq::empty() }, Seq::empty()),
            SpecCollected::Symbol => (SpecPropType::Named { name: "symbol"@, args: Seq::empty() }, Seq::empty()),
            SpecCollected::StringLiteral(s) => (SpecPropType::StringLiteral(s), Seq::empty()),
            SpecCollected::NumberLiteral(n) => (SpecPropType::NumberLiteral(n), Seq::empty()),
            SpecCollected::BoolLiteral(b) => (SpecPropType::BoolLiteral(b), Seq::empty()),
            SpecCollected::Union(members) => spec_resolve_union(c, members, file, depth),
            SpecCollected::Intersection(members) => spec_resolve_intersection(c, members, file, depth),
            SpecCollected::Array(inner) => {
                let r = spec_resolve_type(c, *inner, file, depth + 1);
                (SpecPropType::Array(Box::new(r.0)), r.1)
            },
            SpecCollected::Tuple(members) => {
                let r = spec_resolve_list(c, members, file, depth + 1);
                (SpecPropType::Tuple(r.0), r.1)
            },
            SpecCollected::Object(fields) => {
                let r = spec_resolve_fields(c, fields, file, depth + 1);
                (SpecPropType::Object(r.0), r.1)
            },
            SpecCollected::Named { name, args } => spec_resolve_named(c, name, args, file, depth),
            SpecCollected::TypeOf(name) => spec_resolve_typeof(c, name, file),
            SpecCollected::IndexedAccess { obj, key } => spec_resolve_indexed_access(c, *obj, *key, file, depth),
            SpecCollected::TemplateLiteral(parts) => spec_resolve_template_literal(c, parts, file, depth),
            SpecCollected::Function { params, return_type } =>
                spec_resolve_function_type(c, params, *return_type, file, depth),
            SpecCollected::Conditional { .. } => (
                SpecPropType::Opaque { raw: render_collected(ct), reason: SpecOpaqueReason::ConditionalType },
                Seq::empty(),
            ),
            SpecCollected::Mapped { .. } => (
                SpecPropType::Opaque { raw: render_collected(ct), reason: SpecOpaqueReason::MappedType },
                Seq::empty(),
            ),
            SpecCollected::Raw(s) => if is_simple_name(trim(s)) {
                (SpecPropType::Named { name: trim(s), args: Seq::empty() }, Seq::empty())
            } else {
                (SpecPropType::Opaque { raw: s, reason: SpecOpaqueReason::DepthExceeded }, Seq::empty())
            },
        }
    }
}

/// Each of `cts` resolved at `depth`, in order, with their diagnostics.
pub open spec fn spec_resolve_list(c: SpecCtx, cts: Seq<SpecCollected>, file: Seq<char>, depth: int) -> (Seq<SpecPropType>, Seq<SpecDiagnostic>)
    decreases depth_measure(depth), 7int, cts.len(),
{
    if cts.len() == 0 {
        (Seq::empty(), Seq::empty())
    } else {
        let prev = spec_resolve_list(c, cts.drop_last(), file, depth);
        let r = spec_resolve_type(c, cts.last(), file, depth);
        (prev.0.push(r.0), prev.1 + r.1)
    }
}

/// Each object field resolved at `depth`, in order, with their diagnostics.
pub open spec fn spec_resolve_fields(c: SpecCtx, fs: Seq<SpecCollectedField>, file: Seq<char>, depth: int) -> (Seq<SpecObjectField>, Seq<SpecDiagnostic>)
    decreases depth_measure(depth), 7int, fs.len(),
{
    if fs.len() == 0 {
        (Seq::empty(), Seq::empty())
    } else {
        let prev = spec_resolve_fields(c, fs.drop_last(), file, depth);
        let f = fs.last();
        let r = spec_resolve_type(c, f.collected_type, file, depth);
        (
            prev.0.push(SpecObjectField { name: f.name, prop_type: r.0, required: f.required, description: f.description }),
            prev.1 + r.1,
        )
    }
}

/// A named type reference: React builtins, then known patterns, then type
/// aliases and interfaces under the canonical key.
pub open spec fn spec_resolve_named(c: SpecCtx, name: Seq<char>, args: Seq<SpecCollected>, file: Seq<char>, depth: int) -> (SpecPropType, Seq<SpecDiagnostic>)
    decreases depth_measure(depth), 5int, 0int,
{
    if depth > max_depth() {
        (
            SpecPropType::Opaque { raw: name, reason: SpecOpaqueReason::DepthExceeded },
            seq![plain_diag(
                DiagnosticSeverity::Warning,
                DiagnosticCode::MaxDepthExceeded,
                "Max resolution depth exceeded for named type '"@ + name + "'"@,
                file,
            )],
        )
    } else if spec_is_react_builtin(name, c.extra_builtins) {
        spec_react_type(c, name, args, file, depth)
    } else {
        let ra = spec_resolve_list(c, args, file, depth + 1);
        match spec_resolve_known(name, ra.0, c.global.enums) {
            Some(SpecKnown::Type(pt)) => (pt, ra.1),
            Some(SpecKnown::Alias { name: alias_name, .. }) => {
                let r = spec_resolve_type(
                    c,
                    SpecCollected::Named { name: alias_name, args: Seq::empty() },
                    file,
                    depth + 1,
                );
                (r.0, ra.1 + r.1)
            },
            Some(SpecKnown::Props(_)) => (SpecPropType::Named { name, args: ra.0 }, ra.1),
            None => {
                let k = spec_canonical_key(c, name, file);
                match assoc_get(c.global.type_aliases, k.0) {
                    Some(alias) => {
                        let r = spec_resolve_alias_type(c, alias, file, depth);
                        (r.0, ra.1 + k.1 + r.1)
                    },
                    None => if assoc_get(c.global.interfaces, k.0) is Some {
                        (SpecPropType::Named { name, args: ra.0 }, ra.1 + k.1)
                    } else {
                        (
                            SpecPropType::Named { name, args: ra.0 },
                            (ra.1 + k.1).push(spec_file_diag(
                                DiagnosticSeverity::Warning,
                                DiagnosticCode::UnresolvableImport,
                                "Cannot resolve type '"@ + name + "' in '"@ + file + "' \u{2014} it will appear as opaque"@,
                                file,
                                Some("Check that the package is installed and its types are resolvable."@),
                            )),
                        )
                    },
                }
            },
        }
    }
}

/// A type alias used as a type (not as a props provider).
pub open spec fn spec_resolve_alias_type(c: SpecCtx, alias: SpecAlias, file: Seq<char>, depth: int) -> (SpecPropType, Seq<SpecDiagnostic>)
    decreases depth_measure(depth), 4int, 0int,
    when depth <= max_depth()
{
    match alias {
        SpecAlias::LiteralUnion { members, .. } => (SpecPropType::LiteralUnion { members, has_default: false }, Seq::empty()),
        SpecAlias::Passthrough { target, .. } => spec_resolve_type(c, target, file, depth + 1),
        SpecAlias::Union { members, .. } => {
            let r = spec_resolve_list(c, members, file, depth + 1);
            (SpecPropType::Union(r.0), r.1)
        },
        SpecAlias::Intersection { members, .. } => {
            let r = spec_resolve_list(c, members, file, depth + 1);
            (SpecPropType::Intersection(r.0), r.1)
        },
        SpecAlias::Partial { base, .. } => spec_resolve_type(c, base, file, depth + 1),
        SpecAlias::Required { base, .. } => spec_resolve_type(c, base, file, depth + 1),
        SpecAlias::Omit { base, .. } => spec_resolve_type(c, base, file, depth + 1),
        SpecAlias::Pick { base, .. } => spec_resolve_type(c, base, file, depth + 1),
    }
}

/// A union: `undefined` members dropped (unless all are), nested unions
/// flattened, a single member unwrapped.
pub open spec fn spec_resolve_union(c: SpecCtx, members: Seq<SpecCollected>, file: Seq<char>, depth: int) -> (SpecPropType, Seq<SpecDiagnostic>)
    decreases depth_measure(depth), 4int, 0int,
    when depth <= max_depth()
{
    let to_resolve = if drop_undefined(members).len() == 0 { members } else { drop_undefined(members) };
    let r = spec_resolve_list(c, to_resolve, file, depth + 1);
    let flat = flatten_unions(r.0);
    if flat.len() == 1 {
        (flat[0], r.1)
    } else {
        (SpecPropType::Union(flat), r.1)
    }
}

/// An intersection: `string & {}` is `string`; a single member besides
/// empty objects is that member; else every member, resolved.
pub open spec fn spec_resolve_intersection(c: SpecCtx, members: Seq<SpecCollected>, file: Seq<char>, depth: int) -> (SpecPropType, Seq<SpecDiagnostic>)
    decreases depth_measure(depth), 4int, 0int,
    when depth <= max_depth()
{
    let non_empty = drop_empty_objects(members);
    if non_empty.len() == 1 && non_empty[0] is String {
        (SpecPropType::String, Seq::empty())
    } else if non_empty.len() == 1 {
        spec_resolve_type(c, non_empty[0], file, depth + 1)
    } else {
        let r = spec_resolve_list(c, members, file, depth + 1);
        (SpecPropType::Intersection(r.0), r.1)
    }
}

/// `obj[key]`: a table of known React cases, else a field of the resolved
/// object type, else opaque with a diagnostic.
pub open spec fn spec_resolve_indexed_access(c: SpecCtx, obj: SpecCollected, key: SpecCollected, file: Seq<char>, depth: int) -> (SpecPropType, Seq<SpecDiagnostic>)
    decreases depth_measure(depth), 4int, 0int,
    when depth <= max_depth()
{
    let obj_name = match obj { SpecCollected::Named { name, .. } => name, _ => Seq::empty() };
    let key_str = match key { SpecCollected::StringLiteral(s) => s, _ => Seq::empty() };
    match indexed_access_known(obj_name, key_str) {
        Some(pt) => (pt, Seq::empty()),
        None => {
            let r = spec_resolve_type(c, obj, file, depth + 1);
            let found = match r.0 {
                SpecPropType::Object(fields) => find_field(fields, key_str),
                _ => None,
            };
            match found {
                Some(f) => (f.prop_type, r.1),
                None => {
                    let expression = render_collected(obj) + "["@ + render_collected(key) + "]"@;
                    (
                        SpecPropType::Opaque { raw: expression, reason: SpecOpaqueReason::IndexedAccess { expression } },
                        r.1.push(spec_file_diag(
                            DiagnosticSeverity::Info,
                            DiagnosticCode::IndexedAccessOpaque,
                            "Indexed access type '"@ + expression + "' could not be statically resolved"@,
                            file,
                            Some("Enable typescript-go to resolve indexed access types."@),
                        )),
                    )
                },
            }
        },
    }
}

/// A template literal: expanded to its strings when every part is made of
/// string literals, else opaque with a diagnostic.
pub open spec fn spec_resolve_template_literal(c: SpecCtx, parts: Seq<SpecCollected>, file: Seq<char>, depth: int) -> (SpecPropType, Seq<SpecDiagnostic>)
    decreases depth_measure(depth), 4int, 0int,
    when depth <= max_depth()
{
    let e = spec_try_expand(c, parts, file, depth);
    match e.0 {
        Some(values) => if values.len() == 1 {
            (SpecPropType::StringLiteral(values[0]), e.1)
        } else {
            (SpecPropType::LiteralUnion { members: values, has_default: false }, e.1)
        },
        None => {
            let raw = render_collected(SpecCollected::TemplateLiteral(parts));
            (
                SpecPropType::Opaque { raw, reason: SpecOpaqueReason::TemplateLiteral { expression: raw } },
                e.1.push(spec_file_diag(
                    DiagnosticSeverity::Info,
                    DiagnosticCode::TemplateLiteralOpaque,
                    "Template literal type '"@ + raw + "' could not be statically expanded"@,
                    file,
                    Some("Enable typescript-go or add explicit string literal union for template literal types."@),
                )),
            )
        },
    }
}

/// The termination rank of the template-literal steps at `depth`: below
/// that of resolving a type while resolution may still go deeper, above it
/// once the depth is spent (resolving then stops at once).
pub open spec fn template_rank(depth: int, step: int) -> int {
    if depth <= max_depth() { step } else { step + 7 }
}

/// All strings of a template literal, when every part expands.
pub open spec fn spec_try_expand(c: SpecCtx, parts: Seq<SpecCollected>, file: Seq<char>, depth: int) -> (Option<Seq<Seq<char>>>, Seq<SpecDiagnostic>)
    decreases depth_measure(depth), template_rank(depth, 3), 0int,
{
    let e = spec_expand_parts(c, parts, file, depth);
    match e.0 {
        Some(per_part) => (Some(cartesian(per_part)), e.1),
        None => (None, e.1),
    }
}

/// The alternatives of each part, in order, up to the first part that does
/// not expand (after which nothing more is resolved).
pub open spec fn spec_expand_parts(c: SpecCtx, parts: Seq<SpecCollected>, file: Seq<char>, depth: int) -> (Option<Seq<Seq<Seq<char>>>>, Seq<SpecDiagnostic>)
    decreases depth_measure(depth), template_rank(depth, 2), parts.len(),
{
    if parts.len() == 0 {
        (Some(Seq::empty()), Seq::empty())
    } else {
        let prev = spec_expand_parts(c, parts.drop_last(), file, depth);
        match prev.0 {
            None => prev,
            Some(pp) => {
                let a = spec_part_alternatives(c, parts.last(), file, depth);
                match a.0 {
                    Some(alts) => (Some(pp.push(alts)), prev.1 + a.1),
                    None => (None, prev.1 + a.1),
                }
            },
        }
    }
}

/// The strings one template part can stand for.
pub open spec fn spec_part_alternatives(c: SpecCtx, part: SpecCollected, file: Seq<char>, depth: int) -> (Option<Seq<Seq<char>>>, Seq<SpecDiagnostic>)
    decreases depth_measure(depth), template_rank(depth, 1), 0int,
{
    match part {
        SpecCollected::StringLiteral(s) => (Some(seq![s]), Seq::empty()),
        SpecCollected::Named { name, .. } => spec_named_string_literals(c, name, file, depth + 1),
        _ => {
            let r = spec_resolve_type(c, part, file, depth + 1);
            (string_literals_of(r.0), r.1)
        },
    }
}

/// The strings a named type stands for: a literal-union alias, a union
/// alias of string literals, or whatever resolving the name gives.
pub open spec fn spec_named_string_literals(c: SpecCtx, name: Seq<char>, file: Seq<char>, depth: int) -> (Option<Seq<Seq<char>>>, Seq<SpecDiagnostic>)
    decreases depth_measure(depth), 7int, 0int,
{
    let k = spec_canonical_key(c, name, file);
    match assoc_get(c.global.type_aliases, k.0) {
        Some(SpecAlias::LiteralUnion { members, .. }) => (Some(members), k.1),
        Some(SpecAlias::Union { members, .. }) => (all_collected_string_literals(members), k.1),
        _ => {
            let r = spec_resolve_type(c, SpecCollected::Named { name, args: Seq::empty() }, file, depth);
            (string_literals_of(r.0), k.1 + r.1)
        },
    }
}

/// A function type: with one parameter an event handler of that
/// parameter's type, with none a `void` handler, else opaque (its return
/// type is still resolved, for the diagnostics).
pub open spec fn spec_resolve_function_type(c: SpecCtx, params: Seq<SpecCollected>, ret: SpecCollected, file: Seq<char>, depth: int) -> (SpecPropType, Seq<SpecDiagnostic>)
    decreases depth_measure(depth), 4int, 0int,
    when depth <= max_depth()
{
    if params.len() == 1 {
        (SpecPropType::EventHandler { event_type: render_collected(params[0]) }, Seq::empty())
    } else if params.len() == 0 {
        (SpecPropType::EventHandler { event_type: "void"@ }, Seq::empty())
    } else {
        let raw = "("@ + join_strs(render_collected_seq(params), ", "@) + ") => "@ + render_collected(ret);
        let r = spec_resolve_type(c, ret, file, depth + 1);
        (SpecPropType::Opaque { raw, reason: SpecOpaqueReason::ConditionalType }, r.1)
    }
}

/// `typeof name`: a named type, with a diagnostic unless `name` is a
/// collected enum.
pub open spec fn spec_resolve_typeof(c: SpecCtx, name: Seq<char>, file: Seq<char>) -> (SpecPropType, Seq<SpecDiagnostic>) {
    (
        SpecPropType::Named { name, args: Seq::empty() },
        if names_enum(c.global.enums, name) {
            Seq::empty()
        } else {
            seq![plain_diag(
                DiagnosticSeverity::Info,
                DiagnosticCode::OpaqueType,
                "typeof '"@ + name + "' in '"@ + file + "' \u{2014} could not statically evaluate"@,
                file,
            )]
        },
    )
}

/// A React builtin type name.
pub open spec fn spec_react_type(c: SpecCtx, name: Seq<char>, args: Seq<SpecCollected>, file: Seq<char>, depth: int) -> (SpecPropType, Seq<SpecDiagnostic>)
    decreases depth_measure(depth), 4int, 0int,
    when depth <= max_depth()
{
    let strip = strip_react_prefix(name);
    if is_react_node_name(strip) {
        (SpecPropType::ReactNode, Seq::empty())
    } else if strip == "CSSProperties"@ || strip == "CSSObject"@ {
        (SpecPropType::CssProperties, Seq::empty())
    } else if ends_with(strip, "Handler"@) {
        (SpecPropType::EventHandler { event_type: name }, Seq::empty())
    } else if is_event_name(strip) {
        (SpecPropType::EventHandler { event_type: with_type_args(name, args) }, Seq::empty())
    } else if is_ref_name(strip) {
        (
            SpecPropType::Ref { element: if args.len() > 0 { Some(render_collected(args[0])) } else { None } },
            Seq::empty(),
        )
    } else if strip == "ElementType"@ {
        (SpecPropType::ElementType, Seq::empty())
    } else if is_component_props_name(strip) {
        if args.len() == 0 {
            (SpecPropType::Any, Seq::empty())
        } else {
            match args[0] {
                SpecCollected::StringLiteral(el) => (
                    SpecPropType::HtmlAttributes { element: spec_to_lowercase(el), omitted: Seq::empty() },
                    Seq::empty(),
                ),
                other => {
                    let r = spec_resolve_type(c, other, file, depth + 1);
                    (SpecPropType::Named { name, args: seq![r.0] }, r.1)
                },
            }
        }
    } else if strip == "PropsWithChildren"@ || strip == "PropsWithRef"@ {
        if args.len() == 0 {
            (SpecPropType::Any, Seq::empty())
        } else {
            spec_resolve_type(c, args[0], file, depth + 1)
        }
    } else if strip == "ElementRef"@ {
        (SpecPropType::Ref { element: None }, Seq::empty())
    } else {
        let r = spec_resolve_list(c, args, file, depth + 1);
        (SpecPropType::Named { name, args: r.0 }, r.1)
    }
}

// ─── Implementation ──────────────────────────────────────────────────────────

/// The view of a vector of strings, when present.
pub open spec fn opt_strs_view(o: Option<Vec<String>>) -> Option<Seq<Seq<char>>> {
    match o {
        Some(v) => Some(strs_view(v@)),
        None => None,
    }
}

/// Resolves a collected type to a prop type. `visited` is the cycle guard
/// of props-chain resolution; type-level resolution leaves it unchanged.
pub fn resolve_collected_type(
    ct: &CollectedType,
    consuming_file: &str,
    ctx: &ResolutionContext,
    visited: &mut Vec<String>,
    depth: u8,
    diagnostics: &mut Vec<Diagnostic>,
) -> (res: PropType)
    ensures
        res@ == spec_resolve_type(ctx@, ct@, consuming_file@, depth as int).0,
        diags_view(final(diagnostics)@)
            == diags_view(old(diagnostics)@) + spec_resolve_type(ctx@, ct@, consuming_file@, depth as int).1,
        final(visited)@ == old(visited)@,
{
    resolve_type(ct, consuming_file, ctx, depth, diagnostics)
}

/// Resolves a collected type to a prop type, appending the diagnostics.
pub fn resolve_type(
    ct: &CollectedType,
    file: &str,
    ctx: &ResolutionContext,
    depth: u8,
    diagnostics: &mut Vec<Diagnostic>,
) -> (res: PropType)
    ensures
        res@ == spec_resolve_type(ctx@, ct@, file@, depth as int).0,
        diags_view(final(diagnostics)@)
            == diags_view(old(diagnostics)@) + spec_resolve_type(ctx@, ct@, file@, depth as int).1,
    decreases depth_measure(depth as int), 6int, 0int,
{
    proof { lemma_collected_view_children(*ct); }
    let ghost before = diags_view(diagnostics@);
    if depth > 20 {
        let raw = ct.to_raw_string();
        let mut m = "Max resolution depth exceeded resolving type: ".to_owned();
        m.append(raw.as_str());
        let d = file_diag(DiagnosticSeverity::Warning, DiagnosticCode::MaxDepthExceeded, m, file, None);
        push_diag(diagnostics, d);
        proof { assert(before.push(d@) =~= before + seq![d@]); }
        return PropType::Opaque { raw, reason: OpaqueReason::DepthExceeded };
    }
    proof { assert(before + Seq::<SpecDiagnostic>::empty() =~= before); }
    match ct {
        CollectedType::String => PropType::String,
        CollectedType::Number => PropType::Number,
        CollectedType::Boolean => PropType::Boolean,
        CollectedType::Null => PropType::Null,
        CollectedType::Undefined => PropType::Undefined,
        CollectedType::Any => PropType::Any,
        CollectedType::Never => PropType::Never,
        CollectedType::Unknown => PropType::Unknown,
        CollectedType::Void => PropType::Void,
        CollectedType::BigInt => {
            let t = PropType::Named { name: "bigint".to_owned(), args: Vec::new() };
            proof { assert(t@->Named_args =~= Seq::<SpecPropType>::empty()); }
            t
        },
        CollectedType::Symbol => {
            let t = PropType::Named { name: "symbol".to_owned(), args: Vec::new() };
            proof { assert(t@->Named_args =~= Seq::<SpecPropType>::empty()); }
            t
        },
        CollectedType::StringLiteral(s) => PropType::StringLiteral(s.clone()),
        CollectedType::NumberLiteral(n) => PropType::NumberLiteral(n.clone()),
        CollectedType::BoolLiteral(b) => PropType::BoolLiteral(*b),
        CollectedType::Union(members) => resolve_union(members, file, ctx, depth, diagnostics),
        CollectedType::Intersection(members) => resolve_intersection(members, file, ctx, depth, diagnostics),
        CollectedType::Array(inner) => {
            let r = resolve_type(inner, file, ctx, depth + 1, diagnostics);
            PropType::Array(Box::new(r))
        },
        CollectedType::Tuple(members) => {
            let r = resolve_list(members, file, ctx, depth + 1, diagnostics);
            proof { lemma_prop_type_view_union(r); }
            PropType::Tuple(r)
        },
        CollectedType::Object(fields) => {
            let r = resolve_fields(fields, file, ctx, depth + 1, diagnostics);
            proof { lemma_prop_type_view_object(r); }
            PropType::Object(r)
        },
        CollectedType::Named { name, args } => resolve_named(name.as_str(), args, file, ctx, depth, diagnostics),
        CollectedType::TypeOf(name) => resolve_typeof(name.as_str(), file, ctx, diagnostics),
        CollectedType::IndexedAccess { obj, key } => resolve_indexed_access(obj, key, file, ctx, depth, diagnostics),
        CollectedType::TemplateLiteral(parts) => resolve_template_literal(parts, file, ctx, depth, diagnostics),
        CollectedType::Function { params, return_type } =>
            resolve_function_type(params, return_type, file, ctx, depth, diagnostics),
        CollectedType::Conditional { .. } => PropType::Opaque {
            raw: ct.to_raw_string(),
            reason: OpaqueReason::ConditionalType,
        },
        CollectedType::Mapped { .. } => PropType::Opaque { raw: ct.to_raw_string(), reason: OpaqueReason::MappedType },
        CollectedType::Raw(s) => {
            let chars = chars_of(s.as_str());
            let (lo, hi) = trim_range(&chars, 0, chars.len());
            proof { assert(chars@.subrange(0, chars@.len() as int) =~= s@); }
            let simple = lo < hi && !range_contains(&chars, lo, hi, ' ') && !range_contains(&chars, lo, hi, '|')
                && !range_contains(&chars, lo, hi, '&') && !range_contains(&chars, lo, hi, '<');
            if simple {
                let t = PropType::Named { name: string_from_chars(&chars, lo, hi), args: Vec::new() };
                proof { assert(t@->Named_args =~= Seq::<SpecPropType>::empty()); }
                t
            } else {
                PropType::Opaque { raw: s.clone(), reason: OpaqueReason::DepthExceeded }
            }
        },
    }
}

/// Resolves each collected type at `depth`, in order.
pub fn resolve_list(
    cts: &Vec<CollectedType>,
    file: &str,
    ctx: &ResolutionContext,
    depth: u8,
    diagnostics: &mut Vec<Diagnostic>,
) -> (res: Vec<PropType>)
    ensures
        prop_types_view(res@) == spec_resolve_list(ctx@, collected_seq_view(cts@), file@, depth as int).0,
        diags_view(final(diagnostics)@)
            == diags_view(old(diagnostics)@) + spec_resolve_list(ctx@, collected_seq_view(cts@), file@, depth as int).1,
    decreases depth_measure(depth as int), 7int, cts@.len(),
{
    let ghost cv = collected_seq_view(cts@);
    let ghost before = diags_view(diagnostics@);
    let mut out: Vec<PropType> = Vec::new();
    let mut i: usize = 0;
    proof {
        assert(cv.take(0) =~= Seq::<SpecCollected>::empty());
        assert(before + Seq::<SpecDiagnostic>::empty() =~= before);
        assert(prop_types_view(out@) =~= Seq::<SpecPropType>::empty());
    }
    while i < cts.len()
        invariant
            i <= cts.len(),
            cv == collected_seq_view(cts@),
            prop_types_view(out@) == spec_resolve_list(ctx@, cv.take(i as int), file@, depth as int).0,
            diags_view(diagnostics@) == before + spec_resolve_list(ctx@, cv.take(i as int), file@, depth as int).1,
        decreases cts.len() - i,
    {
        proof {
            assert(cv.take(i + 1).drop_last() =~= cv.take(i as int));
            assert(cv.take(i + 1).last() == cts@[i as int]@);
        }
        let ghost mid = diags_view(diagnostics@);
        let r = resolve_type(&cts[i], file, ctx, depth, diagnostics);
        let ghost old_out = out@;
        out.push(r);
        proof {
            assert(prop_types_view(out@) =~= prop_types_view(old_out).push(r@));
            let prev = spec_resolve_list(ctx@, cv.take(i as int), file@, depth as int);
            let rr = spec_resolve_type(ctx@, cv[i as int], file@, depth as int);
            assert(before + prev.1 + rr.1 =~= before + (prev.1 + rr.1));
        }
        i = i + 1;
    }
    proof { assert(cv.take(cts.len() as int) =~= cv); }
    out
}

/// Resolves each object field at `depth`, in order.
fn resolve_fields(
    fs: &Vec<CollectedObjectField>,
    file: &str,
    ctx: &ResolutionContext,
    depth: u8,
    diagnostics: &mut Vec<Diagnostic>,
) -> (res: Vec<ObjectField>)
    ensures
        object_fields_view(res@) == spec_resolve_fields(ctx@, collected_fields_view(fs@), file@, depth as int).0,
        diags_view(final(diagnostics)@)
            == diags_view(old(diagnostics)@) + spec_resolve_fields(ctx@, collected_fields_view(fs@), file@, depth as int).1,
    decreases depth_measure(depth as int), 7int, fs@.len(),
{
    let ghost fv = collected_fields_view(fs@);
    let ghost before = diags_view(diagnostics@);
    let mut out: Vec<ObjectField> = Vec::new();
    let mut i: usize = 0;
    proof {
        assert(fv.take(0) =~= Seq::<SpecCollectedField>::empty());
        assert(before + Seq::<SpecDiagnostic>::empty() =~= before);
        assert(object_fields_view(out@) =~= Seq::<SpecObjectField>::empty());
    }
    while i < fs.len()
        invariant
            i <= fs.len(),
            fv == collected_fields_view(fs@),
            object_fields_view(out@) == spec_resolve_fields(ctx@, fv.take(i as int), file@, depth as int).0,
            diags_view(diagnostics@) == before + spec_resolve_fields(ctx@, fv.take(i as int), file@, depth as int).1,
        decreases fs.len() - i,
    {
        proof {
            assert(fv.take(i + 1).drop_last() =~= fv.take(i as int));
            assert(fv.take(i + 1).last() == fs@[i as int]@);
        }
        let f = &fs[i];
        let r = resolve_type(&f.collected_type, file, ctx, depth, diagnostics);
        let field = ObjectField { name: f.name.clone(), prop_type: r, required: f.required, description: f.description.clone() };
        let ghost old_out = out@;
        out.push(field);
        proof {
            assert(object_fields_view(out@) =~= object_fields_view(old_out).push(field@));
            let prev = spec_resolve_fields(ctx@, fv.take(i as int), file@, depth as int);
            let rr = spec_resolve_type(ctx@, fv[i as int].collected_type, file@, depth as int);
            assert(before + prev.1 + rr.1 =~= before + (prev.1 + rr.1));
        }
        i = i + 1;
    }
    proof { assert(fv.take(fs.len() as int) =~= fv); }
    out
}

/// Resolves a union's members, dropping `undefined` (unless every member
/// is `undefined`), splicing nested unions and unwrapping a single member.
fn resolve_union(
    members: &Vec<CollectedType>,
    file: &str,
    ctx: &ResolutionContext,
    depth: u8,
    diagnostics: &mut Vec<Diagnostic>,
) -> (res: PropType)
    requires
        depth <= 20,
    ensures
        res@ == spec_resolve_union(ctx@, collected_seq_view(members@), file@, depth as int).0,
        diags_view(final(diagnostics)@)
            == diags_view(old(diagnostics)@) + spec_resolve_union(ctx@, collected_seq_view(members@), file@, depth as int).1,
    decreases depth_measure(depth as int), 4int, 0int,
{
    let ghost mv = collected_seq_view(members@);
    let ghost before = diags_view(diagnostics@);
    let mut has_meaningful = false;
    let mut i: usize = 0;
    proof { assert(mv.take(0) =~= Seq::<SpecCollected>::empty()); }
    while i < members.len()
        invariant
            i <= members.len(),
            mv == collected_seq_view(members@),
            has_meaningful == (drop_undefined(mv.take(i as int)).len() > 0),
        decreases members.len() - i,
    {
        proof {
            assert(mv.take(i + 1).drop_last() =~= mv.take(i as int));
            assert(mv.take(i + 1).last() == members@[i as int]@);
        }
        if !matches!(members[i], CollectedType::Undefined) {
            has_meaningful = true;
        }
        i = i + 1;
    }
    proof { assert(mv.take(members.len() as int) =~= mv); }
    let ghost to_resolve = if has_meaningful { drop_undefined(mv) } else { mv };
    let mut flat: Vec<PropType> = Vec::new();
    let mut j: usize = 0;
    proof {
        assert(before + Seq::<SpecDiagnostic>::empty() =~= before);
        assert(prop_types_view(flat@) =~= Seq::<SpecPropType>::empty());
    }
    while j < members.len()
        invariant
            j <= members.len(),
            depth <= 20,
            mv == collected_seq_view(members@),
            has_meaningful == (drop_undefined(mv).len() > 0),
            prop_types_view(flat@) == flatten_unions(spec_resolve_list(
                ctx@,
                if has_meaningful { drop_undefined(mv.take(j as int)) } else { mv.take(j as int) },
                file@,
                depth + 1,
            ).0),
            diags_view(diagnostics@) == before + spec_resolve_list(
                ctx@,
                if has_meaningful { drop_undefined(mv.take(j as int)) } else { mv.take(j as int) },
                file@,
                depth + 1,
            ).1,
        decreases members.len() - j,
    {
        let ghost sel = if has_meaningful { drop_undefined(mv.take(j as int)) } else { mv.take(j as int) };
        proof {
            assert(mv.take(j + 1).drop_last() =~= mv.take(j as int));
            assert(mv.take(j + 1).last() == members@[j as int]@);
        }
        if has_meaningful && matches!(members[j], CollectedType::Undefined) {
        } else {
            let ghost prev = spec_resolve_list(ctx@, sel, file@, depth + 1);
            let r = resolve_type(&members[j], file, ctx, depth + 1, diagnostics);
            proof {
                assert(sel.push(mv[j as int]).drop_last() =~= sel);
                let rr = spec_resolve_type(ctx@, mv[j as int], file@, depth + 1);
                assert(before + prev.1 + rr.1 =~= before + (prev.1 + rr.1));
                assert(prev.0.push(r@).drop_last() =~= prev.0);
            }
            match r {
                PropType::Union(inner) => {
                    let mut inner = inner;
                    proof { lemma_prop_type_view_union(inner); }
                    let ghost old_flat = flat@;
                    let ghost inner_v = inner@;
                    flat.append(&mut inner);
                    proof {
                        assert(prop_types_view(flat@) =~= prop_types_view(old_flat) + prop_types_view(inner_v));
                    }
                },
                other => {
                    let ghost old_flat = flat@;
                    flat.push(other);
                    proof { assert(prop_types_view(flat@) =~= prop_types_view(old_flat).push(other@)); }
                },
            }
        }
        j = j + 1;
    }
    proof { assert(mv.take(members.len() as int) =~= mv); }
    if flat.len() == 1 {
        let t = flat.pop().unwrap();
        proof { assert(prop_types_view(seq![t]) =~= seq![t@]); }
        t
    } else {
        proof { lemma_prop_type_view_union(flat); }
        PropType::Union(flat)
    }
}

/// Resolves an intersection's members: `string & {}` is `string`, a single
/// member besides empty objects stands alone.
fn resolve_intersection(
    members: &Vec<CollectedType>,
    file: &str,
    ctx: &ResolutionContext,
    depth: u8,
    diagnostics: &mut Vec<Diagnostic>,
) -> (res: PropType)
    requires
        depth <= 20,
    ensures
        res@ == spec_resolve_intersection(ctx@, collected_seq_view(members@), file@, depth as int).0,
        diags_view(final(diagnostics)@)
            == diags_view(old(diagnostics)@) + spec_resolve_intersection(ctx@, collected_seq_view(members@), file@, depth as int).1,
    decreases depth_measure(depth as int), 4int, 0int,
{
    let ghost mv = collected_seq_view(members@);
    let mut count: usize = 0;
    let mut first: usize = 0;
    let mut i: usize = 0;
    proof { assert(mv.take(0) =~= Seq::<SpecCollected>::empty()); }
    while i < members.len()
        invariant
            i <= members.len(),
            mv == collected_seq_view(members@),
            count == drop_empty_objects(mv.take(i as int)).len(),
            count <= i,
            count > 0 ==> first < i && drop_empty_objects(mv.take(i as int))[0] == mv[first as int],
        decreases members.len() - i,
    {
        proof {
            assert(mv.take(i + 1).drop_last() =~= mv.take(i as int));
            assert(mv.take(i + 1).last() == members@[i as int]@);
            lemma_collected_view_children(members@[i as int]);
        }
        let empty_object = match &members[i] {
            CollectedType::Object(f) => f.len() == 0,
            _ => false,
        };
        if !empty_object {
            if count == 0 {
                first = i;
            }
            count = count + 1;
        }
        i = i + 1;
    }
    proof { assert(mv.take(members.len() as int) =~= mv); }
    if count == 1 && matches!(members[first], CollectedType::String) {
        proof { assert(diags_view(diagnostics@) + Seq::<SpecDiagnostic>::empty() =~= diags_view(diagnostics@)); }
        return PropType::String;
    }
    if count == 1 {
        return resolve_type(&members[first], file, ctx, depth + 1, diagnostics);
    }
    let r = resolve_list(members, file, ctx, depth + 1, diagnostics);
    proof { lemma_prop_type_view_union(r); }
    PropType::Intersection(r)
}

/// The statically known types of `obj[key]` for a few React types.
fn indexed_access_known_type(obj: &str, key: &str) -> (res: Option<PropType>)
    ensures
        match res {
            Some(t) => indexed_access_known(obj@, key@) == Some(t@),
            None => indexed_access_known(obj@, key@) is None,
        },
{
    let css = str_eq(obj, "CSSProperties") || str_eq(obj, "React.CSSProperties");
    let html = str_eq(obj, "HTMLAttributes") || str_eq(obj, "React.HTMLAttributes");
    let numeric = str_eq(key, "zIndex") || str_eq(key, "opacity") || str_eq(key, "order") || str_eq(key, "flexGrow")
        || str_eq(key, "flexShrink") || str_eq(key, "flexBasis") || str_eq(key, "lineHeight")
        || str_eq(key, "fontWeight") || str_eq(key, "columnCount") || str_eq(key, "tabSize")
        || str_eq(key, "animationIterationCount");
    proof {
        reveal_strlit("");
        if key@.len() == 0 {
            assert(key@ =~= ""@);
        }
    }
    let key_empty = str_eq(key, "");
    if css && numeric {
        Some(PropType::Number)
    } else if css && !key_empty {
        Some(PropType::String)
    } else if (html || str_eq(obj, "DOMAttributes") || str_eq(obj, "React.DOMAttributes"))
        && (str_eq(key, "className") || str_eq(key, "id") || str_eq(key, "slot") || str_eq(key, "title")
            || str_eq(key, "lang") || str_eq(key, "dir")) {
        Some(PropType::String)
    } else if html && str_eq(key, "tabIndex") {
        Some(PropType::Number)
    } else if html && str_eq(key, "style") {
        Some(PropType::CssProperties)
    } else {
        None
    }
}

/// Position of the first field named `key`, or the length.
fn find_field_pos(fields: &Vec<ObjectField>, key: &str) -> (res: usize)
    ensures
        res <= fields.len(),
        res < fields.len() ==> find_field(object_fields_view(fields@), key@) == Some(fields@[res as int]@),
        res == fields.len() ==> find_field(object_fields_view(fields@), key@) is None,
{
    let ghost fv = object_fields_view(fields@);
    let mut i: usize = 0;
    proof { assert(fv.skip(0) =~= fv); }
    while i < fields.len()
        invariant
            i <= fields.len(),
            fv == object_fields_view(fields@),
            find_field(fv, key@) == find_field(fv.skip(i as int), key@),
        decreases fields.len() - i,
    {
        proof {
            assert(fv.skip(i as int).drop_first() =~= fv.skip(i + 1));
            assert(fv.skip(i as int)[0] == fields@[i as int]@);
        }
        if str_eq(fields[i].name.as_str(), key) {
            return i;
        }
        i = i + 1;
    }
    proof { assert(fv.skip(i as int).len() == 0); }
    i
}

/// Resolves `obj[key]`.
fn resolve_indexed_access(
    obj: &CollectedType,
    key: &CollectedType,
    file: &str,
    ctx: &ResolutionContext,
    depth: u8,
    diagnostics: &mut Vec<Diagnostic>,
) -> (res: PropType)
    requires
        depth <= 20,
    ensures
        res@ == spec_resolve_indexed_access(ctx@, obj@, key@, file@, depth as int).0,
        diags_view(final(diagnostics)@)
            == diags_view(old(diagnostics)@) + spec_resolve_indexed_access(ctx@, obj@, key@, file@, depth as int).1,
    decreases depth_measure(depth as int), 4int, 0int,
{
    proof {
        reveal_strlit("");
        assert(""@ =~= Seq::<char>::empty());
        lemma_collected_view_children(*obj);
    }
    let obj_name: &str = match obj {
        CollectedType::Named { name, .. } => name.as_str(),
        _ => "",
    };
    let key_str: &str = match key {
        CollectedType::StringLiteral(s) => s.as_str(),
        _ => "",
    };
    let ghost before = diags_view(diagnostics@);
    if let Some(t) = indexed_access_known_type(obj_name, key_str) {
        proof { assert(before + Seq::<SpecDiagnostic>::empty() =~= before); }
        return t;
    }
    let resolved = resolve_type(obj, file, ctx, depth + 1, diagnostics);
    if let PropType::Object(fields) = &resolved {
        proof { lemma_prop_type_view_object(*fields); }
        let pos = find_field_pos(fields, key_str);
        if pos < fields.len() {
            return fields[pos].prop_type.clone();
        }
    }
    let mut expression = obj.to_raw_string();
    expression.append("[");
    let key_raw = key.to_raw_string();
    expression.append(key_raw.as_str());
    expression.append("]");
    let mut m = "Indexed access type '".to_owned();
    m.append(expression.as_str());
    m.append("' could not be statically resolved");
    let d = file_diag(
        DiagnosticSeverity::Info,
        DiagnosticCode::IndexedAccessOpaque,
        m,
        file,
        Some("Enable typescript-go to resolve indexed access types.".to_owned()),
    );
    push_diag(diagnostics, d);
    PropType::Opaque { raw: expression.clone(), reason: OpaqueReason::IndexedAccess { expression } }
}

/// The strings a resolved type stands for, when it is made of string literals.
fn string_literals_of_type(p: &PropType) -> (res: Option<Vec<String>>)
    ensures
        opt_strs_view(res) == string_literals_of(p@),
{
    match p {
        PropType::StringLiteral(s) => {
            let v = vec![s.clone()];
            proof { assert(strs_view(v@) =~= seq![s@]); }
            Some(v)
        },
        PropType::LiteralUnion { members, .. } => Some(clone_strings(members)),
        PropType::Union(ms) => {
            proof { lemma_prop_type_view_union(*ms); }
            let ghost mv = prop_types_view(ms@);
            let mut out: Vec<String> = Vec::new();
            let mut i: usize = 0;
            proof {
                assert(mv.take(0) =~= Seq::<SpecPropType>::empty());
                assert(string_literals_of(p@) == all_string_literals(mv));
            }
            while i < ms.len()
                invariant
                    i <= ms.len(),
                    mv == prop_types_view(ms@),
                    string_literals_of(p@) == all_string_literals(mv),
                    all_string_literals(mv.take(i as int)) == Some(strs_view(out@)),
                decreases ms.len() - i,
            {
                proof {
                    assert(mv.take(i + 1).drop_last() =~= mv.take(i as int));
                    assert(mv.take(i + 1).last() == ms@[i as int]@);
                }
                match &ms[i] {
                    PropType::StringLiteral(x) => {
                        let ghost old_out = out@;
                        out.push(x.clone());
                        proof { assert(strs_view(out@) =~= strs_view(old_out).push(x@)); }
                    },
                    _ => {
                        proof {
                            assert(!(mv[i as int] is StringLiteral));
                            assert(all_string_literals(mv.take(i + 1)) is None);
                            lemma_all_string_literals_none(mv, i as int);
                        }
                        return None;
                    },
                }
                i = i + 1;
            }
            proof { assert(mv.take(ms.len() as int) =~= mv); }
            Some(out)
        },
        _ => None,
    }
}

/// Once a prefix is not all string literals, no longer prefix is.
proof fn lemma_all_string_literals_none(s: Seq<SpecPropType>, i: int)
    requires
        0 <= i < s.len(),
        all_string_literals(s.take(i + 1)) is None,
    ensures
        all_string_literals(s) is None,
    decreases s.len() - i,
{
    if i + 1 == s.len() {
        assert(s.take(i + 1) =~= s);
    } else {
        assert(s.take(i + 2).drop_last() =~= s.take(i + 1));
        lemma_all_string_literals_none(s, i + 1);
    }
}

/// Once a prefix is not all string literals, no longer prefix is.
proof fn lemma_all_collected_string_literals_none(s: Seq<SpecCollected>, i: int)
    requires
        0 <= i < s.len(),
        all_collected_string_literals(s.take(i + 1)) is None,
    ensures
        all_collected_string_literals(s) is None,
    decreases s.len() - i,
{
    if i + 1 == s.len() {
        assert(s.take(i + 1) =~= s);
    } else {
        assert(s.take(i + 2).drop_last() =~= s.take(i + 1));
        lemma_all_collected_string_literals_none(s, i + 1);
    }
}

/// The string of each member, when every member is a collected string literal.
fn collected_string_literals(ms: &Vec<CollectedType>) -> (res: Option<Vec<String>>)
    ensures
        opt_strs_view(res) == all_collected_string_literals(collected_seq_view(ms@)),
{
    let ghost mv = collected_seq_view(ms@);
    let mut out: Vec<String> = Vec::new();
    let mut i: usize = 0;
    proof { assert(mv.take(0) =~= Seq::<SpecCollected>::empty()); }
    while i < ms.len()
        invariant
            i <= ms.len(),
            mv == collected_seq_view(ms@),
            all_collected_string_literals(mv.take(i as int)) == Some(strs_view(out@)),
        decreases ms.len() - i,
    {
        proof {
            assert(mv.take(i + 1).drop_last() =~= mv.take(i as int));
            assert(mv.take(i + 1).last() == ms@[i as int]@);
        }
        match &ms[i] {
            CollectedType::StringLiteral(x) => {
                let ghost old_out = out@;
                out.push(x.clone());
                proof { assert(strs_view(out@) =~= strs_view(old_out).push(x@)); }
            },
            _ => {
                proof { lemma_all_collected_string_literals_none(mv, i as int); }
                return None;
            },
        }
        i = i + 1;
    }
    proof { assert(mv.take(ms.len() as int) =~= mv); }
    Some(out)
}

/// Resolves a template literal: its strings when it expands, else opaque.
fn resolve_template_literal(
    parts: &Vec<CollectedType>,
    file: &str,
    ctx: &ResolutionContext,
    depth: u8,
    diagnostics: &mut Vec<Diagnostic>,
) -> (res: PropType)
    requires
        depth <= 20,
    ensures
        res@ == spec_resolve_template_literal(ctx@, collected_seq_view(parts@), file@, depth as int).0,
        diags_view(final(diagnostics)@)
            == diags_view(old(diagnostics)@) + spec_resolve_template_literal(ctx@, collected_seq_view(parts@), file@, depth as int).1,
    decreases depth_measure(depth as int), 4int, 0int,
{
    match try_expand_template_literal(parts, file, ctx, depth, diagnostics) {
        Some(values) => {
            let mut values = values;
            if values.len() == 1 {
                let v = values.pop().unwrap();
                PropType::StringLiteral(v)
            } else {
                PropType::LiteralUnion { members: values, has_default: false }
            }
        },
        None => {
            let mut raw = "`".to_owned();
            let inner = render_template_literal_parts(parts);
            raw.append(inner.as_str());
            raw.append("`");
            let mut m = "Template literal type '".to_owned();
            m.append(raw.as_str());
            m.append("' could not be statically expanded");
            let d = file_diag(
                DiagnosticSeverity::Info,
                DiagnosticCode::TemplateLiteralOpaque,
                m,
                file,
                Some("Enable typescript-go or add explicit string literal union for template literal types.".to_owned()),
            );
            push_diag(diagnostics, d);
            PropType::Opaque { raw: raw.clone(), reason: OpaqueReason::TemplateLiteral { expression: raw } }
        },
    }
}

/// Once the expansion of a prefix of the parts fails, nothing after it is
/// resolved: the expansion of all parts is that of the prefix.
/// Once the depth is spent, resolving no longer depends on how far past it
/// the depth is.
proof fn lemma_spent_depths_agree(c: SpecCtx, part: SpecCollected, file: Seq<char>, d1: int, d2: int)
    requires
        d1 > max_depth(),
        d2 > max_depth(),
    ensures
        spec_resolve_type(c, part, file, d1) == spec_resolve_type(c, part, file, d2),
        part is Named ==> spec_named_string_literals(c, part->Named_name, file, d1)
            == spec_named_string_literals(c, part->Named_name, file, d2),
{
    if part is Named {
        let n = SpecCollected::Named { name: part->Named_name, args: Seq::empty() };
        assert(spec_resolve_type(c, n, file, d1) == spec_resolve_type(c, n, file, d2));
    }
}

proof fn lemma_expand_parts_stops(c: SpecCtx, parts: Seq<SpecCollected>, file: Seq<char>, depth: int, i: int)
    requires
        0 <= i <= parts.len(),
        spec_expand_parts(c, parts.take(i), file, depth).0 is None,
    ensures
        spec_expand_parts(c, parts, file, depth) == spec_expand_parts(c, parts.take(i), file, depth),
    decreases parts.len(),
{
    if i == parts.len() {
        assert(parts.take(i) =~= parts);
    } else {
        assert(parts.drop_last().take(i) =~= parts.take(i));
        lemma_expand_parts_stops(c, parts.drop_last(), file, depth, i);
    }
}

/// Every `prefix + alt`, prefixes outermost.
fn product_of(prefixes: &Vec<String>, alts: &Vec<String>) -> (res: Vec<String>)
    ensures
        strs_view(res@) == product_step(strs_view(prefixes@), strs_view(alts@)),
{
    let ghost pv = strs_view(prefixes@);
    let ghost av = strs_view(alts@);
    let mut next: Vec<String> = Vec::new();
    let mut p: usize = 0;
    proof { assert(strs_view(next@) =~= product_step(pv.take(0), av)); }
    while p < prefixes.len()
        invariant
            p <= prefixes.len(),
            pv == strs_view(prefixes@),
            av == strs_view(alts@),
            strs_view(next@) == product_step(pv.take(p as int), av),
        decreases prefixes.len() - p,
    {
        let ghost base = strs_view(next@);
        let ghost pre = pv[p as int];
        proof {
            assert(pv.take(p + 1).drop_last() =~= pv.take(p as int));
            assert(pv.take(p + 1).last() == pre);
        }
        let mut q: usize = 0;
        proof { assert(base + av.take(0).map_values(|a: Seq<char>| pre + a) =~= base); }
        while q < alts.len()
            invariant
                q <= alts.len(),
                p < prefixes.len(),
                pv == strs_view(prefixes@),
                av == strs_view(alts@),
                pre == pv[p as int],
                strs_view(next@) == base + av.take(q as int).map_values(|a: Seq<char>| pre + a),
            decreases alts.len() - q,
        {
            let mut s = prefixes[p].clone();
            s.append(alts[q].as_str());
            let ghost old_next = strs_view(next@);
            next.push(s);
            proof {
                assert(strs_view(next@) =~= old_next.push(s@));
                assert(av.take(q + 1).map_values(|a: Seq<char>| pre + a)
                    =~= av.take(q as int).map_values(|a: Seq<char>| pre + a).push(pre + av[q as int]));
            }
            q = q + 1;
        }
        proof { assert(av.take(alts.len() as int) =~= av); }
        p = p + 1;
    }
    proof { assert(pv.take(prefixes.len() as int) =~= pv); }
    next
}

/// All strings of a template literal, when every part expands.
pub fn try_expand_template_literal(
    parts: &Vec<CollectedType>,
    file: &str,
    ctx: &ResolutionContext,
    depth: u8,
    diagnostics: &mut Vec<Diagnostic>,
) -> (res: Option<Vec<String>>)
    ensures
        opt_strs_view(res) == spec_try_expand(ctx@, collected_seq_view(parts@), file@, depth as int).0,
        diags_view(final(diagnostics)@)
            == diags_view(old(diagnostics)@) + spec_try_expand(ctx@, collected_seq_view(parts@), file@, depth as int).1,
    decreases depth_measure(depth as int), template_rank(depth as int, 3), 0int,
{
    let ghost pv = collected_seq_view(parts@);
    let ghost before = diags_view(diagnostics@);
    let mut per_part: Vec<Vec<String>> = Vec::new();
    let mut i: usize = 0;
    proof {
        assert(pv.take(0) =~= Seq::<SpecCollected>::empty());
        assert(before + Seq::<SpecDiagnostic>::empty() =~= before);
        assert(per_part@.map_values(|v: Vec<String>| strs_view(v@)) =~= Seq::<Seq<Seq<char>>>::empty());
    }
    while i < parts.len()
        invariant
            i <= parts.len(),
            pv == collected_seq_view(parts@),
            before == diags_view(old(diagnostics)@),
            spec_expand_parts(ctx@, pv.take(i as int), file@, depth as int).0
                == Some(per_part@.map_values(|v: Vec<String>| strs_view(v@))),
            diags_view(diagnostics@) == before + spec_expand_parts(ctx@, pv.take(i as int), file@, depth as int).1,
        decreases parts.len() - i,
    {
        proof {
            assert(pv.take(i + 1).drop_last() =~= pv.take(i as int));
            assert(pv.take(i + 1).last() == parts@[i as int]@);
        }
        let ghost prev = spec_expand_parts(ctx@, pv.take(i as int), file@, depth as int);
        let a = part_alternatives(&parts[i], file, ctx, depth, diagnostics);
        proof {
            let aa = spec_part_alternatives(ctx@, pv[i as int], file@, depth as int);
            assert(before + prev.1 + aa.1 =~= before + (prev.1 + aa.1));
        }
        match a {
            Some(alts) => {
                let ghost old_pp = per_part@.map_values(|v: Vec<String>| strs_view(v@));
                per_part.push(alts);
                proof { assert(per_part@.map_values(|v: Vec<String>| strs_view(v@)) =~= old_pp.push(strs_view(alts@))); }
            },
            None => {
                proof {
                    let aa = spec_part_alternatives(ctx@, pv[i as int], file@, depth as int);
                    assert(spec_expand_parts(ctx@, pv.take(i + 1), file@, depth as int) == (
                        None::<Seq<Seq<Seq<char>>>>,
                        prev.1 + aa.1,
                    ));
                    lemma_expand_parts_stops(ctx@, pv, file@, depth as int, i + 1);
                }
                return None;
            },
        }
        i = i + 1;
    }
    proof { assert(pv.take(parts.len() as int) =~= pv); }
    let ghost ppv = per_part@.map_values(|v: Vec<String>| strs_view(v@));
    let mut result: Vec<String> = vec![String::new()];
    let mut k: usize = 0;
    proof { assert(strs_view(result@) =~= cartesian(ppv.take(0))); }
    while k < per_part.len()
        invariant
            k <= per_part.len(),
            ppv == per_part@.map_values(|v: Vec<String>| strs_view(v@)),
            strs_view(result@) == cartesian(ppv.take(k as int)),
        decreases per_part.len() - k,
    {
        proof {
            assert(ppv.take(k + 1).drop_last() =~= ppv.take(k as int));
            assert(ppv.take(k + 1).last() == strs_view(per_part@[k as int]@));
        }
        result = product_of(&result, &per_part[k]);
        k = k + 1;
    }
    proof { assert(ppv.take(per_part.len() as int) =~= ppv); }
    Some(result)
}

/// The strings one template part can stand for.
fn part_alternatives(
    part: &CollectedType,
    file: &str,
    ctx: &ResolutionContext,
    depth: u8,
    diagnostics: &mut Vec<Diagnostic>,
) -> (res: Option<Vec<String>>)
    ensures
        opt_strs_view(res) == spec_part_alternatives(ctx@, part@, file@, depth as int).0,
        diags_view(final(diagnostics)@)
            == diags_view(old(diagnostics)@) + spec_part_alternatives(ctx@, part@, file@, depth as int).1,
    decreases depth_measure(depth as int), template_rank(depth as int, 1), 0int,
{
    proof { lemma_collected_view_children(*part); }
    match part {
        CollectedType::StringLiteral(s) => {
            proof { assert(diags_view(diagnostics@) + Seq::<SpecDiagnostic>::empty() =~= diags_view(diagnostics@)); }
            let v = vec![s.clone()];
            proof { assert(strs_view(v@) =~= seq![s@]); }
            Some(v)
        },
        CollectedType::Named { name, .. } => {
            if depth < 255 {
                resolve_named_to_string_literals(name.as_str(), file, ctx, depth + 1, diagnostics)
            } else {
                proof { lemma_spent_depths_agree(ctx@, part@, file@, depth as int, depth + 1); }
                resolve_named_to_string_literals(name.as_str(), file, ctx, depth, diagnostics)
            }
        },
        _ => {
            if depth < 255 {
                let t = resolve_type(part, file, ctx, depth + 1, diagnostics);
                string_literals_of_type(&t)
            } else {
                proof { lemma_spent_depths_agree(ctx@, part@, file@, depth as int, depth + 1); }
                let t = resolve_type(part, file, ctx, depth, diagnostics);
                string_literals_of_type(&t)
            }
        },
    }
}

/// The strings a named type stands for.
fn resolve_named_to_string_literals(
    name: &str,
    file: &str,
    ctx: &ResolutionContext,
    depth: u8,
    diagnostics: &mut Vec<Diagnostic>,
) -> (res: Option<Vec<String>>)
    ensures
        opt_strs_view(res) == spec_named_string_literals(ctx@, name@, file@, depth as int).0,
        diags_view(final(diagnostics)@)
            == diags_view(old(diagnostics)@) + spec_named_string_literals(ctx@, name@, file@, depth as int).1,
    decreases depth_measure(depth as int), 7int, 0int,
{
    let ghost before = diags_view(diagnostics@);
    let key = canonical_key(name, file, ctx, diagnostics);
    match lookup_alias(ctx, key.as_str()) {
        Some(CollectedTypeAlias::LiteralUnion { members, .. }) => {
            return Some(clone_strings(members));
        },
        Some(CollectedTypeAlias::Union { members, .. }) => {
            return collected_string_literals(members);
        },
        _ => {},
    }
    let ghost mid = diags_view(diagnostics@);
    let ct = CollectedType::Named { name: name.to_owned(), args: Vec::new() };
    proof {
        lemma_collected_view_children(ct);
        assert(collected_seq_view(ct->Named_args@) =~= Seq::<SpecCollected>::empty());
        assert(ct@ == SpecCollected::Named { name: name@, args: Seq::empty() });
    }
    let t = resolve_type(&ct, file, ctx, depth, diagnostics);
    proof {
        let k = spec_canonical_key(ctx@, name@, file@);
        let r = spec_resolve_type(ctx@, SpecCollected::Named { name: name@, args: Seq::empty() }, file@, depth as int);
        assert(before + k.1 + r.1 =~= before + (k.1 + r.1));
    }
    string_literals_of_type(&t)
}

/// Resolves a function type.
fn resolve_function_type(
    params: &Vec<CollectedType>,
    return_type: &CollectedType,
    file: &str,
    ctx: &ResolutionContext,
    depth: u8,
    diagnostics: &mut Vec<Diagnostic>,
) -> (res: PropType)
    requires
        depth <= 20,
    ensures
        res@ == spec_resolve_function_type(ctx@, collected_seq_view(params@), return_type@, file@, depth as int).0,
        diags_view(final(diagnostics)@) == diags_view(old(diagnostics)@)
            + spec_resolve_function_type(ctx@, collected_seq_view(params@), return_type@, file@, depth as int).1,
    decreases depth_measure(depth as int), 4int, 0int,
{
    proof { assert(diags_view(diagnostics@) + Seq::<SpecDiagnostic>::empty() =~= diags_view(diagnostics@)); }
    if params.len() == 1 {
        return PropType::EventHandler { event_type: params[0].to_raw_string() };
    }
    if params.len() == 0 {
        return PropType::EventHandler { event_type: "void".to_owned() };
    }
    let mut raw = "(".to_owned();
    append_joined_collected(&mut raw, params, ", ");
    raw.append(") => ");
    let ret = return_type.to_raw_string();
    raw.append(ret.as_str());
    let _ = resolve_type(return_type, file, ctx, depth + 1, diagnostics);
    PropType::Opaque { raw, reason: OpaqueReason::ConditionalType }
}

/// Resolves `typeof name`.
fn resolve_typeof(name: &str, file: &str, ctx: &ResolutionContext, diagnostics: &mut Vec<Diagnostic>) -> (res: PropType)
    ensures
        res@ == spec_resolve_typeof(ctx@, name@, file@).0,
        diags_view(final(diagnostics)@) == diags_view(old(diagnostics)@) + spec_resolve_typeof(ctx@, name@, file@).1,
{
    let ghost ev = ctx@.global.enums;
    let mut suffix = ":".to_owned();
    suffix.append(name);
    let mut found = false;
    let mut i: usize = 0;
    while i < ctx.global.enums.len()
        invariant
            i <= ctx.global.enums.len(),
            ev == ctx@.global.enums,
            suffix@ == ":"@ + name@,
            found == exists|j: int| 0 <= j < i && (ends_with(#[trigger] ev[j].0, ":"@ + name@) || ev[j].0 == name@),
        decreases ctx.global.enums.len() - i,
    {
        let key = &ctx.global.enums[i].0;
        proof { assert(ev[i as int].0 == key@); }
        if str_ends_with(key.as_str(), suffix.as_str()) || str_eq(key.as_str(), name) {
            found = true;
        }
        i = i + 1;
    }
    let t = PropType::Named { name: name.to_owned(), args: Vec::new() };
    proof { assert(t@->Named_args =~= Seq::<SpecPropType>::empty()); }
    if !found {
        let mut m = "typeof '".to_owned();
        m.append(name);
        m.append("' in '");
        m.append(file);
        m.append("' \u{2014} could not statically evaluate");
        let d = file_diag(DiagnosticSeverity::Info, DiagnosticCode::OpaqueType, m, file, None);
        let ghost before = diags_view(diagnostics@);
        push_diag(diagnostics, d);
        proof { assert(before.push(d@) =~= before + seq![d@]); }
    } else {
        proof { assert(diags_view(diagnostics@) + Seq::<SpecDiagnostic>::empty() =~= diags_view(diagnostics@)); }
    }
    t
}

/// `name<args>` as text.
fn name_with_type_args(name: &str, args: &Vec<CollectedType>) -> (res: String)
    ensures
        res@ == with_type_args(name@, collected_seq_view(args@)),
{
    let mut out = name.to_owned();
    if args.len() > 0 {
        out.append("<");
        append_joined_collected(&mut out, args, ", ");
        out.append(">");
    }
    out
}

/// Resolves a React builtin type name.
fn react_type_to_prop_type(
    name: &str,
    args: &Vec<CollectedType>,
    file: &str,
    ctx: &ResolutionContext,
    depth: u8,
    diagnostics: &mut Vec<Diagnostic>,
) -> (res: PropType)
    requires
        depth <= 20,
    ensures
        res@ == spec_react_type(ctx@, name@, collected_seq_view(args@), file@, depth as int).0,
        diags_view(final(diagnostics)@)
            == diags_view(old(diagnostics)@) + spec_react_type(ctx@, name@, collected_seq_view(args@), file@, depth as int).1,
    decreases depth_measure(depth as int), 4int, 0int,
{
    let ghost av = collected_seq_view(args@);
    proof { assert(diags_view(diagnostics@) + Seq::<SpecDiagnostic>::empty() =~= diags_view(diagnostics@)); }
    let chars = chars_of(name);
    let strip: String = if str_starts_with(name, "React.") {
        proof { reveal_strlit("React."); }
        string_from_chars(&chars, 6, chars.len())
    } else {
        name.to_owned()
    };
    proof {
        if seq_starts_with(name@, "React."@) {
            reveal_strlit("React.");
            assert(chars@.subrange(6, chars@.len() as int) =~= name@.skip(6));
        }
        assert(strip@ == strip_react_prefix(name@));
    }
    let st = strip.as_str();
    if str_eq(st, "ReactNode") || str_eq(st, "ReactElement") || str_eq(st, "JSX.Element") || str_eq(st, "ReactPortal")
        || str_eq(st, "ReactFragment") || str_eq(st, "ReactChild") {
        return PropType::ReactNode;
    }
    if str_eq(st, "CSSProperties") || str_eq(st, "CSSObject") {
        return PropType::CssProperties;
    }
    if str_ends_with(st, "Handler") {
        return PropType::EventHandler { event_type: name.to_owned() };
    }
    if str_eq(st, "SyntheticEvent") || str_eq(st, "MouseEvent") || str_eq(st, "KeyboardEvent")
        || str_eq(st, "ChangeEvent") || str_eq(st, "FocusEvent") || str_eq(st, "FormEvent") || str_eq(st, "DragEvent")
        || str_eq(st, "TouchEvent") || str_eq(st, "WheelEvent") || str_eq(st, "AnimationEvent")
        || str_eq(st, "TransitionEvent") || str_eq(st, "ClipboardEvent") || str_eq(st, "CompositionEvent")
        || str_eq(st, "PointerEvent") {
        return PropType::EventHandler { event_type: name_with_type_args(name, args) };
    }
    if str_eq(st, "Ref") || str_eq(st, "RefObject") || str_eq(st, "ForwardedRef") || str_eq(st, "MutableRefObject")
        || str_eq(st, "RefCallback") || str_eq(st, "LegacyRef") {
        let element = if args.len() > 0 { Some(args[0].to_raw_string()) } else { None };
        return PropType::Ref { element };
    }
    if str_eq(st, "ElementType") {
        return PropType::ElementType;
    }
    if str_eq(st, "ComponentPropsWithoutRef") || str_eq(st, "ComponentProps") || str_eq(st, "ComponentPropsWithRef") {
        if args.len() == 0 {
            return PropType::Any;
        }
        proof { lemma_collected_view_children(args@[0]); }
        match &args[0] {
            CollectedType::StringLiteral(el) => {
                let t = PropType::HtmlAttributes { element: to_lowercase(el.as_str()), omitted: Vec::new() };
                proof { assert(strs_view(t->HtmlAttributes_omitted@) =~= Seq::<Seq<char>>::empty()); }
                return t;
            },
            other => {
                let r = resolve_type(other, file, ctx, depth + 1, diagnostics);
                let v = vec![r];
                let t = PropType::Named { name: name.to_owned(), args: v };
                proof {
                    assert(prop_types_view(v@) =~= seq![r@]);
                    lemma_prop_type_view_named(t->Named_name, v);
                }
                return t;
            },
        }
    }
    if str_eq(st, "PropsWithChildren") || str_eq(st, "PropsWithRef") {
        if args.len() == 0 {
            return PropType::Any;
        }
        return resolve_type(&args[0], file, ctx, depth + 1, diagnostics);
    }
    if str_eq(st, "ElementRef") {
        return PropType::Ref { element: None };
    }
    let r = resolve_list(args, file, ctx, depth + 1, diagnostics);
    let t = PropType::Named { name: name.to_owned(), args: r };
    proof { lemma_prop_type_view_named(t->Named_name, r); }
    t
}

/// Resolves a type alias used as a type.
fn resolve_type_alias_type(
    alias: &CollectedTypeAlias,
    file: &str,
    ctx: &ResolutionContext,
    depth: u8,
    diagnostics: &mut Vec<Diagnostic>,
) -> (res: PropType)
    requires
        depth <= 20,
    ensures
        res@ == spec_resolve_alias_type(ctx@, alias@, file@, depth as int).0,
        diags_view(final(diagnostics)@)
            == diags_view(old(diagnostics)@) + spec_resolve_alias_type(ctx@, alias@, file@, depth as int).1,
    decreases depth_measure(depth as int), 4int, 0int,
{
    match alias {
        CollectedTypeAlias::LiteralUnion { members, .. } => {
            proof { assert(diags_view(diagnostics@) + Seq::<SpecDiagnostic>::empty() =~= diags_view(diagnostics@)); }
            PropType::LiteralUnion { members: clone_strings(members), has_default: false }
        },
        CollectedTypeAlias::Passthrough { target, .. } => resolve_type(target, file, ctx, depth + 1, diagnostics),
        CollectedTypeAlias::Union { members, .. } => {
            let r = resolve_list(members, file, ctx, depth + 1, diagnostics);
            proof { lemma_prop_type_view_union(r); }
            PropType::Union(r)
        },
        CollectedTypeAlias::Intersection { members, .. } => {
            let r = resolve_list(members, file, ctx, depth + 1, diagnostics);
            proof { lemma_prop_type_view_union(r); }
            PropType::Intersection(r)
        },
        CollectedTypeAlias::Partial { base, .. } => resolve_type(base, file, ctx, depth + 1, diagnostics),
        CollectedTypeAlias::Required { base, .. } => resolve_type(base, file, ctx, depth + 1, diagnostics),
        CollectedTypeAlias::Omit { base, .. } => resolve_type(base, file, ctx, depth + 1, diagnostics),
        CollectedTypeAlias::Pick { base, .. } => resolve_type(base, file, ctx, depth + 1, diagnostics),
    }
}

/// Resolves a named type reference: React builtins, known patterns, then
/// the alias or interface declared under the name's canonical key.
pub fn resolve_named(
    name: &str,
    args: &Vec<CollectedType>,
    file: &str,
    ctx: &ResolutionContext,
    depth: u8,
    diagnostics: &mut Vec<Diagnostic>,
) -> (res: PropType)
    ensures
        res@ == spec_resolve_named(ctx@, name@, collected_seq_view(args@), file@, depth as int).0,
        diags_view(final(diagnostics)@)
            == diags_view(old(diagnostics)@) + spec_resolve_named(ctx@, name@, collected_seq_view(args@), file@, depth as int).1,
    decreases depth_measure(depth as int), 5int, 0int,
{
    let ghost before = diags_view(diagnostics@);
    if depth > 20 {
        let mut m = "Max resolution depth exceeded for named type '".to_owned();
        m.append(name);
        m.append("'");
        let d = file_diag(DiagnosticSeverity::Warning, DiagnosticCode::MaxDepthExceeded, m, file, None);
        push_diag(diagnostics, d);
        proof { assert(before.push(d@) =~= before + seq![d@]); }
        return PropType::Opaque { raw: name.to_owned(), reason: OpaqueReason::DepthExceeded };
    }
    if is_react_builtin(name, &ctx.extra_builtins) {
        return react_type_to_prop_type(name, args, file, ctx, depth, diagnostics);
    }
    let resolved_args = resolve_list(args, file, ctx, depth + 1, diagnostics);
    let ghost ra = spec_resolve_list(ctx@, collected_seq_view(args@), file@, depth + 1);
    match resolve_known(name, resolved_args.as_slice(), &ctx.global) {
        Some(KnownPatternResult::Type(pt)) => {
            return pt;
        },
        Some(KnownPatternResult::Alias { name: alias_name, .. }) => {
            let ct = CollectedType::Named { name: alias_name, args: Vec::new() };
            proof {
                lemma_collected_view_children(ct);
                assert(collected_seq_view(ct->Named_args@) =~= Seq::<SpecCollected>::empty());
            }
            let t = resolve_type(&ct, file, ctx, depth + 1, diagnostics);
            proof {
                let r = spec_resolve_type(ctx@, ct@, file@, depth + 1);
                assert(before + ra.1 + r.1 =~= before + (ra.1 + r.1));
            }
            return t;
        },
        Some(KnownPatternResult::Props(_)) => {
            let t = PropType::Named { name: name.to_owned(), args: resolved_args };
            proof { lemma_prop_type_view_named(t->Named_name, resolved_args); }
            return t;
        },
        None => {},
    }
    let key = canonical_key(name, file, ctx, diagnostics);
    let ghost k = spec_canonical_key(ctx@, name@, file@);
    if let Some(alias) = lookup_alias(ctx, key.as_str()) {
        let t = resolve_type_alias_type(alias, file, ctx, depth, diagnostics);
        proof {
            let r = spec_resolve_alias_type(ctx@, alias@, file@, depth as int);
            assert(before + ra.1 + k.1 + r.1 =~= before + (ra.1 + k.1 + r.1));
        }
        return t;
    }
    if lookup_interface(ctx, key.as_str()).is_some() {
        let t = PropType::Named { name: name.to_owned(), args: resolved_args };
        proof {
            lemma_prop_type_view_named(t->Named_name, resolved_args);
            assert(before + ra.1 + k.1 =~= before + (ra.1 + k.1));
        }
        return t;
    }
    let mut m = "Cannot resolve type '".to_owned();
    m.append(name);
    m.append("' in '");
    m.append(file);
    m.append("' \u{2014} it will appear as opaque");
    let d = file_diag(
        DiagnosticSeverity::Warning,
        DiagnosticCode::UnresolvableImport,
        m,
        file,
        Some("Check that the package is installed and its types are resolvable.".to_owned()),
    );
    push_diag(diagnostics, d);
    proof { assert((before + ra.1 + k.1).push(d@) =~= before + (ra.1 + k.1).push(d@)); }
    let t = PropType::Named { name: name.to_owned(), args: resolved_args };
    proof { lemma_prop_type_view_named(t->Named_name, resolved_args); }
    t
}

// ─── Law of template-literal expansion ───────────────────────────────────────

/// The product of the numbers of alternatives of `parts`.
pub open spec fn count_product(parts: Seq<Seq<Seq<char>>>) -> int
    decreases parts.len(),
{
    if parts.len() == 0 {
        1
    } else {
        count_product(parts.drop_last()) * parts.last().len()
    }
}

proof fn lemma_product_step(pre: Seq<Seq<char>>, alts: Seq<Seq<char>>)
    ensures
        product_step(pre, alts).len() == pre.len() * alts.len(),
        forall|i: int, k: int| 0 <= i < pre.len() && 0 <= k < alts.len()
            ==> #[trigger] product_step(pre, alts)[i * alts.len() + k] == pre[i] + #[trigger] alts[k],
    decreases pre.len(),
{
    let m = alts.len() as int;
    if pre.len() > 0 {
        let n = pre.len() as int;
        let rest = pre.drop_last();
        lemma_product_step(rest, alts);
        let left = product_step(rest, alts);
        let right = alts.map_values(|a: Seq<char>| pre.last() + a);
        assert(left.len() + m == n * m) by (nonlinear_arith)
            requires left.len() == (n - 1) * m;
        assert forall|i: int, k: int| 0 <= i < pre.len() && 0 <= k < alts.len()
            implies #[trigger] product_step(pre, alts)[i * alts.len() + k] == pre[i] + #[trigger] alts[k] by {
            if i < n - 1 {
                assert(i * m + k < (n - 1) * m) by (nonlinear_arith)
                    requires 0 <= i < n - 1, 0 <= k < m;
                assert(0 <= i * m + k) by (nonlinear_arith)
                    requires 0 <= i, 0 <= k, 0 <= m;
                assert(rest[i] == pre[i]);
                assert(product_step(pre, alts)[i * m + k] == left[i * m + k]);
            } else {
                assert(i * m + k - left.len() == k) by (nonlinear_arith)
                    requires i == n - 1, left.len() == (n - 1) * m;
                assert(product_step(pre, alts)[i * m + k] == right[k]);
            }
        }
    }
}

/// The strings of a template literal are the ordered product of its parts'
/// alternatives, the earliest part varying slowest: no parts give the one
/// empty string; there are as many strings as the product of the numbers of
/// alternatives; and with one more part of `m` alternatives, the string at
/// `i * m + k` is the string at `i` followed by that part's `k`-th
/// alternative.
pub proof fn law_template_strings_are_ordered_product(parts: Seq<Seq<Seq<char>>>, alts: Seq<Seq<char>>)
    ensures
        cartesian(Seq::empty()) == seq![Seq::<char>::empty()],
        cartesian(parts).len() == count_product(parts),
        cartesian(parts.push(alts)).len() == cartesian(parts).len() * alts.len(),
        forall|i: int, k: int| 0 <= i < cartesian(parts).len() && 0 <= k < alts.len()
            ==> #[trigger] cartesian(parts.push(alts))[i * alts.len() + k] == cartesian(parts)[i] + #[trigger] alts[k],
    decreases parts.len(),
{
    if parts.len() > 0 {
        law_template_strings_are_ordered_product(parts.drop_last(), parts.last());
        lemma_product_step(cartesian(parts.drop_last()), parts.last());
    }
    assert(parts.push(alts).drop_last() =~= parts);
    lemma_product_step(cartesian(parts), alts);
}

proof fn lemma_expand_parts_shape(c: SpecCtx, parts: Seq<SpecCollected>, file: Seq<char>, depth: int)
    ensures
        spec_expand_parts(c, parts, file, depth).0 is Some ==> {
            let per = spec_expand_parts(c, parts, file, depth).0->0;
            &&& per.len() == parts.len()
            &&& forall|i: int| 0 <= i < parts.len() && (#[trigger] parts[i]) is StringLiteral
                ==> per[i] == seq![parts[i]->StringLiteral_0]
            &&& forall|i: int| 0 <= i < parts.len()
                ==> spec_part_alternatives(c, #[trigger] parts[i], file, depth).0 == Some(per[i])
        },
    decreases parts.len(),
{
    if parts.len() > 0 {
        let rest = parts.drop_last();
        lemma_expand_parts_shape(c, rest, file, depth);
        if spec_expand_parts(c, parts, file, depth).0 is Some {
            let per = spec_expand_parts(c, parts, file, depth).0->0;
            let prev = spec_expand_parts(c, rest, file, depth).0->0;
            assert(per == prev.push(spec_part_alternatives(c, parts.last(), file, depth).0->0));
            assert forall|i: int| 0 <= i < parts.len()
                implies spec_part_alternatives(c, #[trigger] parts[i], file, depth).0 == Some(per[i]) by {
                if i < parts.len() - 1 {
                    assert(rest[i] == parts[i]);
                } else {
                    assert(parts[i] == parts.last());
                }
            }
            assert forall|i: int| 0 <= i < parts.len() && (#[trigger] parts[i]) is StringLiteral
                implies per[i] == seq![parts[i]->StringLiteral_0] by {
                assert(spec_part_alternatives(c, parts[i], file, depth).0 == Some(per[i]));
            }
        }
    }
}

/// A template literal that expands gives the ordered product of its parts'
/// alternatives (a string-literal part standing for itself alone): one list
/// of alternatives per part, and as many strings as the product of their
/// numbers, the earliest part varying slowest (see
/// `law_template_strings_are_ordered_product`); no parts give the one empty
/// string.
pub proof fn law_template_expansion_is_ordered_product(c: SpecCtx, parts: Seq<SpecCollected>, file: Seq<char>, depth: int)
    ensures
        parts.len() == 0 ==> spec_try_expand(c, parts, file, depth).0 == Some(seq![Seq::<char>::empty()]),
        spec_try_expand(c, parts, file, depth).0 is Some ==> {
            let per = spec_expand_parts(c, parts, file, depth).0->0;
            let strings = spec_try_expand(c, parts, file, depth).0->0;
            &&& per.len() == parts.len()
            &&& forall|i: int| 0 <= i < parts.len() && (#[trigger] parts[i]) is StringLiteral
                ==> per[i] == seq![parts[i]->StringLiteral_0]
            &&& forall|i: int| 0 <= i < parts.len()
                ==> spec_part_alternatives(c, #[trigger] parts[i], file, depth).0 == Some(per[i])
            &&& strings == cartesian(per)
            &&& strings.len() == count_product(per)
        },
{
    lemma_expand_parts_shape(c, parts, file, depth);
    if spec_try_expand(c, parts, file, depth).0 is Some {
        let per = spec_expand_parts(c, parts, file, depth).0->0;
        if per.len() > 0 {
            law_template_strings_are_ordered_product(per.drop_last(), per.last());
            assert(per.drop_last().push(per.last()) =~= per);
        } else {
            assert(per =~= Seq::<Seq<Seq<char>>>::empty());
        }
    }
}

} // verus!
verus! {

// ─── Law of indexed access on CSS properties ─────────────────────────────────

/// The `React.` namespace prefix does not change an indexed access on
/// `CSSProperties`: for every key, `React.CSSProperties[key]` is known
/// exactly as `CSSProperties[key]` is; a numeric CSS key gives a number and
/// any other non-empty key a string; and resolving such an access yields
/// that type without a diagnostic.
pub proof fn law_react_prefix_keeps_css_indexed_access(
    c: SpecCtx,
    args: Seq<SpecCollected>,
    key: Seq<char>,
    file: Seq<char>,
    depth: int,
)
    requires
        0 <= depth <= max_depth(),
    ensures
        indexed_access_known("React.CSSProperties"@, key) == indexed_access_known("CSSProperties"@, key),
        key.len() > 0 ==> indexed_access_known("React.CSSProperties"@, key)
            == Some(if is_numeric_css_key(key) { SpecPropType::Number } else { SpecPropType::String }),
        key.len() > 0 ==> spec_resolve_type(
            c,
            SpecCollected::IndexedAccess {
                obj: Box::new(SpecCollected::Named { name: "React.CSSProperties"@, args }),
                key: Box::new(SpecCollected::StringLiteral(key)),
            },
            file,
            depth,
        ) == (
            if is_numeric_css_key(key) { SpecPropType::Number } else { SpecPropType::String },
            Seq::<SpecDiagnostic>::empty(),
        ),
{
    reveal_strlit("React.CSSProperties");
    reveal_strlit("CSSProperties");
    reveal_strlit("HTMLAttributes");
    reveal_strlit("React.HTMLAttributes");
    reveal_strlit("DOMAttributes");
    reveal_strlit("React.DOMAttributes");
    assert("React.CSSProperties"@.len() == 19);
    assert("CSSProperties"@.len() == 13);
    assert("HTMLAttributes"@.len() == 14);
    assert("React.HTMLAttributes"@.len() == 20);
    assert("DOMAttributes"@.len() == 13);
    assert("React.DOMAttributes"@.len() == 19);
    assert("DOMAttributes"@[0] != "CSSProperties"@[0]);
    assert("React.DOMAttributes"@[6] != "React.CSSProperties"@[6]);
    assert(is_css_properties_name("React.CSSProperties"@));
    assert(is_css_properties_name("CSSProperties"@));
    assert(!is_html_attributes_name("React.CSSProperties"@));
    assert(!is_html_attributes_name("CSSProperties"@));
    assert("React.CSSProperties"@ != "DOMAttributes"@ && "React.CSSProperties"@ != "React.DOMAttributes"@);
    assert("CSSProperties"@ != "DOMAttributes"@ && "CSSProperties"@ != "React.DOMAttributes"@);
    if key.len() > 0 {
        let obj = SpecCollected::Named { name: "React.CSSProperties"@, args };
        let k = SpecCollected::StringLiteral(key);
        assert(spec_resolve_type(c, SpecCollected::IndexedAccess { obj: Box::new(obj), key: Box::new(k) }, file, depth)
            == spec_resolve_indexed_access(c, obj, k, file, depth));
    }
}

} // verus!
