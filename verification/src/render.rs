//! TypeScript-like source rendering of collected and resolved types, used for
//! opaque placeholders, event-handler types and diagnostic messages.

use vstd::prelude::*;
use crate::types::{
    lemma_prop_type_view_named, lemma_prop_type_view_object, object_fields_view, lemma_prop_type_view_union, prop_types_view,
    strs_view, PropType, SpecObjectField, SpecPropType, CollectedType, SpecCollected, SpecCollectedField,
    lemma_collected_view_children, collected_seq_view, collected_fields_view,
};

verus! {

/// `ss` joined with `sep` between consecutive items.
pub open spec fn join_strs(ss: Seq<Seq<char>>, sep: Seq<char>) -> Seq<char>
    decreases ss.len(),
{
    if ss.len() == 0 {
        Seq::empty()
    } else if ss.len() == 1 {
        ss[0]
    } else {
        join_strs(ss.drop_last(), sep) + sep + ss.last()
    }
}

pub proof fn lemma_join_push(ss: Seq<Seq<char>>, sep: Seq<char>, x: Seq<char>)
    ensures
        join_strs(ss.push(x), sep) == if ss.len() == 0 { x } else { join_strs(ss, sep) + sep + x },
{
    assert(ss.push(x).drop_last() =~= ss);
}

pub open spec fn bool_text(b: bool) -> Seq<char> {
    if b { "true"@ } else { "false"@ }
}

pub open spec fn quoted(s: Seq<char>) -> Seq<char> {
    "\""@ + s + "\""@
}

// ─── Resolved types ──────────────────────────────────────────────────────────

pub open spec fn render_prop_field(f: SpecObjectField) -> Seq<char>
    decreases f, 0nat,
{
    f.name + (if f.required { ": "@ } else { "?: "@ }) + render_prop(f.prop_type)
}

/// The rendering of each object field in `v`.
pub open spec fn render_prop_fields(v: Seq<SpecObjectField>) -> Seq<Seq<char>>
    decreases v, 1nat,
{
    Seq::new(v.len(), |i: int| if 0 <= i < v.len() { render_prop_field(v[i]) } else { Seq::empty() })
}

/// The rendering of each prop type in `v`.
pub open spec fn render_prop_seq(v: Seq<SpecPropType>) -> Seq<Seq<char>>
    decreases v, 1nat,
{
    Seq::new(v.len(), |i: int| if 0 <= i < v.len() { render_prop(v[i]) } else { Seq::empty() })
}

/// TypeScript-like text for a resolved prop type.
pub open spec fn render_prop(p: SpecPropType) -> Seq<char>
    decreases p, 2nat,
{
    match p {
        SpecPropType::String => "string"@,
        SpecPropType::Number => "number"@,
        SpecPropType::Boolean => "boolean"@,
        SpecPropType::Null => "null"@,
        SpecPropType::Undefined => "undefined"@,
        SpecPropType::Any => "any"@,
        SpecPropType::Never => "never"@,
        SpecPropType::Unknown => "unknown"@,
        SpecPropType::Void => "void"@,
        SpecPropType::StringLiteral(s) => quoted(s),
        SpecPropType::NumberLiteral(s) => s,
        SpecPropType::BoolLiteral(b) => bool_text(b),
        SpecPropType::Union(v) => join_strs(render_prop_seq(v), " | "@),
        SpecPropType::Intersection(v) => join_strs(render_prop_seq(v), " & "@),
        SpecPropType::Array(b) => render_prop(*b) + "[]"@,
        SpecPropType::Tuple(v) => "["@ + join_strs(render_prop_seq(v), ", "@) + "]"@,
        SpecPropType::Object(fields) => if fields.len() == 0 {
            "{}"@
        } else {
            "{ "@ + join_strs(render_prop_fields(fields), "; "@) + " }"@
        },
        SpecPropType::Named { name, args } => if args.len() == 0 {
            name
        } else {
            name + "<"@ + join_strs(render_prop_seq(args), ", "@) + ">"@
        },
        SpecPropType::LiteralUnion { members, .. } => join_strs(members.map_values(|m: Seq<char>| quoted(m)), " | "@),
        SpecPropType::EventHandler { event_type } => "(event: "@ + event_type + ") => void"@,
        SpecPropType::Ref { element } => match element {
            Some(e) => "Ref<"@ + e + ">"@,
            None => "Ref"@,
        },
        SpecPropType::ReactNode => "ReactNode"@,
        SpecPropType::CssProperties => "CSSProperties"@,
        SpecPropType::ElementType => "ElementType"@,
        SpecPropType::SxProps => "SxProps"@,
        SpecPropType::HtmlAttributes { element, .. } => "HTMLAttributes<"@ + element + ">"@,
        SpecPropType::Opaque { raw, .. } => raw,
    }
}

/// Appends `items`, each rendered and separated by `sep`, to `out`.
fn append_joined_props(out: &mut String, items: &Vec<PropType>, sep: &str)
    ensures
        final(out)@ == old(out)@ + join_strs(render_prop_seq(prop_types_view(items@)), sep@),
    decreases items@, 0nat,
{
    let ghost start = out@;
    let ghost target = render_prop_seq(prop_types_view(items@));
    let mut i: usize = 0;
    while i < items.len()
        invariant
            i <= items.len(),
            target == render_prop_seq(prop_types_view(items@)),
            out@ == start + join_strs(target.subrange(0, i as int), sep@),
        decreases items.len() - i,
    {
        proof { assert(decreases_to!(items@ => items@[i as int])); }
        let piece = items[i].raw_string();
        proof {
            lemma_join_push(target.subrange(0, i as int), sep@, piece@);
            assert(target.subrange(0, i + 1) =~= target.subrange(0, i as int).push(piece@));
        }
        if i > 0 {
            out.append(sep);
        }
        out.append(piece.as_str());
        i = i + 1;
    }
    proof { assert(target.subrange(0, items.len() as int) =~= target); }
}

fn append_quoted_joined(out: &mut String, items: &Vec<String>, sep: &str)
    ensures
        final(out)@ == old(out)@ + join_strs(strs_view(items@).map_values(|m: Seq<char>| quoted(m)), sep@),
{
    let ghost start = out@;
    let ghost target = strs_view(items@).map_values(|m: Seq<char>| quoted(m));
    let mut i: usize = 0;
    while i < items.len()
        invariant
            i <= items.len(),
            target == strs_view(items@).map_values(|m: Seq<char>| quoted(m)),
            out@ == start + join_strs(target.subrange(0, i as int), sep@),
        decreases items.len() - i,
    {
        proof {
            lemma_join_push(target.subrange(0, i as int), sep@, quoted(items@[i as int]@));
            assert(target.subrange(0, i + 1) =~= target.subrange(0, i as int).push(quoted(items@[i as int]@)));
        }
        if i > 0 {
            out.append(sep);
        }
        out.append("\"");
        out.append(items[i].as_str());
        out.append("\"");
        i = i + 1;
    }
    proof { assert(target.subrange(0, items.len() as int) =~= target); }
}

impl PropType {
    /// TypeScript-like text for this prop type.
    pub fn raw_string(&self) -> (res: String)
        ensures
            res@ == render_prop(self@),
        decreases self, 1nat,
    {
        let mut out = String::new();
        match self {
            PropType::String => out.append("string"),
            PropType::Number => out.append("number"),
            PropType::Boolean => out.append("boolean"),
            PropType::Null => out.append("null"),
            PropType::Undefined => out.append("undefined"),
            PropType::Any => out.append("any"),
            PropType::Never => out.append("never"),
            PropType::Unknown => out.append("unknown"),
            PropType::Void => out.append("void"),
            PropType::StringLiteral(s) => {
                out.append("\"");
                out.append(s.as_str());
                out.append("\"");
            },
            PropType::NumberLiteral(s) => out.append(s.as_str()),
            PropType::BoolLiteral(b) => if *b { out.append("true") } else { out.append("false") },
            PropType::Union(v) => {
                proof { assert(decreases_to!(*self => self->Union_0)); lemma_prop_type_view_union(*v); }
                append_joined_props(&mut out, v, " | ");
                assert(out@ =~= render_prop(self@));
            },
            PropType::Intersection(v) => {
                proof { assert(decreases_to!(*self => self->Intersection_0)); lemma_prop_type_view_union(*v); }
                append_joined_props(&mut out, v, " & ");
            },
            PropType::Array(b) => {
                let inner = b.raw_string();
                out.append(inner.as_str());
                out.append("[]");
            },
            PropType::Tuple(v) => {
                proof { assert(decreases_to!(*self => self->Tuple_0)); lemma_prop_type_view_union(*v); }
                out.append("[");
                append_joined_props(&mut out, v, ", ");
                out.append("]");
            },
            PropType::Object(fields) => {
                proof { lemma_prop_type_view_object(*fields); }
                if fields.len() == 0 {
                    out.append("{}");
                } else {
                    let ghost target = Seq::new(
                        fields@.len(),
                        |k: int| if 0 <= k < fields@.len() { render_prop_field(fields@[k]@) } else { Seq::empty() },
                    );
                    out.append("{ ");
                    let ghost start = out@;
                    let mut i: usize = 0;
                    while i < fields.len()
                        invariant
                            i <= fields.len(),
                            *self == PropType::Object(*fields),
                            target == Seq::new(
                                fields@.len(),
                                |k: int| if 0 <= k < fields@.len() { render_prop_field(fields@[k]@) } else { Seq::empty() },
                            ),
                            out@ == start + join_strs(target.subrange(0, i as int), "; "@),
                        decreases fields.len() - i,
                    {
                        proof {
                            assert(decreases_to!(*self => self->Object_0));
                            assert(decreases_to!(self->Object_0 => fields@[i as int].prop_type));
                        }
                        let ty = fields[i].prop_type.raw_string();
                        let ghost piece = render_prop_field(fields@[i as int]@);
                        proof {
                            lemma_join_push(target.subrange(0, i as int), "; "@, piece);
                            assert(target.subrange(0, i + 1) =~= target.subrange(0, i as int).push(piece));
                        }
                        if i > 0 {
                            out.append("; ");
                        }
                        out.append(fields[i].name.as_str());
                        if fields[i].required {
                            out.append(": ");
                        } else {
                            out.append("?: ");
                        }
                        out.append(ty.as_str());
                        i = i + 1;
                    }
                    proof { assert(target.subrange(0, fields@.len() as int) =~= target); }
                    out.append(" }");
                    proof {
                        let sf = object_fields_view(fields@);
                        assert(target =~= render_prop_fields(sf));
                    }
                    assert(out@ =~= "{ "@ + join_strs(target, "; "@) + " }"@);
                    assert(out@ =~= render_prop(self@));
                }
            },
            PropType::Named { name, args } => {
                proof { assert(decreases_to!(*self => self->Named_args)); lemma_prop_type_view_named(*name, *args); }
                out.append(name.as_str());
                if args.len() > 0 {
                    out.append("<");
                    append_joined_props(&mut out, args, ", ");
                    out.append(">");
                }
                assert(out@ =~= render_prop(self@));
            },
            PropType::LiteralUnion { members, .. } => {
                append_quoted_joined(&mut out, members, " | ");
                assert(out@ =~= render_prop(self@));
            },
            PropType::EventHandler { event_type } => {
                out.append("(event: ");
                out.append(event_type.as_str());
                out.append(") => void");
            },
            PropType::Ref { element } => match element {
                Some(e) => {
                    out.append("Ref<");
                    out.append(e.as_str());
                    out.append(">");
                },
                None => out.append("Ref"),
            },
            PropType::ReactNode => out.append("ReactNode"),
            PropType::CssProperties => out.append("CSSProperties"),
            PropType::ElementType => out.append("ElementType"),
            PropType::SxProps => out.append("SxProps"),
            PropType::HtmlAttributes { element, .. } => {
                out.append("HTMLAttributes<");
                out.append(element.as_str());
                out.append(">");
            },
            PropType::Opaque { raw, .. } => out.append(raw.as_str()),
        }
        proof { assert(out@ =~= render_prop(self@)); }
        out
    }
}


// ─── Collected types ─────────────────────────────────────────────────────────

pub open spec fn render_collected_field(f: SpecCollectedField) -> Seq<char>
    decreases f, 0nat,
{
    f.name + (if f.required { ": "@ } else { "?: "@ }) + render_collected(f.collected_type)
}

pub open spec fn render_collected_fields(v: Seq<SpecCollectedField>) -> Seq<Seq<char>>
    decreases v, 1nat,
{
    Seq::new(v.len(), |i: int| if 0 <= i < v.len() { render_collected_field(v[i]) } else { Seq::empty() })
}

/// The rendering of each collected type in `v`.
pub open spec fn render_collected_seq(v: Seq<SpecCollected>) -> Seq<Seq<char>>
    decreases v, 1nat,
{
    Seq::new(v.len(), |i: int| if 0 <= i < v.len() { render_collected(v[i]) } else { Seq::empty() })
}

/// One part of a template literal: literal text as is, anything else
/// inside `${...}`.
pub open spec fn render_template_part(c: SpecCollected) -> Seq<char>
    decreases c, 3nat,
{
    match c {
        SpecCollected::StringLiteral(s) => s,
        _ => "${"@ + render_collected(c) + "}"@,
    }
}

pub open spec fn render_template_parts(v: Seq<SpecCollected>) -> Seq<Seq<char>>
    decreases v, 1nat,
{
    Seq::new(v.len(), |i: int| if 0 <= i < v.len() { render_template_part(v[i]) } else { Seq::empty() })
}

/// TypeScript-like text for a collected type.
pub open spec fn render_collected(c: SpecCollected) -> Seq<char>
    decreases c, 2nat,
{
    match c {
        SpecCollected::String => "string"@,
        SpecCollected::Number => "number"@,
        SpecCollected::Boolean => "boolean"@,
        SpecCollected::Null => "null"@,
        SpecCollected::Undefined => "undefined"@,
        SpecCollected::Any => "any"@,
        SpecCollected::Never => "never"@,
        SpecCollected::Unknown => "unknown"@,
        SpecCollected::Void => "void"@,
        SpecCollected::BigInt => "bigint"@,
        SpecCollected::Symbol => "symbol"@,
        SpecCollected::StringLiteral(s) => quoted(s),
        SpecCollected::NumberLiteral(s) => s,
        SpecCollected::BoolLiteral(b) => bool_text(b),
        SpecCollected::Union(v) => join_strs(render_collected_seq(v), " | "@),
        SpecCollected::Intersection(v) => join_strs(render_collected_seq(v), " & "@),
        SpecCollected::Array(b) => render_collected(*b) + "[]"@,
        SpecCollected::Tuple(v) => "["@ + join_strs(render_collected_seq(v), ", "@) + "]"@,
        SpecCollected::Object(fields) => if fields.len() == 0 {
            "{}"@
        } else {
            "{ "@ + join_strs(render_collected_fields(fields), "; "@) + " }"@
        },
        SpecCollected::Named { name, args } => if args.len() == 0 {
            name
        } else {
            name + "<"@ + join_strs(render_collected_seq(args), ", "@) + ">"@
        },
        SpecCollected::TypeOf(n) => "typeof "@ + n,
        SpecCollected::IndexedAccess { obj, key } => render_collected(*obj) + "["@ + render_collected(*key) + "]"@,
        SpecCollected::TemplateLiteral(parts) => "`"@ + join_strs(render_template_parts(parts), Seq::empty()) + "`"@,
        SpecCollected::Function { params, return_type } =>
            "("@ + join_strs(render_collected_seq(params), ", "@) + ") => "@ + render_collected(*return_type),
        SpecCollected::Conditional { check, extends_type, true_type, false_type } =>
            render_collected(*check) + " extends "@ + render_collected(*extends_type) + " ? "@
                + render_collected(*true_type) + " : "@ + render_collected(*false_type),
        SpecCollected::Mapped { key_type, value_type } =>
            "{ [K in "@ + render_collected(*key_type) + "]: "@ + render_collected(*value_type) + " }"@,
        SpecCollected::Raw(s) => s,
    }
}

/// Appends `items`, each rendered and separated by `sep`, to `out`.
pub fn append_joined_collected(out: &mut String, items: &Vec<CollectedType>, sep: &str)
    ensures
        final(out)@ == old(out)@ + join_strs(render_collected_seq(collected_seq_view(items@)), sep@),
    decreases items@, 0nat,
{
    let ghost start = out@;
    let ghost target = render_collected_seq(collected_seq_view(items@));
    let mut i: usize = 0;
    while i < items.len()
        invariant
            i <= items.len(),
            target == render_collected_seq(collected_seq_view(items@)),
            out@ == start + join_strs(target.subrange(0, i as int), sep@),
        decreases items.len() - i,
    {
        proof { assert(decreases_to!(items@ => items@[i as int])); }
        let piece = items[i].to_raw_string();
        proof {
            lemma_join_push(target.subrange(0, i as int), sep@, piece@);
            assert(target.subrange(0, i + 1) =~= target.subrange(0, i as int).push(piece@));
        }
        if i > 0 {
            out.append(sep);
        }
        out.append(piece.as_str());
        i = i + 1;
    }
    proof { assert(target.subrange(0, items.len() as int) =~= target); }
}

/// Renders the parts of a template literal, without the back-ticks.
pub fn render_template_literal_parts(parts: &Vec<CollectedType>) -> (res: String)
    ensures
        res@ == join_strs(render_template_parts(collected_seq_view(parts@)), Seq::empty()),
    decreases parts@, 0nat,
{
    let mut out = String::new();
    let ghost target = render_template_parts(collected_seq_view(parts@));
    let mut i: usize = 0;
    while i < parts.len()
        invariant
            i <= parts.len(),
            target == render_template_parts(collected_seq_view(parts@)),
            out@ == join_strs(target.subrange(0, i as int), Seq::empty()),
        decreases parts.len() - i,
    {
        proof { assert(decreases_to!(parts@ => parts@[i as int])); }
        let ghost piece = render_template_part(parts@[i as int]@);
        match &parts[i] {
            CollectedType::StringLiteral(s) => {
                out.append(s.as_str());
            },
            other => {
                let inner = other.to_raw_string();
                out.append("${");
                out.append(inner.as_str());
                out.append("}");
            },
        }
        proof {
            lemma_join_push(target.subrange(0, i as int), Seq::empty(), piece);
            assert(target.subrange(0, i + 1) =~= target.subrange(0, i as int).push(piece));
            assert(out@ =~= join_strs(target.subrange(0, i + 1), Seq::empty()));
        }
        i = i + 1;
    }
    proof { assert(target.subrange(0, parts.len() as int) =~= target); }
    out
}

impl CollectedType {
    /// TypeScript-like text for this collected type.
    pub fn to_raw_string(&self) -> (res: String)
        ensures
            res@ == render_collected(self@),
        decreases self, 1nat,
    {
        proof { lemma_collected_view_children(*self); }
        let mut out = String::new();
        match self {
            CollectedType::String => out.append("string"),
            CollectedType::Number => out.append("number"),
            CollectedType::Boolean => out.append("boolean"),
            CollectedType::Null => out.append("null"),
            CollectedType::Undefined => out.append("undefined"),
            CollectedType::Any => out.append("any"),
            CollectedType::Never => out.append("never"),
            CollectedType::Unknown => out.append("unknown"),
            CollectedType::Void => out.append("void"),
            CollectedType::BigInt => out.append("bigint"),
            CollectedType::Symbol => out.append("symbol"),
            CollectedType::StringLiteral(s) => {
                out.append("\"");
                out.append(s.as_str());
                out.append("\"");
            },
            CollectedType::NumberLiteral(s) => out.append(s.as_str()),
            CollectedType::BoolLiteral(b) => if *b { out.append("true") } else { out.append("false") },
            CollectedType::Union(v) => {
                proof { assert(decreases_to!(*self => self->Union_0)); }
                append_joined_collected(&mut out, v, " | ");
            },
            CollectedType::Intersection(v) => {
                proof { assert(decreases_to!(*self => self->Intersection_0)); }
                append_joined_collected(&mut out, v, " & ");
            },
            CollectedType::Array(b) => {
                let inner = b.to_raw_string();
                out.append(inner.as_str());
                out.append("[]");
            },
            CollectedType::Tuple(v) => {
                proof { assert(decreases_to!(*self => self->Tuple_0)); }
                out.append("[");
                append_joined_collected(&mut out, v, ", ");
                out.append("]");
            },
            CollectedType::Object(fields) => {
                if fields.len() == 0 {
                    out.append("{}");
                } else {
                    let ghost target = render_collected_fields(collected_fields_view(fields@));
                    out.append("{ ");
                    let ghost start = out@;
                    let mut i: usize = 0;
                    while i < fields.len()
                        invariant
                            i <= fields.len(),
                            *self == CollectedType::Object(*fields),
                            target == render_collected_fields(collected_fields_view(fields@)),
                            out@ == start + join_strs(target.subrange(0, i as int), "; "@),
                        decreases fields.len() - i,
                    {
                        proof {
                            assert(decreases_to!(*self => self->Object_0));
                            assert(decreases_to!(self->Object_0 => fields@[i as int].collected_type));
                        }
                        let ty = fields[i].collected_type.to_raw_string();
                        let ghost piece = render_collected_field(fields@[i as int]@);
                        proof {
                            lemma_join_push(target.subrange(0, i as int), "; "@, piece);
                            assert(target.subrange(0, i + 1) =~= target.subrange(0, i as int).push(piece));
                        }
                        if i > 0 {
                            out.append("; ");
                        }
                        out.append(fields[i].name.as_str());
                        if fields[i].required {
                            out.append(": ");
                        } else {
                            out.append("?: ");
                        }
                        out.append(ty.as_str());
                        i = i + 1;
                    }
                    proof { assert(target.subrange(0, fields@.len() as int) =~= target); }
                    out.append(" }");
                }
            },
            CollectedType::Named { name, args } => {
                proof { assert(decreases_to!(*self => self->Named_args)); }
                out.append(name.as_str());
                if args.len() > 0 {
                    out.append("<");
                    append_joined_collected(&mut out, args, ", ");
                    out.append(">");
                }
            },
            CollectedType::TypeOf(n) => {
                out.append("typeof ");
                out.append(n.as_str());
            },
            CollectedType::IndexedAccess { obj, key } => {
                let o = obj.to_raw_string();
                let k = key.to_raw_string();
                out.append(o.as_str());
                out.append("[");
                out.append(k.as_str());
                out.append("]");
            },
            CollectedType::TemplateLiteral(parts) => {
                proof { assert(decreases_to!(*self => self->TemplateLiteral_0)); }
                let inner = render_template_literal_parts(parts);
                out.append("`");
                out.append(inner.as_str());
                out.append("`");
            },
            CollectedType::Function { params, return_type } => {
                proof { assert(decreases_to!(*self => self->Function_params)); }
                out.append("(");
                append_joined_collected(&mut out, params, ", ");
                out.append(") => ");
                let r = return_type.to_raw_string();
                out.append(r.as_str());
            },
            CollectedType::Conditional { check, extends_type, true_type, false_type } => {
                let a = check.to_raw_string();
                let b = extends_type.to_raw_string();
                let c = true_type.to_raw_string();
                let d = false_type.to_raw_string();
                out.append(a.as_str());
                out.append(" extends ");
                out.append(b.as_str());
                out.append(" ? ");
                out.append(c.as_str());
                out.append(" : ");
                out.append(d.as_str());
            },
            CollectedType::Mapped { key_type, value_type } => {
                let k = key_type.to_raw_string();
                let v = value_type.to_raw_string();
                out.append("{ [K in ");
                out.append(k.as_str());
                out.append("]: ");
                out.append(v.as_str());
                out.append(" }");
            },
            CollectedType::Raw(s) => out.append(s.as_str()),
        }
        proof { assert(out@ =~= render_collected(self@)); }
        out
    }
}

} // verus!
