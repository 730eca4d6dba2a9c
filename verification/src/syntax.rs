//! The TypeScript type syntax the collector reads, held as plain values, and
//! how the collector turns it into collected types: the conversion of a type
//! annotation, the names a props annotation refers to, the members of an
//! interface body, and the classification of a type alias.
//!
//! The parser's own tree never reaches this module: the reader walks it and
//! hands over a `TypeNode`. A type nested deeper than the reader descends, or
//! of a form the collector does not take apart, arrives as its source text.

use vstd::prelude::*;
use crate::jsdoc::{lemma_claim_is_fresh, spec_claim_jsdoc, spec_peek_jsdoc, JsDocIndex, OwnedComment};
use crate::render::render_collected;
use crate::collect::{strip_react_prefix, strip_react_prefix_exec};
use crate::text::str_eq;
use crate::types::{
    collected_fields_view, collected_seq_view, enum_entries_view, lemma_collected_view_children, strs_view,
    CollectedObjectField, CollectedType, CollectedTypeAlias, DefaultSource, EnumEntry, EnumValue, RawDefault,
    RawProp, SpecAlias, SpecCollected, SpecCollectedField, SpecEnumEntry, SpecEnumValue, SpecRawDefault,
    SpecRawProp,
};

verus! {

broadcast use vstd::seq_lib::group_seq_properties;

// ─── The syntax ──────────────────────────────────────────────────────────────

/// The keyword types.
#[derive(Clone, Copy, Debug, PartialEq, Eq, Structural)]
pub enum TypeKeyword {
    String,
    Number,
    Boolean,
    Null,
    Undefined,
    Any,
    Never,
    Unknown,
    Void,
    BigInt,
    Symbol,
    Object,
}

/// A property key as written.
#[derive(Debug)]
pub enum KeyNode {
    /// A plain identifier.
    Identifier(String),
    /// A string literal.
    StringLiteral(String),
    /// Another key whose name is known without evaluation (a number, a
    /// template without substitutions): that name.
    OtherStatic(String),
    /// A computed key.
    Computed,
}

/// A member of an object type literal or of an interface body.
#[derive(Debug)]
pub enum MemberNode {
    Property { key: KeyNode, annotation: Option<TypeNode>, optional: bool, span_start: u32, span_end: u32 },
    Method { key: KeyNode, optional: bool, span_start: u32, span_end: u32 },
    /// A call, construct or index signature.
    Other,
}

/// An element of a tuple type.
#[derive(Debug)]
pub enum TupleMember {
    /// `T?`
    Optional(TypeNode),
    /// `...T`
    Rest(TypeNode),
    /// Any other element, as its source text.
    Plain(String),
}

/// A piece of a template literal type, in source order.
#[derive(Debug)]
pub enum TemplatePart {
    /// Literal text between substitutions.
    Text(String),
    /// A `${...}` substitution.
    Slot(TypeNode),
}

/// A type as written.
#[derive(Debug)]
pub enum TypeNode {
    Keyword(TypeKeyword),
    StringLiteral(String),
    /// A numeric literal, as its canonical decimal text.
    NumberLiteral(String),
    BoolLiteral(bool),
    /// A type reference with its type arguments (none when it has none).
    Reference { name: String, args: Vec<TypeNode> },
    /// `typeof x`: the text of the queried name.
    Query(String),
    Union(Vec<TypeNode>),
    Intersection(Vec<TypeNode>),
    Array(Box<TypeNode>),
    Tuple(Vec<TupleMember>),
    /// An object type literal.
    Literal(Vec<MemberNode>),
    /// A function type: the annotation of each parameter, and the return type.
    Function { params: Vec<Option<TypeNode>>, return_type: Box<TypeNode> },
    IndexedAccess { object: Box<TypeNode>, index: Box<TypeNode> },
    Template(Vec<TemplatePart>),
    Conditional {
        check: Box<TypeNode>,
        extends_type: Box<TypeNode>,
        true_type: Box<TypeNode>,
        false_type: Box<TypeNode>,
    },
    /// A mapped type: its key constraint and its value type, if written.
    Mapped { constraint: Box<TypeNode>, annotation: Option<Box<TypeNode>> },
    Parenthesized(Box<TypeNode>),
    /// Any other type, or one nested too deep to read: its source text.
    Source(String),
}

// ─── What the collector makes of it ──────────────────────────────────────────

pub open spec fn keyword_collected(k: TypeKeyword) -> SpecCollected {
    match k {
        TypeKeyword::String => SpecCollected::String,
        TypeKeyword::Number => SpecCollected::Number,
        TypeKeyword::Boolean => SpecCollected::Boolean,
        TypeKeyword::Null => SpecCollected::Null,
        TypeKeyword::Undefined => SpecCollected::Undefined,
        TypeKeyword::Any => SpecCollected::Any,
        TypeKeyword::Never => SpecCollected::Never,
        TypeKeyword::Unknown => SpecCollected::Unknown,
        TypeKeyword::Void => SpecCollected::Void,
        TypeKeyword::BigInt => SpecCollected::BigInt,
        TypeKeyword::Symbol => SpecCollected::Symbol,
        TypeKeyword::Object => SpecCollected::Named { name: "object"@, args: Seq::empty() },
    }
}

/// The name an object-literal field goes by: identifier and string keys only.
pub open spec fn field_key(k: KeyNode) -> Option<Seq<char>> {
    match k {
        KeyNode::Identifier(s) => Some(s@),
        KeyNode::StringLiteral(s) => Some(s@),
        _ => None,
    }
}

/// The name an interface member goes by: any key with a static name.
pub open spec fn static_key(k: KeyNode) -> Option<Seq<char>> {
    match k {
        KeyNode::Identifier(s) => Some(s@),
        KeyNode::StringLiteral(s) => Some(s@),
        KeyNode::OtherStatic(s) => Some(s@),
        KeyNode::Computed => None,
    }
}

/// What a method signature is collected as: a function of unknown parameters.
pub open spec fn method_collected() -> SpecCollected {
    SpecCollected::Function { params: seq![SpecCollected::Raw("..."@)], return_type: Box::new(SpecCollected::Any) }
}

/// The present values of `s`, in order.
pub open spec fn somes<A>(s: Seq<Option<A>>) -> Seq<A>
    decreases s.len(),
{
    if s.len() == 0 {
        Seq::empty()
    } else {
        let rest = somes(s.drop_last());
        match s.last() {
            Some(a) => rest.push(a),
            None => rest,
        }
    }
}

proof fn lemma_somes_step<A>(s: Seq<Option<A>>, i: int)
    requires
        0 <= i < s.len(),
    ensures
        somes(s.take(i + 1)) == match s[i] {
            Some(a) => somes(s.take(i)).push(a),
            None => somes(s.take(i)),
        },
{
    assert(s.take(i + 1).drop_last() =~= s.take(i));
}

/// The collected form of a type, where `cs` and `consumed` are the file's
/// comments and the claims made so far (object-literal fields read their
/// description without claiming it).
pub open spec fn spec_collect(cs: Seq<OwnedComment>, consumed: Seq<u32>, n: TypeNode) -> SpecCollected
    decreases n, 3nat,
{
    match n {
        TypeNode::Keyword(k) => keyword_collected(k),
        TypeNode::StringLiteral(s) => SpecCollected::StringLiteral(s@),
        TypeNode::NumberLiteral(s) => SpecCollected::NumberLiteral(s@),
        TypeNode::BoolLiteral(b) => SpecCollected::BoolLiteral(b),
        TypeNode::Reference { name, args } => SpecCollected::Named {
            name: name@,
            args: collect_seq(cs, consumed, args@),
        },
        TypeNode::Query(s) => SpecCollected::TypeOf(s@),
        TypeNode::Union(v) => SpecCollected::Union(collect_seq(cs, consumed, v@)),
        TypeNode::Intersection(v) => SpecCollected::Intersection(collect_seq(cs, consumed, v@)),
        TypeNode::Array(b) => SpecCollected::Array(Box::new(spec_collect(cs, consumed, *b))),
        TypeNode::Tuple(v) => SpecCollected::Tuple(tuple_seq(cs, consumed, v@)),
        TypeNode::Literal(v) => SpecCollected::Object(member_fields(cs, consumed, v@)),
        TypeNode::Function { params, return_type } => SpecCollected::Function {
            params: param_seq(cs, consumed, params@),
            return_type: Box::new(spec_collect(cs, consumed, *return_type)),
        },
        TypeNode::IndexedAccess { object, index } => SpecCollected::IndexedAccess {
            obj: Box::new(spec_collect(cs, consumed, *object)),
            key: Box::new(spec_collect(cs, consumed, *index)),
        },
        TypeNode::Template(v) => SpecCollected::TemplateLiteral(template_seq(cs, consumed, v@)),
        TypeNode::Conditional { check, extends_type, true_type, false_type } => SpecCollected::Conditional {
            check: Box::new(spec_collect(cs, consumed, *check)),
            extends_type: Box::new(spec_collect(cs, consumed, *extends_type)),
            true_type: Box::new(spec_collect(cs, consumed, *true_type)),
            false_type: Box::new(spec_collect(cs, consumed, *false_type)),
        },
        TypeNode::Mapped { constraint, annotation } => SpecCollected::Mapped {
            key_type: Box::new(spec_collect(cs, consumed, *constraint)),
            value_type: Box::new(
                match annotation {
                    Some(t) => spec_collect(cs, consumed, *t),
                    None => SpecCollected::Unknown,
                },
            ),
        },
        TypeNode::Parenthesized(b) => spec_collect(cs, consumed, *b),
        TypeNode::Source(s) => SpecCollected::Raw(s@),
    }
}

pub open spec fn collect_seq(cs: Seq<OwnedComment>, consumed: Seq<u32>, v: Seq<TypeNode>) -> Seq<SpecCollected>
    decreases v, 2nat,
{
    Seq::new(v.len(), |i: int| if 0 <= i < v.len() { spec_collect(cs, consumed, v[i]) } else { SpecCollected::Any })
}

pub open spec fn tuple_member_collected(cs: Seq<OwnedComment>, consumed: Seq<u32>, m: TupleMember) -> SpecCollected
    decreases m, 1nat,
{
    match m {
        TupleMember::Optional(t) => SpecCollected::Union(seq![spec_collect(cs, consumed, t), SpecCollected::Undefined]),
        TupleMember::Rest(t) => SpecCollected::Array(Box::new(spec_collect(cs, consumed, t))),
        TupleMember::Plain(s) => SpecCollected::Raw(s@),
    }
}

pub open spec fn tuple_seq(cs: Seq<OwnedComment>, consumed: Seq<u32>, v: Seq<TupleMember>) -> Seq<SpecCollected>
    decreases v, 2nat,
{
    Seq::new(
        v.len(),
        |i: int| if 0 <= i < v.len() { tuple_member_collected(cs, consumed, v[i]) } else { SpecCollected::Any },
    )
}

/// The field an object-literal member becomes, if any.
pub open spec fn member_field(cs: Seq<OwnedComment>, consumed: Seq<u32>, m: MemberNode) -> Option<SpecCollectedField>
    decreases m, 1nat,
{
    match m {
        MemberNode::Property { key, annotation, optional, span_start, .. } => match field_key(key) {
            Some(name) => Some(
                SpecCollectedField {
                    name,
                    collected_type: match annotation {
                        Some(t) => spec_collect(cs, consumed, t),
                        None => SpecCollected::Any,
                    },
                    required: !optional,
                    description: spec_peek_jsdoc(cs, consumed, span_start),
                },
            ),
            None => None,
        },
        MemberNode::Method { key, optional, .. } => match field_key(key) {
            Some(name) => Some(
                SpecCollectedField {
                    name,
                    collected_type: method_collected(),
                    required: !optional,
                    description: Seq::empty(),
                },
            ),
            None => None,
        },
        MemberNode::Other => None,
    }
}

pub open spec fn member_options(cs: Seq<OwnedComment>, consumed: Seq<u32>, v: Seq<MemberNode>) -> Seq<
    Option<SpecCollectedField>,
>
    decreases v, 2nat,
{
    Seq::new(v.len(), |i: int| if 0 <= i < v.len() { member_field(cs, consumed, v[i]) } else { None })
}

pub open spec fn member_fields(cs: Seq<OwnedComment>, consumed: Seq<u32>, v: Seq<MemberNode>) -> Seq<
    SpecCollectedField,
>
    decreases v, 3nat,
{
    somes(member_options(cs, consumed, v))
}

pub open spec fn param_collected(cs: Seq<OwnedComment>, consumed: Seq<u32>, p: Option<TypeNode>) -> SpecCollected
    decreases p, 1nat,
{
    match p {
        Some(t) => spec_collect(cs, consumed, t),
        None => SpecCollected::Any,
    }
}

pub open spec fn param_seq(cs: Seq<OwnedComment>, consumed: Seq<u32>, v: Seq<Option<TypeNode>>) -> Seq<
    SpecCollected,
>
    decreases v, 2nat,
{
    Seq::new(v.len(), |i: int| if 0 <= i < v.len() { param_collected(cs, consumed, v[i]) } else { SpecCollected::Any })
}

/// What a template piece contributes: its text unless empty, or its type.
pub open spec fn template_part_collected(cs: Seq<OwnedComment>, consumed: Seq<u32>, p: TemplatePart) -> Option<
    SpecCollected,
>
    decreases p, 1nat,
{
    match p {
        TemplatePart::Text(s) => if s@.len() == 0 {
            None
        } else {
            Some(SpecCollected::StringLiteral(s@))
        },
        TemplatePart::Slot(t) => Some(spec_collect(cs, consumed, t)),
    }
}

pub open spec fn template_options(cs: Seq<OwnedComment>, consumed: Seq<u32>, v: Seq<TemplatePart>) -> Seq<
    Option<SpecCollected>,
>
    decreases v, 2nat,
{
    Seq::new(v.len(), |i: int| if 0 <= i < v.len() { template_part_collected(cs, consumed, v[i]) } else { None })
}

pub open spec fn template_seq(cs: Seq<OwnedComment>, consumed: Seq<u32>, v: Seq<TemplatePart>) -> Seq<SpecCollected>
    decreases v, 3nat,
{
    somes(template_options(cs, consumed, v))
}

// ─── Names, keys, aliases and members ────────────────────────────────────────

/// The text each type argument is recorded as.
pub open spec fn type_arg_texts(cs: Seq<OwnedComment>, consumed: Seq<u32>, v: Seq<TypeNode>) -> Seq<Seq<char>> {
    collect_seq(cs, consumed, v).map_values(|c: SpecCollected| render_collected(c))
}

/// Wrappers that leave the props type they wrap unchanged for the purpose of
/// naming it.
pub open spec fn is_transparent_wrapper(name: Seq<char>) -> bool {
    name == "PropsWithChildren"@ || name == "Readonly"@ || name == "Required"@
}

/// The name and type-argument texts of a simply named type, looking through
/// parentheses and transparent wrappers; `None` for any other type.
pub open spec fn spec_type_name(cs: Seq<OwnedComment>, consumed: Seq<u32>, n: TypeNode) -> Option<
    (Seq<char>, Seq<Seq<char>>),
>
    decreases n,
{
    match n {
        TypeNode::Reference { name, args } => if is_transparent_wrapper(name@) && args@.len() > 0 {
            spec_type_name(cs, consumed, args@[0])
        } else {
            Some((name@, type_arg_texts(cs, consumed, args@)))
        },
        TypeNode::Parenthesized(b) => spec_type_name(cs, consumed, *b),
        _ => None,
    }
}

/// A named type whose arguments are kept as their texts.
pub open spec fn named_base_of(name: Seq<char>, args: Seq<Seq<char>>) -> SpecCollected {
    SpecCollected::Named { name, args: args.map_values(|t: Seq<char>| SpecCollected::Raw(t)) }
}

/// A component's props type as its annotation gives it: a named type with
/// the texts of its arguments, or an inline type, recorded as an alias of its
/// own.
#[derive(Debug)]
pub enum PropsTypeRef {
    Named { name: String, args: Vec<String> },
    Inline(CollectedTypeAlias),
}

pub enum SpecPropsRef {
    Named { name: Seq<char>, args: Seq<Seq<char>> },
    Inline(SpecAlias),
}

impl View for PropsTypeRef {
    type V = SpecPropsRef;

    open spec fn view(&self) -> SpecPropsRef {
        match self {
            PropsTypeRef::Named { name, args } => SpecPropsRef::Named { name: name@, args: strs_view(args@) },
            PropsTypeRef::Inline(a) => SpecPropsRef::Inline(a@),
        }
    }
}

pub open spec fn props_ref_view(o: Option<PropsTypeRef>) -> Option<SpecPropsRef> {
    match o {
        Some(r) => Some(r@),
        None => None,
    }
}

/// The props type a component annotation gives: a simply named type (looking
/// through parentheses and transparent wrappers, as `spec_type_name`), or an
/// inline union, intersection or object type as an alias of its own.
pub open spec fn spec_props_type(cs: Seq<OwnedComment>, consumed: Seq<u32>, file: Seq<char>, n: TypeNode) -> Option<
    SpecPropsRef,
>
    decreases n,
{
    match n {
        TypeNode::Reference { name, args } => if is_transparent_wrapper(name@) && args@.len() > 0 {
            spec_props_type(cs, consumed, file, args@[0])
        } else {
            Some(SpecPropsRef::Named { name: name@, args: type_arg_texts(cs, consumed, args@) })
        },
        TypeNode::Parenthesized(b) => spec_props_type(cs, consumed, file, *b),
        TypeNode::Union(v) => Some(
            SpecPropsRef::Inline(SpecAlias::Union { members: collect_seq(cs, consumed, v@), file_path: file }),
        ),
        TypeNode::Intersection(v) => Some(
            SpecPropsRef::Inline(SpecAlias::Intersection { members: collect_seq(cs, consumed, v@), file_path: file }),
        ),
        TypeNode::Literal(_) => Some(
            SpecPropsRef::Inline(SpecAlias::Passthrough { target: spec_collect(cs, consumed, n), file_path: file }),
        ),
        _ => None,
    }
}

/// The string literal keys of a type such as `'a' | 'b'`, in order.
pub open spec fn union_keys(n: TypeNode) -> Seq<Seq<char>>
    decreases n, 1nat,
{
    match n {
        TypeNode::StringLiteral(s) => seq![s@],
        TypeNode::Union(v) => union_keys_seq(v@).flatten(),
        _ => Seq::empty(),
    }
}

pub open spec fn union_keys_seq(v: Seq<TypeNode>) -> Seq<Seq<Seq<char>>>
    decreases v, 0nat,
{
    Seq::new(v.len(), |i: int| if 0 <= i < v.len() { union_keys(v[i]) } else { Seq::empty() })
}

/// A union member that keeps a union a union of string literals.
pub open spec fn is_literal_member(n: TypeNode) -> bool {
    match n {
        TypeNode::StringLiteral(_) => true,
        TypeNode::Keyword(k) => k == TypeKeyword::Undefined || k == TypeKeyword::Null,
        _ => false,
    }
}

/// How a type alias is classified by the shape of its right-hand side:
/// `Omit`, `Pick`, `Partial`, `Required` and `Readonly` of a simply named
/// type, unions (of string literals, or any), intersections, and any other
/// type as itself; `None` for one of those utility types whose arguments do
/// not fit.
pub open spec fn spec_classify(cs: Seq<OwnedComment>, consumed: Seq<u32>, file: Seq<char>, n: TypeNode) -> Option<
    SpecAlias,
>
    decreases n,
{
    match n {
        TypeNode::Reference { name, args } => if name@ == "Omit"@ || name@ == "Pick"@ {
            if args@.len() < 2 {
                None
            } else {
                match spec_type_name(cs, consumed, args@[0]) {
                    None => None,
                    Some(named) => {
                        let base = named_base_of(named.0, named.1);
                        let keys = union_keys(args@[1]);
                        if name@ == "Omit"@ {
                            Some(SpecAlias::Omit { base, omitted_keys: keys, file_path: file })
                        } else {
                            Some(SpecAlias::Pick { base, picked_keys: keys, file_path: file })
                        }
                    },
                }
            }
        } else if name@ == "Partial"@ || name@ == "Required"@ || name@ == "Readonly"@ {
            if args@.len() == 0 {
                None
            } else {
                match spec_type_name(cs, consumed, args@[0]) {
                    None => None,
                    Some(named) => {
                        let base = named_base_of(named.0, named.1);
                        if name@ == "Partial"@ {
                            Some(SpecAlias::Partial { base, file_path: file })
                        } else if name@ == "Required"@ {
                            Some(SpecAlias::Required { base, file_path: file })
                        } else {
                            Some(SpecAlias::Passthrough { target: base, file_path: file })
                        }
                    },
                }
            }
        } else {
            Some(
                SpecAlias::Passthrough {
                    target: named_base_of(name@, type_arg_texts(cs, consumed, args@)),
                    file_path: file,
                },
            )
        },
        TypeNode::Union(v) => if forall|i: int| 0 <= i < v@.len() ==> is_literal_member(#[trigger] v@[i]) {
            Some(
                SpecAlias::LiteralUnion {
                    members: collect_seq(cs, consumed, v@).map_values(|c: SpecCollected| render_collected(c)),
                    file_path: file,
                },
            )
        } else {
            Some(SpecAlias::Union { members: collect_seq(cs, consumed, v@), file_path: file })
        },
        TypeNode::Intersection(v) => Some(SpecAlias::Intersection { members: collect_seq(cs, consumed, v@), file_path: file }),
        TypeNode::Parenthesized(b) => spec_classify(cs, consumed, file, *b),
        _ => Some(SpecAlias::Passthrough { target: spec_collect(cs, consumed, n), file_path: file }),
    }
}

/// The prop an interface member becomes, if any, and the claims afterwards:
/// the member's comment is claimed before its type is read, so a field of an
/// inline object type cannot take it.
pub open spec fn spec_member_prop(cs: Seq<OwnedComment>, consumed: Seq<u32>, m: MemberNode) -> (
    Option<SpecRawProp>,
    Seq<u32>,
) {
    match m {
        MemberNode::Property { key, annotation, optional, span_start, span_end } => match static_key(key) {
            None => (None, consumed),
            Some(name) => {
                let doc = spec_claim_jsdoc(cs, consumed, span_start);
                let collected_type = match annotation {
                    Some(t) => spec_collect(cs, doc.2, t),
                    None => SpecCollected::Any,
                };
                (
                    Some(
                        SpecRawProp {
                            name,
                            collected_type,
                            required: !optional,
                            description: doc.0,
                            tags: doc.1,
                            span_start,
                            span_end,
                        },
                    ),
                    doc.2,
                )
            },
        },
        MemberNode::Method { key, optional, span_start, span_end } => match static_key(key) {
            None => (None, consumed),
            Some(name) => {
                let doc = spec_claim_jsdoc(cs, consumed, span_start);
                (
                    Some(
                        SpecRawProp {
                            name,
                            collected_type: method_collected(),
                            required: !optional,
                            description: doc.0,
                            tags: doc.1,
                            span_start,
                            span_end,
                        },
                    ),
                    doc.2,
                )
            },
        },
        MemberNode::Other => (None, consumed),
    }
}

// ─── Components ──────────────────────────────────────────────────────────────

/// The function-component types whose first argument is the props type.
pub open spec fn is_fc_type_name(bare: Seq<char>) -> bool {
    bare == "FC"@ || bare == "FunctionComponent"@ || bare == "ComponentType"@ || bare == "VFC"@
        || bare == "VoidFunctionComponent"@ || bare == "ForwardRefComponent"@
}

/// Whether an annotation, looking through parentheses, names a
/// function-component type at all (whatever its props argument).
pub open spec fn spec_is_fc_family(n: TypeNode) -> bool
    decreases n,
{
    match n {
        TypeNode::Reference { name, .. } => is_fc_type_name(strip_react_prefix(name@)),
        TypeNode::Parenthesized(b) => spec_is_fc_family(*b),
        _ => false,
    }
}

/// The base class of a class component, `Component` or `PureComponent`
/// (bare or `React.`-qualified): its bare name, or `None` for any other.
pub open spec fn spec_component_class(super_name: Seq<char>) -> Option<Seq<char>> {
    let bare = strip_react_prefix(super_name);
    if bare == "Component"@ || bare == "PureComponent"@ {
        Some(bare)
    } else {
        None
    }
}

/// The props named by a component's type annotation such as
/// `React.FC<ButtonProps>`, looking through parentheses.
pub open spec fn spec_fc_props(cs: Seq<OwnedComment>, consumed: Seq<u32>, file: Seq<char>, n: TypeNode) -> Option<
    SpecPropsRef,
>
    decreases n,
{
    match n {
        TypeNode::Reference { name, args } => if is_fc_type_name(strip_react_prefix(name@)) && args@.len() > 0 {
            spec_props_type(cs, consumed, file, args@[0])
        } else {
            None
        },
        TypeNode::Parenthesized(b) => spec_fc_props(cs, consumed, file, *b),
        _ => None,
    }
}

/// The props of `forwardRef<Ref, Props>(...)`: its second type argument.
pub open spec fn spec_forward_ref_props(
    cs: Seq<OwnedComment>,
    consumed: Seq<u32>,
    file: Seq<char>,
    callee: Seq<char>,
    type_args: Seq<TypeNode>,
) -> Option<SpecPropsRef> {
    if (callee == "forwardRef"@ || callee == "React.forwardRef"@) && type_args.len() >= 2 {
        spec_props_type(cs, consumed, file, type_args[1])
    } else {
        None
    }
}

pub open spec fn is_ref_attributes(c: SpecCollected) -> bool {
    c matches SpecCollected::Named { name, .. } && (name == "RefAttributes"@ || name == "React.RefAttributes"@)
}

/// The index of the first member that is not `RefAttributes<..>`, or -1.
pub open spec fn first_non_ref(ms: Seq<SpecCollected>) -> int
    decreases ms.len(),
{
    if ms.len() == 0 {
        -1
    } else if !is_ref_attributes(ms[0]) {
        0
    } else {
        let r = first_non_ref(ms.drop_first());
        if r < 0 {
            -1
        } else {
            r + 1
        }
    }
}

/// The props of a declared `ForwardRefExoticComponent<P & RefAttributes<E>>`
/// (or of `ForwardRefExoticComponent<P>`): the name of `P` and the texts of
/// its arguments.
pub open spec fn spec_exotic_props(c: SpecCollected) -> Option<(Seq<char>, Seq<Seq<char>>)> {
    match c {
        SpecCollected::Named { name, args } => if (name == "ForwardRefExoticComponent"@ || name
            == "React.ForwardRefExoticComponent"@) && args.len() > 0 {
            let first = args[0];
            let props = match first {
                SpecCollected::Intersection(ms) => if first_non_ref(ms) >= 0 {
                    ms[first_non_ref(ms)]
                } else {
                    first
                },
                _ => first,
            };
            match props {
                SpecCollected::Named { name: pn, args: pa } => Some(
                    (pn, pa.map_values(|a: SpecCollected| render_collected(a))),
                ),
                _ => None,
            }
        } else {
            None
        },
        _ => None,
    }
}

/// The props an interface body declares, in order, and the claims
/// afterwards; each member is read with the claims its predecessors made.
pub open spec fn spec_interface_props(cs: Seq<OwnedComment>, consumed: Seq<u32>, ms: Seq<MemberNode>) -> (
    Seq<SpecRawProp>,
    Seq<u32>,
)
    decreases ms.len(),
{
    if ms.len() == 0 {
        (Seq::empty(), consumed)
    } else {
        let before = spec_interface_props(cs, consumed, ms.drop_last());
        let step = spec_member_prop(cs, before.1, ms.last());
        (
            match step.0 {
                Some(p) => before.0.push(p),
                None => before.0,
            },
            step.1,
        )
    }
}

/// Reading an interface body claims no comment twice: where no claim was
/// repeated before, none is afterwards, and the earlier claims stay in place.
/// So no two props take their description or tags from one comment.
pub proof fn law_interface_claims_distinct(cs: Seq<OwnedComment>, consumed: Seq<u32>, members: Seq<MemberNode>)
    requires
        consumed.no_duplicates(),
    ensures
        spec_interface_props(cs, consumed, members).1.no_duplicates(),
        consumed.is_prefix_of(spec_interface_props(cs, consumed, members).1),
    decreases members.len(),
{
    if members.len() > 0 {
        law_interface_claims_distinct(cs, consumed, members.drop_last());
        let before = spec_interface_props(cs, consumed, members.drop_last()).1;
        let m = members.last();
        let after = spec_member_prop(cs, before, m).1;
        let at = match m {
            MemberNode::Property { span_start, .. } => span_start,
            MemberNode::Method { span_start, .. } => span_start,
            MemberNode::Other => 0,
        };
        if after != before {
            lemma_claim_is_fresh(cs, before, at);
            assert(after == spec_claim_jsdoc(cs, before, at).2);
            assert forall|i: int, j: int| 0 <= i < j < after.len() implies after[i] != after[j] by {
                if j == after.len() - 1 {
                    assert(before.contains(before[i]));
                }
            }
        }
        assert(consumed.is_prefix_of(after)) by {
            assert forall|i: int| 0 <= i < consumed.len() implies consumed[i] == after[i] by {
                assert(consumed[i] == before[i]);
            }
        }
    }
}

// ─── Default values ──────────────────────────────────────────────────────────

/// The initializer of a destructured parameter, as far as a default value
/// reads it.
#[derive(Debug)]
pub enum DefaultExpr {
    /// A string literal: its value.
    String(String),
    /// A numeric literal: its canonical decimal text.
    Number(String),
    Bool(bool),
    Null,
    /// A plain identifier: its name.
    Identifier(String),
    /// An array or object literal: its source text.
    ArrayOrObject(String),
    /// Any other expression: its source text.
    Other(String),
}

/// The default value an initializer gives: literals as their text, array and
/// object literals as written, anything else as computed source text.
pub open spec fn spec_default(e: DefaultExpr, source: DefaultSource) -> SpecRawDefault {
    match e {
        DefaultExpr::String(s) => plain_default("\""@ + s@ + "\""@, source),
        DefaultExpr::Number(t) => plain_default(t@, source),
        DefaultExpr::Bool(b) => plain_default(if b { "true"@ } else { "false"@ }, source),
        DefaultExpr::Null => plain_default("null"@, source),
        DefaultExpr::Identifier(n) => if n@ == "undefined"@ {
            plain_default("undefined"@, source)
        } else {
            computed_default(n@, source)
        },
        DefaultExpr::ArrayOrObject(t) => plain_default(t@, source),
        DefaultExpr::Other(t) => computed_default(t@, source),
    }
}

pub open spec fn plain_default(v: Seq<char>, source: DefaultSource) -> SpecRawDefault {
    SpecRawDefault { value: v, computed: false, source }
}

pub open spec fn computed_default(v: Seq<char>, source: DefaultSource) -> SpecRawDefault {
    SpecRawDefault { value: v, computed: true, source }
}

/// The position of the first entry keyed `k`, or -1.
pub open spec fn key_index<V>(ps: Seq<(Seq<char>, V)>, k: Seq<char>) -> int
    decreases ps.len(),
{
    if ps.len() == 0 {
        -1
    } else if ps[0].0 == k {
        0
    } else {
        let r = key_index(ps.drop_first(), k);
        if r < 0 {
            -1
        } else {
            r + 1
        }
    }
}

/// `ps` with `k` set to `v`: in place where `k` is present, appended where not.
pub open spec fn keyed_set<V>(ps: Seq<(Seq<char>, V)>, k: Seq<char>, v: V) -> Seq<(Seq<char>, V)> {
    let i = key_index(ps, k);
    if i < 0 {
        ps.push((k, v))
    } else {
        ps.update(i, (k, v))
    }
}

/// The defaults given by `es`, by name, from the given source; a name given
/// twice keeps its last value.
pub open spec fn spec_defaults(es: Seq<(String, DefaultExpr)>, source: DefaultSource) -> Seq<(Seq<char>, SpecRawDefault)>
    decreases es.len(),
{
    if es.len() == 0 {
        Seq::empty()
    } else {
        keyed_set(spec_defaults(es.drop_last(), source), es.last().0@, spec_default(es.last().1, source))
    }
}

/// The defaults of a destructured parameter, by name; a name given twice
/// keeps its last initializer.
pub open spec fn spec_param_defaults(es: Seq<(String, DefaultExpr)>) -> Seq<(Seq<char>, SpecRawDefault)> {
    spec_defaults(es, DefaultSource::Destructuring)
}

pub open spec fn defaults_view(v: Seq<(String, RawDefault)>) -> Seq<(Seq<char>, SpecRawDefault)> {
    v.map_values(|p: (String, RawDefault)| (p.0@, p.1@))
}

// ─── Enums ───────────────────────────────────────────────────────────────────

/// A member of an enum, or a property of an `as const` object, as read: its
/// name, its literal value if it has one, and where it starts.
#[derive(Debug)]
pub struct EnumMemberNode {
    pub name: String,
    pub value: Option<EnumValue>,
    pub span_start: u32,
}

/// The entry an enum member becomes, if any, and the claims afterwards. A
/// member without a literal value is named by itself where `unvalued_as_name`
/// holds (an enum member), and skipped otherwise (an object property).
pub open spec fn spec_enum_entry(cs: Seq<OwnedComment>, consumed: Seq<u32>, m: EnumMemberNode, unvalued_as_name: bool) -> (
    Option<SpecEnumEntry>,
    Seq<u32>,
) {
    let value = match m.value {
        Some(v) => Some(v@),
        None => if unvalued_as_name {
            Some(SpecEnumValue::String(m.name@))
        } else {
            None
        },
    };
    match value {
        Some(v) => {
            let doc = spec_claim_jsdoc(cs, consumed, m.span_start);
            (Some(SpecEnumEntry { name: m.name@, value: v, description: doc.0 }), doc.2)
        },
        None => (None, consumed),
    }
}

/// The entries of an enum's members, in order, and the claims afterwards.
pub open spec fn spec_enum_entries(
    cs: Seq<OwnedComment>,
    consumed: Seq<u32>,
    ms: Seq<EnumMemberNode>,
    unvalued_as_name: bool,
) -> (Seq<SpecEnumEntry>, Seq<u32>)
    decreases ms.len(),
{
    if ms.len() == 0 {
        (Seq::empty(), consumed)
    } else {
        let before = spec_enum_entries(cs, consumed, ms.drop_last(), unvalued_as_name);
        let step = spec_enum_entry(cs, before.1, ms.last(), unvalued_as_name);
        (
            match step.0 {
                Some(e) => before.0.push(e),
                None => before.0,
            },
            step.1,
        )
    }
}

// ─── Variant tables of `cva()`-like calls ────────────────────────────────────

/// An argument of a call, as far as a variant table reads it.
#[derive(Debug)]
pub enum LiteralExpr {
    /// An object literal and its members, in order.
    Object(Vec<ObjectMember>),
    /// A spread argument `...x`.
    Spread,
    /// Any other expression.
    Other,
}

/// A member of an object literal.
#[derive(Debug)]
pub enum ObjectMember {
    Property { key: KeyNode, value: LiteralExpr },
    /// A spread member `...x`.
    Spread,
}

/// The functions whose call defines a variant table.
pub open spec fn is_variant_function(callee: Seq<char>) -> bool {
    callee == "cva"@ || callee == "tv"@ || callee == "defineRecipe"@ || callee == "recipe"@ || callee
        == "defineSlotRecipe"@
}

/// The entries one variant contributes: one per value name, each named by
/// the variant, with the value name as its string value.
pub open spec fn variant_value_entries(variant: Seq<char>, values: Seq<ObjectMember>) -> Seq<SpecEnumEntry> {
    somes(
        Seq::new(
            values.len(),
            |i: int|
                match values[i] {
                    ObjectMember::Property { key, .. } => match field_key(key) {
                        Some(v) => Some(
                            SpecEnumEntry { name: variant, value: SpecEnumValue::String(v), description: Seq::empty() },
                        ),
                        None => None,
                    },
                    ObjectMember::Spread => None,
                },
        ),
    )
}

/// The entries of a `variants` object: each variant whose key is an
/// identifier or a string and whose value is an object, in order.
pub open spec fn variants_entries(variants: Seq<ObjectMember>) -> Seq<SpecEnumEntry> {
    Seq::new(
        variants.len(),
        |i: int|
            match variants[i] {
                ObjectMember::Property { key, value: LiteralExpr::Object(values) } => match field_key(key) {
                    Some(k) => variant_value_entries(k, values@),
                    None => Seq::empty(),
                },
                _ => Seq::empty(),
            },
    ).flatten()
}

/// Whether a config member is `variants: { ... }`.
pub open spec fn is_variants_member(m: ObjectMember) -> bool {
    m matches ObjectMember::Property { key: KeyNode::Identifier(k), value: LiteralExpr::Object(_) } && k@
        == "variants"@
}

/// The position of the first `variants: { ... }` member, or -1.
pub open spec fn variants_index(ms: Seq<ObjectMember>) -> int
    decreases ms.len(),
{
    if ms.len() == 0 {
        -1
    } else if is_variants_member(ms[0]) {
        0
    } else {
        let r = variants_index(ms.drop_first());
        if r < 0 {
            -1
        } else {
            r + 1
        }
    }
}

/// The variant table a call defines: `cva(base, config)` takes its config
/// second, the other variant functions first; the table is read from the
/// config's first `variants` object.
pub open spec fn spec_cva_entries(callee: Seq<char>, args: Seq<LiteralExpr>) -> Seq<SpecEnumEntry> {
    let at: int = if callee == "cva"@ { 1 } else { 0 };
    if is_variant_function(callee) && at < args.len() {
        match args[at] {
            LiteralExpr::Object(config) => {
                let k = variants_index(config@);
                if k >= 0 {
                    match config@[k] {
                        ObjectMember::Property { value: LiteralExpr::Object(variants), .. } => variants_entries(
                            variants@,
                        ),
                        _ => Seq::empty(),
                    }
                } else {
                    Seq::empty()
                }
            },
            _ => Seq::empty(),
        }
    } else {
        Seq::empty()
    }
}

// ─── The conversion ──────────────────────────────────────────────────────────

fn keyword_to_collected(k: TypeKeyword) -> (res: CollectedType)
    ensures
        res@ == keyword_collected(k),
{
    let res = match k {
        TypeKeyword::String => CollectedType::String,
        TypeKeyword::Number => CollectedType::Number,
        TypeKeyword::Boolean => CollectedType::Boolean,
        TypeKeyword::Null => CollectedType::Null,
        TypeKeyword::Undefined => CollectedType::Undefined,
        TypeKeyword::Any => CollectedType::Any,
        TypeKeyword::Never => CollectedType::Never,
        TypeKeyword::Unknown => CollectedType::Unknown,
        TypeKeyword::Void => CollectedType::Void,
        TypeKeyword::BigInt => CollectedType::BigInt,
        TypeKeyword::Symbol => CollectedType::Symbol,
        TypeKeyword::Object => CollectedType::Named { name: "object".to_owned(), args: Vec::new() },
    };
    proof {
        lemma_collected_view_children(res);
        if k == TypeKeyword::Object {
            assert(collected_seq_view(Seq::<CollectedType>::empty()) =~= Seq::empty());
        }
    }
    res
}

fn method_type() -> (res: CollectedType)
    ensures
        res@ == method_collected(),
{
    let params = vec![CollectedType::Raw("...".to_owned())];
    let res = CollectedType::Function { params, return_type: Box::new(CollectedType::Any) };
    proof {
        lemma_collected_view_children(res);
        assert(collected_seq_view(params@) =~= seq![SpecCollected::Raw("..."@)]);
    }
    res
}

fn field_key_of(k: &KeyNode) -> (res: Option<String>)
    ensures
        crate::types::opt_str_view(res) == field_key(*k),
{
    match k {
        KeyNode::Identifier(s) => Some(s.clone()),
        KeyNode::StringLiteral(s) => Some(s.clone()),
        _ => None,
    }
}

fn static_key_of(k: &KeyNode) -> (res: Option<String>)
    ensures
        crate::types::opt_str_view(res) == static_key(*k),
{
    match k {
        KeyNode::Identifier(s) => Some(s.clone()),
        KeyNode::StringLiteral(s) => Some(s.clone()),
        KeyNode::OtherStatic(s) => Some(s.clone()),
        KeyNode::Computed => None,
    }
}

/// The part of the per-file collector that reads types: the file being read,
/// and its comments with the claims made so far.
pub struct TypeCollector {
    pub file_path: String,
    pub jsdoc: JsDocIndex,
}

impl TypeCollector {
    pub fn new(file_path: String, jsdoc: JsDocIndex) -> (res: Self)
        ensures
            res.file_path@ == file_path@,
            res.jsdoc.comments@ == jsdoc.comments@,
            res.jsdoc.consumed@ == jsdoc.consumed@,
    {
        TypeCollector { file_path, jsdoc }
    }

    /// What `n` is collected as, given the claims made so far.
    pub open spec fn collected(&self, n: TypeNode) -> SpecCollected {
        spec_collect(self.jsdoc.comments@, self.jsdoc.consumed@, n)
    }

    /// Converts a type as written into its collected form.
    pub fn ts_type_to_collected(&self, node: &TypeNode) -> (res: CollectedType)
        ensures
            res@ == self.collected(*node),
        decreases node, 1nat,
    {
        let res = match node {
            TypeNode::Keyword(k) => keyword_to_collected(*k),
            TypeNode::StringLiteral(s) => CollectedType::StringLiteral(s.clone()),
            TypeNode::NumberLiteral(s) => CollectedType::NumberLiteral(s.clone()),
            TypeNode::BoolLiteral(b) => CollectedType::BoolLiteral(*b),
            TypeNode::Reference { name, args } => {
                proof { assert(decreases_to!(*node => node->Reference_args)); }
                CollectedType::Named { name: name.clone(), args: self.collect_list(args) }
            },
            TypeNode::Query(s) => CollectedType::TypeOf(s.clone()),
            TypeNode::Union(v) => {
                proof { assert(decreases_to!(*node => node->Union_0)); }
                CollectedType::Union(self.collect_list(v))
            },
            TypeNode::Intersection(v) => {
                proof { assert(decreases_to!(*node => node->Intersection_0)); }
                CollectedType::Intersection(self.collect_list(v))
            },
            TypeNode::Array(b) => CollectedType::Array(Box::new(self.ts_type_to_collected(&**b))),
            TypeNode::Tuple(v) => {
                proof { assert(decreases_to!(*node => node->Tuple_0)); }
                CollectedType::Tuple(self.collect_tuple(v))
            },
            TypeNode::Literal(v) => {
                proof { assert(decreases_to!(*node => node->Literal_0)); }
                CollectedType::Object(self.collect_fields(v))
            },
            TypeNode::Function { params, return_type } => {
                proof { assert(decreases_to!(*node => node->Function_params)); }
                let ps = self.collect_params(params);
                let r = self.ts_type_to_collected(&**return_type);
                CollectedType::Function { params: ps, return_type: Box::new(r) }
            },
            TypeNode::IndexedAccess { object, index } => {
                let o = self.ts_type_to_collected(&**object);
                let k = self.ts_type_to_collected(&**index);
                CollectedType::IndexedAccess { obj: Box::new(o), key: Box::new(k) }
            },
            TypeNode::Template(v) => {
                proof { assert(decreases_to!(*node => node->Template_0)); }
                CollectedType::TemplateLiteral(self.collect_template(v))
            },
            TypeNode::Conditional { check, extends_type, true_type, false_type } => {
                let c = self.ts_type_to_collected(&**check);
                let e = self.ts_type_to_collected(&**extends_type);
                let t = self.ts_type_to_collected(&**true_type);
                let f = self.ts_type_to_collected(&**false_type);
                CollectedType::Conditional {
                    check: Box::new(c),
                    extends_type: Box::new(e),
                    true_type: Box::new(t),
                    false_type: Box::new(f),
                }
            },
            TypeNode::Mapped { constraint, annotation } => {
                let k = self.ts_type_to_collected(&**constraint);
                let v = match annotation {
                    Some(t) => self.ts_type_to_collected(&**t),
                    None => CollectedType::Unknown,
                };
                CollectedType::Mapped { key_type: Box::new(k), value_type: Box::new(v) }
            },
            TypeNode::Parenthesized(b) => self.ts_type_to_collected(&**b),
            TypeNode::Source(s) => CollectedType::Raw(s.clone()),
        };
        proof { lemma_collected_view_children(res); }
        res
    }

    fn collect_list(&self, v: &Vec<TypeNode>) -> (res: Vec<CollectedType>)
        ensures
            collected_seq_view(res@) == collect_seq(self.jsdoc.comments@, self.jsdoc.consumed@, v@),
        decreases v@, 0nat,
    {
        let ghost target = collect_seq(self.jsdoc.comments@, self.jsdoc.consumed@, v@);
        let mut out: Vec<CollectedType> = Vec::new();
        let mut i: usize = 0;
        while i < v.len()
            invariant
                i <= v.len(),
                out@.len() == i,
                target == collect_seq(self.jsdoc.comments@, self.jsdoc.consumed@, v@),
                forall|j: int| 0 <= j < i ==> out@[j]@ == target[j],
            decreases v.len() - i,
        {
            proof { assert(decreases_to!(v@ => v@[i as int])); }
            let c = self.ts_type_to_collected(&v[i]);
            out.push(c);
            i = i + 1;
        }
        proof { assert(collected_seq_view(out@) =~= target); }
        out
    }

    fn collect_tuple(&self, v: &Vec<TupleMember>) -> (res: Vec<CollectedType>)
        ensures
            collected_seq_view(res@) == tuple_seq(self.jsdoc.comments@, self.jsdoc.consumed@, v@),
        decreases v@, 0nat,
    {
        let ghost target = tuple_seq(self.jsdoc.comments@, self.jsdoc.consumed@, v@);
        let mut out: Vec<CollectedType> = Vec::new();
        let mut i: usize = 0;
        while i < v.len()
            invariant
                i <= v.len(),
                out@.len() == i,
                target == tuple_seq(self.jsdoc.comments@, self.jsdoc.consumed@, v@),
                forall|j: int| 0 <= j < i ==> out@[j]@ == target[j],
            decreases v.len() - i,
        {
            proof { assert(decreases_to!(v@ => v@[i as int])); }
            let c = match &v[i] {
                TupleMember::Optional(t) => {
                    let inner = self.ts_type_to_collected(t);
                    let parts = vec![inner, CollectedType::Undefined];
                    let u = CollectedType::Union(parts);
                    proof {
                        lemma_collected_view_children(u);
                        assert(collected_seq_view(parts@) =~= seq![inner@, SpecCollected::Undefined]);
                    }
                    u
                },
                TupleMember::Rest(t) => CollectedType::Array(Box::new(self.ts_type_to_collected(t))),
                TupleMember::Plain(s) => CollectedType::Raw(s.clone()),
            };
            out.push(c);
            i = i + 1;
        }
        proof { assert(collected_seq_view(out@) =~= target); }
        out
    }

    fn collect_params(&self, v: &Vec<Option<TypeNode>>) -> (res: Vec<CollectedType>)
        ensures
            collected_seq_view(res@) == param_seq(self.jsdoc.comments@, self.jsdoc.consumed@, v@),
        decreases v@, 0nat,
    {
        let ghost target = param_seq(self.jsdoc.comments@, self.jsdoc.consumed@, v@);
        let mut out: Vec<CollectedType> = Vec::new();
        let mut i: usize = 0;
        while i < v.len()
            invariant
                i <= v.len(),
                out@.len() == i,
                target == param_seq(self.jsdoc.comments@, self.jsdoc.consumed@, v@),
                forall|j: int| 0 <= j < i ==> out@[j]@ == target[j],
            decreases v.len() - i,
        {
            proof { assert(decreases_to!(v@ => v@[i as int])); }
            let c = match &v[i] {
                Some(t) => self.ts_type_to_collected(t),
                None => CollectedType::Any,
            };
            out.push(c);
            i = i + 1;
        }
        proof { assert(collected_seq_view(out@) =~= target); }
        out
    }

    fn member_to_field(&self, m: &MemberNode) -> (res: Option<CollectedObjectField>)
        ensures
            match res {
                Some(f) => member_field(self.jsdoc.comments@, self.jsdoc.consumed@, *m) == Some(f@),
                None => member_field(self.jsdoc.comments@, self.jsdoc.consumed@, *m) is None,
            },
        decreases m, 0nat,
    {
        match m {
            MemberNode::Property { key, annotation, optional, span_start, .. } => match field_key_of(key) {
                Some(name) => {
                    let collected_type = match annotation {
                        Some(t) => self.ts_type_to_collected(t),
                        None => CollectedType::Any,
                    };
                    let description = self.jsdoc.peek_jsdoc(*span_start);
                    Some(CollectedObjectField { name, collected_type, required: !*optional, description })
                },
                None => None,
            },
            MemberNode::Method { key, optional, .. } => match field_key_of(key) {
                Some(name) => Some(
                    CollectedObjectField {
                        name,
                        collected_type: method_type(),
                        required: !*optional,
                        description: String::new(),
                    },
                ),
                None => None,
            },
            MemberNode::Other => None,
        }
    }

    fn collect_fields(&self, v: &Vec<MemberNode>) -> (res: Vec<CollectedObjectField>)
        ensures
            collected_fields_view(res@) == member_fields(self.jsdoc.comments@, self.jsdoc.consumed@, v@),
        decreases v@, 0nat,
    {
        let ghost opts = member_options(self.jsdoc.comments@, self.jsdoc.consumed@, v@);
        let mut out: Vec<CollectedObjectField> = Vec::new();
        let mut i: usize = 0;
        proof { assert(opts.take(0) =~= Seq::empty()); }
        while i < v.len()
            invariant
                i <= v.len(),
                opts == member_options(self.jsdoc.comments@, self.jsdoc.consumed@, v@),
                collected_fields_view(out@) == somes(opts.take(i as int)),
            decreases v.len() - i,
        {
            proof {
                assert(decreases_to!(v@ => v@[i as int]));
                lemma_somes_step(opts, i as int);
            }
            let f = self.member_to_field(&v[i]);
            match f {
                Some(f) => {
                    let ghost before = out@;
                    out.push(f);
                    proof { assert(collected_fields_view(out@) =~= collected_fields_view(before).push(f@)); }
                },
                None => {},
            }
            i = i + 1;
        }
        proof { assert(opts.take(v@.len() as int) =~= opts); }
        out
    }

    fn collect_template(&self, v: &Vec<TemplatePart>) -> (res: Vec<CollectedType>)
        ensures
            collected_seq_view(res@) == template_seq(self.jsdoc.comments@, self.jsdoc.consumed@, v@),
        decreases v@, 0nat,
    {
        let ghost opts = template_options(self.jsdoc.comments@, self.jsdoc.consumed@, v@);
        let mut out: Vec<CollectedType> = Vec::new();
        let mut i: usize = 0;
        proof { assert(opts.take(0) =~= Seq::empty()); }
        while i < v.len()
            invariant
                i <= v.len(),
                opts == template_options(self.jsdoc.comments@, self.jsdoc.consumed@, v@),
                collected_seq_view(out@) == somes(opts.take(i as int)),
            decreases v.len() - i,
        {
            proof {
                assert(decreases_to!(v@ => v@[i as int]));
                lemma_somes_step(opts, i as int);
            }
            let ghost before = out@;
            match &v[i] {
                TemplatePart::Text(s) => {
                    if !s.as_str().is_empty() {
                        out.push(CollectedType::StringLiteral(s.clone()));
                    }
                },
                TemplatePart::Slot(t) => {
                    let c = self.ts_type_to_collected(t);
                    out.push(c);
                },
            }
            proof {
                if out@.len() > before.len() {
                    assert(collected_seq_view(out@) =~= collected_seq_view(before).push(out@[before.len() as int]@));
                }
            }
            i = i + 1;
        }
        proof { assert(opts.take(v@.len() as int) =~= opts); }
        out
    }
}

fn is_transparent_wrapper_name(name: &str) -> (res: bool)
    ensures
        res == is_transparent_wrapper(name@),
{
    str_eq(name, "PropsWithChildren") || str_eq(name, "Readonly") || str_eq(name, "Required")
}

/// Each text as a raw collected type.
fn raw_types(texts: Vec<String>) -> (res: Vec<CollectedType>)
    ensures
        collected_seq_view(res@) == strs_view(texts@).map_values(|t: Seq<char>| SpecCollected::Raw(t)),
{
    let mut out: Vec<CollectedType> = Vec::new();
    let mut i: usize = 0;
    while i < texts.len()
        invariant
            i <= texts.len(),
            out@.len() == i,
            forall|j: int| 0 <= j < i ==> out@[j]@ == SpecCollected::Raw(texts@[j]@),
        decreases texts.len() - i,
    {
        out.push(CollectedType::Raw(texts[i].clone()));
        i = i + 1;
    }
    proof {
        assert(collected_seq_view(out@) =~= strs_view(texts@).map_values(|t: Seq<char>| SpecCollected::Raw(t)));
    }
    out
}

fn named_base(name: String, args: Vec<String>) -> (res: CollectedType)
    ensures
        res@ == named_base_of(name@, strs_view(args@)),
{
    let res = CollectedType::Named { name, args: raw_types(args) };
    proof { lemma_collected_view_children(res); }
    res
}

/// The string literal keys of a type such as `'a' | 'b'`, in order.
pub fn collect_string_union_keys(n: &TypeNode) -> (res: Vec<String>)
    ensures
        strs_view(res@) == union_keys(*n),
    decreases n,
{
    match n {
        TypeNode::StringLiteral(s) => {
            let res = vec![s.clone()];
            proof { assert(strs_view(res@) =~= seq![s@]); }
            res
        },
        TypeNode::Union(v) => {
            let ghost pieces = union_keys_seq(v@);
            let mut out: Vec<String> = Vec::new();
            let mut i: usize = 0;
            proof { assert(pieces.take(0) =~= Seq::<Seq<Seq<char>>>::empty()); }
            while i < v.len()
                invariant
                    i <= v.len(),
                    pieces == union_keys_seq(v@),
                    *n == TypeNode::Union(*v),
                    strs_view(out@) == pieces.take(i as int).flatten(),
                decreases v.len() - i,
            {
                proof {
                    assert(decreases_to!(*n => n->Union_0));
                    assert(decreases_to!(v@ => v@[i as int]));
                }
                let mut keys = collect_string_union_keys(&v[i]);
                let ghost before = out@;
                let ghost added = keys@;
                out.append(&mut keys);
                proof {
                    assert(pieces.take(i + 1) =~= pieces.take(i as int).push(pieces[i as int]));
                    pieces.take(i as int).lemma_flatten_push(pieces[i as int]);
                    assert(strs_view(out@) =~= strs_view(before) + strs_view(added));
                }
                i = i + 1;
            }
            proof { assert(pieces.take(v@.len() as int) =~= pieces); }
            out
        },
        _ => Vec::new(),
    }
}

impl TypeCollector {
    /// The text each type argument is recorded as.
    pub fn extract_type_args(&self, args: &Vec<TypeNode>) -> (res: Vec<String>)
        ensures
            strs_view(res@) == type_arg_texts(self.jsdoc.comments@, self.jsdoc.consumed@, args@),
    {
        let collected = self.collect_list(args);
        let ghost target = type_arg_texts(self.jsdoc.comments@, self.jsdoc.consumed@, args@);
        let mut out: Vec<String> = Vec::new();
        let mut i: usize = 0;
        while i < collected.len()
            invariant
                i <= collected.len(),
                collected_seq_view(collected@) == collect_seq(self.jsdoc.comments@, self.jsdoc.consumed@, args@),
                target == type_arg_texts(self.jsdoc.comments@, self.jsdoc.consumed@, args@),
                out@.len() == i,
                forall|j: int| 0 <= j < i ==> out@[j]@ == target[j],
            decreases collected.len() - i,
        {
            out.push(collected[i].to_raw_string());
            i = i + 1;
        }
        proof { assert(strs_view(out@) =~= target); }
        out
    }

    /// The name and type-argument texts of a simply named type, looking
    /// through parentheses and `PropsWithChildren`, `Readonly`, `Required`.
    pub fn extract_type_name_from_type(&self, n: &TypeNode) -> (res: Option<(String, Vec<String>)>)
        ensures
            match res {
                Some(p) => spec_type_name(self.jsdoc.comments@, self.jsdoc.consumed@, *n) == Some(
                    (p.0@, strs_view(p.1@)),
                ),
                None => spec_type_name(self.jsdoc.comments@, self.jsdoc.consumed@, *n) is None,
            },
        decreases n,
    {
        match n {
            TypeNode::Reference { name, args } => {
                if is_transparent_wrapper_name(name.as_str()) && args.len() > 0 {
                    proof {
                        assert(decreases_to!(*n => n->Reference_args));
                        assert(decreases_to!(args@ => args@[0]));
                    }
                    self.extract_type_name_from_type(&args[0])
                } else {
                    Some((name.clone(), self.extract_type_args(args)))
                }
            },
            TypeNode::Parenthesized(b) => self.extract_type_name_from_type(&**b),
            _ => None,
        }
    }

    /// Classifies a type alias by the shape of its right-hand side.
    pub fn classify_type_alias(&self, n: &TypeNode) -> (res: Option<CollectedTypeAlias>)
        ensures
            match res {
                Some(a) => spec_classify(self.jsdoc.comments@, self.jsdoc.consumed@, self.file_path@, *n) == Some(a@),
                None => spec_classify(self.jsdoc.comments@, self.jsdoc.consumed@, self.file_path@, *n) is None,
            },
        decreases n,
    {
        let file_path = self.file_path.clone();
        match n {
            TypeNode::Reference { name, args } => {
                let is_omit = str_eq(name.as_str(), "Omit");
                let is_partial = str_eq(name.as_str(), "Partial");
                let is_required = str_eq(name.as_str(), "Required");
                if is_omit || str_eq(name.as_str(), "Pick") {
                    if args.len() < 2 {
                        return None;
                    }
                    let named = self.extract_type_name_from_type(&args[0]);
                    match named {
                        None => None,
                        Some((base_name, base_args)) => {
                            let base = named_base(base_name, base_args);
                            let keys = collect_string_union_keys(&args[1]);
                            if is_omit {
                                Some(CollectedTypeAlias::Omit { base, omitted_keys: keys, file_path })
                            } else {
                                Some(CollectedTypeAlias::Pick { base, picked_keys: keys, file_path })
                            }
                        },
                    }
                } else if is_partial || is_required || str_eq(name.as_str(), "Readonly") {
                    if args.len() == 0 {
                        return None;
                    }
                    let named = self.extract_type_name_from_type(&args[0]);
                    match named {
                        None => None,
                        Some((base_name, base_args)) => {
                            let base = named_base(base_name, base_args);
                            if is_partial {
                                Some(CollectedTypeAlias::Partial { base, file_path })
                            } else if is_required {
                                Some(CollectedTypeAlias::Required { base, file_path })
                            } else {
                                Some(CollectedTypeAlias::Passthrough { target: base, file_path })
                            }
                        },
                    }
                } else {
                    let texts = self.extract_type_args(args);
                    let target = named_base(name.clone(), texts);
                    Some(CollectedTypeAlias::Passthrough { target, file_path })
                }
            },
            TypeNode::Union(v) => {
                let mut all_literal = true;
                let mut i: usize = 0;
                while i < v.len()
                    invariant
                        i <= v.len(),
                        all_literal == forall|j: int| 0 <= j < i ==> is_literal_member(#[trigger] v@[j]),
                    decreases v.len() - i,
                {
                    let lit = match &v[i] {
                        TypeNode::StringLiteral(_) => true,
                        TypeNode::Keyword(k) => *k == TypeKeyword::Undefined || *k == TypeKeyword::Null,
                        _ => false,
                    };
                    all_literal = all_literal && lit;
                    i = i + 1;
                }
                proof { assert(decreases_to!(*n => n->Union_0)); }
                let members = self.collect_list(v);
                if all_literal {
                    let mut texts: Vec<String> = Vec::new();
                    let mut j: usize = 0;
                    while j < members.len()
                        invariant
                            j <= members.len(),
                            texts@.len() == j,
                            forall|k: int| 0 <= k < j ==> texts@[k]@ == render_collected(members@[k]@),
                        decreases members.len() - j,
                    {
                        texts.push(members[j].to_raw_string());
                        j = j + 1;
                    }
                    proof {
                        assert(strs_view(texts@) =~= collected_seq_view(members@).map_values(
                            |c: SpecCollected| render_collected(c),
                        ));
                    }
                    Some(CollectedTypeAlias::LiteralUnion { members: texts, file_path })
                } else {
                    Some(CollectedTypeAlias::Union { members, file_path })
                }
            },
            TypeNode::Intersection(v) => {
                proof { assert(decreases_to!(*n => n->Intersection_0)); }
                Some(CollectedTypeAlias::Intersection { members: self.collect_list(v), file_path })
            },
            TypeNode::Parenthesized(b) => self.classify_type_alias(&**b),
            _ => Some(CollectedTypeAlias::Passthrough { target: self.ts_type_to_collected(n), file_path }),
        }
    }

    /// The prop an interface member becomes, if any. Its comment is claimed
    /// before its type is read.
    pub fn collect_property_signature(&mut self, m: &MemberNode) -> (res: Option<RawProp>)
        ensures
            final(self).file_path@ == old(self).file_path@,
            final(self).jsdoc.comments@ == old(self).jsdoc.comments@,
            ({
                let expected = spec_member_prop(old(self).jsdoc.comments@, old(self).jsdoc.consumed@, *m);
                &&& final(self).jsdoc.consumed@ == expected.1
                &&& match res {
                    Some(p) => expected.0 == Some(p@),
                    None => expected.0 is None,
                }
            }),
    {
        match m {
            MemberNode::Property { key, annotation, optional, span_start, span_end } => match static_key_of(key) {
                None => None,
                Some(name) => {
                    let (description, tags) = self.jsdoc.find_jsdoc_with_tags(*span_start);
                    let collected_type = match annotation {
                        Some(t) => self.ts_type_to_collected(t),
                        None => CollectedType::Any,
                    };
                    Some(
                        RawProp {
                            name,
                            collected_type,
                            required: !*optional,
                            description,
                            tags,
                            span_start: *span_start,
                            span_end: *span_end,
                        },
                    )
                },
            },
            MemberNode::Method { key, optional, span_start, span_end } => match static_key_of(key) {
                None => None,
                Some(name) => {
                    let (description, tags) = self.jsdoc.find_jsdoc_with_tags(*span_start);
                    Some(
                        RawProp {
                            name,
                            collected_type: method_type(),
                            required: !*optional,
                            description,
                            tags,
                            span_start: *span_start,
                            span_end: *span_end,
                        },
                    )
                },
            },
            MemberNode::Other => None,
        }
    }
}

fn is_fc_type_name_exec(bare: &str) -> (res: bool)
    ensures
        res == is_fc_type_name(bare@),
{
    str_eq(bare, "FC") || str_eq(bare, "FunctionComponent") || str_eq(bare, "ComponentType") || str_eq(bare, "VFC")
        || str_eq(bare, "VoidFunctionComponent") || str_eq(bare, "ForwardRefComponent")
}

/// Whether an annotation, looking through parentheses, names a
/// function-component type at all (whatever its props argument).
pub fn is_fc_family(n: &TypeNode) -> (res: bool)
    ensures
        res == spec_is_fc_family(*n),
    decreases n,
{
    match n {
        TypeNode::Reference { name, .. } => {
            let bare = strip_react_prefix_exec(name.as_str());
            is_fc_type_name_exec(bare.as_str())
        },
        TypeNode::Parenthesized(b) => is_fc_family(&**b),
        _ => false,
    }
}

/// The bare name of a class component's base class, `Component` or
/// `PureComponent` (bare or `React.`-qualified); `None` for any other class.
pub fn component_class(super_name: &str) -> (res: Option<String>)
    ensures
        crate::types::opt_str_view(res) == spec_component_class(super_name@),
{
    let bare = strip_react_prefix_exec(super_name);
    if str_eq(bare.as_str(), "Component") || str_eq(bare.as_str(), "PureComponent") {
        Some(bare)
    } else {
        None
    }
}

fn is_ref_attributes_exec(c: &CollectedType) -> (res: bool)
    ensures
        res == is_ref_attributes(c@),
{
    proof { lemma_collected_view_children(*c); }
    match c {
        CollectedType::Named { name, .. } => str_eq(name.as_str(), "RefAttributes") || str_eq(
            name.as_str(),
            "React.RefAttributes",
        ),
        _ => false,
    }
}

/// The props of a declared `ForwardRefExoticComponent<P & RefAttributes<E>>`
/// (or of `ForwardRefExoticComponent<P>`): the name of `P` and the texts of
/// its arguments.
pub fn exotic_props(c: &CollectedType) -> (res: Option<(String, Vec<String>)>)
    ensures
        match res {
            Some(p) => spec_exotic_props(c@) == Some((p.0@, strs_view(p.1@))),
            None => spec_exotic_props(c@) is None,
        },
{
    proof { lemma_collected_view_children(*c); }
    let (name, args) = match c {
        CollectedType::Named { name, args } => (name, args),
        _ => return None,
    };
    if !(str_eq(name.as_str(), "ForwardRefExoticComponent") || str_eq(name.as_str(), "React.ForwardRefExoticComponent"))
        || args.len() == 0 {
        return None;
    }
    let first = &args[0];
    proof { lemma_collected_view_children(*first); }
    let props: &CollectedType = match first {
        CollectedType::Intersection(ms) => {
            let ghost mv = collected_seq_view(ms@);
            let mut i: usize = 0;
            let mut found: Option<usize> = None;
            proof { assert(mv.skip(0) =~= mv); }
            while i < ms.len() && found.is_none()
                invariant
                    i <= ms.len(),
                    mv == collected_seq_view(ms@),
                    found is None ==> first_non_ref(mv) == if first_non_ref(mv.skip(i as int)) < 0 {
                        -1
                    } else {
                        first_non_ref(mv.skip(i as int)) + i
                    },
                    found matches Some(k) ==> k == first_non_ref(mv) && k < ms.len(),
                decreases ms.len() - i, if found is None { 1int } else { 0int },
            {
                proof { assert(mv.skip(i as int)[0] == mv[i as int]); }
                if !is_ref_attributes_exec(&ms[i]) {
                    found = Some(i);
                } else {
                    proof { assert(mv.skip(i as int).drop_first() =~= mv.skip(i + 1)); }
                    i = i + 1;
                }
            }
            proof {
                if found is None {
                    assert(mv.skip(ms@.len() as int) =~= Seq::<SpecCollected>::empty());
                }
            }
            match found {
                Some(k) => &ms[k],
                None => first,
            }
        },
        _ => first,
    };
    proof { lemma_collected_view_children(*props); }
    match props {
        CollectedType::Named { name: pn, args: pa } => {
            let mut texts: Vec<String> = Vec::new();
            let mut j: usize = 0;
            while j < pa.len()
                invariant
                    j <= pa.len(),
                    texts@.len() == j,
                    forall|k: int| 0 <= k < j ==> texts@[k]@ == render_collected(pa@[k]@),
                decreases pa.len() - j,
            {
                texts.push(pa[j].to_raw_string());
                j = j + 1;
            }
            proof {
                assert(strs_view(texts@) =~= collected_seq_view(pa@).map_values(|a: SpecCollected| render_collected(a)));
            }
            Some((pn.clone(), texts))
        },
        _ => None,
    }
}

impl TypeCollector {
    /// The props type a component annotation gives (see `spec_props_type`).
    pub fn props_type_of(&self, n: &TypeNode) -> (res: Option<PropsTypeRef>)
        ensures
            props_ref_view(res) == spec_props_type(self.jsdoc.comments@, self.jsdoc.consumed@, self.file_path@, *n),
        decreases n,
    {
        match n {
            TypeNode::Reference { name, args } => {
                if is_transparent_wrapper_name(name.as_str()) && args.len() > 0 {
                    proof {
                        assert(decreases_to!(*n => n->Reference_args));
                        assert(decreases_to!(args@ => args@[0]));
                    }
                    self.props_type_of(&args[0])
                } else {
                    Some(PropsTypeRef::Named { name: name.clone(), args: self.extract_type_args(args) })
                }
            },
            TypeNode::Parenthesized(b) => self.props_type_of(&**b),
            TypeNode::Union(v) => {
                proof { assert(decreases_to!(*n => n->Union_0)); }
                let members = self.collect_list(v);
                Some(PropsTypeRef::Inline(CollectedTypeAlias::Union { members, file_path: self.file_path.clone() }))
            },
            TypeNode::Intersection(v) => {
                proof { assert(decreases_to!(*n => n->Intersection_0)); }
                let members = self.collect_list(v);
                Some(
                    PropsTypeRef::Inline(
                        CollectedTypeAlias::Intersection { members, file_path: self.file_path.clone() },
                    ),
                )
            },
            TypeNode::Literal(_) => {
                let target = self.ts_type_to_collected(n);
                Some(PropsTypeRef::Inline(CollectedTypeAlias::Passthrough { target, file_path: self.file_path.clone() }))
            },
            _ => None,
        }
    }

    /// The props type of a component's type annotation such as
    /// `React.FC<ButtonProps>`, looking through parentheses.
    pub fn props_from_fc_type(&self, n: &TypeNode) -> (res: Option<PropsTypeRef>)
        ensures
            props_ref_view(res) == spec_fc_props(self.jsdoc.comments@, self.jsdoc.consumed@, self.file_path@, *n),
        decreases n,
    {
        match n {
            TypeNode::Reference { name, args } => {
                let bare = strip_react_prefix_exec(name.as_str());
                if is_fc_type_name_exec(bare.as_str()) && args.len() > 0 {
                    self.props_type_of(&args[0])
                } else {
                    None
                }
            },
            TypeNode::Parenthesized(b) => self.props_from_fc_type(&**b),
            _ => None,
        }
    }

    /// The props type of `forwardRef<Ref, Props>(...)` called as `callee`.
    pub fn forward_ref_props(&self, callee: &str, type_args: &Vec<TypeNode>) -> (res: Option<PropsTypeRef>)
        ensures
            props_ref_view(res) == spec_forward_ref_props(
                self.jsdoc.comments@,
                self.jsdoc.consumed@,
                self.file_path@,
                callee@,
                type_args@,
            ),
    {
        if (str_eq(callee, "forwardRef") || str_eq(callee, "React.forwardRef")) && type_args.len() >= 2 {
            self.props_type_of(&type_args[1])
        } else {
            None
        }
    }

    /// The props an interface body declares, in order.
    pub fn collect_interface_props(&mut self, members: &Vec<MemberNode>) -> (res: Vec<RawProp>)
        ensures
            final(self).file_path@ == old(self).file_path@,
            final(self).jsdoc.comments@ == old(self).jsdoc.comments@,
            (res@.map_values(|p: RawProp| p@), final(self).jsdoc.consumed@) == spec_interface_props(
                old(self).jsdoc.comments@,
                old(self).jsdoc.consumed@,
                members@,
            ),
    {
        let ghost cs = self.jsdoc.comments@;
        let ghost start = self.jsdoc.consumed@;
        let ghost path = self.file_path@;
        let mut out: Vec<RawProp> = Vec::new();
        let mut i: usize = 0;
        proof { assert(members@.take(0) =~= Seq::<MemberNode>::empty()); }
        while i < members.len()
            invariant
                i <= members.len(),
                self.jsdoc.comments@ == cs,
                self.file_path@ == path,
                (out@.map_values(|p: RawProp| p@), self.jsdoc.consumed@) == spec_interface_props(
                    cs,
                    start,
                    members@.take(i as int),
                ),
            decreases members.len() - i,
        {
            proof {
                assert(members@.take(i + 1).drop_last() =~= members@.take(i as int));
                assert(members@.take(i + 1).last() == members@[i as int]);
            }
            let ghost before = out@;
            let p = self.collect_property_signature(&members[i]);
            match p {
                Some(p) => {
                    out.push(p);
                    proof {
                        assert(out@.map_values(|p: RawProp| p@) =~= before.map_values(|p: RawProp| p@).push(
                            out@[before.len() as int]@,
                        ));
                    }
                },
                None => {},
            }
            i = i + 1;
        }
        proof { assert(members@.take(members@.len() as int) =~= members@); }
        out
    }
}

proof fn lemma_defaults_step(es: Seq<(String, DefaultExpr)>, source: DefaultSource, i: int)
    requires
        0 <= i < es.len(),
    ensures
        spec_defaults(es.take(i + 1), source) == keyed_set(
            spec_defaults(es.take(i), source),
            es[i].0@,
            spec_default(es[i].1, source),
        ),
{
    assert(es.take(i + 1).drop_last() =~= es.take(i));
    assert(es.take(i + 1).last() == es[i]);
}

/// The default value an initializer gives, recorded as coming from `source`.
pub fn eval_expr_as_default(e: &DefaultExpr, source: DefaultSource) -> (res: RawDefault)
    ensures
        res@ == spec_default(*e, source),
{
    match e {
        DefaultExpr::String(s) => {
            let mut value = "\"".to_owned();
            value.append(s.as_str());
            value.append("\"");
            RawDefault { value, computed: false, source }
        },
        DefaultExpr::Number(t) => RawDefault { value: t.clone(), computed: false, source },
        DefaultExpr::Bool(b) => {
            let value = if *b { "true".to_owned() } else { "false".to_owned() };
            RawDefault { value, computed: false, source }
        },
        DefaultExpr::Null => RawDefault { value: "null".to_owned(), computed: false, source },
        DefaultExpr::Identifier(n) => if str_eq(n.as_str(), "undefined") {
            RawDefault { value: "undefined".to_owned(), computed: false, source }
        } else {
            RawDefault { value: n.clone(), computed: true, source }
        },
        DefaultExpr::ArrayOrObject(t) => RawDefault { value: t.clone(), computed: false, source },
        DefaultExpr::Other(t) => RawDefault { value: t.clone(), computed: true, source },
    }
}

/// Sets `key` to `value` in `list`: in place where the key is present,
/// appended where not.
pub(crate) fn set_default(list: &mut Vec<(String, RawDefault)>, key: String, value: RawDefault)
    ensures
        defaults_view(final(list)@) == keyed_set(defaults_view(old(list)@), key@, value@),
{
    let ghost v = defaults_view(list@);
    let mut i: usize = 0;
    proof { assert(v.skip(0) =~= v); }
    while i < list.len()
        invariant
            i <= list.len(),
            list@ == old(list)@,
            v == defaults_view(list@),
            key_index(v, key@) == if key_index(v.skip(i as int), key@) < 0 {
                -1
            } else {
                key_index(v.skip(i as int), key@) + i
            },
        decreases list.len() - i,
    {
        proof { assert(v.skip(i as int)[0] == v[i as int]); }
        if str_eq(list[i].0.as_str(), key.as_str()) {
            proof {
                assert(key_index(v.skip(i as int), key@) == 0);
                assert(key_index(v, key@) == i);
            }
            list.set(i, (key, value));
            proof { assert(defaults_view(list@) =~= keyed_set(v, key@, value@)); }
            return;
        }
        proof { assert(v.skip(i as int).drop_first() =~= v.skip(i + 1)); }
        i = i + 1;
    }
    proof { assert(v.skip(list@.len() as int) =~= Seq::<(Seq<char>, SpecRawDefault)>::empty()); }
    list.push((key, value));
    proof { assert(defaults_view(list@) =~= keyed_set(v, key@, value@)); }
}

/// The defaults given by `entries` (name and initializer, in source order),
/// by name, recorded as coming from `source`.
#[verifier::rlimit(50)]
pub fn defaults_from(entries: &Vec<(String, DefaultExpr)>, source: DefaultSource) -> (res: Vec<(String, RawDefault)>)
    ensures
        defaults_view(res@) == spec_defaults(entries@, source),
{
    let mut out: Vec<(String, RawDefault)> = Vec::new();
    let mut i: usize = 0;
    proof { assert(entries@.take(0) =~= Seq::<(String, DefaultExpr)>::empty()); }
    while i < entries.len()
        invariant
            i <= entries.len(),
            defaults_view(out@) == spec_defaults(entries@.take(i as int), source),
        decreases entries.len() - i,
    {
        proof { lemma_defaults_step(entries@, source, i as int); }
        let d = eval_expr_as_default(&entries[i].1, source);
        set_default(&mut out, entries[i].0.clone(), d);
        i = i + 1;
    }
    proof { assert(entries@.take(entries@.len() as int) =~= entries@); }
    out
}

/// The defaults of a destructured parameter (`{ size = 'md', ... }`), by
/// name, from its entries in source order.
pub fn extract_param_defaults(entries: &Vec<(String, DefaultExpr)>) -> (res: Vec<(String, RawDefault)>)
    ensures
        defaults_view(res@) == spec_param_defaults(entries@),
{
    defaults_from(entries, DefaultSource::Destructuring)
}

fn clone_enum_value(v: &EnumValue) -> (res: EnumValue)
    ensures
        res@ == v@,
{
    match v {
        EnumValue::String(s) => EnumValue::String(s.clone()),
        EnumValue::Number(s) => EnumValue::Number(s.clone()),
        EnumValue::Bool(b) => EnumValue::Bool(*b),
    }
}

impl TypeCollector {
    /// The entries of an enum's members (or of an `as const` object's
    /// properties), each documented by the comment before it.
    pub fn collect_enum_entries(&mut self, members: &Vec<EnumMemberNode>, unvalued_as_name: bool) -> (res: Vec<EnumEntry>)
        ensures
            final(self).file_path@ == old(self).file_path@,
            final(self).jsdoc.comments@ == old(self).jsdoc.comments@,
            (enum_entries_view(res@), final(self).jsdoc.consumed@) == spec_enum_entries(
                old(self).jsdoc.comments@,
                old(self).jsdoc.consumed@,
                members@,
                unvalued_as_name,
            ),
    {
        let ghost cs = self.jsdoc.comments@;
        let ghost start = self.jsdoc.consumed@;
        let ghost path = self.file_path@;
        let mut out: Vec<EnumEntry> = Vec::new();
        let mut i: usize = 0;
        proof { assert(members@.take(0) =~= Seq::<EnumMemberNode>::empty()); }
        while i < members.len()
            invariant
                i <= members.len(),
                self.jsdoc.comments@ == cs,
                self.file_path@ == path,
                (enum_entries_view(out@), self.jsdoc.consumed@) == spec_enum_entries(
                    cs,
                    start,
                    members@.take(i as int),
                    unvalued_as_name,
                ),
            decreases members.len() - i,
        {
            proof {
                assert(members@.take(i + 1).drop_last() =~= members@.take(i as int));
                assert(members@.take(i + 1).last() == members@[i as int]);
            }
            let m = &members[i];
            let value = match &m.value {
                Some(v) => Some(clone_enum_value(v)),
                None => if unvalued_as_name {
                    Some(EnumValue::String(m.name.clone()))
                } else {
                    None
                },
            };
            match value {
                Some(value) => {
                    let (description, _) = self.jsdoc.find_jsdoc_with_tags(m.span_start);
                    let ghost before = enum_entries_view(out@);
                    out.push(EnumEntry { name: m.name.clone(), value, description });
                    proof { assert(enum_entries_view(out@) =~= before.push(out@[out@.len() - 1]@)); }
                },
                None => {},
            }
            i = i + 1;
        }
        proof { assert(members@.take(members@.len() as int) =~= members@); }
        out
    }
}

fn variant_entries_of(variant: &String, values: &Vec<ObjectMember>) -> (res: Vec<EnumEntry>)
    ensures
        enum_entries_view(res@) == variant_value_entries(variant@, values@),
{
    let ghost opts = Seq::new(
        values@.len(),
        |i: int|
            match values@[i] {
                ObjectMember::Property { key, .. } => match field_key(key) {
                    Some(v) => Some(
                        SpecEnumEntry { name: variant@, value: SpecEnumValue::String(v), description: Seq::empty() },
                    ),
                    None => None,
                },
                ObjectMember::Spread => None,
            },
    );
    let mut out: Vec<EnumEntry> = Vec::new();
    let mut i: usize = 0;
    proof { assert(opts.take(0) =~= Seq::<Option<SpecEnumEntry>>::empty()); }
    while i < values.len()
        invariant
            i <= values.len(),
            opts.len() == values@.len(),
            forall|j: int| 0 <= j < values@.len() ==> #[trigger] opts[j] == match values@[j] {
                ObjectMember::Property { key, .. } => match field_key(key) {
                    Some(v) => Some(
                        SpecEnumEntry { name: variant@, value: SpecEnumValue::String(v), description: Seq::empty() },
                    ),
                    None => None,
                },
                ObjectMember::Spread => None,
            },
            enum_entries_view(out@) == somes(opts.take(i as int)),
        decreases values.len() - i,
    {
        proof { lemma_somes_step(opts, i as int); }
        match &values[i] {
            ObjectMember::Property { key, .. } => match field_key_of(key) {
                Some(v) => {
                    let ghost before = enum_entries_view(out@);
                    out.push(EnumEntry { name: variant.clone(), value: EnumValue::String(v), description: String::new() });
                    proof { assert(enum_entries_view(out@) =~= before.push(out@[out@.len() - 1]@)); }
                },
                None => {},
            },
            ObjectMember::Spread => {},
        }
        i = i + 1;
    }
    proof {
        assert(opts.take(values@.len() as int) =~= opts);
        assert(opts =~= Seq::new(
            values@.len(),
            |i: int|
                match values@[i] {
                    ObjectMember::Property { key, .. } => match field_key(key) {
                        Some(v) => Some(
                            SpecEnumEntry { name: variant@, value: SpecEnumValue::String(v), description: Seq::empty() },
                        ),
                        None => None,
                    },
                    ObjectMember::Spread => None,
                },
        ));
    }
    out
}

/// The variant table a `cva()`-like call defines (see `spec_cva_entries`),
/// with `callee` the called function's own name.
pub fn cva_variant_entries(callee: &str, args: &Vec<LiteralExpr>) -> (res: Vec<EnumEntry>)
    ensures
        enum_entries_view(res@) == spec_cva_entries(callee@, args@),
{
    let is_cva = str_eq(callee, "cva");
    let known = is_cva || str_eq(callee, "tv") || str_eq(callee, "defineRecipe") || str_eq(callee, "recipe")
        || str_eq(callee, "defineSlotRecipe");
    let at: usize = if is_cva { 1 } else { 0 };
    let empty: Vec<EnumEntry> = Vec::new();
    proof { assert(enum_entries_view(empty@) =~= Seq::empty()); }
    if !known || at >= args.len() {
        return empty;
    }
    let config = match &args[at] {
        LiteralExpr::Object(config) => config,
        _ => return empty,
    };
    let ghost cv = config@;
    let mut k: usize = 0;
    let mut found: Option<usize> = None;
    proof { assert(cv.skip(0) =~= cv); }
    while k < config.len() && found.is_none()
        invariant
            k <= config.len(),
            cv == config@,
            found is None ==> variants_index(cv) == if variants_index(cv.skip(k as int)) < 0 {
                -1
            } else {
                variants_index(cv.skip(k as int)) + k
            },
            found matches Some(x) ==> x == variants_index(cv) && x < config.len(),
        decreases config.len() - k, if found is None { 1int } else { 0int },
    {
        proof { assert(cv.skip(k as int)[0] == cv[k as int]); }
        let hit = match &config[k] {
            ObjectMember::Property { key: KeyNode::Identifier(name), value: LiteralExpr::Object(_) } => str_eq(
                name.as_str(),
                "variants",
            ),
            _ => false,
        };
        if hit {
            found = Some(k);
        } else {
            proof { assert(cv.skip(k as int).drop_first() =~= cv.skip(k + 1)); }
            k = k + 1;
        }
    }
    proof {
        if found is None {
            assert(cv.skip(config@.len() as int) =~= Seq::<ObjectMember>::empty());
        }
    }
    let variants = match found {
        Some(x) => match &config[x] {
            ObjectMember::Property { value: LiteralExpr::Object(variants), .. } => variants,
            _ => return empty,
        },
        None => return empty,
    };
    let ghost pieces = Seq::new(
        variants@.len(),
        |i: int|
            match variants@[i] {
                ObjectMember::Property { key, value: LiteralExpr::Object(values) } => match field_key(key) {
                    Some(k) => variant_value_entries(k, values@),
                    None => Seq::empty(),
                },
                _ => Seq::empty(),
            },
    );
    let mut out: Vec<EnumEntry> = Vec::new();
    let mut i: usize = 0;
    proof { assert(pieces.take(0) =~= Seq::<Seq<SpecEnumEntry>>::empty()); }
    while i < variants.len()
        invariant
            i <= variants.len(),
            pieces.len() == variants@.len(),
            forall|j: int| 0 <= j < variants@.len() ==> #[trigger] pieces[j] == match variants@[j] {
                ObjectMember::Property { key, value: LiteralExpr::Object(values) } => match field_key(key) {
                    Some(k) => variant_value_entries(k, values@),
                    None => Seq::empty(),
                },
                _ => Seq::empty(),
            },
            enum_entries_view(out@) == pieces.take(i as int).flatten(),
        decreases variants.len() - i,
    {
        proof {
            assert(pieces.take(i + 1) =~= pieces.take(i as int).push(pieces[i as int]));
            pieces.take(i as int).lemma_flatten_push(pieces[i as int]);
        }
        match &variants[i] {
            ObjectMember::Property { key, value: LiteralExpr::Object(values) } => match field_key_of(key) {
                Some(name) => {
                    let mut more = variant_entries_of(&name, values);
                    let ghost before = enum_entries_view(out@);
                    let ghost added = enum_entries_view(more@);
                    out.append(&mut more);
                    proof { assert(enum_entries_view(out@) =~= before + added); }
                },
                None => {
                    proof { assert(pieces.take(i + 1).flatten() =~= pieces.take(i as int).flatten()); }
                },
            },
            _ => {
                proof { assert(pieces.take(i + 1).flatten() =~= pieces.take(i as int).flatten()); }
            },
        }
        i = i + 1;
    }
    proof {
        assert(pieces.take(variants@.len() as int) =~= pieces);
        assert(pieces =~= Seq::new(
            variants@.len(),
            |i: int|
                match variants@[i] {
                    ObjectMember::Property { key, value: LiteralExpr::Object(values) } => match field_key(key) {
                        Some(k) => variant_value_entries(k, values@),
                        None => Seq::empty(),
                    },
                    _ => Seq::empty(),
                },
        ));
    }
    out
}

} // verus!
verus! {

// ─── Law of boolean defaults ─────────────────────────────────────────────────

/// A boolean literal default records its own literal: `true` is recorded as
/// the text `true` and `false` as `false` (so the two differ), neither is
/// computed, and the source is kept.
pub proof fn law_bool_default_records_its_literal(b: bool, source: DefaultSource)
    ensures
        spec_default(DefaultExpr::Bool(true), source).value =~= seq!['t', 'r', 'u', 'e'],
        spec_default(DefaultExpr::Bool(false), source).value =~= seq!['f', 'a', 'l', 's', 'e'],
        spec_default(DefaultExpr::Bool(true), source).value != spec_default(DefaultExpr::Bool(false), source).value,
        !spec_default(DefaultExpr::Bool(b), source).computed,
        spec_default(DefaultExpr::Bool(b), source).source == source,
{
    reveal_strlit("true");
    reveal_strlit("false");
    assert(seq!['t', 'r', 'u', 'e'].len() != seq!['f', 'a', 'l', 's', 'e'].len());
}

} // verus!
