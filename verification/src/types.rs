//! The data model: what the extractor collects from source files, what the
//! resolver produces, and the diagnostics that travel with both.
//!
//! Every type comes with a mathematical view (`@`) over `Seq<char>` and
//! `Seq<_>`; contracts across the crate are stated over those views.

use vstd::prelude::*;

verus! {

// ─── Small view helpers ──────────────────────────────────────────────────────

pub open spec fn strs_view(v: Seq<String>) -> Seq<Seq<char>> {
    v.map_values(|s: String| s@)
}

pub open spec fn opt_str_view(o: Option<String>) -> Option<Seq<char>> {
    match o {
        Some(s) => Some(s@),
        None => None,
    }
}

pub open spec fn pairs_view(v: Seq<(String, String)>) -> Seq<(Seq<char>, Seq<char>)> {
    v.map_values(|p: (String, String)| (p.0@, p.1@))
}

/// Clones a vector of strings, keeping its view.
pub fn clone_strings(v: &Vec<String>) -> (res: Vec<String>)
    ensures
        strs_view(res@) == strs_view(v@),
{
    let mut out: Vec<String> = Vec::new();
    let mut i: usize = 0;
    while i < v.len()
        invariant
            i <= v.len(),
            out@.len() == i,
            forall|j: int| 0 <= j < i ==> out@[j]@ == v@[j]@,
        decreases v.len() - i,
    {
        out.push(v[i].clone());
        i = i + 1;
    }
    proof { assert(strs_view(out@) =~= strs_view(v@)); }
    out
}

/// Clones an optional string, keeping its view.
pub fn clone_opt_string(o: &Option<String>) -> (res: Option<String>)
    ensures
        opt_str_view(res) == opt_str_view(*o),
{
    match o {
        Some(s) => Some(s.clone()),
        None => None,
    }
}

/// Clones a vector of string pairs (a tag table), keeping its view.
pub fn clone_pairs(v: &Vec<(String, String)>) -> (res: Vec<(String, String)>)
    ensures
        pairs_view(res@) == pairs_view(v@),
{
    let mut out: Vec<(String, String)> = Vec::new();
    let mut i: usize = 0;
    while i < v.len()
        invariant
            i <= v.len(),
            out@.len() == i,
            forall|j: int| 0 <= j < i ==> out@[j].0@ == v@[j].0@ && out@[j].1@ == v@[j].1@,
        decreases v.len() - i,
    {
        let k = v[i].0.clone();
        let x = v[i].1.clone();
        out.push((k, x));
        i = i + 1;
    }
    proof { assert(pairs_view(out@) =~= pairs_view(v@)); }
    out
}

// ─── Diagnostics ─────────────────────────────────────────────────────────────

#[derive(Clone, Copy, Debug, PartialEq, Eq, Structural)]
pub enum DiagnosticSeverity {
    Error,
    Warning,
    Info,
}

#[derive(Clone, Copy, Debug, PartialEq, Eq, Structural)]
pub enum DiagnosticCode {
    MaxDepthExceeded,
    UnresolvableImport,
    JsDocDefaultMismatch,
    DiscriminatedUnion,
    IndexedAccessOpaque,
    TemplateLiteralOpaque,
    OpaqueType,
    InternalPanic,
    IoError,
    ParseError,
    ExcessiveNesting,
    ComponentKeyCollision,
    /// A declaration shaped like a component that no pattern could read.
    SkippedCandidate,
}

#[derive(Debug, PartialEq)]
pub struct Diagnostic {
    pub severity: DiagnosticSeverity,
    pub message: String,
    pub file: Option<String>,
    pub line: Option<u32>,
    pub column: Option<u32>,
    pub help: Option<String>,
    pub code: DiagnosticCode,
}

pub struct SpecDiagnostic {
    pub severity: DiagnosticSeverity,
    pub message: Seq<char>,
    pub file: Option<Seq<char>>,
    pub line: Option<u32>,
    pub column: Option<u32>,
    pub help: Option<Seq<char>>,
    pub code: DiagnosticCode,
}

impl View for Diagnostic {
    type V = SpecDiagnostic;

    open spec fn view(&self) -> SpecDiagnostic {
        SpecDiagnostic {
            severity: self.severity,
            message: self.message@,
            file: opt_str_view(self.file),
            line: self.line,
            column: self.column,
            help: opt_str_view(self.help),
            code: self.code,
        }
    }
}

pub open spec fn diags_view(v: Seq<Diagnostic>) -> Seq<SpecDiagnostic> {
    v.map_values(|d: Diagnostic| d@)
}

impl Clone for Diagnostic {
    fn clone(&self) -> (res: Self)
        ensures
            res@ == self@,
    {
        Diagnostic {
            severity: self.severity,
            message: self.message.clone(),
            file: clone_opt_string(&self.file),
            line: self.line,
            column: self.column,
            help: clone_opt_string(&self.help),
            code: self.code,
        }
    }
}

/// A diagnostic about `file`, with no line or column.
pub open spec fn spec_file_diag(
    severity: DiagnosticSeverity,
    code: DiagnosticCode,
    message: Seq<char>,
    file: Seq<char>,
    help: Option<Seq<char>>,
) -> SpecDiagnostic {
    SpecDiagnostic { severity, message, file: Some(file), line: None, column: None, help, code }
}

// ─── Opaque reasons ──────────────────────────────────────────────────────────

#[derive(Debug, PartialEq)]
pub enum OpaqueReason {
    ModuleAugmentation,
    RuntimeDependent { function_name: String },
    DepthExceeded,
    ConditionalType,
    MappedType,
    IndexedAccess { expression: String },
    TemplateLiteral { expression: String },
}

pub enum SpecOpaqueReason {
    ModuleAugmentation,
    RuntimeDependent { function_name: Seq<char> },
    DepthExceeded,
    ConditionalType,
    MappedType,
    IndexedAccess { expression: Seq<char> },
    TemplateLiteral { expression: Seq<char> },
}

impl View for OpaqueReason {
    type V = SpecOpaqueReason;

    open spec fn view(&self) -> SpecOpaqueReason {
        match self {
            OpaqueReason::ModuleAugmentation => SpecOpaqueReason::ModuleAugmentation,
            OpaqueReason::RuntimeDependent { function_name } => SpecOpaqueReason::RuntimeDependent {
                function_name: function_name@,
            },
            OpaqueReason::DepthExceeded => SpecOpaqueReason::DepthExceeded,
            OpaqueReason::ConditionalType => SpecOpaqueReason::ConditionalType,
            OpaqueReason::MappedType => SpecOpaqueReason::MappedType,
            OpaqueReason::IndexedAccess { expression } => SpecOpaqueReason::IndexedAccess {
                expression: expression@,
            },
            OpaqueReason::TemplateLiteral { expression } => SpecOpaqueReason::TemplateLiteral {
                expression: expression@,
            },
        }
    }
}

impl Clone for OpaqueReason {
    fn clone(&self) -> (res: Self)
        ensures
            res@ == self@,
    {
        match self {
            OpaqueReason::ModuleAugmentation => OpaqueReason::ModuleAugmentation,
            OpaqueReason::RuntimeDependent { function_name } => OpaqueReason::RuntimeDependent {
                function_name: function_name.clone(),
            },
            OpaqueReason::DepthExceeded => OpaqueReason::DepthExceeded,
            OpaqueReason::ConditionalType => OpaqueReason::ConditionalType,
            OpaqueReason::MappedType => OpaqueReason::MappedType,
            OpaqueReason::IndexedAccess { expression } => OpaqueReason::IndexedAccess {
                expression: expression.clone(),
            },
            OpaqueReason::TemplateLiteral { expression } => OpaqueReason::TemplateLiteral {
                expression: expression.clone(),
            },
        }
    }
}

// ─── Resolved prop types ─────────────────────────────────────────────────────

/// A fully resolved prop type, as it appears in the output.
#[allow(inconsistent_fields)]
#[derive(Debug, PartialEq)]
pub enum PropType {
    String,
    Number,
    Boolean,
    Null,
    Undefined,
    Any,
    Never,
    Unknown,
    Void,
    StringLiteral(String),
    /// A numeric literal, held as its canonical decimal text.
    NumberLiteral(String),
    BoolLiteral(bool),
    Union(Vec<PropType>),
    Intersection(Vec<PropType>),
    Array(Box<PropType>),
    Tuple(Vec<PropType>),
    Object(Vec<ObjectField>),
    Named { name: String, args: Vec<PropType> },
    LiteralUnion { members: Vec<String>, has_default: bool },
    EventHandler { event_type: String },
    Ref { element: Option<String> },
    ReactNode,
    CssProperties,
    ElementType,
    SxProps,
    HtmlAttributes { element: String, omitted: Vec<String> },
    Opaque { raw: String, reason: OpaqueReason },
}

#[derive(Debug, PartialEq)]
pub struct ObjectField {
    pub name: String,
    pub prop_type: PropType,
    pub required: bool,
    pub description: String,
}

#[allow(inconsistent_fields)]
pub enum SpecPropType {
    String,
    Number,
    Boolean,
    Null,
    Undefined,
    Any,
    Never,
    Unknown,
    Void,
    StringLiteral(Seq<char>),
    NumberLiteral(Seq<char>),
    BoolLiteral(bool),
    Union(Seq<SpecPropType>),
    Intersection(Seq<SpecPropType>),
    Array(Box<SpecPropType>),
    Tuple(Seq<SpecPropType>),
    Object(Seq<SpecObjectField>),
    Named { name: Seq<char>, args: Seq<SpecPropType> },
    LiteralUnion { members: Seq<Seq<char>>, has_default: bool },
    EventHandler { event_type: Seq<char> },
    Ref { element: Option<Seq<char>> },
    ReactNode,
    CssProperties,
    ElementType,
    SxProps,
    HtmlAttributes { element: Seq<char>, omitted: Seq<Seq<char>> },
    Opaque { raw: Seq<char>, reason: SpecOpaqueReason },
}

pub struct SpecObjectField {
    pub name: Seq<char>,
    pub prop_type: SpecPropType,
    pub required: bool,
    pub description: Seq<char>,
}

pub open spec fn prop_type_view(p: PropType) -> SpecPropType
    decreases p,
{
    match p {
        PropType::String => SpecPropType::String,
        PropType::Number => SpecPropType::Number,
        PropType::Boolean => SpecPropType::Boolean,
        PropType::Null => SpecPropType::Null,
        PropType::Undefined => SpecPropType::Undefined,
        PropType::Any => SpecPropType::Any,
        PropType::Never => SpecPropType::Never,
        PropType::Unknown => SpecPropType::Unknown,
        PropType::Void => SpecPropType::Void,
        PropType::StringLiteral(s) => SpecPropType::StringLiteral(s@),
        PropType::NumberLiteral(s) => SpecPropType::NumberLiteral(s@),
        PropType::BoolLiteral(b) => SpecPropType::BoolLiteral(b),
        PropType::Union(v) => SpecPropType::Union(
            Seq::new(v@.len(), |i: int| if 0 <= i < v@.len() { prop_type_view(v@[i]) } else { SpecPropType::Any }),
        ),
        PropType::Intersection(v) => SpecPropType::Intersection(
            Seq::new(v@.len(), |i: int| if 0 <= i < v@.len() { prop_type_view(v@[i]) } else { SpecPropType::Any }),
        ),
        PropType::Array(b) => SpecPropType::Array(Box::new(prop_type_view(*b))),
        PropType::Tuple(v) => SpecPropType::Tuple(
            Seq::new(v@.len(), |i: int| if 0 <= i < v@.len() { prop_type_view(v@[i]) } else { SpecPropType::Any }),
        ),
        PropType::Object(v) => SpecPropType::Object(
            Seq::new(
                v@.len(),
                |i: int|
                    if 0 <= i < v@.len() {
                        SpecObjectField {
                            name: v@[i].name@,
                            prop_type: prop_type_view(v@[i].prop_type),
                            required: v@[i].required,
                            description: v@[i].description@,
                        }
                    } else {
                        SpecObjectField {
                            name: Seq::empty(),
                            prop_type: SpecPropType::Any,
                            required: false,
                            description: Seq::empty(),
                        }
                    },
            ),
        ),
        PropType::Named { name, args } => SpecPropType::Named {
            name: name@,
            args: Seq::new(
                args@.len(),
                |i: int| if 0 <= i < args@.len() { prop_type_view(args@[i]) } else { SpecPropType::Any },
            ),
        },
        PropType::LiteralUnion { members, has_default } => SpecPropType::LiteralUnion {
            members: strs_view(members@),
            has_default,
        },
        PropType::EventHandler { event_type } => SpecPropType::EventHandler { event_type: event_type@ },
        PropType::Ref { element } => SpecPropType::Ref { element: opt_str_view(element) },
        PropType::ReactNode => SpecPropType::ReactNode,
        PropType::CssProperties => SpecPropType::CssProperties,
        PropType::ElementType => SpecPropType::ElementType,
        PropType::SxProps => SpecPropType::SxProps,
        PropType::HtmlAttributes { element, omitted } => SpecPropType::HtmlAttributes {
            element: element@,
            omitted: strs_view(omitted@),
        },
        PropType::Opaque { raw, reason } => SpecPropType::Opaque { raw: raw@, reason: reason@ },
    }
}

impl View for PropType {
    type V = SpecPropType;

    open spec fn view(&self) -> SpecPropType {
        prop_type_view(*self)
    }
}

impl View for ObjectField {
    type V = SpecObjectField;

    open spec fn view(&self) -> SpecObjectField {
        SpecObjectField {
            name: self.name@,
            prop_type: self.prop_type@,
            required: self.required,
            description: self.description@,
        }
    }
}

pub open spec fn prop_types_view(v: Seq<PropType>) -> Seq<SpecPropType> {
    v.map_values(|p: PropType| p@)
}

pub open spec fn object_fields_view(v: Seq<ObjectField>) -> Seq<SpecObjectField> {
    v.map_values(|f: ObjectField| f@)
}

pub proof fn lemma_prop_type_view_union(v: Vec<PropType>)
    ensures
        PropType::Union(v)@ == SpecPropType::Union(prop_types_view(v@)),
        PropType::Intersection(v)@ == SpecPropType::Intersection(prop_types_view(v@)),
        PropType::Tuple(v)@ == SpecPropType::Tuple(prop_types_view(v@)),
{
    assert(PropType::Union(v)@->Union_0 =~= prop_types_view(v@));
    assert(PropType::Intersection(v)@->Intersection_0 =~= prop_types_view(v@));
    assert(PropType::Tuple(v)@->Tuple_0 =~= prop_types_view(v@));
}

pub proof fn lemma_prop_type_view_named(name: String, args: Vec<PropType>)
    ensures
        (PropType::Named { name, args })@ == (SpecPropType::Named { name: name@, args: prop_types_view(args@) }),
{
    assert((PropType::Named { name, args })@->Named_args =~= prop_types_view(args@));
}

pub proof fn lemma_prop_type_view_object(v: Vec<ObjectField>)
    ensures
        PropType::Object(v)@ == SpecPropType::Object(object_fields_view(v@)),
{
    assert(PropType::Object(v)@->Object_0 =~= object_fields_view(v@));
}

/// Clones a vector of prop types, keeping its view.
pub fn clone_prop_types(v: &Vec<PropType>) -> (res: Vec<PropType>)
    ensures
        prop_types_view(res@) == prop_types_view(v@),
    decreases v@, 0nat,
{
    let mut out: Vec<PropType> = Vec::new();
    let mut i: usize = 0;
    while i < v.len()
        invariant
            i <= v.len(),
            out@.len() == i,
            forall|j: int| 0 <= j < i ==> out@[j]@ == v@[j]@,
        decreases v.len() - i,
    {
        proof { assert(decreases_to!(v@ => v@[i as int])); }
        out.push(v[i].clone());
        i = i + 1;
    }
    proof { assert(prop_types_view(out@) =~= prop_types_view(v@)); }
    out
}

impl Clone for PropType {
    fn clone(&self) -> (res: Self)
        ensures
            res@ == self@,
        decreases self, 1nat,
    {
        match self {
            PropType::String => PropType::String,
            PropType::Number => PropType::Number,
            PropType::Boolean => PropType::Boolean,
            PropType::Null => PropType::Null,
            PropType::Undefined => PropType::Undefined,
            PropType::Any => PropType::Any,
            PropType::Never => PropType::Never,
            PropType::Unknown => PropType::Unknown,
            PropType::Void => PropType::Void,
            PropType::StringLiteral(s) => PropType::StringLiteral(s.clone()),
            PropType::NumberLiteral(s) => PropType::NumberLiteral(s.clone()),
            PropType::BoolLiteral(b) => PropType::BoolLiteral(*b),
            PropType::Union(v) => {
                proof { assert(decreases_to!(*self => self->Union_0)); }
                let c = clone_prop_types(v);
                proof {
                    lemma_prop_type_view_union(c);
                    lemma_prop_type_view_union(*v);
                }
                PropType::Union(c)
            },
            PropType::Intersection(v) => {
                proof { assert(decreases_to!(*self => self->Intersection_0)); }
                let c = clone_prop_types(v);
                proof {
                    lemma_prop_type_view_union(c);
                    lemma_prop_type_view_union(*v);
                }
                PropType::Intersection(c)
            },
            PropType::Array(b) => PropType::Array(Box::new((**b).clone())),
            PropType::Tuple(v) => {
                proof { assert(decreases_to!(*self => self->Tuple_0)); }
                let c = clone_prop_types(v);
                proof {
                    lemma_prop_type_view_union(c);
                    lemma_prop_type_view_union(*v);
                }
                PropType::Tuple(c)
            },
            PropType::Object(v) => {
                let mut out: Vec<ObjectField> = Vec::new();
                let mut i: usize = 0;
                while i < v.len()
                    invariant
                        i <= v.len(),
                        *self == PropType::Object(*v),
                        out@.len() == i,
                        forall|j: int| 0 <= j < i ==> out@[j]@ == v@[j]@,
                    decreases v.len() - i,
                {
                    proof {
                        assert(decreases_to!(*self => self->Object_0));
                        assert(decreases_to!(self->Object_0 => v@[i as int].prop_type));
                    }
                    let f = ObjectField {
                        name: v[i].name.clone(),
                        prop_type: v[i].prop_type.clone(),
                        required: v[i].required,
                        description: v[i].description.clone(),
                    };
                    out.push(f);
                    i = i + 1;
                }
                proof {
                    assert(object_fields_view(out@) =~= object_fields_view(v@));
                    lemma_prop_type_view_object(out);
                    lemma_prop_type_view_object(*v);
                }
                PropType::Object(out)
            },
            PropType::Named { name, args } => {
                proof { assert(decreases_to!(*self => self->Named_args)); }
                let c = clone_prop_types(args);
                let n = name.clone();
                proof {
                    lemma_prop_type_view_named(n, c);
                    lemma_prop_type_view_named(*name, *args);
                }
                PropType::Named { name: n, args: c }
            },
            PropType::LiteralUnion { members, has_default } => PropType::LiteralUnion {
                members: clone_strings(members),
                has_default: *has_default,
            },
            PropType::EventHandler { event_type } => PropType::EventHandler { event_type: event_type.clone() },
            PropType::Ref { element } => PropType::Ref { element: clone_opt_string(element) },
            PropType::ReactNode => PropType::ReactNode,
            PropType::CssProperties => PropType::CssProperties,
            PropType::ElementType => PropType::ElementType,
            PropType::SxProps => PropType::SxProps,
            PropType::HtmlAttributes { element, omitted } => PropType::HtmlAttributes {
                element: element.clone(),
                omitted: clone_strings(omitted),
            },
            PropType::Opaque { raw, reason } => PropType::Opaque { raw: raw.clone(), reason: reason.clone() },
        }
    }
}


// ─── Props and components ────────────────────────────────────────────────────

#[derive(Debug, PartialEq)]
pub struct DefaultValue {
    pub value: String,
    pub computed: bool,
}

pub struct SpecDefaultValue {
    pub value: Seq<char>,
    pub computed: bool,
}

impl View for DefaultValue {
    type V = SpecDefaultValue;

    open spec fn view(&self) -> SpecDefaultValue {
        SpecDefaultValue { value: self.value@, computed: self.computed }
    }
}

pub open spec fn opt_default_view(o: Option<DefaultValue>) -> Option<SpecDefaultValue> {
    match o {
        Some(d) => Some(d@),
        None => None,
    }
}

/// The interface that declared a prop.
#[derive(Debug, PartialEq)]
pub struct PropParent {
    pub name: String,
    pub file_name: String,
}

pub struct SpecPropParent {
    pub name: Seq<char>,
    pub file_name: Seq<char>,
}

impl View for PropParent {
    type V = SpecPropParent;

    open spec fn view(&self) -> SpecPropParent {
        SpecPropParent { name: self.name@, file_name: self.file_name@ }
    }
}

pub open spec fn opt_parent_view(o: Option<PropParent>) -> Option<SpecPropParent> {
    match o {
        Some(p) => Some(p@),
        None => None,
    }
}

pub open spec fn parents_view(v: Seq<PropParent>) -> Seq<SpecPropParent> {
    v.map_values(|p: PropParent| p@)
}

impl Clone for PropParent {
    fn clone(&self) -> (res: Self)
        ensures
            res@ == self@,
    {
        PropParent { name: self.name.clone(), file_name: self.file_name.clone() }
    }
}

/// A resolved prop. `tags` holds the JSDoc `@tag` table as (tag, value) pairs.
#[derive(Debug, PartialEq)]
pub struct ParsedProp {
    pub name: String,
    pub prop_type: PropType,
    pub required: bool,
    pub default_value: Option<DefaultValue>,
    pub description: String,
    pub tags: Vec<(String, String)>,
    pub parent: Option<PropParent>,
    pub declarations: Vec<PropParent>,
}

pub struct SpecParsedProp {
    pub name: Seq<char>,
    pub prop_type: SpecPropType,
    pub required: bool,
    pub default_value: Option<SpecDefaultValue>,
    pub description: Seq<char>,
    pub tags: Seq<(Seq<char>, Seq<char>)>,
    pub parent: Option<SpecPropParent>,
    pub declarations: Seq<SpecPropParent>,
}

impl View for ParsedProp {
    type V = SpecParsedProp;

    open spec fn view(&self) -> SpecParsedProp {
        SpecParsedProp {
            name: self.name@,
            prop_type: self.prop_type@,
            required: self.required,
            default_value: opt_default_view(self.default_value),
            description: self.description@,
            tags: pairs_view(self.tags@),
            parent: opt_parent_view(self.parent),
            declarations: parents_view(self.declarations@),
        }
    }
}

pub open spec fn parsed_props_view(v: Seq<ParsedProp>) -> Seq<SpecParsedProp> {
    v.map_values(|p: ParsedProp| p@)
}

pub fn clone_opt_parent(o: &Option<PropParent>) -> (res: Option<PropParent>)
    ensures
        opt_parent_view(res) == opt_parent_view(*o),
{
    match o {
        Some(p) => Some(p.clone()),
        None => None,
    }
}

pub fn clone_parents(v: &Vec<PropParent>) -> (res: Vec<PropParent>)
    ensures
        parents_view(res@) == parents_view(v@),
{
    let mut out: Vec<PropParent> = Vec::new();
    let mut i: usize = 0;
    while i < v.len()
        invariant
            i <= v.len(),
            out@.len() == i,
            forall|j: int| 0 <= j < i ==> out@[j]@ == v@[j]@,
        decreases v.len() - i,
    {
        out.push(v[i].clone());
        i = i + 1;
    }
    proof { assert(parents_view(out@) =~= parents_view(v@)); }
    out
}

impl Clone for ParsedProp {
    fn clone(&self) -> (res: Self)
        ensures
            res@ == self@,
    {
        let default_value = match &self.default_value {
            Some(d) => Some(DefaultValue { value: d.value.clone(), computed: d.computed }),
            None => None,
        };
        ParsedProp {
            name: self.name.clone(),
            prop_type: self.prop_type.clone(),
            required: self.required,
            default_value,
            description: self.description.clone(),
            tags: clone_pairs(&self.tags),
            parent: clone_opt_parent(&self.parent),
            declarations: clone_parents(&self.declarations),
        }
    }
}

/// One inherited layer of props (e.g. the HTML attributes of `<button>`).
#[derive(Debug, PartialEq)]
pub struct InheritedLayer {
    pub layer_name: String,
    pub file_name: String,
    pub omitted: Vec<String>,
    pub html_element: Option<String>,
    pub total_props: u32,
}

pub struct SpecInheritedLayer {
    pub layer_name: Seq<char>,
    pub file_name: Seq<char>,
    pub omitted: Seq<Seq<char>>,
    pub html_element: Option<Seq<char>>,
    pub total_props: u32,
}

impl View for InheritedLayer {
    type V = SpecInheritedLayer;

    open spec fn view(&self) -> SpecInheritedLayer {
        SpecInheritedLayer {
            layer_name: self.layer_name@,
            file_name: self.file_name@,
            omitted: strs_view(self.omitted@),
            html_element: opt_str_view(self.html_element),
            total_props: self.total_props,
        }
    }
}

pub open spec fn layers_view(v: Seq<InheritedLayer>) -> Seq<SpecInheritedLayer> {
    v.map_values(|l: InheritedLayer| l@)
}

impl Clone for InheritedLayer {
    fn clone(&self) -> (res: Self)
        ensures
            res@ == self@,
    {
        InheritedLayer {
            layer_name: self.layer_name.clone(),
            file_name: self.file_name.clone(),
            omitted: clone_strings(&self.omitted),
            html_element: clone_opt_string(&self.html_element),
            total_props: self.total_props,
        }
    }
}

/// A fully resolved component. `props` and `notable_inherited` hold each prop
/// once, keyed by its name, in name order.
#[derive(Debug)]
pub struct ComponentEntry {
    pub display_name: String,
    pub file_path: String,
    pub description: String,
    pub props: Vec<ParsedProp>,
    pub inheritance: Vec<InheritedLayer>,
    pub notable_inherited: Vec<ParsedProp>,
    pub discriminant_prop: Option<String>,
    pub composes: Vec<String>,
    pub tags: Vec<(String, String)>,
}

pub struct SpecComponentEntry {
    pub display_name: Seq<char>,
    pub file_path: Seq<char>,
    pub description: Seq<char>,
    pub props: Seq<SpecParsedProp>,
    pub inheritance: Seq<SpecInheritedLayer>,
    pub notable_inherited: Seq<SpecParsedProp>,
    pub discriminant_prop: Option<Seq<char>>,
    pub composes: Seq<Seq<char>>,
    pub tags: Seq<(Seq<char>, Seq<char>)>,
}

impl View for ComponentEntry {
    type V = SpecComponentEntry;

    open spec fn view(&self) -> SpecComponentEntry {
        SpecComponentEntry {
            display_name: self.display_name@,
            file_path: self.file_path@,
            description: self.description@,
            props: parsed_props_view(self.props@),
            inheritance: layers_view(self.inheritance@),
            notable_inherited: parsed_props_view(self.notable_inherited@),
            discriminant_prop: opt_str_view(self.discriminant_prop),
            composes: strs_view(self.composes@),
            tags: pairs_view(self.tags@),
        }
    }
}

// ─── Collected (unresolved) types ────────────────────────────────────────────

/// A type as written in the source, before any cross-file resolution.
#[derive(Debug)]
pub enum CollectedType {
    String,
    Number,
    Boolean,
    Null,
    Undefined,
    Any,
    Never,
    Unknown,
    Void,
    BigInt,
    Symbol,
    StringLiteral(String),
    /// A numeric literal, held as its canonical decimal text.
    NumberLiteral(String),
    BoolLiteral(bool),
    Union(Vec<CollectedType>),
    Intersection(Vec<CollectedType>),
    Array(Box<CollectedType>),
    Tuple(Vec<CollectedType>),
    Object(Vec<CollectedObjectField>),
    Named { name: String, args: Vec<CollectedType> },
    TypeOf(String),
    IndexedAccess { obj: Box<CollectedType>, key: Box<CollectedType> },
    TemplateLiteral(Vec<CollectedType>),
    Function { params: Vec<CollectedType>, return_type: Box<CollectedType> },
    Conditional {
        check: Box<CollectedType>,
        extends_type: Box<CollectedType>,
        true_type: Box<CollectedType>,
        false_type: Box<CollectedType>,
    },
    Mapped { key_type: Box<CollectedType>, value_type: Box<CollectedType> },
    Raw(String),
}

#[derive(Debug)]
pub struct CollectedObjectField {
    pub name: String,
    pub collected_type: CollectedType,
    pub required: bool,
    pub description: String,
}

pub enum SpecCollected {
    String,
    Number,
    Boolean,
    Null,
    Undefined,
    Any,
    Never,
    Unknown,
    Void,
    BigInt,
    Symbol,
    StringLiteral(Seq<char>),
    NumberLiteral(Seq<char>),
    BoolLiteral(bool),
    Union(Seq<SpecCollected>),
    Intersection(Seq<SpecCollected>),
    Array(Box<SpecCollected>),
    Tuple(Seq<SpecCollected>),
    Object(Seq<SpecCollectedField>),
    Named { name: Seq<char>, args: Seq<SpecCollected> },
    TypeOf(Seq<char>),
    IndexedAccess { obj: Box<SpecCollected>, key: Box<SpecCollected> },
    TemplateLiteral(Seq<SpecCollected>),
    Function { params: Seq<SpecCollected>, return_type: Box<SpecCollected> },
    Conditional {
        check: Box<SpecCollected>,
        extends_type: Box<SpecCollected>,
        true_type: Box<SpecCollected>,
        false_type: Box<SpecCollected>,
    },
    Mapped { key_type: Box<SpecCollected>, value_type: Box<SpecCollected> },
    Raw(Seq<char>),
}

pub struct SpecCollectedField {
    pub name: Seq<char>,
    pub collected_type: SpecCollected,
    pub required: bool,
    pub description: Seq<char>,
}

pub open spec fn collected_view(c: CollectedType) -> SpecCollected
    decreases c,
{
    match c {
        CollectedType::String => SpecCollected::String,
        CollectedType::Number => SpecCollected::Number,
        CollectedType::Boolean => SpecCollected::Boolean,
        CollectedType::Null => SpecCollected::Null,
        CollectedType::Undefined => SpecCollected::Undefined,
        CollectedType::Any => SpecCollected::Any,
        CollectedType::Never => SpecCollected::Never,
        CollectedType::Unknown => SpecCollected::Unknown,
        CollectedType::Void => SpecCollected::Void,
        CollectedType::BigInt => SpecCollected::BigInt,
        CollectedType::Symbol => SpecCollected::Symbol,
        CollectedType::StringLiteral(s) => SpecCollected::StringLiteral(s@),
        CollectedType::NumberLiteral(s) => SpecCollected::NumberLiteral(s@),
        CollectedType::BoolLiteral(b) => SpecCollected::BoolLiteral(b),
        CollectedType::Union(v) => SpecCollected::Union(
            Seq::new(v@.len(), |i: int| if 0 <= i < v@.len() { collected_view(v@[i]) } else { SpecCollected::Any }),
        ),
        CollectedType::Intersection(v) => SpecCollected::Intersection(
            Seq::new(v@.len(), |i: int| if 0 <= i < v@.len() { collected_view(v@[i]) } else { SpecCollected::Any }),
        ),
        CollectedType::Array(b) => SpecCollected::Array(Box::new(collected_view(*b))),
        CollectedType::Tuple(v) => SpecCollected::Tuple(
            Seq::new(v@.len(), |i: int| if 0 <= i < v@.len() { collected_view(v@[i]) } else { SpecCollected::Any }),
        ),
        CollectedType::Object(v) => SpecCollected::Object(
            Seq::new(
                v@.len(),
                |i: int|
                    if 0 <= i < v@.len() {
                        SpecCollectedField {
                            name: v@[i].name@,
                            collected_type: collected_view(v@[i].collected_type),
                            required: v@[i].required,
                            description: v@[i].description@,
                        }
                    } else {
                        SpecCollectedField {
                            name: Seq::empty(),
                            collected_type: SpecCollected::Any,
                            required: false,
                            description: Seq::empty(),
                        }
                    },
            ),
        ),
        CollectedType::Named { name, args } => SpecCollected::Named {
            name: name@,
            args: Seq::new(
                args@.len(),
                |i: int| if 0 <= i < args@.len() { collected_view(args@[i]) } else { SpecCollected::Any },
            ),
        },
        CollectedType::TypeOf(s) => SpecCollected::TypeOf(s@),
        CollectedType::IndexedAccess { obj, key } => SpecCollected::IndexedAccess {
            obj: Box::new(collected_view(*obj)),
            key: Box::new(collected_view(*key)),
        },
        CollectedType::TemplateLiteral(v) => SpecCollected::TemplateLiteral(
            Seq::new(v@.len(), |i: int| if 0 <= i < v@.len() { collected_view(v@[i]) } else { SpecCollected::Any }),
        ),
        CollectedType::Function { params, return_type } => SpecCollected::Function {
            params: Seq::new(
                params@.len(),
                |i: int| if 0 <= i < params@.len() { collected_view(params@[i]) } else { SpecCollected::Any },
            ),
            return_type: Box::new(collected_view(*return_type)),
        },
        CollectedType::Conditional { check, extends_type, true_type, false_type } => SpecCollected::Conditional {
            check: Box::new(collected_view(*check)),
            extends_type: Box::new(collected_view(*extends_type)),
            true_type: Box::new(collected_view(*true_type)),
            false_type: Box::new(collected_view(*false_type)),
        },
        CollectedType::Mapped { key_type, value_type } => SpecCollected::Mapped {
            key_type: Box::new(collected_view(*key_type)),
            value_type: Box::new(collected_view(*value_type)),
        },
        CollectedType::Raw(s) => SpecCollected::Raw(s@),
    }
}

impl View for CollectedType {
    type V = SpecCollected;

    open spec fn view(&self) -> SpecCollected {
        collected_view(*self)
    }
}

impl View for CollectedObjectField {
    type V = SpecCollectedField;

    open spec fn view(&self) -> SpecCollectedField {
        SpecCollectedField {
            name: self.name@,
            collected_type: self.collected_type@,
            required: self.required,
            description: self.description@,
        }
    }
}

pub open spec fn collected_seq_view(v: Seq<CollectedType>) -> Seq<SpecCollected> {
    v.map_values(|c: CollectedType| c@)
}

pub open spec fn collected_fields_view(v: Seq<CollectedObjectField>) -> Seq<SpecCollectedField> {
    v.map_values(|f: CollectedObjectField| f@)
}

/// The views of a collected type's children, as seen through its own view.
pub proof fn lemma_collected_view_children(c: CollectedType)
    ensures
        c matches CollectedType::Union(v) ==> c@ == SpecCollected::Union(collected_seq_view(v@)),
        c matches CollectedType::Intersection(v) ==> c@ == SpecCollected::Intersection(collected_seq_view(v@)),
        c matches CollectedType::Tuple(v) ==> c@ == SpecCollected::Tuple(collected_seq_view(v@)),
        c matches CollectedType::TemplateLiteral(v) ==> c@ == SpecCollected::TemplateLiteral(collected_seq_view(v@)),
        c matches CollectedType::Object(v) ==> c@ == SpecCollected::Object(collected_fields_view(v@)),
        c matches CollectedType::Named { name, args } ==> c@ == (SpecCollected::Named {
            name: name@,
            args: collected_seq_view(args@),
        }),
        c matches CollectedType::Function { params, return_type } ==> c@ == (SpecCollected::Function {
            params: collected_seq_view(params@),
            return_type: Box::new(return_type@),
        }),
{
    match c {
        CollectedType::Union(v) => { assert(c@->Union_0 =~= collected_seq_view(v@)); },
        CollectedType::Intersection(v) => { assert(c@->Intersection_0 =~= collected_seq_view(v@)); },
        CollectedType::Tuple(v) => { assert(c@->Tuple_0 =~= collected_seq_view(v@)); },
        CollectedType::TemplateLiteral(v) => { assert(c@->TemplateLiteral_0 =~= collected_seq_view(v@)); },
        CollectedType::Object(v) => { assert(c@->Object_0 =~= collected_fields_view(v@)); },
        CollectedType::Named { name, args } => { assert(c@->Named_args =~= collected_seq_view(args@)); },
        CollectedType::Function { params, return_type } => {
            assert(c@->Function_params =~= collected_seq_view(params@));
        },
        _ => {},
    }
}

// ─── Collected declarations ──────────────────────────────────────────────────

/// A prop signature as written in an interface.
#[derive(Debug)]
pub struct RawProp {
    pub name: String,
    pub collected_type: CollectedType,
    pub required: bool,
    pub description: String,
    pub tags: Vec<(String, String)>,
    pub span_start: u32,
    pub span_end: u32,
}

pub struct SpecRawProp {
    pub name: Seq<char>,
    pub collected_type: SpecCollected,
    pub required: bool,
    pub description: Seq<char>,
    pub tags: Seq<(Seq<char>, Seq<char>)>,
    pub span_start: u32,
    pub span_end: u32,
}

impl View for RawProp {
    type V = SpecRawProp;

    open spec fn view(&self) -> SpecRawProp {
        SpecRawProp {
            name: self.name@,
            collected_type: self.collected_type@,
            required: self.required,
            description: self.description@,
            tags: pairs_view(self.tags@),
            span_start: self.span_start,
            span_end: self.span_end,
        }
    }
}

#[derive(Clone, Copy, Debug, PartialEq, Eq, Structural)]
pub enum DefaultSource {
    Destructuring,
    DefaultProps,
}

/// A default value as written in the component's code.
#[derive(Debug)]
pub struct RawDefault {
    pub value: String,
    pub computed: bool,
    pub source: DefaultSource,
}

pub struct SpecRawDefault {
    pub value: Seq<char>,
    pub computed: bool,
    pub source: DefaultSource,
}

impl View for RawDefault {
    type V = SpecRawDefault;

    open spec fn view(&self) -> SpecRawDefault {
        SpecRawDefault { value: self.value@, computed: self.computed, source: self.source }
    }
}

/// How an interface's `extends` clause names its parent.
#[derive(Debug)]
pub enum ExtendsRef {
    Builtin { name: String, element: Option<String>, type_args: Vec<String> },
    SameFile { name: String, type_args: Vec<String> },
    Imported { local_name: String, type_args: Vec<String>, source_specifier: Option<String> },
}

#[allow(inconsistent_fields)]
pub enum SpecExtendsRef {
    Builtin { name: Seq<char>, element: Option<Seq<char>>, type_args: Seq<Seq<char>> },
    SameFile { name: Seq<char>, type_args: Seq<Seq<char>> },
    Imported { local_name: Seq<char>, type_args: Seq<Seq<char>>, source_specifier: Option<Seq<char>> },
}

impl View for ExtendsRef {
    type V = SpecExtendsRef;

    open spec fn view(&self) -> SpecExtendsRef {
        match self {
            ExtendsRef::Builtin { name, element, type_args } => SpecExtendsRef::Builtin {
                name: name@,
                element: opt_str_view(*element),
                type_args: strs_view(type_args@),
            },
            ExtendsRef::SameFile { name, type_args } => SpecExtendsRef::SameFile {
                name: name@,
                type_args: strs_view(type_args@),
            },
            ExtendsRef::Imported { local_name, type_args, source_specifier } => SpecExtendsRef::Imported {
                local_name: local_name@,
                type_args: strs_view(type_args@),
                source_specifier: opt_str_view(*source_specifier),
            },
        }
    }
}

#[derive(Debug)]
pub struct CollectedInterface {
    pub scoped_key: String,
    pub name: String,
    pub file_path: String,
    pub props: Vec<RawProp>,
    pub extends: Vec<ExtendsRef>,
    pub description: String,
    pub tags: Vec<(String, String)>,
}

pub struct SpecInterface {
    pub scoped_key: Seq<char>,
    pub name: Seq<char>,
    pub file_path: Seq<char>,
    pub props: Seq<SpecRawProp>,
    pub extends: Seq<SpecExtendsRef>,
    pub description: Seq<char>,
    pub tags: Seq<(Seq<char>, Seq<char>)>,
}

impl View for CollectedInterface {
    type V = SpecInterface;

    open spec fn view(&self) -> SpecInterface {
        SpecInterface {
            scoped_key: self.scoped_key@,
            name: self.name@,
            file_path: self.file_path@,
            props: self.props@.map_values(|p: RawProp| p@),
            extends: self.extends@.map_values(|e: ExtendsRef| e@),
            description: self.description@,
            tags: pairs_view(self.tags@),
        }
    }
}

/// A type alias, classified by the shape of its right-hand side.
#[derive(Debug)]
pub enum CollectedTypeAlias {
    Passthrough { target: CollectedType, file_path: String },
    Omit { base: CollectedType, omitted_keys: Vec<String>, file_path: String },
    Pick { base: CollectedType, picked_keys: Vec<String>, file_path: String },
    Partial { base: CollectedType, file_path: String },
    Required { base: CollectedType, file_path: String },
    Union { members: Vec<CollectedType>, file_path: String },
    Intersection { members: Vec<CollectedType>, file_path: String },
    LiteralUnion { members: Vec<String>, file_path: String },
}

#[allow(inconsistent_fields)]
pub enum SpecAlias {
    Passthrough { target: SpecCollected, file_path: Seq<char> },
    Omit { base: SpecCollected, omitted_keys: Seq<Seq<char>>, file_path: Seq<char> },
    Pick { base: SpecCollected, picked_keys: Seq<Seq<char>>, file_path: Seq<char> },
    Partial { base: SpecCollected, file_path: Seq<char> },
    Required { base: SpecCollected, file_path: Seq<char> },
    Union { members: Seq<SpecCollected>, file_path: Seq<char> },
    Intersection { members: Seq<SpecCollected>, file_path: Seq<char> },
    LiteralUnion { members: Seq<Seq<char>>, file_path: Seq<char> },
}

impl View for CollectedTypeAlias {
    type V = SpecAlias;

    open spec fn view(&self) -> SpecAlias {
        match self {
            CollectedTypeAlias::Passthrough { target, file_path } => SpecAlias::Passthrough {
                target: target@,
                file_path: file_path@,
            },
            CollectedTypeAlias::Omit { base, omitted_keys, file_path } => SpecAlias::Omit {
                base: base@,
                omitted_keys: strs_view(omitted_keys@),
                file_path: file_path@,
            },
            CollectedTypeAlias::Pick { base, picked_keys, file_path } => SpecAlias::Pick {
                base: base@,
                picked_keys: strs_view(picked_keys@),
                file_path: file_path@,
            },
            CollectedTypeAlias::Partial { base, file_path } => SpecAlias::Partial {
                base: base@,
                file_path: file_path@,
            },
            CollectedTypeAlias::Required { base, file_path } => SpecAlias::Required {
                base: base@,
                file_path: file_path@,
            },
            CollectedTypeAlias::Union { members, file_path } => SpecAlias::Union {
                members: collected_seq_view(members@),
                file_path: file_path@,
            },
            CollectedTypeAlias::Intersection { members, file_path } => SpecAlias::Intersection {
                members: collected_seq_view(members@),
                file_path: file_path@,
            },
            CollectedTypeAlias::LiteralUnion { members, file_path } => SpecAlias::LiteralUnion {
                members: strs_view(members@),
                file_path: file_path@,
            },
        }
    }
}

// ─── Enums, imports, exports ─────────────────────────────────────────────────

#[derive(Debug)]
pub enum EnumValue {
    String(String),
    /// A numeric member value, held as its canonical decimal text.
    Number(String),
    Bool(bool),
}

pub enum SpecEnumValue {
    String(Seq<char>),
    Number(Seq<char>),
    Bool(bool),
}

impl View for EnumValue {
    type V = SpecEnumValue;

    open spec fn view(&self) -> SpecEnumValue {
        match self {
            EnumValue::String(s) => SpecEnumValue::String(s@),
            EnumValue::Number(s) => SpecEnumValue::Number(s@),
            EnumValue::Bool(b) => SpecEnumValue::Bool(*b),
        }
    }
}

#[derive(Debug)]
pub struct EnumEntry {
    pub name: String,
    pub value: EnumValue,
    pub description: String,
}

pub struct SpecEnumEntry {
    pub name: Seq<char>,
    pub value: SpecEnumValue,
    pub description: Seq<char>,
}

impl View for EnumEntry {
    type V = SpecEnumEntry;

    open spec fn view(&self) -> SpecEnumEntry {
        SpecEnumEntry { name: self.name@, value: self.value@, description: self.description@ }
    }
}

pub open spec fn enum_entries_view(v: Seq<EnumEntry>) -> Seq<SpecEnumEntry> {
    v.map_values(|e: EnumEntry| e@)
}

impl Clone for EnumEntry {
    fn clone(&self) -> (res: Self)
        ensures
            res@ == self@,
    {
        let value = match &self.value {
            EnumValue::String(s) => EnumValue::String(s.clone()),
            EnumValue::Number(s) => EnumValue::Number(s.clone()),
            EnumValue::Bool(b) => EnumValue::Bool(*b),
        };
        EnumEntry { name: self.name.clone(), value, description: self.description.clone() }
    }
}

pub fn clone_enum_entries(v: &Vec<EnumEntry>) -> (res: Vec<EnumEntry>)
    ensures
        enum_entries_view(res@) == enum_entries_view(v@),
{
    let mut out: Vec<EnumEntry> = Vec::new();
    let mut i: usize = 0;
    while i < v.len()
        invariant
            i <= v.len(),
            out@.len() == i,
            forall|j: int| 0 <= j < i ==> out@[j]@ == v@[j]@,
        decreases v.len() - i,
    {
        out.push(v[i].clone());
        i = i + 1;
    }
    proof { assert(enum_entries_view(out@) =~= enum_entries_view(v@)); }
    out
}

/// One imported name: `import { exported_name as local_name } from "specifier"`.
#[derive(Debug)]
pub struct ImportBinding {
    pub local_name: String,
    pub exported_name: String,
    pub specifier: String,
    pub is_type_only: bool,
}

pub struct SpecImportBinding {
    pub local_name: Seq<char>,
    pub exported_name: Seq<char>,
    pub specifier: Seq<char>,
    pub is_type_only: bool,
}

impl View for ImportBinding {
    type V = SpecImportBinding;

    open spec fn view(&self) -> SpecImportBinding {
        SpecImportBinding {
            local_name: self.local_name@,
            exported_name: self.exported_name@,
            specifier: self.specifier@,
            is_type_only: self.is_type_only,
        }
    }
}

/// One export statement, as written.
#[derive(Debug)]
pub enum LexedExport {
    ReExportNamed { local_name: String, source_name: String, source_specifier: String, is_type_only: bool },
    ReExportAll { source_specifier: String, is_type_only: bool },
    ReExportNamespace { namespace: String, source_specifier: String },
    LocalDeclaration { name: String, is_type_only: bool },
}

pub enum SpecLexedExport {
    ReExportNamed { local_name: Seq<char>, source_name: Seq<char>, source_specifier: Seq<char>, is_type_only: bool },
    ReExportAll { source_specifier: Seq<char>, is_type_only: bool },
    ReExportNamespace { namespace: Seq<char>, source_specifier: Seq<char> },
    LocalDeclaration { name: Seq<char>, is_type_only: bool },
}

impl View for LexedExport {
    type V = SpecLexedExport;

    open spec fn view(&self) -> SpecLexedExport {
        match self {
            LexedExport::ReExportNamed { local_name, source_name, source_specifier, is_type_only } =>
                SpecLexedExport::ReExportNamed {
                    local_name: local_name@,
                    source_name: source_name@,
                    source_specifier: source_specifier@,
                    is_type_only: *is_type_only,
                },
            LexedExport::ReExportAll { source_specifier, is_type_only } => SpecLexedExport::ReExportAll {
                source_specifier: source_specifier@,
                is_type_only: *is_type_only,
            },
            LexedExport::ReExportNamespace { namespace, source_specifier } => SpecLexedExport::ReExportNamespace {
                namespace: namespace@,
                source_specifier: source_specifier@,
            },
            LexedExport::LocalDeclaration { name, is_type_only } => SpecLexedExport::LocalDeclaration {
                name: name@,
                is_type_only: *is_type_only,
            },
        }
    }
}

/// A component found in a file, with the name of its props type.
#[derive(Debug)]
pub struct ComponentMapping {
    pub component_name: String,
    pub props_type_name: String,
    pub props_type_args: Vec<String>,
    pub file_path: String,
    pub description: String,
    pub tags: Vec<(String, String)>,
    pub span_start: u32,
    pub span_end: u32,
    pub param_defaults: Vec<(String, RawDefault)>,
}

pub struct SpecComponentMapping {
    pub component_name: Seq<char>,
    pub props_type_name: Seq<char>,
    pub props_type_args: Seq<Seq<char>>,
    pub file_path: Seq<char>,
    pub description: Seq<char>,
    pub tags: Seq<(Seq<char>, Seq<char>)>,
    pub span_start: u32,
    pub span_end: u32,
    pub param_defaults: Seq<(Seq<char>, SpecRawDefault)>,
}

impl View for ComponentMapping {
    type V = SpecComponentMapping;

    open spec fn view(&self) -> SpecComponentMapping {
        SpecComponentMapping {
            component_name: self.component_name@,
            props_type_name: self.props_type_name@,
            props_type_args: strs_view(self.props_type_args@),
            file_path: self.file_path@,
            description: self.description@,
            tags: pairs_view(self.tags@),
            span_start: self.span_start,
            span_end: self.span_end,
            param_defaults: self.param_defaults@.map_values(|p: (String, RawDefault)| (p.0@, p.1@)),
        }
    }
}

// ─── Per-file and merged source data ─────────────────────────────────────────

/// Everything collected from one source file. Declarations are keyed by
/// their scoped key, `"{file}:{name}"`.
#[derive(Debug)]
pub struct SourceData {
    pub interfaces: Vec<(String, CollectedInterface)>,
    pub type_aliases: Vec<(String, CollectedTypeAlias)>,
    pub enums: Vec<(String, Vec<EnumEntry>)>,
    pub component_mappings: Vec<ComponentMapping>,
    pub imports: Vec<ImportBinding>,
    pub exports: Vec<LexedExport>,
    pub diagnostics: Vec<Diagnostic>,
}

/// Everything collected from every source file. Declarations are keyed by
/// their scoped key, `"{file}:{name}"`; imports and exports by file path.
#[derive(Debug)]
pub struct GlobalSourceData {
    pub interfaces: Vec<(String, CollectedInterface)>,
    pub type_aliases: Vec<(String, CollectedTypeAlias)>,
    pub enums: Vec<(String, Vec<EnumEntry>)>,
    pub component_mappings: Vec<ComponentMapping>,
    pub import_map: Vec<(String, Vec<ImportBinding>)>,
    pub re_export_map: Vec<(String, Vec<LexedExport>)>,
}

pub struct SpecGlobal {
    pub interfaces: Seq<(Seq<char>, SpecInterface)>,
    pub type_aliases: Seq<(Seq<char>, SpecAlias)>,
    pub enums: Seq<(Seq<char>, Seq<SpecEnumEntry>)>,
    pub component_mappings: Seq<SpecComponentMapping>,
    pub import_map: Seq<(Seq<char>, Seq<SpecImportBinding>)>,
    pub re_export_map: Seq<(Seq<char>, Seq<SpecLexedExport>)>,
}

impl View for GlobalSourceData {
    type V = SpecGlobal;

    open spec fn view(&self) -> SpecGlobal {
        SpecGlobal {
            interfaces: self.interfaces@.map_values(|p: (String, CollectedInterface)| (p.0@, p.1@)),
            type_aliases: self.type_aliases@.map_values(|p: (String, CollectedTypeAlias)| (p.0@, p.1@)),
            enums: self.enums@.map_values(|p: (String, Vec<EnumEntry>)| (p.0@, enum_entries_view(p.1@))),
            component_mappings: self.component_mappings@.map_values(|m: ComponentMapping| m@),
            import_map: self.import_map@.map_values(
                |p: (String, Vec<ImportBinding>)| (p.0@, p.1@.map_values(|b: ImportBinding| b@)),
            ),
            re_export_map: self.re_export_map@.map_values(
                |p: (String, Vec<LexedExport>)| (p.0@, p.1@.map_values(|e: LexedExport| e@)),
            ),
        }
    }
}

impl Default for SourceData {
    fn default() -> (res: Self)
        ensures
            res.interfaces@.len() == 0,
            res.type_aliases@.len() == 0,
            res.enums@.len() == 0,
            res.component_mappings@.len() == 0,
            res.imports@.len() == 0,
            res.exports@.len() == 0,
            res.diagnostics@.len() == 0,
    {
        SourceData {
            interfaces: Vec::new(),
            type_aliases: Vec::new(),
            enums: Vec::new(),
            component_mappings: Vec::new(),
            imports: Vec::new(),
            exports: Vec::new(),
            diagnostics: Vec::new(),
        }
    }
}

impl Default for GlobalSourceData {
    fn default() -> (res: Self)
        ensures
            res@.interfaces.len() == 0,
            res@.type_aliases.len() == 0,
            res@.enums.len() == 0,
            res@.component_mappings.len() == 0,
            res@.import_map.len() == 0,
            res@.re_export_map.len() == 0,
    {
        GlobalSourceData::new()
    }
}

impl GlobalSourceData {
    pub fn new() -> (res: Self)
        ensures
            res@.interfaces.len() == 0,
            res@.type_aliases.len() == 0,
            res@.enums.len() == 0,
            res@.component_mappings.len() == 0,
            res@.import_map.len() == 0,
            res@.re_export_map.len() == 0,
    {
        GlobalSourceData {
            interfaces: Vec::new(),
            type_aliases: Vec::new(),
            enums: Vec::new(),
            component_mappings: Vec::new(),
            import_map: Vec::new(),
            re_export_map: Vec::new(),
        }
    }
}

// ─── Cloning collected data ──────────────────────────────────────────────────

/// Clones a vector of collected types, keeping its view.
pub fn clone_collected_types(v: &Vec<CollectedType>) -> (res: Vec<CollectedType>)
    ensures
        collected_seq_view(res@) == collected_seq_view(v@),
    decreases v@, 0nat,
{
    let mut out: Vec<CollectedType> = Vec::new();
    let mut i: usize = 0;
    while i < v.len()
        invariant
            i <= v.len(),
            out@.len() == i,
            forall|j: int| 0 <= j < i ==> out@[j]@ == v@[j]@,
        decreases v.len() - i,
    {
        proof { assert(decreases_to!(v@ => v@[i as int])); }
        out.push(v[i].clone());
        i = i + 1;
    }
    proof { assert(collected_seq_view(out@) =~= collected_seq_view(v@)); }
    out
}

impl Clone for CollectedType {
    fn clone(&self) -> (res: Self)
        ensures
            res@ == self@,
        decreases self, 1nat,
    {
        proof { lemma_collected_view_children(*self); }
        let res = match self {
            CollectedType::String => CollectedType::String,
            CollectedType::Number => CollectedType::Number,
            CollectedType::Boolean => CollectedType::Boolean,
            CollectedType::Null => CollectedType::Null,
            CollectedType::Undefined => CollectedType::Undefined,
            CollectedType::Any => CollectedType::Any,
            CollectedType::Never => CollectedType::Never,
            CollectedType::Unknown => CollectedType::Unknown,
            CollectedType::Void => CollectedType::Void,
            CollectedType::BigInt => CollectedType::BigInt,
            CollectedType::Symbol => CollectedType::Symbol,
            CollectedType::StringLiteral(s) => CollectedType::StringLiteral(s.clone()),
            CollectedType::NumberLiteral(s) => CollectedType::NumberLiteral(s.clone()),
            CollectedType::BoolLiteral(b) => CollectedType::BoolLiteral(*b),
            CollectedType::Union(v) => {
                proof { assert(decreases_to!(*self => self->Union_0)); }
                CollectedType::Union(clone_collected_types(v))
            },
            CollectedType::Intersection(v) => {
                proof { assert(decreases_to!(*self => self->Intersection_0)); }
                CollectedType::Intersection(clone_collected_types(v))
            },
            CollectedType::Array(b) => CollectedType::Array(Box::new((**b).clone())),
            CollectedType::Tuple(v) => {
                proof { assert(decreases_to!(*self => self->Tuple_0)); }
                CollectedType::Tuple(clone_collected_types(v))
            },
            CollectedType::Object(v) => {
                let mut out: Vec<CollectedObjectField> = Vec::new();
                let mut i: usize = 0;
                while i < v.len()
                    invariant
                        i <= v.len(),
                        *self == CollectedType::Object(*v),
                        out@.len() == i,
                        forall|j: int| 0 <= j < i ==> out@[j]@ == v@[j]@,
                    decreases v.len() - i,
                {
                    proof {
                        assert(decreases_to!(*self => self->Object_0));
                        assert(decreases_to!(self->Object_0 => v@[i as int].collected_type));
                    }
                    let f = CollectedObjectField {
                        name: v[i].name.clone(),
                        collected_type: v[i].collected_type.clone(),
                        required: v[i].required,
                        description: v[i].description.clone(),
                    };
                    out.push(f);
                    i = i + 1;
                }
                proof { assert(collected_fields_view(out@) =~= collected_fields_view(v@)); }
                CollectedType::Object(out)
            },
            CollectedType::Named { name, args } => {
                proof { assert(decreases_to!(*self => self->Named_args)); }
                CollectedType::Named { name: name.clone(), args: clone_collected_types(args) }
            },
            CollectedType::TypeOf(s) => CollectedType::TypeOf(s.clone()),
            CollectedType::IndexedAccess { obj, key } => CollectedType::IndexedAccess {
                obj: Box::new((**obj).clone()),
                key: Box::new((**key).clone()),
            },
            CollectedType::TemplateLiteral(v) => {
                proof { assert(decreases_to!(*self => self->TemplateLiteral_0)); }
                CollectedType::TemplateLiteral(clone_collected_types(v))
            },
            CollectedType::Function { params, return_type } => {
                proof { assert(decreases_to!(*self => self->Function_params)); }
                CollectedType::Function {
                    params: clone_collected_types(params),
                    return_type: Box::new((**return_type).clone()),
                }
            },
            CollectedType::Conditional { check, extends_type, true_type, false_type } => CollectedType::Conditional {
                check: Box::new((**check).clone()),
                extends_type: Box::new((**extends_type).clone()),
                true_type: Box::new((**true_type).clone()),
                false_type: Box::new((**false_type).clone()),
            },
            CollectedType::Mapped { key_type, value_type } => CollectedType::Mapped {
                key_type: Box::new((**key_type).clone()),
                value_type: Box::new((**value_type).clone()),
            },
            CollectedType::Raw(s) => CollectedType::Raw(s.clone()),
        };
        proof { lemma_collected_view_children(res); }
        res
    }
}

impl Clone for RawProp {
    fn clone(&self) -> (res: Self)
        ensures
            res@ == self@,
    {
        RawProp {
            name: self.name.clone(),
            collected_type: self.collected_type.clone(),
            required: self.required,
            description: self.description.clone(),
            tags: clone_pairs(&self.tags),
            span_start: self.span_start,
            span_end: self.span_end,
        }
    }
}

impl Clone for RawDefault {
    fn clone(&self) -> (res: Self)
        ensures
            res@ == self@,
    {
        RawDefault { value: self.value.clone(), computed: self.computed, source: self.source }
    }
}

impl Clone for ExtendsRef {
    fn clone(&self) -> (res: Self)
        ensures
            res@ == self@,
    {
        match self {
            ExtendsRef::Builtin { name, element, type_args } => ExtendsRef::Builtin {
                name: name.clone(),
                element: clone_opt_string(element),
                type_args: clone_strings(type_args),
            },
            ExtendsRef::SameFile { name, type_args } => ExtendsRef::SameFile {
                name: name.clone(),
                type_args: clone_strings(type_args),
            },
            ExtendsRef::Imported { local_name, type_args, source_specifier } => ExtendsRef::Imported {
                local_name: local_name.clone(),
                type_args: clone_strings(type_args),
                source_specifier: clone_opt_string(source_specifier),
            },
        }
    }
}

impl Clone for CollectedInterface {
    fn clone(&self) -> (res: Self)
        ensures
            res@ == self@,
    {
        let mut props: Vec<RawProp> = Vec::new();
        let mut i: usize = 0;
        while i < self.props.len()
            invariant
                i <= self.props.len(),
                props@.len() == i,
                forall|j: int| 0 <= j < i ==> (#[trigger] props@[j])@ == self.props@[j]@,
            decreases self.props.len() - i,
        {
            props.push(self.props[i].clone());
            i = i + 1;
        }
        let mut extends: Vec<ExtendsRef> = Vec::new();
        let mut k: usize = 0;
        while k < self.extends.len()
            invariant
                k <= self.extends.len(),
                extends@.len() == k,
                forall|j: int| 0 <= j < k ==> (#[trigger] extends@[j])@ == self.extends@[j]@,
            decreases self.extends.len() - k,
        {
            extends.push(self.extends[k].clone());
            k = k + 1;
        }
        let res = CollectedInterface {
            scoped_key: self.scoped_key.clone(),
            name: self.name.clone(),
            file_path: self.file_path.clone(),
            props,
            extends,
            description: self.description.clone(),
            tags: clone_pairs(&self.tags),
        };
        proof {
            assert(res@.props =~= self@.props);
            assert(res@.extends =~= self@.extends);
        }
        res
    }
}

impl Clone for CollectedTypeAlias {
    fn clone(&self) -> (res: Self)
        ensures
            res@ == self@,
    {
        match self {
            CollectedTypeAlias::Passthrough { target, file_path } => CollectedTypeAlias::Passthrough {
                target: target.clone(),
                file_path: file_path.clone(),
            },
            CollectedTypeAlias::Omit { base, omitted_keys, file_path } => CollectedTypeAlias::Omit {
                base: base.clone(),
                omitted_keys: clone_strings(omitted_keys),
                file_path: file_path.clone(),
            },
            CollectedTypeAlias::Pick { base, picked_keys, file_path } => CollectedTypeAlias::Pick {
                base: base.clone(),
                picked_keys: clone_strings(picked_keys),
                file_path: file_path.clone(),
            },
            CollectedTypeAlias::Partial { base, file_path } => CollectedTypeAlias::Partial {
                base: base.clone(),
                file_path: file_path.clone(),
            },
            CollectedTypeAlias::Required { base, file_path } => CollectedTypeAlias::Required {
                base: base.clone(),
                file_path: file_path.clone(),
            },
            CollectedTypeAlias::Union { members, file_path } => CollectedTypeAlias::Union {
                members: clone_collected_types(members),
                file_path: file_path.clone(),
            },
            CollectedTypeAlias::Intersection { members, file_path } => CollectedTypeAlias::Intersection {
                members: clone_collected_types(members),
                file_path: file_path.clone(),
            },
            CollectedTypeAlias::LiteralUnion { members, file_path } => CollectedTypeAlias::LiteralUnion {
                members: clone_strings(members),
                file_path: file_path.clone(),
            },
        }
    }
}

impl Clone for ImportBinding {
    fn clone(&self) -> (res: Self)
        ensures
            res@ == self@,
    {
        ImportBinding {
            local_name: self.local_name.clone(),
            exported_name: self.exported_name.clone(),
            specifier: self.specifier.clone(),
            is_type_only: self.is_type_only,
        }
    }
}

impl Clone for LexedExport {
    fn clone(&self) -> (res: Self)
        ensures
            res@ == self@,
    {
        match self {
            LexedExport::ReExportNamed { local_name, source_name, source_specifier, is_type_only } =>
                LexedExport::ReExportNamed {
                    local_name: local_name.clone(),
                    source_name: source_name.clone(),
                    source_specifier: source_specifier.clone(),
                    is_type_only: *is_type_only,
                },
            LexedExport::ReExportAll { source_specifier, is_type_only } => LexedExport::ReExportAll {
                source_specifier: source_specifier.clone(),
                is_type_only: *is_type_only,
            },
            LexedExport::ReExportNamespace { namespace, source_specifier } => LexedExport::ReExportNamespace {
                namespace: namespace.clone(),
                source_specifier: source_specifier.clone(),
            },
            LexedExport::LocalDeclaration { name, is_type_only } => LexedExport::LocalDeclaration {
                name: name.clone(),
                is_type_only: *is_type_only,
            },
        }
    }
}

impl Clone for ComponentMapping {
    fn clone(&self) -> (res: Self)
        ensures
            res@ == self@,
    {
        let mut defaults: Vec<(String, RawDefault)> = Vec::new();
        let mut i: usize = 0;
        while i < self.param_defaults.len()
            invariant
                i <= self.param_defaults.len(),
                defaults@.len() == i,
                forall|j: int| 0 <= j < i ==> (#[trigger] defaults@[j]).0@ == self.param_defaults@[j].0@
                    && defaults@[j].1@ == self.param_defaults@[j].1@,
            decreases self.param_defaults.len() - i,
        {
            defaults.push((self.param_defaults[i].0.clone(), self.param_defaults[i].1.clone()));
            i = i + 1;
        }
        let res = ComponentMapping {
            component_name: self.component_name.clone(),
            props_type_name: self.props_type_name.clone(),
            props_type_args: clone_strings(&self.props_type_args),
            file_path: self.file_path.clone(),
            description: self.description.clone(),
            tags: clone_pairs(&self.tags),
            span_start: self.span_start,
            span_end: self.span_end,
            param_defaults: defaults,
        };
        proof { assert(res@.param_defaults =~= self@.param_defaults); }
        res
    }
}

// ─── Whole-value copies ──────────────────────────────────────────────────────

/// Clones each element of `v` in order.
pub fn clone_vec<T: Clone>(v: &Vec<T>) -> (res: Vec<T>)
    ensures
        res@.len() == v@.len(),
        forall|j: int| 0 <= j < v@.len() ==> cloned(v@[j], #[trigger] res@[j]),
{
    let mut out: Vec<T> = Vec::new();
    let mut i: usize = 0;
    while i < v.len()
        invariant
            i <= v@.len(),
            out@.len() == i,
            forall|j: int| 0 <= j < i ==> cloned(v@[j], #[trigger] out@[j]),
        decreases v.len() - i,
    {
        out.push(v[i].clone());
        i = i + 1;
    }
    out
}

/// Clones each keyed entry of `v` in order.
pub fn clone_keyed<V: Clone>(v: &Vec<(String, V)>) -> (res: Vec<(String, V)>)
    ensures
        res@.len() == v@.len(),
        forall|j: int| 0 <= j < v@.len() ==> (#[trigger] res@[j]).0@ == v@[j].0@ && cloned(v@[j].1, res@[j].1),
{
    let mut out: Vec<(String, V)> = Vec::new();
    let mut i: usize = 0;
    while i < v.len()
        invariant
            i <= v@.len(),
            out@.len() == i,
            forall|j: int| 0 <= j < i ==> (#[trigger] out@[j]).0@ == v@[j].0@ && cloned(v@[j].1, out@[j].1),
        decreases v.len() - i,
    {
        out.push((v[i].0.clone(), v[i].1.clone()));
        i = i + 1;
    }
    out
}

impl Clone for ComponentEntry {
    fn clone(&self) -> (res: Self)
        ensures
            res@ == self@,
    {
        let res = ComponentEntry {
            display_name: self.display_name.clone(),
            file_path: self.file_path.clone(),
            description: self.description.clone(),
            props: clone_vec(&self.props),
            inheritance: clone_vec(&self.inheritance),
            notable_inherited: clone_vec(&self.notable_inherited),
            discriminant_prop: clone_opt_string(&self.discriminant_prop),
            composes: clone_strings(&self.composes),
            tags: clone_pairs(&self.tags),
        };
        proof {
            assert(res@.props =~= self@.props);
            assert(res@.inheritance =~= self@.inheritance);
            assert(res@.notable_inherited =~= self@.notable_inherited);
        }
        res
    }
}

impl Clone for GlobalSourceData {
    fn clone(&self) -> (res: Self)
        ensures
            res@ == self@,
    {
        let mut enums: Vec<(String, Vec<EnumEntry>)> = Vec::new();
        let mut i: usize = 0;
        while i < self.enums.len()
            invariant
                i <= self.enums@.len(),
                enums@.len() == i,
                forall|j: int| 0 <= j < i ==> (#[trigger] enums@[j]).0@ == self.enums@[j].0@
                    && enum_entries_view(enums@[j].1@) == enum_entries_view(self.enums@[j].1@),
            decreases self.enums.len() - i,
        {
            enums.push((self.enums[i].0.clone(), clone_enum_entries(&self.enums[i].1)));
            i = i + 1;
        }
        let mut import_map: Vec<(String, Vec<ImportBinding>)> = Vec::new();
        let mut i: usize = 0;
        while i < self.import_map.len()
            invariant
                i <= self.import_map@.len(),
                import_map@.len() == i,
                forall|j: int| 0 <= j < i ==> (#[trigger] import_map@[j]).0@ == self.import_map@[j].0@
                    && import_map@[j].1@.map_values(|b: ImportBinding| b@)
                        == self.import_map@[j].1@.map_values(|b: ImportBinding| b@),
            decreases self.import_map.len() - i,
        {
            let bs = clone_vec(&self.import_map[i].1);
            proof {
                assert(bs@.map_values(|b: ImportBinding| b@) =~= self.import_map@[i as int].1@.map_values(|b: ImportBinding| b@));
            }
            import_map.push((self.import_map[i].0.clone(), bs));
            i = i + 1;
        }
        let mut re_export_map: Vec<(String, Vec<LexedExport>)> = Vec::new();
        let mut i: usize = 0;
        while i < self.re_export_map.len()
            invariant
                i <= self.re_export_map@.len(),
                re_export_map@.len() == i,
                forall|j: int| 0 <= j < i ==> (#[trigger] re_export_map@[j]).0@ == self.re_export_map@[j].0@
                    && re_export_map@[j].1@.map_values(|e: LexedExport| e@)
                        == self.re_export_map@[j].1@.map_values(|e: LexedExport| e@),
            decreases self.re_export_map.len() - i,
        {
            let es = clone_vec(&self.re_export_map[i].1);
            proof {
                assert(es@.map_values(|e: LexedExport| e@) =~= self.re_export_map@[i as int].1@.map_values(|e: LexedExport| e@));
            }
            re_export_map.push((self.re_export_map[i].0.clone(), es));
            i = i + 1;
        }
        let res = GlobalSourceData {
            interfaces: clone_keyed(&self.interfaces),
            type_aliases: clone_keyed(&self.type_aliases),
            enums,
            component_mappings: clone_vec(&self.component_mappings),
            import_map,
            re_export_map,
        };
        proof {
            assert(res@.interfaces =~= self@.interfaces);
            assert(res@.type_aliases =~= self@.type_aliases);
            assert(res@.enums =~= self@.enums);
            assert(res@.component_mappings =~= self@.component_mappings);
            assert(res@.import_map =~= self@.import_map);
            assert(res@.re_export_map =~= self@.re_export_map);
        }
        res
    }
}

impl Clone for SourceData {
    fn clone(&self) -> (res: Self)
        ensures
            res.interfaces@.map_values(|p: (String, CollectedInterface)| (p.0@, p.1@))
                == self.interfaces@.map_values(|p: (String, CollectedInterface)| (p.0@, p.1@)),
            res.type_aliases@.map_values(|p: (String, CollectedTypeAlias)| (p.0@, p.1@))
                == self.type_aliases@.map_values(|p: (String, CollectedTypeAlias)| (p.0@, p.1@)),
            res.enums@.map_values(|p: (String, Vec<EnumEntry>)| (p.0@, enum_entries_view(p.1@)))
                == self.enums@.map_values(|p: (String, Vec<EnumEntry>)| (p.0@, enum_entries_view(p.1@))),
            res.component_mappings@.map_values(|m: ComponentMapping| m@)
                == self.component_mappings@.map_values(|m: ComponentMapping| m@),
            res.imports@.map_values(|b: ImportBinding| b@) == self.imports@.map_values(|b: ImportBinding| b@),
            res.exports@.map_values(|e: LexedExport| e@) == self.exports@.map_values(|e: LexedExport| e@),
            res.diagnostics@.map_values(|d: Diagnostic| d@) == self.diagnostics@.map_values(|d: Diagnostic| d@),
    {
        let mut enums: Vec<(String, Vec<EnumEntry>)> = Vec::new();
        let mut i: usize = 0;
        while i < self.enums.len()
            invariant
                i <= self.enums@.len(),
                enums@.len() == i,
                forall|j: int| 0 <= j < i ==> (#[trigger] enums@[j]).0@ == self.enums@[j].0@
                    && enum_entries_view(enums@[j].1@) == enum_entries_view(self.enums@[j].1@),
            decreases self.enums.len() - i,
        {
            enums.push((self.enums[i].0.clone(), clone_enum_entries(&self.enums[i].1)));
            i = i + 1;
        }
        let res = SourceData {
            interfaces: clone_keyed(&self.interfaces),
            type_aliases: clone_keyed(&self.type_aliases),
            enums,
            component_mappings: clone_vec(&self.component_mappings),
            imports: clone_vec(&self.imports),
            exports: clone_vec(&self.exports),
            diagnostics: clone_vec(&self.diagnostics),
        };
        proof {
            assert(res.interfaces@.map_values(|p: (String, CollectedInterface)| (p.0@, p.1@))
                =~= self.interfaces@.map_values(|p: (String, CollectedInterface)| (p.0@, p.1@)));
            assert(res.type_aliases@.map_values(|p: (String, CollectedTypeAlias)| (p.0@, p.1@))
                =~= self.type_aliases@.map_values(|p: (String, CollectedTypeAlias)| (p.0@, p.1@)));
            assert(res.enums@.map_values(|p: (String, Vec<EnumEntry>)| (p.0@, enum_entries_view(p.1@)))
                =~= self.enums@.map_values(|p: (String, Vec<EnumEntry>)| (p.0@, enum_entries_view(p.1@))));
            assert(res.component_mappings@.map_values(|m: ComponentMapping| m@)
                =~= self.component_mappings@.map_values(|m: ComponentMapping| m@));
            assert(res.imports@.map_values(|b: ImportBinding| b@) =~= self.imports@.map_values(|b: ImportBinding| b@));
            assert(res.exports@.map_values(|e: LexedExport| e@) =~= self.exports@.map_values(|e: LexedExport| e@));
            assert(res.diagnostics@.map_values(|d: Diagnostic| d@) =~= self.diagnostics@.map_values(|d: Diagnostic| d@));
        }
        res
    }
}

} // verus!
