//! The decisions made while a file is read: the nesting bound checked before
//! parsing, the depth below which types are kept as source text, the order in
//! which the component patterns are tried on a declaration, and the notes on
//! declarations that look like components but match no pattern.

use vstd::prelude::*;
use crate::text::push_char;
use crate::types::{ComponentMapping, Diagnostic, DiagnosticCode, DiagnosticSeverity, SpecComponentMapping, SpecDiagnostic};

verus! {

// ─── Decimal text ────────────────────────────────────────────────────────────

/// The digit character of `d` (below ten).
pub open spec fn digit_char(d: nat) -> char {
    if d == 0 { '0' }
    else if d == 1 { '1' }
    else if d == 2 { '2' }
    else if d == 3 { '3' }
    else if d == 4 { '4' }
    else if d == 5 { '5' }
    else if d == 6 { '6' }
    else if d == 7 { '7' }
    else if d == 8 { '8' }
    else { '9' }
}

/// The decimal text of `n`, without leading zeros.
pub open spec fn decimal(n: nat) -> Seq<char>
    decreases n,
{
    if n < 10 {
        seq![digit_char(n)]
    } else {
        decimal(n / 10).push(digit_char(n % 10))
    }
}

fn digit(d: usize) -> (res: char)
    requires
        d < 10,
    ensures
        res == digit_char(d as nat),
{
    if d == 0 { '0' }
    else if d == 1 { '1' }
    else if d == 2 { '2' }
    else if d == 3 { '3' }
    else if d == 4 { '4' }
    else if d == 5 { '5' }
    else if d == 6 { '6' }
    else if d == 7 { '7' }
    else if d == 8 { '8' }
    else { '9' }
}

/// Appends the decimal text of `n`.
pub fn push_decimal(s: &mut String, n: usize)
    ensures
        final(s)@ == old(s)@ + decimal(n as nat),
    decreases n,
{
    if n >= 10 {
        push_decimal(s, n / 10);
    }
    push_char(s, digit(n % 10));
    proof {
        if n < 10 {
            assert(old(s)@ + decimal(n as nat) =~= old(s)@.push(digit_char(n as nat)));
        } else {
            assert(old(s)@ + decimal(n as nat) =~= (old(s)@ + decimal((n / 10) as nat)).push(digit_char((n % 10) as nat)));
        }
    }
}

// ─── Bounds ──────────────────────────────────────────────────────────────────

/// Bracket nesting above which a file is not handed to the parser.
pub open spec fn max_source_nesting() -> nat {
    2000
}

/// Depth below which a type is kept as its source text.
pub open spec fn max_type_depth() -> nat {
    200
}

/// The error of a file nested `depth` deep, past the bound.
pub open spec fn nesting_diag(path: Seq<char>, depth: nat) -> SpecDiagnostic {
    crate::types::spec_file_diag(
        DiagnosticSeverity::Error,
        DiagnosticCode::ExcessiveNesting,
        "File exceeds maximum type nesting depth ("@ + decimal(depth) + " > 2000), skipped to avoid parser stack overflow"@,
        path,
        Some("Reduce nested parenthesized/object/conditional types in this file."@),
    )
}

/// Whether the file `path` with `source` may be parsed: `None` when its
/// bracket nesting stays within the bound, else the error that skips it.
pub open spec fn spec_nesting_guard(path: Seq<char>, source: Seq<char>) -> Option<SpecDiagnostic> {
    let depth = crate::collect::spec_max_nesting(source);
    if depth > max_source_nesting() {
        Some(nesting_diag(path, depth as nat))
    } else {
        None
    }
}

/// Checks the bracket nesting of a file before it is parsed, whose
/// recursive descent could otherwise overrun the stack.
pub fn nesting_guard(path: &str, source: &str) -> (res: Option<Diagnostic>)
    ensures
        match res {
            Some(d) => spec_nesting_guard(path@, source@) == Some(d@),
            None => spec_nesting_guard(path@, source@) is None,
        },
{
    let depth = crate::collect::max_bracket_nesting_depth(source);
    if depth > 2000 {
        let mut m = "File exceeds maximum type nesting depth (".to_owned();
        push_decimal(&mut m, depth);
        m.append(" > 2000), skipped to avoid parser stack overflow");
        let d = crate::resolver::context::file_diag(
            DiagnosticSeverity::Error,
            DiagnosticCode::ExcessiveNesting,
            m,
            path,
            Some("Reduce nested parenthesized/object/conditional types in this file.".to_owned()),
        );
        Some(d)
    } else {
        None
    }
}

/// The warning for a type read `depth` deep, past the bound.
pub open spec fn type_depth_diag(file: Seq<char>, depth: nat) -> SpecDiagnostic {
    crate::types::spec_file_diag(
        DiagnosticSeverity::Warning,
        DiagnosticCode::MaxDepthExceeded,
        "Type nesting exceeds maximum extractor recursion depth ("@ + decimal(depth) + " > 200)"@,
        file,
        Some("This may indicate a deeply chained conditional or mapped type."@),
    )
}

/// Whether a type of `file` read `depth` deep is past the bound, and then
/// the warning recorded for it (the type itself is kept as its source text).
pub fn type_depth_cut(file: &str, depth: u32) -> (res: Option<Diagnostic>)
    ensures
        match res {
            Some(d) => depth > max_type_depth() && d@ == type_depth_diag(file@, depth as nat),
            None => depth <= max_type_depth(),
        },
{
    if depth > 200 {
        let mut m = "Type nesting exceeds maximum extractor recursion depth (".to_owned();
        push_decimal(&mut m, depth as usize);
        m.append(" > 200)");
        let d = crate::resolver::context::file_diag(
            DiagnosticSeverity::Warning,
            DiagnosticCode::MaxDepthExceeded,
            m,
            file,
            Some("This may indicate a deeply chained conditional or mapped type.".to_owned()),
        );
        Some(d)
    } else {
        None
    }
}

// ─── Component patterns ──────────────────────────────────────────────────────

/// The patterns tried, in this order, on a PascalCase variable declarator of
/// a JSX file.
#[derive(Clone, Copy, Debug, PartialEq, Eq, Structural)]
pub enum DeclaratorPattern {
    /// `const X: FC<Props> = ...`
    FcAnnotation,
    /// `const X = forwardRef<Ref, Props>(...)`
    ForwardRef,
    /// `const X = hoc(function X(props: Props) {...})`
    HocWrapped,
    /// `const X = class extends Component<Props> {...}`
    ClassExpression,
    /// `const X = Inner` or `const X = wrap(Inner)` for a component already read
    Renamed,
}

/// What follows the try of one pattern on a declarator.
pub enum DeclaratorStep {
    /// Record this component.
    Record(ComponentMapping),
    /// Try this pattern next.
    Try(DeclaratorPattern),
    /// No pattern matched: record this note.
    Skip(Diagnostic),
    /// Nothing more to do.
    Done,
}

/// The view of a [`DeclaratorStep`].
pub enum SpecDeclaratorStep {
    Record(SpecComponentMapping),
    Try(DeclaratorPattern),
    Skip(SpecDiagnostic),
    Done,
}

impl View for DeclaratorStep {
    type V = SpecDeclaratorStep;

    open spec fn view(&self) -> SpecDeclaratorStep {
        match self {
            DeclaratorStep::Record(m) => SpecDeclaratorStep::Record(m@),
            DeclaratorStep::Try(p) => SpecDeclaratorStep::Try(*p),
            DeclaratorStep::Skip(d) => SpecDeclaratorStep::Skip(d@),
            DeclaratorStep::Done => SpecDeclaratorStep::Done,
        }
    }
}

/// A note on a declaration that looks like a component but that no pattern
/// could read.
pub open spec fn skip_diag(file: Seq<char>, message: Seq<char>) -> SpecDiagnostic {
    SpecDiagnostic {
        severity: DiagnosticSeverity::Info,
        message,
        file: Some(file),
        line: None,
        column: None,
        help: None,
        code: DiagnosticCode::SkippedCandidate,
    }
}

pub open spec fn unmatched_binding_message(name: Seq<char>) -> Seq<char> {
    "'"@ + name + "' is a PascalCase binding but matched no known component pattern (FC annotation, forwardRef, HOC wrapper, or identifier alias)"@
}

/// The next step for the PascalCase declarator `name` of `file` (with an
/// initializer or not) once `pattern` was tried: what it `found` is
/// recorded; else the next pattern is tried, in the order FC annotation,
/// `forwardRef`, HOC wrapper, class expression, and, for a declarator with
/// an initializer, a rename of a component already read; a declarator with
/// an initializer that nothing matched (`renamed` false) gets a note.
pub open spec fn spec_after_pattern(
    file: Seq<char>,
    name: Seq<char>,
    has_init: bool,
    pattern: DeclaratorPattern,
    found: Option<SpecComponentMapping>,
    renamed: bool,
) -> SpecDeclaratorStep {
    match pattern {
        DeclaratorPattern::Renamed => if renamed {
            SpecDeclaratorStep::Done
        } else {
            SpecDeclaratorStep::Skip(skip_diag(file, unmatched_binding_message(name)))
        },
        _ => match found {
            Some(m) => SpecDeclaratorStep::Record(m),
            None => match pattern {
                DeclaratorPattern::FcAnnotation => SpecDeclaratorStep::Try(DeclaratorPattern::ForwardRef),
                DeclaratorPattern::ForwardRef => SpecDeclaratorStep::Try(DeclaratorPattern::HocWrapped),
                DeclaratorPattern::HocWrapped => SpecDeclaratorStep::Try(DeclaratorPattern::ClassExpression),
                _ => if has_init { SpecDeclaratorStep::Try(DeclaratorPattern::Renamed) } else { SpecDeclaratorStep::Done },
            },
        },
    }
}

/// Decides what follows the try of `pattern` on the PascalCase declarator
/// `name` of `file`; `found` is what the pattern read (`renamed` whether
/// the rename pattern matched).
pub fn after_pattern(
    file: &str,
    name: &str,
    has_init: bool,
    pattern: DeclaratorPattern,
    found: Option<ComponentMapping>,
    renamed: bool,
) -> (res: DeclaratorStep)
    ensures
        res@ == spec_after_pattern(file@, name@, has_init, pattern, match found {
            Some(m) => Some(m@),
            None => None,
        }, renamed),
{
    match pattern {
        DeclaratorPattern::Renamed => {
            if renamed {
                DeclaratorStep::Done
            } else {
                let mut m = "'".to_owned();
                m.append(name);
                m.append("' is a PascalCase binding but matched no known component pattern (FC annotation, forwardRef, HOC wrapper, or identifier alias)");
                DeclaratorStep::Skip(note(file, m))
            }
        },
        _ => match found {
            Some(m) => DeclaratorStep::Record(m),
            None => match pattern {
                DeclaratorPattern::FcAnnotation => DeclaratorStep::Try(DeclaratorPattern::ForwardRef),
                DeclaratorPattern::ForwardRef => DeclaratorStep::Try(DeclaratorPattern::HocWrapped),
                DeclaratorPattern::HocWrapped => DeclaratorStep::Try(DeclaratorPattern::ClassExpression),
                _ => if has_init { DeclaratorStep::Try(DeclaratorPattern::Renamed) } else { DeclaratorStep::Done },
            },
        },
    }
}

/// A note of `file` with `message`.
fn note(file: &str, message: String) -> (res: Diagnostic)
    ensures
        res@ == skip_diag(file@, message@),
{
    Diagnostic {
        severity: DiagnosticSeverity::Info,
        message,
        file: Some(file.to_owned()),
        line: None,
        column: None,
        help: None,
        code: DiagnosticCode::SkippedCandidate,
    }
}

/// The kinds of declarations that look like components but that no pattern
/// could read.
#[derive(Clone, Copy, Debug, PartialEq, Eq, Structural)]
pub enum SkippedKind {
    /// A PascalCase declaration with an FC-family annotation whose props
    /// argument is not a recognizable type.
    FcFamilyAnnotation,
    /// A PascalCase function declaration with an untyped first parameter.
    UntypedFunction,
    /// A PascalCase function declaration whose first parameter's annotation
    /// is not a props type reference.
    UnreadableFunction,
    /// An anonymous default-exported function with an untyped first
    /// parameter.
    UntypedDefaultExport,
    /// An anonymous default-exported function whose first parameter's
    /// annotation is not a props type reference.
    UnreadableDefaultExport,
}

/// The message of a skipped declaration `name` of the given kind.
pub open spec fn skipped_message(kind: SkippedKind, name: Seq<char>) -> Seq<char> {
    match kind {
        SkippedKind::FcFamilyAnnotation => "'"@ + name
            + "' is a PascalCase declaration with an FC-family type annotation whose props type argument isn't a recognizable type"@,
        SkippedKind::UntypedFunction => "'"@ + name + "' is a PascalCase function declaration with an untyped first param"@,
        SkippedKind::UnreadableFunction => "'"@ + name
            + "' is a PascalCase function declaration whose first param's type annotation isn't a recognizable props type reference"@,
        SkippedKind::UntypedDefaultExport => "'"@ + name
            + "' is an anonymous default-exported function component with an untyped first param"@,
        SkippedKind::UnreadableDefaultExport => "'"@ + name
            + "' is an anonymous default-exported function component whose first param's type annotation isn't a recognizable props type reference"@,
    }
}

/// The note on the declaration `name` of `file` that looks like a component
/// of the given kind but that no pattern could read.
pub fn skipped_note(file: &str, kind: SkippedKind, name: &str) -> (res: Diagnostic)
    ensures
        res@ == skip_diag(file@, skipped_message(kind, name@)),
{
    let mut m = "'".to_owned();
    m.append(name);
    match kind {
        SkippedKind::FcFamilyAnnotation => m.append(
            "' is a PascalCase declaration with an FC-family type annotation whose props type argument isn't a recognizable type",
        ),
        SkippedKind::UntypedFunction => m.append("' is a PascalCase function declaration with an untyped first param"),
        SkippedKind::UnreadableFunction => m.append(
            "' is a PascalCase function declaration whose first param's type annotation isn't a recognizable props type reference",
        ),
        SkippedKind::UntypedDefaultExport => m.append(
            "' is an anonymous default-exported function component with an untyped first param",
        ),
        SkippedKind::UnreadableDefaultExport => m.append(
            "' is an anonymous default-exported function component whose first param's type annotation isn't a recognizable props type reference",
        ),
    }
    note(file, m)
}

/// The note on the class `name` of `file` that extends the component class
/// `family` with a props type argument that is not a props type reference.
pub open spec fn class_skip_message(name: Seq<char>, family: Seq<char>) -> Seq<char> {
    "'"@ + name + "' is a class component extending "@ + family
        + " whose props type argument isn't a recognizable props type reference"@
}

/// The note on a class component whose props type argument cannot be read.
pub fn class_skipped_note(file: &str, name: &str, family: &str) -> (res: Diagnostic)
    ensures
        res@ == skip_diag(file@, class_skip_message(name@, family@)),
{
    let mut m = "'".to_owned();
    m.append(name);
    m.append("' is a class component extending ");
    m.append(family);
    m.append(" whose props type argument isn't a recognizable props type reference");
    note(file, m)
}

} // verus!
verus! {

// ─── Inline props types ──────────────────────────────────────────────────────

pub open spec fn alias_table_view(v: Seq<(String, crate::types::CollectedTypeAlias)>) -> Seq<(Seq<char>, crate::types::SpecAlias)> {
    v.map_values(|p: (String, crate::types::CollectedTypeAlias)| (p.0@, p.1@))
}

/// The name under which the inline props type of a component is recorded
/// when `n` aliases are recorded already.
pub open spec fn inline_props_name(n: nat) -> Seq<char> {
    "__anon_"@ + decimal(n)
}

/// Sets `key` to `alias` in the table: in place where the key is present,
/// appended where not.
fn set_alias(list: &mut Vec<(String, crate::types::CollectedTypeAlias)>, key: String, alias: crate::types::CollectedTypeAlias)
    ensures
        alias_table_view(final(list)@) == crate::syntax::keyed_set(alias_table_view(old(list)@), key@, alias@),
{
    let ghost v = alias_table_view(list@);
    let mut i: usize = 0;
    proof { assert(v.skip(0) =~= v); }
    while i < list.len()
        invariant
            i <= list.len(),
            list@ == old(list)@,
            v == alias_table_view(list@),
            crate::syntax::key_index(v, key@) == if crate::syntax::key_index(v.skip(i as int), key@) < 0 {
                -1
            } else {
                crate::syntax::key_index(v.skip(i as int), key@) + i
            },
        decreases list.len() - i,
    {
        proof { assert(v.skip(i as int)[0] == v[i as int]); }
        if crate::text::str_eq(list[i].0.as_str(), key.as_str()) {
            proof {
                assert(crate::syntax::key_index(v.skip(i as int), key@) == 0);
                assert(crate::syntax::key_index(v, key@) == i);
            }
            list.set(i, (key, alias));
            proof { assert(alias_table_view(list@) =~= crate::syntax::keyed_set(v, key@, alias@)); }
            return;
        }
        proof { assert(v.skip(i as int).drop_first() =~= v.skip(i + 1)); }
        i = i + 1;
    }
    proof { assert(v.skip(list@.len() as int) =~= Seq::<(Seq<char>, crate::types::SpecAlias)>::empty()); }
    list.push((key, alias));
    proof { assert(alias_table_view(list@) =~= crate::syntax::keyed_set(v, key@, alias@)); }
}

/// Records the inline props type `alias` of a component declared in `file`
/// (inside the `namespaces`) as an alias of its own, named `__anon_{n}` with
/// `n` the number of aliases recorded before, and gives that name.
pub fn record_inline_props(
    aliases: &mut Vec<(String, crate::types::CollectedTypeAlias)>,
    file: &str,
    namespaces: &Vec<String>,
    alias: crate::types::CollectedTypeAlias,
) -> (res: String)
    ensures
        res@ == inline_props_name(old(aliases)@.len()),
        alias_table_view(final(aliases)@) == crate::syntax::keyed_set(
            alias_table_view(old(aliases)@),
            crate::collect::spec_scoped_key(file@, crate::types::strs_view(namespaces@), res@),
            alias@,
        ),
{
    let mut bare = "__anon_".to_owned();
    push_decimal(&mut bare, aliases.len());
    let key = crate::collect::scoped_key(file, namespaces, bare.as_str());
    set_alias(aliases, key, alias);
    bare
}

} // verus!
