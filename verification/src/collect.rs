//! Decisions the per-file source collector makes on what it has read: the
//! nesting bound checked before parsing, how an `extends` clause is
//! classified, how declarations are keyed, and how the component list of a
//! file is settled once the whole file has been walked.

use vstd::prelude::*;
use crate::text::{chars_of, push_char, str_eq, string_from_chars};
use crate::render::{join_strs, lemma_join_push};
use crate::types::{
    strs_view, ComponentMapping, ExtendsRef, ImportBinding, RawDefault, SpecComponentMapping, SpecExtendsRef,
    SpecImportBinding, SpecRawDefault,
};
use crate::syntax::{defaults_view, keyed_set, set_default};
use crate::react_types::{
    html_element_for, html_element_from_type_arg, is_react_builtin, spec_html_element_for,
    spec_html_element_from_type_arg, spec_is_react_builtin,
};

verus! {

// ─── Bracket nesting bound ───────────────────────────────────────────────────

/// Where the nesting scanner stands between two characters.
#[derive(Clone, Copy, PartialEq, Eq, Structural)]
pub enum ScanMode {
    Code,
    /// A `/` was just read in code: it may open a comment.
    Slash,
    LineComment,
    BlockComment,
    /// A `*` was just read inside a block comment: a `/` closes it.
    BlockStar,
    /// Inside a string or template literal opened by the given quote.
    Quoted(char),
    /// Just after a backslash inside such a literal.
    Escaped(char),
}

pub open spec fn is_quote(c: char) -> bool {
    c == '\'' || c == '"' || c == '`'
}

pub open spec fn is_open_bracket(c: char) -> bool {
    c == '(' || c == '{' || c == '['
}

pub open spec fn is_close_bracket(c: char) -> bool {
    c == ')' || c == '}' || c == ']'
}

/// One character read in code: brackets move the depth (never below zero)
/// and the running maximum follows it.
pub open spec fn code_step(c: char, depth: nat, max: nat) -> (ScanMode, nat, nat) {
    if c == '/' {
        (ScanMode::Slash, depth, max)
    } else if is_quote(c) {
        (ScanMode::Quoted(c), depth, max)
    } else if is_open_bracket(c) {
        (ScanMode::Code, depth + 1, if depth + 1 > max { depth + 1 } else { max })
    } else if is_close_bracket(c) {
        (ScanMode::Code, if depth > 0 { (depth - 1) as nat } else { 0 }, max)
    } else {
        (ScanMode::Code, depth, max)
    }
}

/// One character read in any mode. Comments and string or template literals
/// are skipped whole; a backslash in a literal skips the character after it.
pub open spec fn scan_step(mode: ScanMode, depth: nat, max: nat, c: char) -> (ScanMode, nat, nat) {
    match mode {
        ScanMode::Code => code_step(c, depth, max),
        ScanMode::Slash => if c == '/' {
            (ScanMode::LineComment, depth, max)
        } else if c == '*' {
            (ScanMode::BlockComment, depth, max)
        } else {
            code_step(c, depth, max)
        },
        ScanMode::LineComment => if c == '\n' {
            (ScanMode::Code, depth, max)
        } else {
            (ScanMode::LineComment, depth, max)
        },
        ScanMode::BlockComment => if c == '*' {
            (ScanMode::BlockStar, depth, max)
        } else {
            (ScanMode::BlockComment, depth, max)
        },
        ScanMode::BlockStar => if c == '/' {
            (ScanMode::Code, depth, max)
        } else if c == '*' {
            (ScanMode::BlockStar, depth, max)
        } else {
            (ScanMode::BlockComment, depth, max)
        },
        ScanMode::Quoted(q) => if c == '\\' {
            (ScanMode::Escaped(q), depth, max)
        } else if c == q {
            (ScanMode::Code, depth, max)
        } else {
            (ScanMode::Quoted(q), depth, max)
        },
        ScanMode::Escaped(q) => (ScanMode::Quoted(q), depth, max),
    }
}

/// The scanner's state after reading all of `s`, from code at depth zero.
pub open spec fn scan(s: Seq<char>) -> (ScanMode, nat, nat)
    decreases s.len(),
{
    if s.len() == 0 {
        (ScanMode::Code, 0, 0)
    } else {
        let st = scan(s.drop_last());
        scan_step(st.0, st.1, st.2, s.last())
    }
}

/// The deepest bracket nesting of `s` outside comments and literals.
pub open spec fn spec_max_nesting(s: Seq<char>) -> nat {
    scan(s).2
}

/// The nesting bound never exceeds the number of characters scanned (nor
/// does the depth the scan stands at).
pub proof fn law_nesting_bound_at_most_length(s: Seq<char>)
    ensures
        scan(s).1 <= s.len(),
        scan(s).2 <= s.len(),
    decreases s.len(),
{
    if s.len() > 0 {
        law_nesting_bound_at_most_length(s.drop_last());
    }
}

/// A cheap bound on the bracket nesting of `source`, checked before the source
/// is handed to the parser so that deep nesting is reported rather than
/// overrunning the stack. Every character that the scan reacts to is ASCII,
/// so reading characters gives the same result as reading UTF-8 bytes.
pub fn max_bracket_nesting_depth(source: &str) -> (res: usize)
    ensures
        res == spec_max_nesting(source@),
{
    let c = chars_of(source);
    let mut mode = ScanMode::Code;
    let mut depth: usize = 0;
    let mut max: usize = 0;
    let mut i: usize = 0;
    while i < c.len()
        invariant
            i <= c@.len(),
            (mode, depth as nat, max as nat) == scan(c@.subrange(0, i as int)),
            depth <= i,
            max <= i,
        decreases c.len() - i,
    {
        let ch = c[i];
        proof {
            assert(c@.subrange(0, i + 1).drop_last() =~= c@.subrange(0, i as int));
            law_nesting_bound_at_most_length(c@.subrange(0, i as int));
        }
        let in_code = match mode {
            ScanMode::Code => true,
            ScanMode::Slash => ch != '/' && ch != '*',
            _ => false,
        };
        if in_code {
            if ch == '/' {
                mode = ScanMode::Slash;
            } else if ch == '\'' || ch == '"' || ch == '`' {
                mode = ScanMode::Quoted(ch);
            } else if ch == '(' || ch == '{' || ch == '[' {
                depth = depth + 1;
                if depth > max {
                    max = depth;
                }
                mode = ScanMode::Code;
            } else if ch == ')' || ch == '}' || ch == ']' {
                if depth > 0 {
                    depth = depth - 1;
                }
                mode = ScanMode::Code;
            } else {
                mode = ScanMode::Code;
            }
        } else {
            mode = match mode {
                ScanMode::Slash => if ch == '/' { ScanMode::LineComment } else { ScanMode::BlockComment },
                ScanMode::LineComment => if ch == '\n' { ScanMode::Code } else { ScanMode::LineComment },
                ScanMode::BlockComment => if ch == '*' { ScanMode::BlockStar } else { ScanMode::BlockComment },
                ScanMode::BlockStar => if ch == '/' {
                    ScanMode::Code
                } else if ch == '*' {
                    ScanMode::BlockStar
                } else {
                    ScanMode::BlockComment
                },
                ScanMode::Quoted(q) => if ch == '\\' {
                    ScanMode::Escaped(q)
                } else if ch == q {
                    ScanMode::Code
                } else {
                    ScanMode::Quoted(q)
                },
                ScanMode::Escaped(q) => ScanMode::Quoted(q),
                ScanMode::Code => ScanMode::Code,
            };
        }
        i = i + 1;
    }
    proof { assert(c@.subrange(0, c@.len() as int) =~= source@); }
    max
}

// ─── Names ───────────────────────────────────────────────────────────────────

/// Whether `c` has the Unicode `Uppercase` property, as `char::is_uppercase`
/// decides it.
pub uninterp spec fn spec_is_uppercase(c: char) -> bool;

/// Calls `char::is_uppercase`. Trusted: std documents it as the Unicode
/// `Uppercase` property, under which the ASCII capitals are uppercase and the
/// ASCII small letters are not; the rest of the table is only named.
#[verifier::external_body]
fn char_is_uppercase(c: char) -> (res: bool)
    ensures
        res == spec_is_uppercase(c),
        'A' <= c <= 'Z' ==> res,
        'a' <= c <= 'z' ==> !res,
{
    c.is_uppercase()
}

/// Whether a name starts with an uppercase character, the mark of a
/// component.
pub fn is_pascal_case(s: &str) -> (res: bool)
    ensures
        res == (s@.len() > 0 && spec_is_uppercase(s@[0])),
{
    let c = chars_of(s);
    if c.len() == 0 {
        false
    } else {
        char_is_uppercase(c[0])
    }
}

/// `name` without a leading `React.` qualifier.
pub open spec fn strip_react_prefix(name: Seq<char>) -> Seq<char> {
    if name.len() >= 6 && name.subrange(0, 6) == "React."@ {
        name.subrange(6, name.len() as int)
    } else {
        name
    }
}

pub(crate) fn strip_react_prefix_exec(name: &str) -> (res: String)
    ensures
        res@ == strip_react_prefix(name@),
{
    let c = chars_of(name);
    let p = chars_of("React.");
    proof { reveal_strlit("React."); }
    if c.len() >= 6 && crate::text::chars_match_at(&c, 0, &p) {
        proof { assert(c@.subrange(0, c@.len() as int).subrange(0, 6) =~= c@.subrange(0, 6)); }
        string_from_chars(&c, 6, c.len())
    } else {
        proof {
            if c@.len() >= 6 && c@.subrange(0, 6) == "React."@ {
                assert(c@.subrange(0, c@.len() as int).subrange(0, 6) =~= c@.subrange(0, 6));
            }
        }
        string_from_chars(&c, 0, c.len())
    }
}

/// The specifier of the first import whose local name is `local_name`.
pub open spec fn spec_find_import_specifier(imports: Seq<SpecImportBinding>, local_name: Seq<char>) -> Option<Seq<char>>
    decreases imports.len(),
{
    if imports.len() == 0 {
        None
    } else if imports[0].local_name == local_name {
        Some(imports[0].specifier)
    } else {
        spec_find_import_specifier(imports.drop_first(), local_name)
    }
}

pub open spec fn imports_view(v: Seq<ImportBinding>) -> Seq<SpecImportBinding> {
    v.map_values(|b: ImportBinding| b@)
}

/// The module specifier that the local name `local_name` was imported from,
/// by the first import binding of that name.
pub fn find_import_specifier(imports: &Vec<ImportBinding>, local_name: &str) -> (res: Option<String>)
    ensures
        crate::types::opt_str_view(res) == spec_find_import_specifier(imports_view(imports@), local_name@),
{
    let mut i: usize = 0;
    proof { assert(imports_view(imports@).skip(0) =~= imports_view(imports@)); }
    while i < imports.len()
        invariant
            i <= imports@.len(),
            spec_find_import_specifier(imports_view(imports@), local_name@)
                == spec_find_import_specifier(imports_view(imports@).skip(i as int), local_name@),
        decreases imports.len() - i,
    {
        proof {
            assert(imports_view(imports@).skip(i as int).drop_first() =~= imports_view(imports@).skip(i + 1));
        }
        if str_eq(imports[i].local_name.as_str(), local_name) {
            return Some(imports[i].specifier.clone());
        }
        i = i + 1;
    }
    proof { assert(imports_view(imports@).skip(i as int).len() == 0); }
    None
}

/// The names whose type argument, not their own name, tells the element.
pub open spec fn element_from_arg_names(n: Seq<char>) -> bool {
    n == "SVGAttributes"@ || n == "SVGProps"@ || n == "HTMLProps"@
}

/// How an `extends` clause naming `name` with `type_args` is classified: a
/// React builtin (with the DOM element it stands for, where one is known), a
/// name imported into the file, or a declaration of the same file.
pub open spec fn spec_classify_extends(
    name: Seq<char>,
    type_args: Seq<Seq<char>>,
    imported_names: Seq<Seq<char>>,
    imports: Seq<SpecImportBinding>,
) -> SpecExtendsRef {
    let lookup = strip_react_prefix(name);
    if element_from_arg_names(lookup) && type_args.len() > 0
        && spec_html_element_from_type_arg(type_args[0]) is Some {
        SpecExtendsRef::Builtin { name, element: spec_html_element_from_type_arg(type_args[0]), type_args }
    } else if spec_html_element_for(lookup) is Some {
        SpecExtendsRef::Builtin { name, element: spec_html_element_for(lookup), type_args }
    } else if spec_is_react_builtin(lookup, Seq::empty()) {
        SpecExtendsRef::Builtin { name, element: None, type_args }
    } else if imported_names.contains(name) {
        SpecExtendsRef::Imported {
            local_name: name,
            type_args,
            source_specifier: spec_find_import_specifier(imports, name),
        }
    } else {
        SpecExtendsRef::SameFile { name, type_args }
    }
}

/// Classifies the parent named in an `extends` clause. `imported_names` are
/// the local names that the file's imports bind, `imports` its import
/// bindings.
pub fn classify_extends(
    name: &str,
    type_args: Vec<String>,
    imported_names: &Vec<String>,
    imports: &Vec<ImportBinding>,
) -> (res: ExtendsRef)
    ensures
        res@ == spec_classify_extends(name@, strs_view(type_args@), strs_view(imported_names@), imports_view(imports@)),
{
    let lookup = strip_react_prefix_exec(name);
    proof {
        reveal_strlit("SVGAttributes");
        reveal_strlit("SVGProps");
        reveal_strlit("HTMLProps");
    }
    if str_eq(lookup.as_str(), "SVGAttributes") || str_eq(lookup.as_str(), "SVGProps")
        || str_eq(lookup.as_str(), "HTMLProps") {
        if type_args.len() > 0 {
            if let Some(element) = html_element_from_type_arg(type_args[0].as_str()) {
                return ExtendsRef::Builtin { name: name.to_owned(), element: Some(element.to_owned()), type_args };
            }
        }
    }
    if let Some(element) = html_element_for(lookup.as_str()) {
        return ExtendsRef::Builtin { name: name.to_owned(), element: Some(element.to_owned()), type_args };
    }
    let no_extra: Vec<String> = Vec::new();
    proof { assert(strs_view(no_extra@) =~= Seq::<Seq<char>>::empty()); }
    if is_react_builtin(lookup.as_str(), &no_extra) {
        return ExtendsRef::Builtin { name: name.to_owned(), element: None, type_args };
    }
    if crate::react_types::contains_str(imported_names, name) {
        let source_specifier = find_import_specifier(imports, name);
        return ExtendsRef::Imported { local_name: name.to_owned(), type_args, source_specifier };
    }
    ExtendsRef::SameFile { name: name.to_owned(), type_args }
}

// ─── Declaration keys ────────────────────────────────────────────────────────

/// The key of a declaration named `name` in `file`, inside the (possibly
/// empty) stack of enclosing namespaces: `"{file}:{name}"`, or
/// `"{file}:{ns1.ns2}.{name}"`.
pub open spec fn spec_scoped_key(file: Seq<char>, namespaces: Seq<Seq<char>>, name: Seq<char>) -> Seq<char> {
    if namespaces.len() == 0 {
        file + ":"@ + name
    } else {
        file + ":"@ + join_strs(namespaces, "."@) + "."@ + name
    }
}

/// The key under which a declaration is stored.
pub fn scoped_key(file: &str, namespaces: &Vec<String>, name: &str) -> (res: String)
    ensures
        res@ == spec_scoped_key(file@, strs_view(namespaces@), name@),
{
    let ghost ns = strs_view(namespaces@);
    let mut out = String::new();
    out.append(file);
    out.append(":");
    let ghost head = out@;
    let mut i: usize = 0;
    while i < namespaces.len()
        invariant
            i <= namespaces@.len(),
            ns == strs_view(namespaces@),
            out@ == head + join_strs(ns.subrange(0, i as int), "."@),
        decreases namespaces.len() - i,
    {
        proof {
            lemma_join_push(ns.subrange(0, i as int), "."@, ns[i as int]);
            assert(ns.subrange(0, i + 1) =~= ns.subrange(0, i as int).push(ns[i as int]));
        }
        if i > 0 {
            out.append(".");
        }
        out.append(namespaces[i].as_str());
        i = i + 1;
    }
    proof { assert(ns.subrange(0, ns.len() as int) =~= ns); }
    if namespaces.len() > 0 {
        out.append(".");
    }
    out.append(name);
    proof {
        if ns.len() == 0 {
            assert(join_strs(ns, "."@) =~= Seq::<char>::empty());
        }
    }
    out
}

// ─── Component names from file names ────────────────────────────────────────

/// Whether `c` is alphanumeric, as `char::is_alphanumeric` decides it
/// (Unicode `Alphabetic` or `Numeric`).
pub uninterp spec fn spec_is_alphanumeric(c: char) -> bool;

/// Calls `char::is_alphanumeric`. Trusted: std documents it as the Unicode
/// `Alphabetic` or `Numeric` property; ASCII letters and digits have it and
/// the separators `-`, `_`, `.` and space do not. The rest is only named.
#[verifier::external_body]
fn char_is_alphanumeric(c: char) -> (res: bool)
    ensures
        res == spec_is_alphanumeric(c),
        ('a' <= c <= 'z' || 'A' <= c <= 'Z' || '0' <= c <= '9') ==> res,
        (c == '-' || c == '_' || c == '.' || c == ' ') ==> !res,
{
    c.is_alphanumeric()
}

/// The characters that `char::to_uppercase` yields for `c`.
pub uninterp spec fn spec_to_uppercase(c: char) -> Seq<char>;

/// Appends the uppercase mapping of `c` (`char::to_uppercase`, which may be
/// several characters). Trusted: std documents the mapping of an ASCII small
/// letter as its capital; the rest of the Unicode table is only named.
#[verifier::external_body]
fn push_uppercase(s: &mut String, c: char)
    ensures
        final(s)@ == old(s)@ + spec_to_uppercase(c),
        'a' <= c <= 'z' ==> final(s)@ == old(s)@.push(((c as u32) - 32) as char),
{
    s.extend(c.to_uppercase());
}

/// The stem of a path's file name, as camino's `Utf8Path::file_stem` computes it.
pub uninterp spec fn spec_file_stem(path: Seq<char>) -> Option<Seq<char>>;

/// Calls camino's `Utf8Path::file_stem`. The contract only names the
/// result: it is the same for the same path.
#[verifier::external_body]
pub(crate) fn file_stem(path: &str) -> (res: Option<String>)
    ensures
        crate::types::opt_str_view(res) == spec_file_stem(path@),
{
    camino::Utf8Path::new(path).file_stem().map(|s| s.to_owned())
}

/// `s` in PascalCase: each maximal alphanumeric run, with its first character
/// uppercased, the runs concatenated and every other character dropped.
/// `at_start` says whether the next character would open a run.
pub open spec fn pascal_from(s: Seq<char>, at_start: bool) -> Seq<char>
    decreases s.len(),
{
    if s.len() == 0 {
        Seq::empty()
    } else if !spec_is_alphanumeric(s[0]) {
        pascal_from(s.drop_first(), true)
    } else if at_start {
        spec_to_uppercase(s[0]) + pascal_from(s.drop_first(), false)
    } else {
        seq![s[0]] + pascal_from(s.drop_first(), false)
    }
}

/// The component name that a file's stem suggests (`button-group.tsx` gives
/// `ButtonGroup`), or `None` where the path has no stem or the stem no
/// alphanumeric character.
pub open spec fn spec_pascal_case_from_file_stem(path: Seq<char>) -> Option<Seq<char>> {
    match spec_file_stem(path) {
        Some(stem) => if pascal_from(stem, true).len() > 0 { Some(pascal_from(stem, true)) } else { None },
        None => None,
    }
}

pub fn pascal_case_from_file_stem(path: &str) -> (res: Option<String>)
    ensures
        crate::types::opt_str_view(res) == spec_pascal_case_from_file_stem(path@),
{
    let stem = match file_stem(path) {
        Some(s) => s,
        None => return None,
    };
    let c = chars_of(stem.as_str());
    let mut out = String::new();
    let mut at_start = true;
    let mut i: usize = 0;
    proof { assert(c@.skip(0) =~= c@); }
    while i < c.len()
        invariant
            i <= c@.len(),
            out@ + pascal_from(c@.skip(i as int), at_start) == pascal_from(c@, true),
        decreases c.len() - i,
    {
        let ch = c[i];
        proof {
            assert(c@.skip(i as int).drop_first() =~= c@.skip(i + 1));
            assert(c@.skip(i as int)[0] == ch);
        }
        if !char_is_alphanumeric(ch) {
            at_start = true;
        } else if at_start {
            push_uppercase(&mut out, ch);
            at_start = false;
        } else {
            push_char(&mut out, ch);
            at_start = false;
        }
        proof {
            assert(out@ + pascal_from(c@.skip(i + 1), at_start) =~= pascal_from(c@, true));
        }
        i = i + 1;
    }
    proof { assert(out@ =~= pascal_from(c@, true)); }
    if out.as_str().is_empty() {
        None
    } else {
        Some(out)
    }
}

// ─── Settling a file's components ────────────────────────────────────────────

/// `ms` without the mappings whose component is in `aliased`.
pub open spec fn drop_aliased(ms: Seq<ComponentMapping>, aliased: Seq<Seq<char>>) -> Seq<ComponentMapping>
    decreases ms.len(),
{
    if ms.len() == 0 {
        Seq::empty()
    } else {
        let kept = drop_aliased(ms.drop_last(), aliased);
        if aliased.contains(ms.last().component_name@) { kept } else { kept.push(ms.last()) }
    }
}

/// The position of the first mapping of component `name`, or -1.
pub open spec fn first_named(ms: Seq<ComponentMapping>, name: Seq<char>) -> int
    decreases ms.len(),
{
    if ms.len() == 0 {
        -1
    } else if ms[0].component_name@ == name {
        0
    } else {
        let k = first_named(ms.drop_first(), name);
        if k < 0 { -1 } else { k + 1 }
    }
}

proof fn lemma_first_named(ms: Seq<ComponentMapping>, name: Seq<char>)
    ensures
        -1 <= first_named(ms, name) < ms.len(),
        first_named(ms, name) >= 0 ==> ms[first_named(ms, name)].component_name@ == name,
        forall|j: int| 0 <= j < ms.len() && (first_named(ms, name) < 0 || j < first_named(ms, name))
            ==> ms[j].component_name@ != name,
    decreases ms.len(),
{
    if ms.len() > 0 {
        lemma_first_named(ms.drop_first(), name);
        assert forall|j: int| 0 < j < ms.len() implies ms[j] == ms.drop_first()[j - 1] by {}
    }
}

pub open spec fn renamed(m: ComponentMapping, to: String) -> ComponentMapping {
    ComponentMapping { component_name: to, ..m }
}

/// `ms` with its first mapping of component `from` renamed to `to`.
pub open spec fn rename_first(ms: Seq<ComponentMapping>, from: Seq<char>, to: String) -> Seq<ComponentMapping> {
    let k = first_named(ms, from);
    if k < 0 { ms } else { ms.update(k, renamed(ms[k], to)) }
}

/// The renames applied in order, each to the first mapping that then bears
/// its old name.
pub open spec fn apply_renames(ms: Seq<ComponentMapping>, rs: Seq<(String, String)>) -> Seq<ComponentMapping>
    decreases rs.len(),
{
    if rs.len() == 0 {
        ms
    } else {
        rename_first(apply_renames(ms, rs.drop_last()), rs.last().0@, rs.last().1)
    }
}

/// Settles the components found in a file once it has been walked: the
/// mappings whose component was aliased away (the inner component of
/// `const Button = InnerButton`) are dropped, then the `displayName` renames
/// recorded during the walk are applied in order.
pub fn finish_mappings(
    mappings: Vec<ComponentMapping>,
    aliased_away: &Vec<String>,
    renames: Vec<(String, String)>,
) -> (res: Vec<ComponentMapping>)
    ensures
        res@ == apply_renames(drop_aliased(mappings@, strs_view(aliased_away@)), renames@),
{
    let ghost src = mappings@;
    let ghost aliased = strs_view(aliased_away@);
    let mut kept: Vec<ComponentMapping> = Vec::new();
    proof { assert(kept@ =~= drop_aliased(src.take(0), aliased)); }
    for m in it: mappings.into_iter()
        invariant
            it.seq() == src,
            aliased == strs_view(aliased_away@),
            kept@ == drop_aliased(src.take(it.index() as int), aliased),
    {
        proof {
            assert(src.take(it.index() + 1).drop_last() =~= src.take(it.index() as int));
            assert(src.take(it.index() + 1).last() == m);
        }
        if !crate::react_types::contains_str(aliased_away, m.component_name.as_str()) {
            kept.push(m);
        }
    }
    proof { assert(src.take(src.len() as int) =~= src); }
    let ghost base = kept@;
    let ghost rs = renames@;
    for r in it: renames.into_iter()
        invariant
            it.seq() == rs,
            kept@ == apply_renames(base, rs.take(it.index() as int)),
    {
        proof {
            assert(rs.take(it.index() + 1).drop_last() =~= rs.take(it.index() as int));
            assert(rs.take(it.index() + 1).last() == r);
        }
        let (from, to) = r;
        let ghost before = kept@;
        proof { lemma_first_named(before, from@); }
        let mut k: usize = 0;
        while k < kept.len() && !str_eq(kept[k].component_name.as_str(), from.as_str())
            invariant
                kept@ == before,
                k <= kept@.len(),
                forall|j: int| 0 <= j < k ==> kept@[j].component_name@ != from@,
            decreases kept.len() - k,
        {
            k = k + 1;
        }
        if k < kept.len() {
            let mut m = kept.remove(k);
            m.component_name = to;
            kept.insert(k, m);
            proof {
                assert(first_named(before, from@) == k as int);
                assert(kept@ =~= before.update(k as int, renamed(before[k as int], to)));
            }
        } else {
            proof { assert(first_named(before, from@) < 0); }
        }
    }
    proof { assert(rs.take(rs.len() as int) =~= rs); }
    kept
}

// ─── Aliases and `defaultProps` ──────────────────────────────────────────────

/// Finds the first mapping of component `name`, as `first_named` says.
fn find_named(ms: &Vec<ComponentMapping>, name: &str) -> (res: Option<usize>)
    ensures
        match res {
            Some(k) => k == first_named(ms@, name@) && k < ms@.len(),
            None => first_named(ms@, name@) < 0,
        },
{
    proof { lemma_first_named(ms@, name@); }
    let mut k: usize = 0;
    while k < ms.len()
        invariant
            k <= ms@.len(),
            -1 <= first_named(ms@, name@) < ms@.len(),
            forall|j: int| 0 <= j < k ==> ms@[j].component_name@ != name@,
            first_named(ms@, name@) < 0 || first_named(ms@, name@) >= k,
            forall|j: int| 0 <= j < ms@.len() && ms@[j].component_name@ == name@ ==> first_named(ms@, name@) >= 0
                && first_named(ms@, name@) <= j,
            first_named(ms@, name@) >= 0 ==> ms@[first_named(ms@, name@)].component_name@ == name@,
        decreases ms.len() - k,
    {
        if str_eq(ms[k].component_name.as_str(), name) {
            return Some(k);
        }
        k = k + 1;
    }
    None
}

fn clone_defaults(v: &Vec<(String, RawDefault)>) -> (res: Vec<(String, RawDefault)>)
    ensures
        defaults_view(res@) == defaults_view(v@),
{
    let mut out: Vec<(String, RawDefault)> = Vec::new();
    let mut i: usize = 0;
    while i < v.len()
        invariant
            i <= v.len(),
            out@.len() == i,
            forall|j: int| 0 <= j < i ==> out@[j].0@ == v@[j].0@ && out@[j].1@ == v@[j].1@,
        decreases v.len() - i,
    {
        let d = RawDefault { value: v[i].1.value.clone(), computed: v[i].1.computed, source: v[i].1.source };
        out.push((v[i].0.clone(), d));
        i = i + 1;
    }
    proof { assert(defaults_view(out@) =~= defaults_view(v@)); }
    out
}

/// `m` under another component name.
pub open spec fn renamed_view(m: SpecComponentMapping, name: Seq<char>) -> SpecComponentMapping {
    SpecComponentMapping { component_name: name, ..m }
}

/// Records `const Name = Inner` (optionally through an unrecognized wrapper
/// call): the first mapping of `inner` is copied under `name` at the end of
/// the list. Returns whether there was one; the caller then drops `inner`'s
/// own mapping when the file is settled.
pub fn alias_component(mappings: &mut Vec<ComponentMapping>, inner: &str, name: &str) -> (res: bool)
    ensures
        ({
            let k = first_named(old(mappings)@, inner@);
            &&& res == (k >= 0)
            &&& k < 0 ==> final(mappings)@ == old(mappings)@
            &&& k >= 0 ==> {
                &&& final(mappings)@.len() == old(mappings)@.len() + 1
                &&& final(mappings)@.drop_last() == old(mappings)@
                &&& final(mappings)@.last()@ == renamed_view(old(mappings)@[k]@, name@)
            }
        }),
{
    match find_named(mappings, inner) {
        None => false,
        Some(k) => {
            let base = &mappings[k];
            let copy = ComponentMapping {
                component_name: name.to_owned(),
                props_type_name: base.props_type_name.clone(),
                props_type_args: crate::types::clone_strings(&base.props_type_args),
                file_path: base.file_path.clone(),
                description: base.description.clone(),
                tags: crate::types::clone_pairs(&base.tags),
                span_start: base.span_start,
                span_end: base.span_end,
                param_defaults: clone_defaults(&base.param_defaults),
            };
            let ghost before = mappings@;
            mappings.push(copy);
            proof {
                assert(mappings@.drop_last() =~= before);
                assert(mappings@.last()@ == renamed_view(before[k as int]@, name@));
            }
            true
        },
    }
}

/// `base` with each default of `ds` set in turn.
pub open spec fn extend_defaults(
    base: Seq<(Seq<char>, SpecRawDefault)>,
    ds: Seq<(Seq<char>, SpecRawDefault)>,
) -> Seq<(Seq<char>, SpecRawDefault)>
    decreases ds.len(),
{
    if ds.len() == 0 {
        base
    } else {
        keyed_set(extend_defaults(base, ds.drop_last()), ds.last().0, ds.last().1)
    }
}

/// Merges `X.defaultProps = { ... }` into the first mapping of component
/// `obj_name`: each default is set on its `param_defaults`, replacing one of
/// the same name. Nothing changes when there is no such mapping.
pub fn merge_default_props(mappings: &mut Vec<ComponentMapping>, obj_name: &str, defaults: Vec<(String, RawDefault)>)
    ensures
        ({
            let k = first_named(old(mappings)@, obj_name@);
            &&& k < 0 ==> final(mappings)@ == old(mappings)@
            &&& k >= 0 ==> {
                &&& final(mappings)@.len() == old(mappings)@.len()
                &&& forall|j: int| 0 <= j < old(mappings)@.len() && j != k ==> final(mappings)@[j] == old(mappings)@[j]
                &&& final(mappings)@[k]@ == (SpecComponentMapping {
                    param_defaults: extend_defaults(old(mappings)@[k]@.param_defaults, defaults_view(defaults@)),
                    ..old(mappings)@[k]@
                })
            }
        }),
{
    match find_named(mappings, obj_name) {
        None => {},
        Some(k) => {
            let ghost before = mappings@;
            let ghost ds = defaults_view(defaults@);
            let mut m = mappings.remove(k);
            let ghost start = m@;
            proof { assert(ds.take(0) =~= Seq::<(Seq<char>, SpecRawDefault)>::empty()); }
            for d in it: defaults.into_iter()
                invariant
                    it.seq() == defaults@,
                    ds == defaults_view(defaults@),
                    m@ == (SpecComponentMapping {
                        param_defaults: extend_defaults(start.param_defaults, ds.take(it.index() as int)),
                        ..start
                    }),
            {
                proof {
                    assert(ds.take(it.index() + 1).drop_last() =~= ds.take(it.index() as int));
                    assert(ds.take(it.index() + 1).last() == (d.0@, d.1@));
                }
                let (key, value) = d;
                set_default(&mut m.param_defaults, key, value);
            }
            proof { assert(ds.take(ds.len() as int) =~= ds); }
            mappings.insert(k, m);
            proof {
                assert forall|j: int| 0 <= j < before.len() && j != k implies mappings@[j] == before[j] by {
                    if j < k {
                        assert(mappings@[j] == before[j]);
                    } else {
                        assert(mappings@[j] == before[j]);
                    }
                }
            }
        },
    }
}

proof fn lemma_drop_aliased_names(ms: Seq<ComponentMapping>, aliased: Seq<Seq<char>>)
    ensures
        forall|i: int|
            0 <= i < drop_aliased(ms, aliased).len() ==> !aliased.contains(
                #[trigger] drop_aliased(ms, aliased)[i].component_name@,
            ),
    decreases ms.len(),
{
    if ms.len() > 0 {
        lemma_drop_aliased_names(ms.drop_last(), aliased);
        let kept = drop_aliased(ms.drop_last(), aliased);
        let all = drop_aliased(ms, aliased);
        assert forall|i: int| 0 <= i < all.len() implies !aliased.contains(#[trigger] all[i].component_name@) by {
            if i < kept.len() {
                assert(all[i] == kept[i]);
            }
        }
    }
}

/// Settling a file after `const Name = Inner`: no component is left under a
/// name that was aliased away, and the copy made under the public name (a
/// name not aliased away) is kept, last.
pub proof fn law_alias_settles_to_public_name(ms: Seq<ComponentMapping>, copy: ComponentMapping, aliased: Seq<Seq<char>>)
    requires
        !aliased.contains(copy.component_name@),
    ensures
        drop_aliased(ms.push(copy), aliased).last() == copy,
        forall|i: int|
            0 <= i < drop_aliased(ms.push(copy), aliased).len() ==> !aliased.contains(
                #[trigger] drop_aliased(ms.push(copy), aliased)[i].component_name@,
            ),
{
    assert(ms.push(copy).drop_last() =~= ms);
    lemma_drop_aliased_names(ms.push(copy), aliased);
}

/// An alias adds a copy and leaves the base in place, so a second alias of
/// the same base (`const A = Base; const B = Base;`) finds the same base
/// again: appending a mapping never changes which mapping is the first of a
/// name that already had one.
pub proof fn law_second_alias_finds_the_same_base(ms: Seq<ComponentMapping>, copy: ComponentMapping, inner: Seq<char>)
    requires
        first_named(ms, inner) >= 0,
    ensures
        first_named(ms.push(copy), inner) == first_named(ms, inner),
    decreases ms.len(),
{
    if ms[0].component_name@ != inner {
        assert(ms.push(copy).drop_first() =~= ms.drop_first().push(copy));
        law_second_alias_finds_the_same_base(ms.drop_first(), copy, inner);
    }
}

} // verus!
