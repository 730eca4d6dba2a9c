//! The read-only context of a resolution run: the merged source data, its
//! import map, and the file each import specifier resolves to.

use vstd::prelude::*;
use crate::import_map::{
    assoc_get, first_key_pos, lemma_first_key_index_is, flat_imports, last_import, spec_import_map_of, ImportRef, ImportResolutionMap, SpecImportMap, SpecImportRef,
};
use crate::react_types::ReactVersion;
use crate::types::{
    CollectedInterface, CollectedTypeAlias, diags_view, opt_str_view, spec_file_diag, strs_view, Diagnostic, DiagnosticCode, DiagnosticSeverity, ExtendsRef,
    GlobalSourceData, SpecDiagnostic, SpecExtendsRef, SpecGlobal, SpecImportBinding, SpecInterface,
};

verus! {

#[verifier::external_type_specification]
#[verifier::external_body]
#[verifier::reject_recursive_types(Fs)]
pub struct ExResolverGeneric<Fs>(oxc_resolver::ResolverGeneric<Fs>);

#[verifier::external_type_specification]
#[verifier::external_body]
pub struct ExFileSystemOs(oxc_resolver::FileSystemOs);

// ─── Outside calls ───────────────────────────────────────────────────────────

/// The parent directory of a path, as camino's `Utf8Path::parent` computes it.
pub uninterp spec fn spec_parent_dir(path: Seq<char>) -> Option<Seq<char>>;

/// camino's `Utf8Path::join`: `rel` appended to `base` as a path.
pub uninterp spec fn spec_join_path(base: Seq<char>, rel: Seq<char>) -> Seq<char>;

/// Calls camino's `Utf8Path::parent`. The contract only names the result: it
/// is the same for the same path.
#[verifier::external_body]
pub(crate) fn parent_dir(path: &str) -> (res: Option<String>)
    ensures
        opt_str_view(res) == spec_parent_dir(path@),
{
    camino::Utf8Path::new(path).parent().map(|p| p.as_str().to_owned())
}

/// Calls camino's `Utf8Path::join`. The contract only names the result: it
/// is the same for the same arguments.
#[verifier::external_body]
pub(crate) fn join_path(base: &str, rel: &str) -> (res: String)
    ensures
        res@ == spec_join_path(base@, rel@),
{
    camino::Utf8Path::new(base).join(rel).into_string()
}

/// Builds an oxc `Resolver` (`Resolver::new`) from the given condition
/// names, main fields, extensions and path aliases. Nothing is claimed of
/// the resolver: what it answers depends on the file system.
#[verifier::external_body]
fn new_resolver(
    condition_names: Vec<String>,
    main_fields: Vec<String>,
    extensions: Vec<String>,
    alias: Vec<(String, Vec<String>)>,
) -> oxc_resolver::Resolver {
    let alias: Vec<(String, Vec<oxc_resolver::AliasValue>)> = alias
        .into_iter()
        .map(|(k, v)| (k, v.into_iter().map(oxc_resolver::AliasValue::Path).collect()))
        .collect();
    oxc_resolver::Resolver::new(oxc_resolver::ResolveOptions {
        condition_names,
        main_fields,
        extensions,
        alias,
        ..oxc_resolver::ResolveOptions::default()
    })
}

/// How an import specifier resolved from a file.
#[derive(Debug)]
pub enum SpecifierOutcome {
    /// The importing file has no parent directory to resolve from.
    NoParent,
    /// The resolved path: lossily as text, and exactly when it is valid UTF-8.
    Found { path: String, utf8_path: Option<String> },
    /// The resolver's error, as its message.
    Failed { message: String },
}

pub enum SpecOutcome {
    NoParent,
    Found { path: Seq<char>, utf8_path: Option<Seq<char>> },
    Failed { message: Seq<char> },
}

impl View for SpecifierOutcome {
    type V = SpecOutcome;

    open spec fn view(&self) -> SpecOutcome {
        match self {
            SpecifierOutcome::NoParent => SpecOutcome::NoParent,
            SpecifierOutcome::Found { path, utf8_path } => SpecOutcome::Found {
                path: path@,
                utf8_path: opt_str_view(*utf8_path),
            },
            SpecifierOutcome::Failed { message } => SpecOutcome::Failed { message: message@ },
        }
    }
}

/// What was handed to the resolver: the directory resolved from and the
/// specifier.
#[derive(Debug)]
pub struct ResolverQuery {
    pub dir: String,
    pub specifier: String,
}

pub open spec fn query_view(q: Option<ResolverQuery>) -> Option<(Seq<char>, Seq<char>)> {
    match q {
        Some(q) => Some((q.dir@, q.specifier@)),
        None => None,
    }
}

/// Calls oxc's `Resolver::resolve` on `specifier` from the directory `dir`,
/// and reports the directory and specifier it was called with. The answer
/// depends on the file system, so nothing is claimed of it beyond its shape:
/// a resolved path or the resolver's error message.
#[verifier::external_body]
fn resolve_in_dir(resolver: &oxc_resolver::Resolver, dir: &str, specifier: &str) -> (res: (ResolverQuery, SpecifierOutcome))
    ensures
        res.0.dir@ == dir@,
        res.0.specifier@ == specifier@,
        !(res.1 is NoParent),
{
    let outcome = match resolver.resolve(std::path::Path::new(dir), specifier) {
        Ok(r) => SpecifierOutcome::Found {
            path: r.path().to_string_lossy().into_owned(),
            utf8_path: camino::Utf8PathBuf::from_path_buf(r.path().to_owned()).ok().map(|p| p.into_string()),
        },
        Err(e) => SpecifierOutcome::Failed { message: format!("{}", e) },
    };
    (ResolverQuery { dir: dir.to_owned(), specifier: specifier.to_owned() }, outcome)
}

// ─── The specifier table ─────────────────────────────────────────────────────

/// What `specifier`, imported in `file`, resolved to.
#[derive(Debug)]
pub struct SpecifierResolution {
    pub file: String,
    pub specifier: String,
    /// What the resolver was called with; none where the file has no parent.
    pub query: Option<ResolverQuery>,
    pub outcome: SpecifierOutcome,
}

pub struct SpecResolutionEntry {
    pub file: Seq<char>,
    pub specifier: Seq<char>,
    pub query: Option<(Seq<char>, Seq<char>)>,
    pub outcome: SpecOutcome,
}

impl View for SpecifierResolution {
    type V = SpecResolutionEntry;

    open spec fn view(&self) -> SpecResolutionEntry {
        SpecResolutionEntry {
            file: self.file@,
            specifier: self.specifier@,
            query: query_view(self.query),
            outcome: self.outcome@,
        }
    }
}

/// The specifier that locates `@types/react`.
pub open spec fn react_types_specifier() -> Seq<char> {
    "@types/react"@
}

/// The (file, specifier) pairs that one `extends` clause can ask about.
pub open spec fn extends_query(file: Seq<char>, e: SpecExtendsRef) -> Seq<(Seq<char>, Seq<char>)> {
    match e {
        SpecExtendsRef::Builtin { element: Some(_), .. } => seq![(file, react_types_specifier())],
        SpecExtendsRef::Imported { source_specifier: Some(s), .. } => seq![(file, s)],
        _ => Seq::empty(),
    }
}

pub open spec fn extends_queries(file: Seq<char>, es: Seq<SpecExtendsRef>) -> Seq<(Seq<char>, Seq<char>)>
    decreases es.len(),
{
    if es.len() == 0 {
        Seq::empty()
    } else {
        extends_queries(file, es.drop_last()) + extends_query(file, es.last())
    }
}

pub open spec fn interface_queries(entries: Seq<(Seq<char>, SpecInterface)>) -> Seq<(Seq<char>, Seq<char>)>
    decreases entries.len(),
{
    if entries.len() == 0 {
        Seq::empty()
    } else {
        interface_queries(entries.drop_last()) + extends_queries(entries.last().1.file_path, entries.last().1.extends)
    }
}

pub open spec fn import_queries(entries: Seq<(Seq<char>, Seq<SpecImportBinding>)>) -> Seq<(Seq<char>, Seq<char>)>
    decreases entries.len(),
{
    if entries.len() == 0 {
        Seq::empty()
    } else {
        let e = entries.last();
        import_queries(entries.drop_last()) + e.1.map_values(|b: SpecImportBinding| (e.0, b.specifier))
    }
}

/// Every (file, specifier) pair that resolution can look up: each import of
/// each file, and each `extends` clause that names a module.
pub open spec fn needed_queries(g: SpecGlobal) -> Seq<(Seq<char>, Seq<char>)> {
    import_queries(g.import_map) + interface_queries(g.interfaces)
}

/// The outcome recorded first for (file, specifier).
pub open spec fn lookup_outcome(table: Seq<SpecResolutionEntry>, file: Seq<char>, specifier: Seq<char>) -> Option<SpecOutcome>
    decreases table.len(),
{
    if table.len() == 0 {
        None
    } else if table[0].file == file && table[0].specifier == specifier {
        Some(table[0].outcome)
    } else {
        lookup_outcome(table.drop_first(), file, specifier)
    }
}

// ─── ResolutionContext ───────────────────────────────────────────────────────

/// Shared, read-only context of a resolution run.
pub struct ResolutionContext {
    pub global: GlobalSourceData,
    pub import_map: ImportResolutionMap,
    pub oxc_resolver: oxc_resolver::Resolver,
    pub specifiers: Vec<SpecifierResolution>,
    pub react_version: ReactVersion,
    pub extra_builtins: Vec<String>,
}

pub struct SpecCtx {
    pub global: SpecGlobal,
    pub imports: SpecImportMap,
    pub table: Seq<SpecResolutionEntry>,
    pub extra_builtins: Seq<Seq<char>>,
}

impl View for ResolutionContext {
    type V = SpecCtx;

    open spec fn view(&self) -> SpecCtx {
        SpecCtx {
            global: self.global@,
            imports: self.import_map@,
            table: self.specifiers@.map_values(|r: SpecifierResolution| r@),
            extra_builtins: strs_view(self.extra_builtins@),
        }
    }
}

/// The strings of `items`, owned.
fn str_vec(items: &[&str]) -> (res: Vec<String>)
    ensures
        strs_view(res@) == items@.map_values(|s: &str| s@),
{
    let mut out: Vec<String> = Vec::new();
    let mut i: usize = 0;
    while i < items.len()
        invariant
            i <= items.len(),
            strs_view(out@) == items@.take(i as int).map_values(|s: &str| s@),
        decreases items.len() - i,
    {
        let item: &str = items[i];
        let owned: String = item.to_owned();
        proof { assert(owned@ == items@[i as int]@); }
        let ghost old_out = out@;
        out.push(owned);
        proof {
            assert(strs_view(out@) =~= strs_view(old_out).push(owned@));
            assert(items@.take(i + 1).map_values(|s: &str| s@)
                =~= items@.take(i as int).map_values(|s: &str| s@).push(items@[i as int]@));
        }
        i = i + 1;
    }
    proof { assert(items@.take(items.len() as int) =~= items@); }
    out
}

/// Records the outcome for (file, specifier).
fn add_query(
    table: &mut Vec<SpecifierResolution>,
    resolver: &oxc_resolver::Resolver,
    file: &str,
    specifier: &str,
)
    ensures
        final(table)@.len() == old(table)@.len() + 1,
        forall|i: int| 0 <= i < old(table)@.len() ==> final(table)@[i]@ == old(table)@[i]@,
        final(table)@.last().file@ == file@,
        final(table)@.last().specifier@ == specifier@,
        (final(table)@.last().outcome is NoParent) == (spec_parent_dir(file@) is None),
        final(table)@.last()@.query == asked_for(file@, specifier@),
{
    let (query, outcome) = match parent_dir(file) {
        None => (None, SpecifierOutcome::NoParent),
        Some(dir) => {
            let (q, o) = resolve_in_dir(resolver, dir.as_str(), specifier);
            (Some(q), o)
        },
    };
    table.push(SpecifierResolution { file: file.to_owned(), specifier: specifier.to_owned(), query, outcome });
}

/// What the resolver is asked for `specifier` imported in `file`: the
/// specifier, from the directory holding the file; nothing where the file
/// has no parent directory.
pub open spec fn asked_for(file: Seq<char>, specifier: Seq<char>) -> Option<(Seq<char>, Seq<char>)> {
    match spec_parent_dir(file) {
        Some(dir) => Some((dir, specifier)),
        None => None,
    }
}

/// The table invariant: entry `i` answers query `i` of `queries`: it was
/// asked from the directory holding the file, and says `NoParent` exactly
/// when the file has no parent directory.
pub open spec fn table_answers(table: Seq<SpecResolutionEntry>, queries: Seq<(Seq<char>, Seq<char>)>) -> bool {
    &&& table.len() == queries.len()
    &&& forall|i: int| 0 <= i < queries.len() ==> (#[trigger] table[i]).file == queries[i].0
        && table[i].specifier == queries[i].1
        && ((table[i].outcome is NoParent) == (spec_parent_dir(queries[i].0) is None))
        && table[i].query == asked_for(queries[i].0, queries[i].1)
}

proof fn lemma_table_extend(
    old_table: Seq<SpecResolutionEntry>,
    new_table: Seq<SpecResolutionEntry>,
    queries: Seq<(Seq<char>, Seq<char>)>,
    q: (Seq<char>, Seq<char>),
)
    requires
        table_answers(old_table, queries),
        new_table.len() == old_table.len() + 1,
        forall|i: int| 0 <= i < old_table.len() ==> new_table[i] == old_table[i],
        new_table.last().file == q.0,
        new_table.last().specifier == q.1,
        (new_table.last().outcome is NoParent) == (spec_parent_dir(q.0) is None),
        new_table.last().query == asked_for(q.0, q.1),
    ensures
        table_answers(new_table, queries.push(q)),
{
    assert forall|i: int| 0 <= i < queries.push(q).len() implies (#[trigger] new_table[i]).file == queries.push(q)[i].0
        && new_table[i].specifier == queries.push(q)[i].1
        && ((new_table[i].outcome is NoParent) == (spec_parent_dir(queries.push(q)[i].0) is None))
        && new_table[i].query == asked_for(queries.push(q)[i].0, queries.push(q)[i].1) by {
        if i < old_table.len() {
            assert(new_table[i] == old_table[i]);
        }
    }
}

impl ResolutionContext {
    /// Builds the context: the import map of `global`, an oxc resolver with
    /// the given tsconfig path aliases, and the resolution of every import
    /// specifier and `extends` module that resolution can ask about.
    pub fn new(
        global: GlobalSourceData,
        alias: Vec<(String, Vec<String>)>,
        react_version: ReactVersion,
        extra_builtins: Vec<String>,
    ) -> (res: Self)
        ensures
            res@.global == global@,
            res@.imports == spec_import_map_of(global@.import_map, global@.re_export_map),
            table_answers(res@.table, needed_queries(global@)),
            res.react_version == react_version,
            res@.extra_builtins == strs_view(extra_builtins@),
    {
        let resolver = new_resolver(
            str_vec(&["types", "import", "require", "default"]),
            str_vec(&["types", "typings", "module", "main"]),
            str_vec(&[".ts", ".tsx", ".d.ts", ".js"]),
            alias,
        );
        let import_map = ImportResolutionMap::build(&global);
        let mut table: Vec<SpecifierResolution> = Vec::new();
        let ghost g = global@;

        // Imports of each file.
        let mut i: usize = 0;
        while i < global.import_map.len()
            invariant
                i <= global.import_map.len(),
                g == global@,
                table_answers(table@.map_values(|r: SpecifierResolution| r@), import_queries(g.import_map.take(i as int))),
            decreases global.import_map.len() - i,
        {
            let file = &global.import_map[i].0;
            let list = &global.import_map[i].1;
            let ghost e = g.import_map[i as int];
            let ghost before = import_queries(g.import_map.take(i as int));
            let ghost added = e.1.map_values(|b: SpecImportBinding| (e.0, b.specifier));
            proof {
                assert(g.import_map.take(i + 1).drop_last() =~= g.import_map.take(i as int));
                assert(import_queries(g.import_map.take(i + 1)) == before + added);
                assert(before + added.take(0) =~= before);
            }
            let mut j: usize = 0;
            while j < list.len()
                invariant
                    j <= list.len(),
                    e.0 == file@,
                    e.1 == list@.map_values(|b: crate::types::ImportBinding| b@),
                    added == e.1.map_values(|b: SpecImportBinding| (e.0, b.specifier)),
                    table_answers(table@.map_values(|r: SpecifierResolution| r@), before + added.take(j as int)),
                decreases list.len() - j,
            {
                let ghost old_t = table@.map_values(|r: SpecifierResolution| r@);
                add_query(&mut table, &resolver, file.as_str(), list[j].specifier.as_str());
                proof {
                    assert(added[j as int] == (file@, list@[j as int].specifier@));
                    assert((before + added.take(j as int)).push(added[j as int]) =~= before + added.take(j + 1));
                    lemma_table_extend(
                        old_t,
                        table@.map_values(|r: SpecifierResolution| r@),
                        before + added.take(j as int),
                        added[j as int],
                    );
                }
                j = j + 1;
            }
            proof { assert(added.take(list.len() as int) =~= added); }
            i = i + 1;
        }
        proof { assert(g.import_map.take(global.import_map.len() as int) =~= g.import_map); }
        let ghost iq = import_queries(g.import_map);

        // Modules named by `extends` clauses.
        let mut k: usize = 0;
        proof { assert(iq + interface_queries(g.interfaces.take(0)) =~= iq); }
        while k < global.interfaces.len()
            invariant
                k <= global.interfaces.len(),
                g == global@,
                iq == import_queries(g.import_map),
                table_answers(table@.map_values(|r: SpecifierResolution| r@), iq + interface_queries(g.interfaces.take(k as int))),
            decreases global.interfaces.len() - k,
        {
            let iface = &global.interfaces[k].1;
            let ghost before = iq + interface_queries(g.interfaces.take(k as int));
            let ghost es = g.interfaces[k as int].1.extends;
            let ghost f = g.interfaces[k as int].1.file_path;
            proof {
                assert(g.interfaces.take(k + 1).drop_last() =~= g.interfaces.take(k as int));
                assert(before + extends_queries(f, es.take(0)) =~= before);
            }
            let mut m: usize = 0;
            while m < iface.extends.len()
                invariant
                    m <= iface.extends.len(),
                    f == iface.file_path@,
                    es == iface.extends@.map_values(|x: ExtendsRef| x@),
                    table_answers(table@.map_values(|r: SpecifierResolution| r@), before + extends_queries(f, es.take(m as int))),
                decreases iface.extends.len() - m,
            {
                let ghost cur = before + extends_queries(f, es.take(m as int));
                proof {
                    assert(es.take(m + 1).drop_last() =~= es.take(m as int));
                    assert(es.take(m + 1).last() == es[m as int]);
                }
                match &iface.extends[m] {
                    ExtendsRef::Builtin { element: Some(_), .. } => {
                        let ghost old_t = table@.map_values(|r: SpecifierResolution| r@);
                        add_query(&mut table, &resolver, iface.file_path.as_str(), "@types/react");
                        proof {
                            assert(cur.push((f, react_types_specifier())) =~= before + extends_queries(f, es.take(m + 1)));
                            lemma_table_extend(old_t, table@.map_values(|r: SpecifierResolution| r@), cur, (f, react_types_specifier()));
                        }
                    },
                    ExtendsRef::Imported { source_specifier: Some(s), .. } => {
                        let ghost old_t = table@.map_values(|r: SpecifierResolution| r@);
                        add_query(&mut table, &resolver, iface.file_path.as_str(), s.as_str());
                        proof {
                            assert(cur.push((f, s@)) =~= before + extends_queries(f, es.take(m + 1)));
                            lemma_table_extend(old_t, table@.map_values(|r: SpecifierResolution| r@), cur, (f, s@));
                        }
                    },
                    _ => {
                        proof { assert(cur =~= before + extends_queries(f, es.take(m + 1))); }
                    },
                }
                m = m + 1;
            }
            proof {
                assert(es.take(iface.extends.len() as int) =~= es);
                assert(before + extends_queries(f, es) =~= iq + interface_queries(g.interfaces.take(k + 1)));
            }
            k = k + 1;
        }
        proof { assert(g.interfaces.take(global.interfaces.len() as int) =~= g.interfaces); }
        ResolutionContext {
            global,
            import_map,
            oxc_resolver: resolver,
            specifiers: table,
            react_version,
            extra_builtins,
        }
    }

    /// The outcome recorded first for (file, specifier).
    pub fn find_outcome(&self, file: &str, specifier: &str) -> (res: Option<&SpecifierOutcome>)
        ensures
            match res {
                Some(o) => lookup_outcome(self@.table, file@, specifier@) == Some(o@),
                None => lookup_outcome(self@.table, file@, specifier@) is None,
            },
    {
        let ghost t = self@.table;
        let mut i: usize = 0;
        proof { assert(t.skip(0) =~= t); }
        while i < self.specifiers.len()
            invariant
                i <= self.specifiers.len(),
                t == self@.table,
                lookup_outcome(t, file@, specifier@) == lookup_outcome(t.skip(i as int), file@, specifier@),
            decreases self.specifiers.len() - i,
        {
            proof {
                assert(t.skip(i as int).drop_first() =~= t.skip(i + 1));
                assert(t.skip(i as int)[0] == self.specifiers@[i as int]@);
            }
            let r = &self.specifiers[i];
            if crate::text::str_eq(r.file.as_str(), file) && crate::text::str_eq(r.specifier.as_str(), specifier) {
                return Some(&r.outcome);
            }
            i = i + 1;
        }
        proof { assert(t.skip(i as int).len() == 0); }
        None
    }
}

// ─── Lookups shared by the resolvers ─────────────────────────────────────────

/// The deepest nesting that resolution follows.
pub open spec fn max_depth() -> int {
    20
}

/// The termination measure of resolution: the depth still available.
pub open spec fn depth_measure(depth: int) -> int {
    if depth <= max_depth() + 1 { max_depth() + 1 - depth } else { 0 }
}

/// The key of a declaration: `"{file}:{name}"`.
pub open spec fn scoped(file: Seq<char>, name: Seq<char>) -> Seq<char> {
    file + ":"@ + name
}

/// The file that `specifier`, imported in `file`, resolves to, and the
/// diagnostic when the resolver failed.
pub open spec fn spec_resolve_specifier(c: SpecCtx, specifier: Seq<char>, file: Seq<char>) -> (Option<Seq<char>>, Seq<SpecDiagnostic>) {
    match lookup_outcome(c.table, file, specifier) {
        Some(SpecOutcome::Found { utf8_path, .. }) => (utf8_path, Seq::empty()),
        Some(SpecOutcome::Failed { message }) => (None, seq![spec_file_diag(
            DiagnosticSeverity::Warning,
            DiagnosticCode::UnresolvableImport,
            "Cannot resolve '"@ + specifier + "' from '"@ + file + "'"@,
            file,
            Some("Resolution error: "@ + message),
        )]),
        _ => (None, Seq::empty()),
    }
}

/// Where `name`, used in `file`, is declared: (file, exported name), when it
/// was imported and its specifier resolved.
pub open spec fn spec_to_canonical(c: SpecCtx, name: Seq<char>, file: Seq<char>) -> (Option<(Seq<char>, Seq<char>)>, Seq<SpecDiagnostic>) {
    match last_import(c.imports.bindings, file, name) {
        None => (None, Seq::empty()),
        Some(r) => {
            let s = spec_resolve_specifier(c, r.specifier, file);
            match s.0 {
                Some(p) => (Some((p, r.exported_name)), s.1),
                None => (None, s.1),
            }
        },
    }
}

/// The key under which `name`, used in `file`, is declared.
pub open spec fn spec_canonical_key(c: SpecCtx, name: Seq<char>, file: Seq<char>) -> (Seq<char>, Seq<SpecDiagnostic>) {
    let r = spec_to_canonical(c, name, file);
    match r.0 {
        Some((f, n)) => (scoped(f, n), r.1),
        None => (scoped(file, name), r.1),
    }
}

/// The `.d.ts` file of `@types/react` as resolved from `file`, or a
/// synthetic path under `node_modules`.
pub open spec fn spec_react_types_file(c: SpecCtx, file: Seq<char>) -> Seq<char> {
    match lookup_outcome(c.table, file, react_types_specifier()) {
        Some(SpecOutcome::Found { path, .. }) => path,
        _ => "node_modules/@types/react/index.d.ts"@,
    }
}

/// A diagnostic about `file`, with no line or column.
pub fn file_diag(
    severity: DiagnosticSeverity,
    code: DiagnosticCode,
    message: String,
    file: &str,
    help: Option<String>,
) -> (res: Diagnostic)
    ensures
        res@ == spec_file_diag(severity, code, message@, file@, opt_str_view(help)),
{
    Diagnostic { severity, message, file: Some(file.to_owned()), line: None, column: None, help, code }
}

/// Appends one diagnostic.
pub fn push_diag(diagnostics: &mut Vec<Diagnostic>, d: Diagnostic)
    ensures
        diags_view(final(diagnostics)@) == diags_view(old(diagnostics)@).push(d@),
{
    let ghost before = diagnostics@;
    diagnostics.push(d);
    proof { assert(diags_view(diagnostics@) =~= diags_view(before).push(d@)); }
}

/// Resolves `specifier`, imported in `from_file`, to a file path; pushes a
/// diagnostic when the resolver failed.
pub fn resolve_import_specifier(
    specifier: &str,
    from_file: &str,
    ctx: &ResolutionContext,
    diagnostics: &mut Vec<Diagnostic>,
) -> (res: Option<String>)
    ensures
        opt_str_view(res) == spec_resolve_specifier(ctx@, specifier@, from_file@).0,
        diags_view(final(diagnostics)@) == diags_view(old(diagnostics)@) + spec_resolve_specifier(ctx@, specifier@, from_file@).1,
{
    let ghost before = diags_view(diagnostics@);
    proof { assert(before + Seq::<SpecDiagnostic>::empty() =~= before); }
    match ctx.find_outcome(from_file, specifier) {
        Some(SpecifierOutcome::Found { utf8_path, .. }) => crate::types::clone_opt_string(utf8_path),
        Some(SpecifierOutcome::Failed { message }) => {
            let mut m = "Cannot resolve '".to_owned();
            m.append(specifier);
            m.append("' from '");
            m.append(from_file);
            m.append("'");
            let mut h = "Resolution error: ".to_owned();
            h.append(message.as_str());
            let d = file_diag(DiagnosticSeverity::Warning, DiagnosticCode::UnresolvableImport, m, from_file, Some(h));
            push_diag(diagnostics, d);
            proof { assert(before.push(d@) =~= before + spec_resolve_specifier(ctx@, specifier@, from_file@).1); }
            None
        },
        _ => None,
    }
}

/// Resolves `name`, used in `consuming_file`, to (declaring file, exported
/// name); `None` when it is not imported there or its specifier did not
/// resolve.
pub fn resolve_to_canonical(
    name: &str,
    consuming_file: &str,
    ctx: &ResolutionContext,
    diagnostics: &mut Vec<Diagnostic>,
) -> (res: Option<(String, String)>)
    ensures
        match res {
            Some((f, n)) => spec_to_canonical(ctx@, name@, consuming_file@).0 == Some((f@, n@)),
            None => spec_to_canonical(ctx@, name@, consuming_file@).0 is None,
        },
        diags_view(final(diagnostics)@) == diags_view(old(diagnostics)@) + spec_to_canonical(ctx@, name@, consuming_file@).1,
{
    let ghost before = diags_view(diagnostics@);
    proof { assert(before + Seq::<SpecDiagnostic>::empty() =~= before); }
    match ctx.import_map.find_import(consuming_file, name) {
        None => None,
        Some(r) => match resolve_import_specifier(r.specifier.as_str(), consuming_file, ctx, diagnostics) {
            Some(p) => Some((p, r.exported_name.clone())),
            None => None,
        },
    }
}

/// The key under which `name`, used in `consuming_file`, is declared: the
/// canonical (file, name) when it was imported, else `consuming_file` itself.
pub fn canonical_key(
    name: &str,
    consuming_file: &str,
    ctx: &ResolutionContext,
    diagnostics: &mut Vec<Diagnostic>,
) -> (res: String)
    ensures
        res@ == spec_canonical_key(ctx@, name@, consuming_file@).0,
        diags_view(final(diagnostics)@) == diags_view(old(diagnostics)@) + spec_canonical_key(ctx@, name@, consuming_file@).1,
{
    match resolve_to_canonical(name, consuming_file, ctx, diagnostics) {
        Some((f, n)) => {
            let mut k = f;
            k.append(":");
            k.append(n.as_str());
            k
        },
        None => {
            let mut k = consuming_file.to_owned();
            k.append(":");
            k.append(name);
            k
        },
    }
}

/// Best-effort path of the `@types/react` declaration file, resolved from
/// `from_file`; a synthetic `node_modules` path when it cannot be resolved.
pub fn resolve_react_types_file(from_file: &str, ctx: &ResolutionContext) -> (res: String)
    ensures
        res@ == spec_react_types_file(ctx@, from_file@),
{
    match ctx.find_outcome(from_file, "@types/react") {
        Some(SpecifierOutcome::Found { path, .. }) => path.clone(),
        _ => "node_modules/@types/react/index.d.ts".to_owned(),
    }
}

/// The type alias declared under `key`.
pub fn lookup_alias<'a>(ctx: &'a ResolutionContext, key: &str) -> (res: Option<&'a CollectedTypeAlias>)
    ensures
        match res {
            Some(a) => assoc_get(ctx@.global.type_aliases, key@) == Some(a@),
            None => assoc_get(ctx@.global.type_aliases, key@) is None,
        },
{
    let ghost ta = ctx@.global.type_aliases;
    let idx = first_key_pos(&ctx.global.type_aliases, key);
    proof {
        assert forall|j: int| 0 <= j < idx implies ta[j].0 != key@ by {
            assert(ta[j].0 == ctx.global.type_aliases@[j].0@);
        }
        lemma_first_key_index_is(ta, key@, idx as int);
    }
    if idx < ctx.global.type_aliases.len() {
        Some(&ctx.global.type_aliases[idx].1)
    } else {
        None
    }
}

/// The interface declared under `key`.
pub fn lookup_interface<'a>(ctx: &'a ResolutionContext, key: &str) -> (res: Option<&'a CollectedInterface>)
    ensures
        match res {
            Some(i) => assoc_get(ctx@.global.interfaces, key@) == Some(i@),
            None => assoc_get(ctx@.global.interfaces, key@) is None,
        },
{
    let ghost ifs = ctx@.global.interfaces;
    let idx = first_key_pos(&ctx.global.interfaces, key);
    proof {
        assert forall|j: int| 0 <= j < idx implies ifs[j].0 != key@ by {
            assert(ifs[j].0 == ctx.global.interfaces@[j].0@);
        }
        lemma_first_key_index_is(ifs, key@, idx as int);
    }
    if idx < ctx.global.interfaces.len() {
        Some(&ctx.global.interfaces[idx].1)
    } else {
        None
    }
}

} // verus!
verus! {

// ─── Named types by file and name ────────────────────────────────────────────

/// The entry of `table` for the type `name` declared at `file`: under its
/// bare key, or else under its `React.`-qualified key.
pub open spec fn named_at<V>(table: Seq<(Seq<char>, V)>, file: Seq<char>, name: Seq<char>) -> Option<V> {
    match assoc_get(table, scoped(file, name)) {
        Some(v) => Some(v),
        None => assoc_get(table, scoped(file, "React."@ + name)),
    }
}

/// The key of the type `name` declared at `file`, with `prefix` before the name.
fn key_at(file: &str, prefix: &str, name: &str) -> (res: String)
    ensures
        res@ == scoped(file@, prefix@ + name@),
{
    let mut k = file.to_owned();
    k.append(":");
    k.append(prefix);
    k.append(name);
    proof { assert(k@ =~= file@ + ":"@ + (prefix@ + name@)); }
    k
}

/// The interface `name` declared at `file` in `global`, found under its bare
/// key or else under its `React.`-qualified key.
pub fn lookup_interface_at<'a>(global: &'a GlobalSourceData, file: &str, name: &str) -> (res: Option<&'a CollectedInterface>)
    ensures
        match res {
            Some(i) => named_at(global@.interfaces, file@, name@) == Some(i@),
            None => named_at(global@.interfaces, file@, name@) is None,
        },
{
    let ghost ifs = global@.interfaces;
    let bare = key_at(file, "", name);
    proof {
        reveal_strlit("");
        assert(Seq::<char>::empty() + name@ =~= name@);
    }
    let idx = first_key_pos(&global.interfaces, bare.as_str());
    proof {
        assert forall|j: int| 0 <= j < idx implies ifs[j].0 != bare@ by {
            assert(ifs[j].0 == global.interfaces@[j].0@);
        }
        lemma_first_key_index_is(ifs, bare@, idx as int);
    }
    if idx < global.interfaces.len() {
        return Some(&global.interfaces[idx].1);
    }
    let qualified = key_at(file, "React.", name);
    let qdx = first_key_pos(&global.interfaces, qualified.as_str());
    proof {
        assert forall|j: int| 0 <= j < qdx implies ifs[j].0 != qualified@ by {
            assert(ifs[j].0 == global.interfaces@[j].0@);
        }
        lemma_first_key_index_is(ifs, qualified@, qdx as int);
    }
    if qdx < global.interfaces.len() {
        Some(&global.interfaces[qdx].1)
    } else {
        None
    }
}

/// Whether an interface or a type alias named `name` is declared at `file`,
/// under its bare key or its `React.`-qualified key.
pub fn is_declared_at(global: &GlobalSourceData, file: &str, name: &str) -> (res: bool)
    ensures
        res == (named_at(global@.interfaces, file@, name@) is Some || named_at(global@.type_aliases, file@, name@) is Some),
{
    if lookup_interface_at(global, file, name).is_some() {
        return true;
    }
    let ghost ta = global@.type_aliases;
    let bare = key_at(file, "", name);
    proof {
        reveal_strlit("");
        assert(Seq::<char>::empty() + name@ =~= name@);
    }
    let idx = first_key_pos(&global.type_aliases, bare.as_str());
    proof {
        assert forall|j: int| 0 <= j < idx implies ta[j].0 != bare@ by {
            assert(ta[j].0 == global.type_aliases@[j].0@);
        }
        lemma_first_key_index_is(ta, bare@, idx as int);
    }
    if idx < global.type_aliases.len() {
        return true;
    }
    let qualified = key_at(file, "React.", name);
    let qdx = first_key_pos(&global.type_aliases, qualified.as_str());
    proof {
        assert forall|j: int| 0 <= j < qdx implies ta[j].0 != qualified@ by {
            assert(ta[j].0 == global.type_aliases@[j].0@);
        }
        lemma_first_key_index_is(ta, qualified@, qdx as int);
    }
    qdx < global.type_aliases.len()
}

} // verus!
