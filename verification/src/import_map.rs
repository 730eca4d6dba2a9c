//! Import bookkeeping: which file a name used in a file was imported from,
//! and how barrel files re-export names. Built once from the merged source
//! data and then only read.

use vstd::prelude::*;
use crate::types::{
    GlobalSourceData, ImportBinding, LexedExport, SpecImportBinding, SpecLexedExport, strs_view,
};

verus! {

/// Where an imported name comes from, as written in the source.
#[derive(Debug)]
pub struct ImportRef {
    /// The import specifier as written: `"./types"`, `"@radix-ui/react-button"`.
    pub specifier: String,
    /// The name exported by the source module (before any `as` rename).
    pub exported_name: String,
    /// `true` for `import type { .. }` bindings.
    pub is_type_only: bool,
}

pub struct SpecImportRef {
    pub specifier: Seq<char>,
    pub exported_name: Seq<char>,
    pub is_type_only: bool,
}

impl View for ImportRef {
    type V = SpecImportRef;

    open spec fn view(&self) -> SpecImportRef {
        SpecImportRef {
            specifier: self.specifier@,
            exported_name: self.exported_name@,
            is_type_only: self.is_type_only,
        }
    }
}

impl Clone for ImportRef {
    fn clone(&self) -> (res: Self)
        ensures
            res@ == self@,
    {
        ImportRef {
            specifier: self.specifier.clone(),
            exported_name: self.exported_name.clone(),
            is_type_only: self.is_type_only,
        }
    }
}

/// One step of a re-export chain.
#[derive(Debug)]
pub enum ReExportStep {
    /// A named re-export: resolve `source_specifier` and look up `source_name` there.
    Named { source_specifier: String, source_name: String },
    /// The `export * from ".."` specifiers of the barrel, in order.
    Wildcards(Vec<String>),
}

pub enum SpecReExportStep {
    Named { source_specifier: Seq<char>, source_name: Seq<char> },
    Wildcards(Seq<Seq<char>>),
}

impl View for ReExportStep {
    type V = SpecReExportStep;

    open spec fn view(&self) -> SpecReExportStep {
        match self {
            ReExportStep::Named { source_specifier, source_name } => SpecReExportStep::Named {
                source_specifier: source_specifier@,
                source_name: source_name@,
            },
            ReExportStep::Wildcards(v) => SpecReExportStep::Wildcards(strs_view(v@)),
        }
    }
}

// ─── Specification ───────────────────────────────────────────────────────────

pub open spec fn import_ref_of(b: SpecImportBinding) -> SpecImportRef {
    SpecImportRef { specifier: b.specifier, exported_name: b.exported_name, is_type_only: b.is_type_only }
}

/// Every binding of every file, in order, as (file, local name, reference).
pub open spec fn flat_imports(
    entries: Seq<(Seq<char>, Seq<SpecImportBinding>)>,
) -> Seq<(Seq<char>, Seq<char>, SpecImportRef)>
    decreases entries.len(),
{
    if entries.len() == 0 {
        Seq::empty()
    } else {
        let e = entries.last();
        flat_imports(entries.drop_last()) + e.1.map_values(
            |b: SpecImportBinding| (e.0, b.local_name, import_ref_of(b)),
        )
    }
}

/// The last binding of `name` in `file`: a later binding replaces an earlier one.
pub open spec fn last_import(
    flat: Seq<(Seq<char>, Seq<char>, SpecImportRef)>,
    file: Seq<char>,
    name: Seq<char>,
) -> Option<SpecImportRef>
    decreases flat.len(),
{
    if flat.len() == 0 {
        None
    } else if flat.last().0 == file && flat.last().1 == name {
        Some(flat.last().2)
    } else {
        last_import(flat.drop_last(), file, name)
    }
}

/// The `export * from ".."` specifiers of one file's exports, in order.
pub open spec fn wildcard_specs(exports: Seq<SpecLexedExport>) -> Seq<Seq<char>>
    decreases exports.len(),
{
    if exports.len() == 0 {
        Seq::empty()
    } else {
        let rest = wildcard_specs(exports.drop_last());
        match exports.last() {
            SpecLexedExport::ReExportAll { source_specifier, .. } => rest.push(source_specifier),
            _ => rest,
        }
    }
}

/// The first named re-export of `name` among `exports`, as (specifier, source name).
pub open spec fn first_named_reexport(exports: Seq<SpecLexedExport>, name: Seq<char>) -> Option<(Seq<char>, Seq<char>)>
    decreases exports.len(),
{
    if exports.len() == 0 {
        None
    } else {
        match exports[0] {
            SpecLexedExport::ReExportNamed { local_name, source_name, source_specifier, .. } =>
                if local_name == name {
                    Some((source_specifier, source_name))
                } else {
                    first_named_reexport(exports.drop_first(), name)
                },
            _ => first_named_reexport(exports.drop_first(), name),
        }
    }
}

/// Index of the first entry keyed by `key`, or the length when there is none.
pub open spec fn first_key_index<V>(entries: Seq<(Seq<char>, V)>, key: Seq<char>) -> int
    decreases entries.len(),
{
    if entries.len() == 0 {
        0
    } else if entries[0].0 == key {
        0
    } else {
        1 + first_key_index(entries.drop_first(), key)
    }
}

/// The value of the first entry keyed by `key`.
pub open spec fn assoc_get<V>(entries: Seq<(Seq<char>, V)>, key: Seq<char>) -> Option<V> {
    let i = first_key_index(entries, key);
    if i < entries.len() {
        Some(entries[i].1)
    } else {
        None
    }
}

/// One step of the re-export chain of `barrel` for `name`.
pub open spec fn spec_reexport_step(
    re_export_map: Seq<(Seq<char>, Seq<SpecLexedExport>)>,
    barrel: Seq<char>,
    name: Seq<char>,
) -> Option<SpecReExportStep> {
    match assoc_get(re_export_map, barrel) {
        None => None,
        Some(exports) => match first_named_reexport(exports, name) {
            Some((spec, src)) => Some(SpecReExportStep::Named { source_specifier: spec, source_name: src }),
            None => if wildcard_specs(exports).len() > 0 {
                Some(SpecReExportStep::Wildcards(wildcard_specs(exports)))
            } else {
                None
            },
        },
    }
}

pub proof fn lemma_first_key_index_bounds<V>(entries: Seq<(Seq<char>, V)>, key: Seq<char>)
    ensures
        0 <= first_key_index(entries, key) <= entries.len(),
        first_key_index(entries, key) < entries.len() ==> entries[first_key_index(entries, key)].0 == key,
        forall|j: int| 0 <= j < first_key_index(entries, key) ==> entries[j].0 != key,
    decreases entries.len(),
{
    if entries.len() > 0 && entries[0].0 != key {
        lemma_first_key_index_bounds(entries.drop_first(), key);
        assert forall|j: int| 0 <= j < first_key_index(entries, key) implies entries[j].0 != key by {
            if j > 0 {
                assert(entries[j] == entries.drop_first()[j - 1]);
            }
        }
    }
}

pub proof fn lemma_first_key_index_is<V>(entries: Seq<(Seq<char>, V)>, key: Seq<char>, k: int)
    requires
        0 <= k <= entries.len(),
        k < entries.len() ==> entries[k].0 == key,
        forall|j: int| 0 <= j < k ==> entries[j].0 != key,
    ensures
        first_key_index(entries, key) == k,
    decreases entries.len(),
{
    if entries.len() > 0 && entries[0].0 != key {
        assert forall|j: int| 0 <= j < k - 1 implies entries.drop_first()[j].0 != key by {
            assert(entries.drop_first()[j] == entries[j + 1]);
        }
        lemma_first_key_index_is(entries.drop_first(), key, k - 1);
    }
}

// ─── ImportResolutionMap ─────────────────────────────────────────────────────

/// Maps (file, local name) to where the name was imported from, and each
/// barrel file to the specifiers it re-exports with `export *`.
pub struct ImportResolutionMap {
    bindings: Vec<(String, String, ImportRef)>,
    wildcard_sources: Vec<(String, Vec<String>)>,
}

pub struct SpecImportMap {
    pub bindings: Seq<(Seq<char>, Seq<char>, SpecImportRef)>,
    pub wildcard_sources: Seq<(Seq<char>, Seq<Seq<char>>)>,
}

impl View for ImportResolutionMap {
    type V = SpecImportMap;

    closed spec fn view(&self) -> SpecImportMap {
        SpecImportMap {
            bindings: self.bindings@.map_values(|t: (String, String, ImportRef)| (t.0@, t.1@, t.2@)),
            wildcard_sources: self.wildcard_sources@.map_values(|p: (String, Vec<String>)| (p.0@, strs_view(p.1@))),
        }
    }
}

/// The map that `ImportResolutionMap::build` makes of `global`.
pub open spec fn spec_import_map_of(
    import_map: Seq<(Seq<char>, Seq<SpecImportBinding>)>,
    re_export_map: Seq<(Seq<char>, Seq<SpecLexedExport>)>,
) -> SpecImportMap {
    SpecImportMap {
        bindings: flat_imports(import_map),
        wildcard_sources: re_export_map.map_values(
            |p: (Seq<char>, Seq<SpecLexedExport>)| (p.0, wildcard_specs(p.1)),
        ),
    }
}

fn wildcards_of(exports: &Vec<LexedExport>) -> (res: Vec<String>)
    ensures
        strs_view(res@) == wildcard_specs(exports@.map_values(|e: LexedExport| e@)),
{
    let ghost ev = exports@.map_values(|e: LexedExport| e@);
    let mut out: Vec<String> = Vec::new();
    let mut i: usize = 0;
    while i < exports.len()
        invariant
            i <= exports.len(),
            ev == exports@.map_values(|e: LexedExport| e@),
            strs_view(out@) == wildcard_specs(ev.take(i as int)),
        decreases exports.len() - i,
    {
        proof { assert(ev.take(i + 1).drop_last() =~= ev.take(i as int)); }
        match &exports[i] {
            LexedExport::ReExportAll { source_specifier, .. } => {
                out.push(source_specifier.clone());
                proof { assert(strs_view(out@) =~= wildcard_specs(ev.take(i as int)).push(source_specifier@)); }
            },
            _ => {},
        }
        i = i + 1;
    }
    proof { assert(ev.take(exports.len() as int) =~= ev); }
    out
}

/// Index of the first entry keyed by `key`, or the length when there is none.
pub fn first_key_pos<V>(entries: &Vec<(String, V)>, key: &str) -> (res: usize)
    ensures
        res <= entries.len(),
        res < entries.len() ==> entries@[res as int].0@ == key@,
        forall|j: int| 0 <= j < res ==> entries@[j].0@ != key@,
{
    let mut idx: usize = 0;
    while idx < entries.len()
        invariant
            idx <= entries.len(),
            forall|j: int| 0 <= j < idx ==> entries@[j].0@ != key@,
        decreases entries.len() - idx,
    {
        if crate::text::str_eq(entries[idx].0.as_str(), key) {
            return idx;
        }
        idx = idx + 1;
    }
    idx
}

impl ImportResolutionMap {
    /// Builds the map from merged source data. No I/O.
    pub fn build(global: &GlobalSourceData) -> (res: Self)
        ensures
            res@ == spec_import_map_of(global@.import_map, global@.re_export_map),
    {
        let ghost im = global@.import_map;
        let mut bindings: Vec<(String, String, ImportRef)> = Vec::new();
        let mut i: usize = 0;
        while i < global.import_map.len()
            invariant
                i <= global.import_map.len(),
                im == global@.import_map,
                bindings@.map_values(|t: (String, String, ImportRef)| (t.0@, t.1@, t.2@))
                    == flat_imports(im.take(i as int)),
            decreases global.import_map.len() - i,
        {
            let file = &global.import_map[i].0;
            let list = &global.import_map[i].1;
            let ghost before = flat_imports(im.take(i as int));
            let ghost e = im[i as int];
            let ghost added = e.1.map_values(|b: SpecImportBinding| (e.0, b.local_name, import_ref_of(b)));
            proof {
                assert(im.take(i + 1).drop_last() =~= im.take(i as int));
                assert(e.1 == list@.map_values(|b: ImportBinding| b@));
            }
            let mut j: usize = 0;
            while j < list.len()
                invariant
                    j <= list.len(),
                    e.0 == file@,
                    e.1 == list@.map_values(|b: ImportBinding| b@),
                    added == e.1.map_values(|b: SpecImportBinding| (e.0, b.local_name, import_ref_of(b))),
                    bindings@.map_values(|t: (String, String, ImportRef)| (t.0@, t.1@, t.2@))
                        == before + added.take(j as int),
                decreases list.len() - j,
            {
                let b: &ImportBinding = &list[j];
                let r = ImportRef {
                    specifier: b.specifier.clone(),
                    exported_name: b.exported_name.clone(),
                    is_type_only: b.is_type_only,
                };
                let ghost nv = (file@, b.local_name@, r@);
                proof { assert(added[j as int] == nv); }
                let ghost old_b = bindings@;
                bindings.push((file.clone(), b.local_name.clone(), r));
                proof {
                    assert(bindings@.map_values(|t: (String, String, ImportRef)| (t.0@, t.1@, t.2@))
                        =~= old_b.map_values(|t: (String, String, ImportRef)| (t.0@, t.1@, t.2@)).push(nv));
                    assert(added.take(j + 1) =~= added.take(j as int).push(added[j as int]));
                    assert(bindings@.map_values(|t: (String, String, ImportRef)| (t.0@, t.1@, t.2@))
                        =~= before + added.take(j + 1));
                }
                j = j + 1;
            }
            proof { assert(added.take(list.len() as int) =~= added); }
            i = i + 1;
        }
        proof { assert(im.take(global.import_map.len() as int) =~= im); }

        let mut wildcard_sources: Vec<(String, Vec<String>)> = Vec::new();
        let ghost rm = global@.re_export_map;
        let mut k: usize = 0;
        while k < global.re_export_map.len()
            invariant
                k <= global.re_export_map.len(),
                rm == global@.re_export_map,
                wildcard_sources@.len() == k,
                forall|m: int| 0 <= m < k ==> (#[trigger] wildcard_sources@[m]).0@ == rm[m].0
                    && strs_view(wildcard_sources@[m].1@) == wildcard_specs(rm[m].1),
            decreases global.re_export_map.len() - k,
        {
            let w = wildcards_of(&global.re_export_map[k].1);
            wildcard_sources.push((global.re_export_map[k].0.clone(), w));
            k = k + 1;
        }
        let res = ImportResolutionMap { bindings, wildcard_sources };
        proof {
            assert(res@.wildcard_sources =~= spec_import_map_of(im, rm).wildcard_sources);
        }
        res
    }

    /// Where `local_name`, used in `file`, was imported from; `None` when the
    /// name is not imported there (a local declaration).
    pub fn find_import(&self, file: &str, local_name: &str) -> (res: Option<&ImportRef>)
        ensures
            match res {
                Some(r) => last_import(self@.bindings, file@, local_name@) == Some(r@),
                None => last_import(self@.bindings, file@, local_name@) is None,
            },
    {
        let ghost flat = self@.bindings;
        let mut i: usize = self.bindings.len();
        proof { assert(flat.take(i as int) =~= flat); }
        while i > 0
            invariant
                i <= self.bindings.len(),
                flat == self@.bindings,
                flat == self.bindings@.map_values(|t: (String, String, ImportRef)| (t.0@, t.1@, t.2@)),
                last_import(flat, file@, local_name@) == last_import(flat.take(i as int), file@, local_name@),
            decreases i,
        {
            let t = &self.bindings[i - 1];
            proof { assert(flat.take(i as int).drop_last() =~= flat.take(i - 1)); }
            if crate::text::str_eq(t.0.as_str(), file) && crate::text::str_eq(t.1.as_str(), local_name) {
                return Some(&t.2);
            }
            i = i - 1;
        }
        None
    }

    /// One step of the re-export chain of `barrel_file` for `exported_name`:
    /// the first named re-export of it, else the `export *` specifiers, else
    /// `None`.
    pub fn resolve_reexport_chain(
        &self,
        barrel_file: &str,
        exported_name: &str,
        global: &GlobalSourceData,
    ) -> (res: Option<ReExportStep>)
        ensures
            match res {
                Some(s) => spec_reexport_step(global@.re_export_map, barrel_file@, exported_name@) == Some(s@),
                None => spec_reexport_step(global@.re_export_map, barrel_file@, exported_name@) is None,
            },
    {
        let ghost rm = global@.re_export_map;
        let idx = first_key_pos(&global.re_export_map, barrel_file);
        proof {
            assert forall|j: int| 0 <= j < idx implies rm[j].0 != barrel_file@ by {
                assert(rm[j].0 == global.re_export_map@[j].0@);
            }
            lemma_first_key_index_is(rm, barrel_file@, idx as int);
        }
        if idx == global.re_export_map.len() {
            return None;
        }
        let exports = &global.re_export_map[idx].1;
        let ghost ev = exports@.map_values(|e: LexedExport| e@);
        proof { assert(assoc_get(rm, barrel_file@) == Some(ev)); }
        let mut wild: Vec<String> = Vec::new();
        let mut i: usize = 0;
        proof { assert(ev.skip(0) =~= ev); }
        while i < exports.len()
            invariant
                i <= exports.len(),
                ev == exports@.map_values(|e: LexedExport| e@),
                rm == global@.re_export_map,
                assoc_get(rm, barrel_file@) == Some(ev),
                strs_view(wild@) == wildcard_specs(ev.take(i as int)),
                first_named_reexport(ev, exported_name@) == first_named_reexport(ev.skip(i as int), exported_name@),
            decreases exports.len() - i,
        {
            proof {
                assert(ev.take(i + 1).drop_last() =~= ev.take(i as int));
                assert(ev.skip(i as int).drop_first() =~= ev.skip(i + 1));
                assert(ev.skip(i as int)[0] == ev[i as int]);
            }
            match &exports[i] {
                LexedExport::ReExportNamed { local_name, source_name, source_specifier, .. } => {
                    if crate::text::str_eq(local_name.as_str(), exported_name) {
                        proof {
                            assert(first_named_reexport(ev.skip(i as int), exported_name@)
                                == Some((source_specifier@, source_name@)));
                            assert(first_named_reexport(ev, exported_name@) == Some((source_specifier@, source_name@)));
                            assert(spec_reexport_step(rm, barrel_file@, exported_name@) == Some(
                                SpecReExportStep::Named { source_specifier: source_specifier@, source_name: source_name@ },
                            ));
                        }
                        return Some(ReExportStep::Named {
                            source_specifier: source_specifier.clone(),
                            source_name: source_name.clone(),
                        });
                    }
                },
                LexedExport::ReExportAll { source_specifier, .. } => {
                    wild.push(source_specifier.clone());
                    proof { assert(strs_view(wild@) =~= wildcard_specs(ev.take(i as int)).push(source_specifier@)); }
                },
                _ => {},
            }
            i = i + 1;
        }
        proof {
            assert(ev.take(exports.len() as int) =~= ev);
            assert(ev.skip(exports.len() as int).len() == 0);
        }
        if wild.len() > 0 {
            Some(ReExportStep::Wildcards(wild))
        } else {
            None
        }
    }

    /// The `export *` specifiers of `barrel_file`, empty when it has none.
    pub fn wildcard_sources_for(&self, barrel_file: &str) -> (res: &[String])
        ensures
            strs_view(res@) == match assoc_get(self@.wildcard_sources, barrel_file@) {
                Some(v) => v,
                None => Seq::empty(),
            },
    {
        let ghost ws = self@.wildcard_sources;
        let idx = first_key_pos(&self.wildcard_sources, barrel_file);
        proof {
            assert forall|j: int| 0 <= j < idx implies ws[j].0 != barrel_file@ by {
                assert(ws[j].0 == self.wildcard_sources@[j].0@);
            }
            lemma_first_key_index_is(ws, barrel_file@, idx as int);
        }
        if idx < self.wildcard_sources.len() {
            return self.wildcard_sources[idx].1.as_slice();
        }
        &[]
    }
}

// ─── Laws ────────────────────────────────────────────────────────────────────

proof fn lemma_last_import_some(flat: Seq<(Seq<char>, Seq<char>, SpecImportRef)>, file: Seq<char>, name: Seq<char>)
    ensures
        last_import(flat, file, name) is Some
            <==> exists|k: int| 0 <= k < flat.len() && (#[trigger] flat[k]).0 == file && flat[k].1 == name,
    decreases flat.len(),
{
    if flat.len() > 0 {
        lemma_last_import_some(flat.drop_last(), file, name);
        if exists|k: int| 0 <= k < flat.len() && (#[trigger] flat[k]).0 == file && flat[k].1 == name {
            let k = choose|k: int| 0 <= k < flat.len() && (#[trigger] flat[k]).0 == file && flat[k].1 == name;
            if k < flat.len() - 1 {
                assert(flat.drop_last()[k] == flat[k]);
            }
        }
        if exists|k: int| 0 <= k < flat.len() - 1 && (#[trigger] flat.drop_last()[k]).0 == file
            && flat.drop_last()[k].1 == name {
            let k = choose|k: int| 0 <= k < flat.len() - 1 && (#[trigger] flat.drop_last()[k]).0 == file
                && flat.drop_last()[k].1 == name;
            assert(flat[k] == flat.drop_last()[k]);
        }
    }
}

/// Whether some import binding of `file` in `import_map` binds the local `name`.
pub open spec fn imports_name(
    import_map: Seq<(Seq<char>, Seq<SpecImportBinding>)>,
    file: Seq<char>,
    name: Seq<char>,
) -> bool {
    exists|i: int, j: int| 0 <= i < import_map.len() && 0 <= j < import_map[i].1.len()
        && (#[trigger] import_map[i]).0 == file && (#[trigger] import_map[i].1[j]).local_name == name
}

proof fn lemma_flat_imports_names(import_map: Seq<(Seq<char>, Seq<SpecImportBinding>)>, file: Seq<char>, name: Seq<char>)
    ensures
        (exists|k: int| 0 <= k < flat_imports(import_map).len()
            && (#[trigger] flat_imports(import_map)[k]).0 == file && flat_imports(import_map)[k].1 == name)
            <==> imports_name(import_map, file, name),
    decreases import_map.len(),
{
    if import_map.len() > 0 {
        let init = import_map.drop_last();
        let e = import_map.last();
        lemma_flat_imports_names(init, file, name);
        let fi = flat_imports(init);
        let tail = e.1.map_values(|b: SpecImportBinding| (e.0, b.local_name, import_ref_of(b)));
        let fl = flat_imports(import_map);
        assert(fl == fi + tail);
        if exists|k: int| 0 <= k < fl.len() && (#[trigger] fl[k]).0 == file && fl[k].1 == name {
            let k = choose|k: int| 0 <= k < fl.len() && (#[trigger] fl[k]).0 == file && fl[k].1 == name;
            if k < fi.len() {
                assert(fi[k] == fl[k]);
                let (i, j) = choose|i: int, j: int| 0 <= i < init.len() && 0 <= j < init[i].1.len()
                    && (#[trigger] init[i]).0 == file && (#[trigger] init[i].1[j]).local_name == name;
                assert(import_map[i] == init[i]);
            } else {
                let j = k - fi.len();
                assert(tail[j] == fl[k]);
                assert(import_map[import_map.len() - 1] == e);
                assert(import_map[import_map.len() - 1].1[j].local_name == name);
            }
        }
        if imports_name(import_map, file, name) {
            let (i, j) = choose|i: int, j: int| 0 <= i < import_map.len() && 0 <= j < import_map[i].1.len()
                && (#[trigger] import_map[i]).0 == file && (#[trigger] import_map[i].1[j]).local_name == name;
            if i < import_map.len() - 1 {
                assert(init[i] == import_map[i]);
                assert(imports_name(init, file, name));
                let k = choose|k: int| 0 <= k < fi.len() && (#[trigger] fi[k]).0 == file && fi[k].1 == name;
                assert(fl[k] == fi[k]);
            } else {
                assert(fl[fi.len() + j] == tail[j]);
            }
        }
    }
}

/// A name used in a file is found as imported exactly when some import of
/// that file binds it: `find_import` answers `None` for a name the file
/// declares itself (or never mentions), and a reference for every imported
/// one.
pub proof fn law_find_import_exactly_the_imported_names(
    import_map: Seq<(Seq<char>, Seq<SpecImportBinding>)>,
    re_export_map: Seq<(Seq<char>, Seq<SpecLexedExport>)>,
    file: Seq<char>,
    name: Seq<char>,
)
    ensures
        last_import(spec_import_map_of(import_map, re_export_map).bindings, file, name) is Some
            <==> imports_name(import_map, file, name),
{
    lemma_last_import_some(flat_imports(import_map), file, name);
    lemma_flat_imports_names(import_map, file, name);
}

proof fn lemma_first_named_reexport_found(exports: Seq<SpecLexedExport>, name: Seq<char>, j: int)
    requires
        0 <= j < exports.len(),
        exports[j] matches SpecLexedExport::ReExportNamed { local_name, .. } && local_name == name,
    ensures
        first_named_reexport(exports, name) is Some,
    decreases j,
{
    if j > 0 {
        match exports[0] {
            SpecLexedExport::ReExportNamed { local_name, .. } => {
                if local_name != name {
                    assert(exports.drop_first()[j - 1] == exports[j]);
                    lemma_first_named_reexport_found(exports.drop_first(), name, j - 1);
                }
            },
            _ => {
                assert(exports.drop_first()[j - 1] == exports[j]);
                lemma_first_named_reexport_found(exports.drop_first(), name, j - 1);
            },
        }
    }
}

/// A named re-export takes priority over `export *`: when a barrel re-exports
/// a name by name, the step for that name is the named re-export, whatever
/// wildcards the barrel also has.
pub proof fn law_named_reexport_wins(
    re_export_map: Seq<(Seq<char>, Seq<SpecLexedExport>)>,
    barrel: Seq<char>,
    name: Seq<char>,
    j: int,
)
    requires
        assoc_get(re_export_map, barrel) is Some,
        0 <= j < assoc_get(re_export_map, barrel)->0.len(),
        assoc_get(re_export_map, barrel)->0[j] matches SpecLexedExport::ReExportNamed { local_name, .. } && local_name == name,
    ensures
        spec_reexport_step(re_export_map, barrel, name) matches Some(SpecReExportStep::Named { .. }),
{
    lemma_first_named_reexport_found(assoc_get(re_export_map, barrel)->0, name, j);
}

/// Whether `e` re-exports `name` by name.
pub open spec fn names_reexport(e: SpecLexedExport, name: Seq<char>) -> bool {
    e is ReExportNamed && e->ReExportNamed_local_name == name
}

proof fn lemma_first_named_reexport(exports: Seq<SpecLexedExport>, name: Seq<char>, k: int)
    requires
        0 <= k < exports.len(),
        names_reexport(exports[k], name),
    ensures
        exists|j: int| 0 <= j <= k && names_reexport(#[trigger] exports[j], name)
            && (forall|i: int| 0 <= i < j ==> !names_reexport(#[trigger] exports[i], name))
            && first_named_reexport(exports, name) == Some((
                exports[j]->ReExportNamed_source_specifier,
                exports[j]->ReExportNamed_source_name,
            )),
    decreases exports.len(),
{
    if names_reexport(exports[0], name) {
        assert(forall|i: int| 0 <= i < 0 ==> !names_reexport(#[trigger] exports[i], name));
    } else {
        let rest = exports.drop_first();
        assert(rest[k - 1] == exports[k]);
        lemma_first_named_reexport(rest, name, k - 1);
        let j = choose|j: int| 0 <= j <= k - 1 && names_reexport(#[trigger] rest[j], name)
            && (forall|i: int| 0 <= i < j ==> !names_reexport(#[trigger] rest[i], name))
            && first_named_reexport(rest, name) == Some((
                rest[j]->ReExportNamed_source_specifier,
                rest[j]->ReExportNamed_source_name,
            ));
        assert(exports[j + 1] == rest[j]);
        assert forall|i: int| 0 <= i < j + 1 implies !names_reexport(#[trigger] exports[i], name) by {
            if i > 0 {
                assert(exports[i] == rest[i - 1]);
            }
        }
    }
}

/// A named re-export of `name` by the barrel wins over its wildcard
/// re-exports wherever they stand: when some entry re-exports `name` by
/// name, the step is the first such entry's specifier and source name.
pub proof fn law_named_reexport_beats_wildcards(
    re_export_map: Seq<(Seq<char>, Seq<SpecLexedExport>)>,
    barrel: Seq<char>,
    name: Seq<char>,
    k: int,
)
    requires
        assoc_get(re_export_map, barrel) is Some,
        0 <= k < assoc_get(re_export_map, barrel)->0.len(),
        names_reexport(assoc_get(re_export_map, barrel)->0[k], name),
    ensures
        ({
            let exports = assoc_get(re_export_map, barrel)->0;
            exists|j: int| 0 <= j <= k && names_reexport(#[trigger] exports[j], name)
                && (forall|i: int| 0 <= i < j ==> !names_reexport(#[trigger] exports[i], name))
                && spec_reexport_step(re_export_map, barrel, name) == Some(SpecReExportStep::Named {
                    source_specifier: exports[j]->ReExportNamed_source_specifier,
                    source_name: exports[j]->ReExportNamed_source_name,
                })
        }),
{
    lemma_first_named_reexport(assoc_get(re_export_map, barrel)->0, name, k);
}

} // verus!
