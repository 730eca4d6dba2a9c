//! The decisions of the extraction pipeline: which components to skip,
//! which files a change affects, the keys of the extracted components, the
//! exported enums, and how one file's data enters the merged source data.
//! Discovery, parsing, caching and parallelism live outside the library.

use vstd::prelude::*;
use crate::import_map::{assoc_get, first_key_index, first_key_pos, lemma_first_key_index_bounds, lemma_first_key_index_is};
use crate::resolver::context::{join_path, parent_dir, spec_join_path, spec_parent_dir};
use crate::react_types::contains_str;
use crate::text::{seq_contains_seq, seq_starts_with, str_contains, str_eq, str_starts_with};
use crate::types::{strs_view, GlobalSourceData, ImportBinding, SpecGlobal, SpecImportBinding};

verus! {

// ─── Component filtering ─────────────────────────────────────────────────────

/// Whether `name` starts with one of `exclude_prefixes`.
pub open spec fn spec_should_skip(name: Seq<char>, exclude_prefixes: Seq<Seq<char>>) -> bool {
    exists|i: int| 0 <= i < exclude_prefixes.len() && seq_starts_with(name, #[trigger] exclude_prefixes[i])
}

/// Whether a component named `name` is excluded by one of the prefixes.
pub fn should_skip(name: &str, exclude_prefixes: &[String]) -> (res: bool)
    ensures
        res == spec_should_skip(name@, exclude_prefixes@.map_values(|p: String| p@)),
{
    let ghost pv = exclude_prefixes@.map_values(|p: String| p@);
    let mut i: usize = 0;
    while i < exclude_prefixes.len()
        invariant
            i <= exclude_prefixes.len(),
            pv == exclude_prefixes@.map_values(|p: String| p@),
            forall|j: int| 0 <= j < i ==> !seq_starts_with(name@, #[trigger] pv[j]),
        decreases exclude_prefixes.len() - i,
    {
        if str_starts_with(name, exclude_prefixes[i].as_str()) {
            proof { assert(seq_starts_with(name@, pv[i as int])); }
            return true;
        }
        i = i + 1;
    }
    false
}

// ─── Source files ────────────────────────────────────────────────────────────

/// Path fragments that mark a file as not part of the documented source:
/// stories, tests, specs, snapshots, and installed packages unless the
/// directory being walked is itself inside `node_modules`.
pub open spec fn builtin_excluded(path: Seq<char>, walking_node_modules: bool) -> bool {
    seq_contains_seq(path, ".stories."@) || seq_contains_seq(path, ".test."@) || seq_contains_seq(path, ".spec."@)
        || seq_contains_seq(path, "__snapshots__"@) || (!walking_node_modules && seq_contains_seq(
        path,
        "node_modules"@,
    ))
}

/// Whether a walked file is read: a `.ts` or `.tsx` file (by `extension`)
/// whose path holds no built-in excluded fragment and none of `extra_excludes`.
pub open spec fn spec_is_source_file(
    path: Seq<char>,
    extension: Seq<char>,
    walking_node_modules: bool,
    extra_excludes: Seq<Seq<char>>,
) -> bool {
    &&& (extension == "ts"@ || extension == "tsx"@)
    &&& !builtin_excluded(path, walking_node_modules)
    &&& forall|i: int| 0 <= i < extra_excludes.len() ==> !seq_contains_seq(path, #[trigger] extra_excludes[i])
}

/// Whether the directory being walked is inside `node_modules`, in which
/// case installed packages are what the user asked for.
pub fn walks_node_modules(dir: &str) -> (res: bool)
    ensures
        res == seq_contains_seq(dir@, "node_modules"@),
{
    str_contains(dir, "node_modules")
}

/// Whether a walked file with the given path and extension is read.
pub fn is_source_file(path: &str, extension: &str, walking_node_modules: bool, extra_excludes: &[String]) -> (res: bool)
    ensures
        res == spec_is_source_file(path@, extension@, walking_node_modules, extra_excludes@.map_values(|p: String| p@)),
{
    if !(str_eq(extension, "ts") || str_eq(extension, "tsx")) {
        return false;
    }
    if str_contains(path, ".stories.") || str_contains(path, ".test.") || str_contains(path, ".spec.") || str_contains(
        path,
        "__snapshots__",
    ) || (!walking_node_modules && str_contains(path, "node_modules")) {
        return false;
    }
    let ghost pv = extra_excludes@.map_values(|p: String| p@);
    let mut i: usize = 0;
    while i < extra_excludes.len()
        invariant
            i <= extra_excludes.len(),
            pv == extra_excludes@.map_values(|p: String| p@),
            forall|j: int| 0 <= j < i ==> !seq_contains_seq(path@, #[trigger] pv[j]),
        decreases extra_excludes.len() - i,
    {
        if str_contains(path, extra_excludes[i].as_str()) {
            proof { assert(seq_contains_seq(path@, pv[i as int])); }
            return false;
        }
        i = i + 1;
    }
    true
}

// ─── Reverse dependencies ────────────────────────────────────────────────────

/// The file names a relative import may stand for, without I/O.
pub open spec fn import_extensions() -> Seq<Seq<char>> {
    seq![".ts"@, ".tsx"@, "/index.ts"@, "/index.tsx"@]
}

/// The (imported file, importing file) pairs of one import binding: only
/// relative imports, each with every candidate extension.
pub open spec fn binding_pairs(consumer: Seq<char>, b: SpecImportBinding) -> Seq<(Seq<char>, Seq<char>)> {
    if seq_starts_with(b.specifier, "."@) {
        match spec_parent_dir(consumer) {
            Some(p) => import_extensions().map_values(|e: Seq<char>| (spec_join_path(p, b.specifier) + e, consumer)),
            None => Seq::empty(),
        }
    } else {
        Seq::empty()
    }
}

pub open spec fn bindings_pairs(consumer: Seq<char>, bs: Seq<SpecImportBinding>) -> Seq<(Seq<char>, Seq<char>)>
    decreases bs.len(),
{
    if bs.len() == 0 {
        Seq::empty()
    } else {
        bindings_pairs(consumer, bs.drop_last()) + binding_pairs(consumer, bs.last())
    }
}

/// Every (imported file, importing file) pair of the import map, in order.
pub open spec fn reverse_pairs(import_map: Seq<(Seq<char>, Seq<SpecImportBinding>)>) -> Seq<(Seq<char>, Seq<char>)>
    decreases import_map.len(),
{
    if import_map.len() == 0 {
        Seq::empty()
    } else {
        reverse_pairs(import_map.drop_last()) + bindings_pairs(import_map.last().0, import_map.last().1)
    }
}

/// `v` appended to the group keyed `k` (a new group at the end if none).
pub open spec fn group_push(groups: Seq<(Seq<char>, Seq<Seq<char>>)>, k: Seq<char>, v: Seq<char>) -> Seq<(Seq<char>, Seq<Seq<char>>)> {
    let i = first_key_index(groups, k);
    if i < groups.len() {
        groups.update(i, (k, groups[i].1.push(v)))
    } else {
        groups.push((k, seq![v]))
    }
}

/// Each pair appended to its group, in order.
pub open spec fn group_all(groups: Seq<(Seq<char>, Seq<Seq<char>>)>, pairs: Seq<(Seq<char>, Seq<char>)>) -> Seq<(Seq<char>, Seq<Seq<char>>)>
    decreases pairs.len(),
{
    if pairs.len() == 0 {
        groups
    } else {
        let prev = group_all(groups, pairs.drop_last());
        group_push(prev, pairs.last().0, pairs.last().1)
    }
}

/// The files that import `f` directly.
pub open spec fn dependents(groups: Seq<(Seq<char>, Seq<Seq<char>>)>, f: Seq<char>) -> Seq<Seq<char>> {
    match assoc_get(groups, f) {
        Some(list) => list,
        None => Seq::empty(),
    }
}

/// A chain of files, each imported by the next.
pub open spec fn is_dep_path(groups: Seq<(Seq<char>, Seq<Seq<char>>)>, p: Seq<Seq<char>>) -> bool {
    p.len() >= 1 && forall|i: int| 0 <= i < p.len() - 1 ==> #[trigger] dependents(groups, p[i]).contains(p[i + 1])
}

/// Whether `x` depends, directly or transitively, on `a` (or is `a`).
pub open spec fn depends_on(groups: Seq<(Seq<char>, Seq<Seq<char>>)>, a: Seq<char>, x: Seq<char>) -> bool {
    exists|p: Seq<Seq<char>>| #[trigger] is_dep_path(groups, p) && p[0] == a && p.last() == x
}

/// Reverse dependency graph: each file with the files that import it.
pub struct ReverseDeps {
    pub inner: Vec<(String, Vec<String>)>,
}

impl View for ReverseDeps {
    type V = Seq<(Seq<char>, Seq<Seq<char>>)>;

    open spec fn view(&self) -> Seq<(Seq<char>, Seq<Seq<char>>)> {
        self.inner@.map_values(|g: (String, Vec<String>)| (g.0@, strs_view(g.1@)))
    }
}

/// Appends `v` to the group keyed `k`.
fn push_to_group(groups: &mut Vec<(String, Vec<String>)>, k: String, v: String)
    ensures
        final(groups)@.map_values(|g: (String, Vec<String>)| (g.0@, strs_view(g.1@)))
            == group_push(old(groups)@.map_values(|g: (String, Vec<String>)| (g.0@, strs_view(g.1@))), k@, v@),
{
    let ghost gv = groups@.map_values(|g: (String, Vec<String>)| (g.0@, strs_view(g.1@)));
    let i = first_key_pos(groups, k.as_str());
    proof {
        assert forall|j: int| 0 <= j < i implies gv[j].0 != k@ by {
            assert(gv[j].0 == groups@[j].0@);
        }
        lemma_first_key_index_is(gv, k@, i as int);
    }
    let ghost kv = k@;
    let ghost vv = v@;
    if i < groups.len() {
        let mut list = groups[i].1.clone();
        let ghost old_list = strs_view(list@);
        proof { assert(old_list == gv[i as int].1); }
        list.push(v);
        proof { assert(strs_view(list@) =~= old_list.push(vv)); }
        groups.set(i, (k, list));
        proof {
            assert(groups@.map_values(|g: (String, Vec<String>)| (g.0@, strs_view(g.1@)))
                =~= gv.update(i as int, (kv, gv[i as int].1.push(vv))));
        }
    } else {
        let list = vec![v];
        proof { assert(strs_view(list@) =~= seq![vv]); }
        groups.push((k, list));
        proof {
            assert(groups@.map_values(|g: (String, Vec<String>)| (g.0@, strs_view(g.1@))) =~= gv.push((kv, seq![vv])));
        }
    }
}

impl ReverseDeps {
    /// Builds the graph from merged source data: every relative import of a
    /// file, under each file name it may stand for (`.ts`, `.tsx`,
    /// `/index.ts`, `/index.tsx`), points back to the importing file.
    pub fn build(global: &GlobalSourceData) -> (res: Self)
        ensures
            res@ == group_all(Seq::empty(), reverse_pairs(global@.import_map)),
    {
        let ghost im = global@.import_map;
        let mut inner: Vec<(String, Vec<String>)> = Vec::new();
        let mut i: usize = 0;
        proof {
            assert(im.take(0) =~= Seq::<(Seq<char>, Seq<SpecImportBinding>)>::empty());
            assert(inner@.map_values(|g: (String, Vec<String>)| (g.0@, strs_view(g.1@)))
                =~= Seq::<(Seq<char>, Seq<Seq<char>>)>::empty());
        }
        while i < global.import_map.len()
            invariant
                i <= global.import_map.len(),
                im == global@.import_map,
                inner@.map_values(|g: (String, Vec<String>)| (g.0@, strs_view(g.1@)))
                    == group_all(Seq::empty(), reverse_pairs(im.take(i as int))),
            decreases global.import_map.len() - i,
        {
            let consumer = &global.import_map[i].0;
            let list = &global.import_map[i].1;
            let ghost e = im[i as int];
            let ghost before = reverse_pairs(im.take(i as int));
            proof {
                assert(im.take(i + 1).drop_last() =~= im.take(i as int));
                assert(e.0 == consumer@);
                assert(e.1 == list@.map_values(|b: ImportBinding| b@));
                assert(e.1.take(0) =~= Seq::<SpecImportBinding>::empty());
                assert(before + bindings_pairs(e.0, e.1.take(0)) =~= before);
            }
            let mut j: usize = 0;
            while j < list.len()
                invariant
                    j <= list.len(),
                    e.0 == consumer@,
                    e.1 == list@.map_values(|b: ImportBinding| b@),
                    inner@.map_values(|g: (String, Vec<String>)| (g.0@, strs_view(g.1@)))
                        == group_all(Seq::empty(), before + bindings_pairs(e.0, e.1.take(j as int))),
                decreases list.len() - j,
            {
                let ghost cur = before + bindings_pairs(e.0, e.1.take(j as int));
                let b = &list[j];
                proof {
                    assert(e.1.take(j + 1).drop_last() =~= e.1.take(j as int));
                    assert(e.1.take(j + 1).last() == b@);
                    assert(cur + binding_pairs(e.0, b@) =~= before + bindings_pairs(e.0, e.1.take(j + 1)));
                }
                let mut added = false;
                if str_starts_with(b.specifier.as_str(), ".") {
                    match parent_dir(consumer.as_str()) {
                        Some(parent) => {
                            let target = join_path(parent.as_str(), b.specifier.as_str());
                            let exts = [".ts", ".tsx", "/index.ts", "/index.tsx"];
                            let ghost pairs = binding_pairs(e.0, b@);
                            let mut k: usize = 0;
                            proof {
                                assert(pairs.take(0) =~= Seq::<(Seq<char>, Seq<char>)>::empty());
                                assert(cur + pairs.take(0) =~= cur);
                            }
                            while k < 4
                                invariant
                                    k <= 4,
                                    exts@.len() == 4,
                                    exts@.map_values(|s: &str| s@) == import_extensions(),
                                    target@ == spec_join_path(parent@, b.specifier@),
                                    spec_parent_dir(consumer@) == Some(parent@),
                                    seq_starts_with(b.specifier@, "."@),
                                    pairs == binding_pairs(e.0, b@),
                                    e.0 == consumer@,
                                    pairs.len() == 4,
                                    inner@.map_values(|g: (String, Vec<String>)| (g.0@, strs_view(g.1@)))
                                        == group_all(Seq::empty(), cur + pairs.take(k as int)),
                                decreases 4 - k,
                            {
                                let mut candidate = target.clone();
                                candidate.append(exts[k]);
                                proof {
                                    assert(exts@[k as int]@ == import_extensions()[k as int]);
                                    assert(pairs[k as int] == (candidate@, consumer@));
                                    assert((cur + pairs.take(k + 1)).drop_last() =~= cur + pairs.take(k as int));
                                    assert((cur + pairs.take(k + 1)).last() == pairs[k as int]);
                                }
                                push_to_group(&mut inner, candidate, consumer.clone());
                                k = k + 1;
                            }
                            proof { assert(pairs.take(4) =~= pairs); }
                            added = true;
                        },
                        None => {},
                    }
                }
                if !added {
                    proof { assert(cur + binding_pairs(e.0, b@) =~= cur); }
                }
                j = j + 1;
            }
            proof {
                assert(e.1.take(list.len() as int) =~= e.1);
            }
            i = i + 1;
        }
        proof { assert(im.take(global.import_map.len() as int) =~= im); }
        ReverseDeps { inner }
    }
}

/// Every importing file of every group, in order.
pub open spec fn flat_dependents(groups: Seq<(Seq<char>, Seq<Seq<char>>)>) -> Seq<Seq<char>>
    decreases groups.len(),
{
    if groups.len() == 0 {
        Seq::empty()
    } else {
        flat_dependents(groups.drop_last()) + groups.last().1
    }
}

/// The files a breadth-first walk from `changed` can meet.
pub open spec fn walk_universe(groups: Seq<(Seq<char>, Seq<Seq<char>>)>, changed: Seq<char>) -> Set<Seq<char>> {
    flat_dependents(groups).push(changed).to_set()
}

proof fn lemma_dependents_in_flat(groups: Seq<(Seq<char>, Seq<Seq<char>>)>, i: int, j: int)
    requires
        0 <= i < groups.len(),
        0 <= j < groups[i].1.len(),
    ensures
        flat_dependents(groups).contains(groups[i].1[j]),
    decreases groups.len(),
{
    let rest = flat_dependents(groups.drop_last());
    if i == groups.len() - 1 {
        assert((rest + groups.last().1)[rest.len() + j] == groups[i].1[j]);
    } else {
        lemma_dependents_in_flat(groups.drop_last(), i, j);
        let k = choose|k: int| 0 <= k < rest.len() && rest[k] == groups[i].1[j];
        assert((rest + groups.last().1)[k] == groups[i].1[j]);
    }
}

/// Every direct dependent of any file is in the walk's universe.
proof fn lemma_dependents_in_universe(groups: Seq<(Seq<char>, Seq<Seq<char>>)>, changed: Seq<char>, f: Seq<char>, t: Seq<char>)
    requires
        dependents(groups, f).contains(t),
    ensures
        walk_universe(groups, changed).contains(t),
{
    lemma_first_key_index_bounds(groups, f);
    let i = first_key_index(groups, f);
    let j = choose|j: int| 0 <= j < groups[i].1.len() && groups[i].1[j] == t;
    lemma_dependents_in_flat(groups, i, j);
    let fl = flat_dependents(groups);
    let k = choose|k: int| 0 <= k < fl.len() && fl[k] == t;
    assert(fl.push(changed)[k] == t);
}

/// One more importing step keeps a file dependent on `a`.
proof fn lemma_depends_step(groups: Seq<(Seq<char>, Seq<Seq<char>>)>, a: Seq<char>, x: Seq<char>, t: Seq<char>)
    requires
        depends_on(groups, a, x),
        dependents(groups, x).contains(t),
    ensures
        depends_on(groups, a, t),
{
    let p = choose|p: Seq<Seq<char>>| #[trigger] is_dep_path(groups, p) && p[0] == a && p.last() == x;
    let q = p.push(t);
    assert forall|i: int| 0 <= i < q.len() - 1 implies #[trigger] dependents(groups, q[i]).contains(q[i + 1]) by {
        if i < p.len() - 1 {
            assert(q[i] == p[i] && q[i + 1] == p[i + 1]);
            assert(dependents(groups, p[i]).contains(p[i + 1]));
        } else {
            assert(q[i] == x && q[i + 1] == t);
        }
    }
    assert(is_dep_path(groups, q));
}

/// A set that holds `a` and every direct dependent of its members holds
/// the end of every dependency chain from `a`.
proof fn lemma_closed_holds_chain(groups: Seq<(Seq<char>, Seq<Seq<char>>)>, vis: Set<Seq<char>>, a: Seq<char>, p: Seq<Seq<char>>)
    requires
        vis.contains(a),
        forall|v: Seq<char>, t: Seq<char>| vis.contains(v) && #[trigger] dependents(groups, v).contains(t) ==> vis.contains(t),
        is_dep_path(groups, p),
        p[0] == a,
    ensures
        vis.contains(p.last()),
    decreases p.len(),
{
    if p.len() > 1 {
        let q = p.drop_last();
        assert forall|i: int| 0 <= i < q.len() - 1 implies #[trigger] dependents(groups, q[i]).contains(q[i + 1]) by {
            assert(q[i] == p[i] && q[i + 1] == p[i + 1]);
            assert(dependents(groups, p[i]).contains(p[i + 1]));
        }
        assert(is_dep_path(groups, q));
        lemma_closed_holds_chain(groups, vis, a, q);
        let i = p.len() - 2;
        assert(dependents(groups, p[i]).contains(p[i + 1]));
        assert(p[i] == q.last());
    }
}

/// Whether `t` waits in the queue at or after `head`.
pub open spec fn pending(queue: Seq<Seq<char>>, head: int, t: Seq<char>) -> bool {
    exists|k: int| head <= k < queue.len() && #[trigger] queue[k] == t
}

impl ReverseDeps {
    /// Every file affected by a change to `changed`: `changed` itself and
    /// every file that imports it, directly or transitively, each once, in
    /// breadth-first order.
    pub fn affected(&self, changed: &str) -> (res: Vec<String>)
        ensures
            strs_view(res@).no_duplicates(),
            forall|x: Seq<char>| strs_view(res@).contains(x) <==> depends_on(self@, changed@, x),
    {
        let ghost g = self@;
        let ghost u = walk_universe(g, changed@);
        let mut visited: Vec<String> = Vec::new();
        let mut queue: Vec<String> = vec![changed.to_owned()];
        let mut head: usize = 0;
        proof {
            vstd::seq_lib::seq_to_set_is_finite(flat_dependents(g).push(changed@));
            assert(flat_dependents(g).push(changed@)[flat_dependents(g).len() as int] == changed@);
            assert(u.contains(changed@));
            assert(strs_view(visited@) =~= Seq::<Seq<char>>::empty());
            assert(strs_view(queue@) =~= seq![changed@]);
            let p0 = seq![changed@];
            assert(is_dep_path(g, p0));
        }
        while head < queue.len()
            invariant
                g == self@,
                u == walk_universe(g, changed@),
                u.finite(),
                head <= queue.len(),
                queue.len() >= 1,
                strs_view(visited@).no_duplicates(),
                strs_view(visited@).to_set().subset_of(u),
                visited@.len() <= u.len(),
                forall|k: int| 0 <= k < queue.len() ==> u.contains(#[trigger] strs_view(queue@)[k]),
                forall|x: Seq<char>| strs_view(visited@).contains(x) ==> depends_on(g, changed@, x),
                forall|k: int| head <= k < queue.len() ==> depends_on(g, changed@, #[trigger] strs_view(queue@)[k]),
                forall|v: Seq<char>, t: Seq<char>| strs_view(visited@).contains(v) && #[trigger] dependents(g, v).contains(t)
                    ==> strs_view(visited@).contains(t) || pending(strs_view(queue@), head as int, t),
                strs_view(visited@).contains(changed@) || (head == 0 && strs_view(queue@)[0] == changed@),
            decreases u.len() - visited@.len(), queue.len() - head,
        {
            let ghost qv0 = strs_view(queue@);
            let ghost vv0 = strs_view(visited@);
            let x = queue[head].clone();
            proof { assert(x@ == qv0[head as int]); }
            head = head + 1;
            if contains_str(&visited, x.as_str()) {
                proof {
                    assert forall|v: Seq<char>, t: Seq<char>| vv0.contains(v) && #[trigger] dependents(g, v).contains(t)
                        implies vv0.contains(t) || pending(qv0, head as int, t) by {
                        if !vv0.contains(t) {
                            let k = choose|k: int| head - 1 <= k < qv0.len() && #[trigger] qv0[k] == t;
                            if k == head - 1 {
                                assert(t == x@);
                            } else {
                                assert(pending(qv0, head as int, t));
                            }
                        }
                    }
                }
            } else {
                let ghost xv = x@;
                proof {
                    assert(depends_on(g, changed@, xv));
                    assert(u.contains(xv));
                }
                visited.push(x.clone());
                let ghost vv1 = strs_view(visited@);
                proof {
                    assert(vv1 =~= vv0.push(xv));
                    assert forall|a: int, b: int| 0 <= a < b < vv1.len() implies vv1[a] != vv1[b] by {
                        if b == vv1.len() - 1 {
                            assert(vv0.contains(vv0[a]));
                        }
                    }
                    assert(vv1.to_set().subset_of(u)) by {
                        assert forall|y: Seq<char>| vv1.to_set().contains(y) implies u.contains(y) by {
                            if y != xv {
                                assert(vv0.contains(y));
                                assert(vv0.to_set().contains(y));
                            }
                        }
                    }
                    vv1.unique_seq_to_set();
                    vstd::set_lib::lemma_len_subset(vv1.to_set(), u);
                }
                let pos = first_key_pos(&self.inner, x.as_str());
                proof {
                    assert forall|j: int| 0 <= j < pos implies g[j].0 != xv by {
                        assert(g[j].0 == self.inner@[j].0@);
                    }
                    lemma_first_key_index_is(g, xv, pos as int);
                }
                let ghost deps = dependents(g, xv);
                let ghost q_start = queue@.len();
                if pos < self.inner.len() {
                    let list = &self.inner[pos].1;
                    proof { assert(deps == strs_view(list@)); }
                    let mut m: usize = 0;
                    while m < list.len()
                        invariant
                            m <= list.len(),
                            deps == strs_view(list@),
                            g == self@,
                            u == walk_universe(g, changed@),
                            depends_on(g, changed@, xv),
                            deps == dependents(g, xv),
                            head <= q_start <= queue@.len(),
                            queue@.len() == q_start + m,
                            strs_view(queue@).take(q_start as int) == qv0,
                            forall|k: int| 0 <= k < queue.len() ==> u.contains(#[trigger] strs_view(queue@)[k]),
                            forall|k: int| head <= k < queue.len() ==> depends_on(g, changed@, #[trigger] strs_view(queue@)[k]),
                            forall|j: int| 0 <= j < m ==> pending(strs_view(queue@), head as int, #[trigger] deps[j]),
                        decreases list.len() - m,
                    {
                        let ghost before_q = strs_view(queue@);
                        let d = list[m].clone();
                        proof {
                            assert(d@ == deps[m as int]);
                            assert(deps.contains(d@));
                            lemma_dependents_in_universe(g, changed@, xv, d@);
                            lemma_depends_step(g, changed@, xv, d@);
                        }
                        queue.push(d);
                        proof {
                            let qv = strs_view(queue@);
                            assert(qv =~= before_q.push(deps[m as int]));
                            assert(qv.take(q_start as int) =~= before_q.take(q_start as int));
                            assert forall|j: int| 0 <= j < m + 1 implies pending(qv, head as int, #[trigger] deps[j]) by {
                                if j < m {
                                    let k = choose|k: int| head <= k < before_q.len() && #[trigger] before_q[k] == deps[j];
                                    assert(qv[k] == deps[j]);
                                } else {
                                    assert(qv[before_q.len() as int] == deps[j]);
                                }
                            }
                        }
                        m = m + 1;
                    }
                }
                proof {
                    let qv = strs_view(queue@);
                    assert forall|j: int| 0 <= j < deps.len() implies pending(qv, head as int, #[trigger] deps[j]) by {
                        if pos >= self.inner.len() {
                            assert(deps.len() == 0);
                        }
                    }
                    assert forall|k: int| 0 <= k < qv0.len() implies qv[k] == qv0[k] by {
                        assert(qv.take(q_start as int)[k] == qv[k]);
                    }
                    assert forall|v: Seq<char>, t: Seq<char>| vv1.contains(v) && #[trigger] dependents(g, v).contains(t)
                        implies vv1.contains(t) || pending(qv, head as int, t) by {
                        if v == xv {
                            let j = choose|j: int| 0 <= j < deps.len() && deps[j] == t;
                            assert(pending(qv, head as int, deps[j]));
                        } else {
                            assert(vv0.contains(v));
                            if !vv0.contains(t) {
                                let k = choose|k: int| head - 1 <= k < qv0.len() && #[trigger] qv0[k] == t;
                                if k == head - 1 {
                                    assert(t == xv);
                                    assert(vv1[vv1.len() - 1] == xv);
                                } else {
                                    assert(qv[k] == t);
                                }
                            } else {
                                let i = choose|i: int| 0 <= i < vv0.len() && vv0[i] == t;
                                assert(vv1[i] == t);
                            }
                        }
                    }
                    assert forall|y: Seq<char>| vv1.contains(y) implies depends_on(g, changed@, y) by {
                        if y != xv {
                            let i = choose|i: int| 0 <= i < vv1.len() && vv1[i] == y;
                            assert(vv0[i] == y);
                        }
                    }
                    if vv0.contains(changed@) {
                        let i = choose|i: int| 0 <= i < vv0.len() && vv0[i] == changed@;
                        assert(vv1[i] == changed@);
                    } else {
                        assert(vv1[vv1.len() - 1] == changed@);
                    }
                }
            }
        }
        proof {
            let vv = strs_view(visited@);
            assert forall|v: Seq<char>, t: Seq<char>| vv.to_set().contains(v) && #[trigger] dependents(g, v).contains(t)
                implies vv.to_set().contains(t) by {
                assert(vv.contains(v));
                assert(!pending(strs_view(queue@), head as int, t));
            }
            assert(vv.contains(changed@));
            assert forall|x: Seq<char>| depends_on(g, changed@, x) implies vv.contains(x) by {
                let p = choose|p: Seq<Seq<char>>| #[trigger] is_dep_path(g, p) && p[0] == changed@ && p.last() == x;
                lemma_closed_holds_chain(g, vv.to_set(), changed@, p);
            }
        }
        visited
    }
}

// ─── Merging one file into the source data ───────────────────────────────────

/// Index of the first entry whose key is `k`, or the length.
pub open spec fn raw_key_index<V>(s: Seq<(String, V)>, k: Seq<char>) -> int
    decreases s.len(),
{
    if s.len() == 0 {
        0
    } else if s[0].0@ == k {
        0
    } else {
        1 + raw_key_index(s.drop_first(), k)
    }
}

proof fn lemma_raw_key_index_is<V>(s: Seq<(String, V)>, k: Seq<char>, i: int)
    requires
        0 <= i <= s.len(),
        i < s.len() ==> s[i].0@ == k,
        forall|j: int| 0 <= j < i ==> s[j].0@ != k,
    ensures
        raw_key_index(s, k) == i,
    decreases s.len(),
{
    if s.len() > 0 && s[0].0@ != k {
        assert forall|j: int| 0 <= j < i - 1 implies s.drop_first()[j].0@ != k by {
            assert(s.drop_first()[j] == s[j + 1]);
        }
        lemma_raw_key_index_is(s.drop_first(), k, i - 1);
    }
}

/// `(k, v)` put under key `k`: the first entry of that key is replaced,
/// else the pair is appended.
pub open spec fn put_entry<V>(s: Seq<(String, V)>, k: String, v: V) -> Seq<(String, V)> {
    let i = raw_key_index(s, k@);
    if i < s.len() { s.update(i, (k, v)) } else { s.push((k, v)) }
}

/// Each of `es` put in order.
pub open spec fn put_all<V>(s: Seq<(String, V)>, es: Seq<(String, V)>) -> Seq<(String, V)>
    decreases es.len(),
{
    if es.len() == 0 {
        s
    } else {
        let prev = put_all(s, es.drop_last());
        put_entry(prev, es.last().0, es.last().1)
    }
}

fn put<V>(list: &mut Vec<(String, V)>, k: String, v: V)
    ensures
        final(list)@ == put_entry(old(list)@, k, v),
{
    let i = first_key_pos(list, k.as_str());
    proof { lemma_raw_key_index_is(list@, k@, i as int); }
    if i < list.len() {
        list.set(i, (k, v));
    } else {
        list.push((k, v));
    }
}

fn put_each<V>(list: &mut Vec<(String, V)>, entries: Vec<(String, V)>)
    ensures
        final(list)@ == put_all(old(list)@, entries@),
{
    let ghost start = list@;
    let ghost es = entries@;
    for e in it: entries.into_iter()
        invariant
            it.seq() == es,
            list@ == put_all(start, es.take(it.index() as int)),
    {
        proof {
            assert(es.take(it.index() + 1).drop_last() =~= es.take(it.index() as int));
            assert(es.take(it.index() + 1).last() == e);
        }
        put(list, e.0, e.1);
    }
    proof { assert(es.take(es.len() as int) =~= es); }
}

/// Whether the declaration key `k` (`"{file}:{name}"`) belongs to `file`.
pub open spec fn key_in_file(k: Seq<char>, file: Seq<char>) -> bool {
    seq_starts_with(k, file + ":"@) && !k.skip(file.len() + 1int).contains(':')
}

/// The entries whose key belongs to another file, in order.
pub open spec fn other_files<V>(s: Seq<(String, V)>, file: Seq<char>) -> Seq<(String, V)>
    decreases s.len(),
{
    if s.len() == 0 {
        Seq::empty()
    } else if key_in_file(s.last().0@, file) {
        other_files(s.drop_last(), file)
    } else {
        other_files(s.drop_last(), file).push(s.last())
    }
}

/// The entries keyed by another file than `file`, in order.
pub open spec fn not_keyed_by<V>(s: Seq<(String, V)>, file: Seq<char>) -> Seq<(String, V)>
    decreases s.len(),
{
    if s.len() == 0 {
        Seq::empty()
    } else if s.last().0@ == file {
        not_keyed_by(s.drop_last(), file)
    } else {
        not_keyed_by(s.drop_last(), file).push(s.last())
    }
}

/// The mappings of components declared in another file than `file`, in order.
pub open spec fn mappings_elsewhere(s: Seq<crate::types::ComponentMapping>, file: Seq<char>) -> Seq<crate::types::ComponentMapping>
    decreases s.len(),
{
    if s.len() == 0 {
        Seq::empty()
    } else if s.last().file_path@ == file {
        mappings_elsewhere(s.drop_last(), file)
    } else {
        mappings_elsewhere(s.drop_last(), file).push(s.last())
    }
}

/// Whether the declaration key `k` belongs to `file`.
fn key_belongs_to(k: &str, file: &str) -> (res: bool)
    ensures
        res == key_in_file(k@, file@),
{
    let mut prefix = file.to_owned();
    prefix.append(":");
    if !str_starts_with(k, prefix.as_str()) {
        return false;
    }
    let c = crate::text::chars_of(k);
    let pc = crate::text::chars_of(prefix.as_str());
    let start = pc.len();
    proof {
        reveal_strlit(":");
        assert(start == file@.len() + 1);
        assert(c@.subrange(start as int, c@.len() as int) =~= k@.skip(file@.len() + 1int));
    }
    !crate::chars::range_contains(&c, start, c.len(), ':')
}

fn drop_file_keys<V>(list: &mut Vec<(String, V)>, file: &str)
    ensures
        final(list)@ == other_files(old(list)@, file@),
{
    let mut taken: Vec<(String, V)> = Vec::new();
    std::mem::swap(&mut taken, list);
    let ghost src = taken@;
    proof { assert(list@ =~= other_files(src.take(0), file@)); }
    for e in it: taken.into_iter()
        invariant
            it.seq() == src,
            list@ == other_files(src.take(it.index() as int), file@),
    {
        proof {
            assert(src.take(it.index() + 1).drop_last() =~= src.take(it.index() as int));
            assert(src.take(it.index() + 1).last() == e);
        }
        if !key_belongs_to(e.0.as_str(), file) {
            list.push(e);
        }
    }
    proof { assert(src.take(src.len() as int) =~= src); }
}

fn drop_keyed<V>(list: &mut Vec<(String, V)>, file: &str)
    ensures
        final(list)@ == not_keyed_by(old(list)@, file@),
{
    let mut taken: Vec<(String, V)> = Vec::new();
    std::mem::swap(&mut taken, list);
    let ghost src = taken@;
    proof { assert(list@ =~= not_keyed_by(src.take(0), file@)); }
    for e in it: taken.into_iter()
        invariant
            it.seq() == src,
            list@ == not_keyed_by(src.take(it.index() as int), file@),
    {
        proof {
            assert(src.take(it.index() + 1).drop_last() =~= src.take(it.index() as int));
            assert(src.take(it.index() + 1).last() == e);
        }
        if !str_eq(e.0.as_str(), file) {
            list.push(e);
        }
    }
    proof { assert(src.take(src.len() as int) =~= src); }
}

fn drop_mappings_of(list: &mut Vec<crate::types::ComponentMapping>, file: &str)
    ensures
        final(list)@ == mappings_elsewhere(old(list)@, file@),
{
    let mut taken: Vec<crate::types::ComponentMapping> = Vec::new();
    std::mem::swap(&mut taken, list);
    let ghost src = taken@;
    proof { assert(list@ =~= mappings_elsewhere(src.take(0), file@)); }
    for m in it: taken.into_iter()
        invariant
            it.seq() == src,
            list@ == mappings_elsewhere(src.take(it.index() as int), file@),
    {
        proof {
            assert(src.take(it.index() + 1).drop_last() =~= src.take(it.index() as int));
            assert(src.take(it.index() + 1).last() == m);
        }
        if !str_eq(m.file_path.as_str(), file) {
            list.push(m);
        }
    }
    proof { assert(src.take(src.len() as int) =~= src); }
}

impl GlobalSourceData {
    /// Adds one file's collected data: its declarations under their keys (a
    /// declaration replaces an earlier one of the same key), its component
    /// mappings after the others, and its imports and exports under `path`.
    pub fn merge(&mut self, path: &str, data: crate::types::SourceData)
        ensures
            final(self).interfaces@ == put_all(old(self).interfaces@, data.interfaces@),
            final(self).type_aliases@ == put_all(old(self).type_aliases@, data.type_aliases@),
            final(self).enums@ == put_all(old(self).enums@, data.enums@),
            final(self).component_mappings@ == old(self).component_mappings@ + data.component_mappings@,
            exists|k: String| k@ == path@ && final(self).import_map@ == put_entry(old(self).import_map@, k, data.imports)
                && final(self).re_export_map@ == put_entry(old(self).re_export_map@, k, data.exports),
    {
        let crate::types::SourceData { interfaces, type_aliases, enums, component_mappings, imports, exports, .. } = data;
        put_each(&mut self.interfaces, interfaces);
        put_each(&mut self.type_aliases, type_aliases);
        put_each(&mut self.enums, enums);
        let mut mappings = component_mappings;
        self.component_mappings.append(&mut mappings);
        let key = path.to_owned();
        let ghost kg = key;
        put(&mut self.import_map, key.clone(), imports);
        put(&mut self.re_export_map, key, exports);
        proof { assert(kg@ == path@); }
    }

    /// Removes everything one file contributed: the declarations keyed
    /// `"{path}:{name}"`, the components declared in it, and its imports and
    /// exports.
    pub fn remove_file(&mut self, path: &str)
        ensures
            final(self).interfaces@ == other_files(old(self).interfaces@, path@),
            final(self).type_aliases@ == other_files(old(self).type_aliases@, path@),
            final(self).enums@ == other_files(old(self).enums@, path@),
            final(self).component_mappings@ == mappings_elsewhere(old(self).component_mappings@, path@),
            final(self).import_map@ == not_keyed_by(old(self).import_map@, path@),
            final(self).re_export_map@ == not_keyed_by(old(self).re_export_map@, path@),
    {
        drop_file_keys(&mut self.interfaces, path);
        drop_file_keys(&mut self.type_aliases, path);
        drop_file_keys(&mut self.enums, path);
        drop_keyed(&mut self.import_map, path);
        drop_keyed(&mut self.re_export_map, path);
        drop_mappings_of(&mut self.component_mappings, path);
    }
}

// ─── Key-ordered tables ──────────────────────────────────────────────────────

/// Index of the entry keyed `k` (the last one, if several), or -1.
pub open spec fn sorted_index<V>(s: Seq<(String, V)>, k: Seq<char>) -> int
    decreases s.len(),
{
    if s.len() == 0 {
        -1
    } else if s.last().0@ == k {
        s.len() - 1
    } else {
        sorted_index(s.drop_last(), k)
    }
}

/// Number of entries whose key sorts before `k`.
pub open spec fn sorted_below<V>(s: Seq<(String, V)>, k: Seq<char>) -> int
    decreases s.len(),
{
    if s.len() == 0 {
        0
    } else {
        sorted_below(s.drop_last(), k) + if crate::text::seq_lt(s.last().0@, k) { 1int } else { 0int }
    }
}

/// Insertion into a key-ordered table (`BTreeMap::insert`): an existing key
/// has its value replaced, a new key goes after every smaller key.
pub open spec fn sorted_put<V>(s: Seq<(String, V)>, k: String, v: V) -> Seq<(String, V)> {
    let i = sorted_index(s, k@);
    if i >= 0 { s.update(i, (k, v)) } else { s.insert(sorted_below(s, k@), (k, v)) }
}

fn sorted_insert<V>(list: &mut Vec<(String, V)>, k: String, v: V)
    ensures
        final(list)@ == sorted_put(old(list)@, k, v),
{
    let ghost t0 = list@;
    let mut i: usize = list.len();
    proof { assert(t0.subrange(0, t0.len() as int) =~= t0); }
    while i > 0
        invariant
            i <= list@.len(),
            t0 == list@,
            t0 == old(list)@,
            sorted_index(t0, k@) == sorted_index(t0.subrange(0, i as int), k@),
        decreases i,
    {
        proof { assert(t0.subrange(0, i as int).drop_last() =~= t0.subrange(0, i - 1)); }
        if str_eq(list[i - 1].0.as_str(), k.as_str()) {
            proof { assert(sorted_index(t0, k@) == i - 1); }
            list.set(i - 1, (k, v));
            return;
        }
        i = i - 1;
    }
    proof { assert(t0.subrange(0, 0) =~= Seq::<(String, V)>::empty()); }
    let mut below: usize = 0;
    let mut j: usize = 0;
    while j < list.len()
        invariant
            j <= list@.len(),
            below <= j,
            t0 == list@,
            below as int == sorted_below(t0.subrange(0, j as int), k@),
        decreases list.len() - j,
    {
        proof { assert(t0.subrange(0, j + 1).drop_last() =~= t0.subrange(0, j as int)); }
        if crate::text::str_lt(list[j].0.as_str(), k.as_str()) {
            below = below + 1;
        }
        j = j + 1;
    }
    proof { assert(t0.subrange(0, list@.len() as int) =~= t0); }
    list.insert(below, (k, v));
}

/// A key-ordered table as viewed: keys by their text, values through `f`.
pub open spec fn kv_view<V, W>(s: Seq<(String, V)>, f: spec_fn(V) -> W) -> Seq<(Seq<char>, W)> {
    s.map_values(|p: (String, V)| (p.0@, f(p.1)))
}

pub open spec fn vsorted_index<W>(s: Seq<(Seq<char>, W)>, k: Seq<char>) -> int
    decreases s.len(),
{
    if s.len() == 0 {
        -1
    } else if s.last().0 == k {
        s.len() - 1
    } else {
        vsorted_index(s.drop_last(), k)
    }
}

pub open spec fn vsorted_below<W>(s: Seq<(Seq<char>, W)>, k: Seq<char>) -> int
    decreases s.len(),
{
    if s.len() == 0 {
        0
    } else {
        vsorted_below(s.drop_last(), k) + if crate::text::seq_lt(s.last().0, k) { 1int } else { 0int }
    }
}

/// `BTreeMap::insert` on a key-ordered table of views.
pub open spec fn vsorted_put<W>(s: Seq<(Seq<char>, W)>, k: Seq<char>, w: W) -> Seq<(Seq<char>, W)> {
    let i = vsorted_index(s, k);
    if i >= 0 { s.update(i, (k, w)) } else { s.insert(vsorted_below(s, k), (k, w)) }
}

proof fn lemma_sorted_index_view<V, W>(s: Seq<(String, V)>, k: Seq<char>, f: spec_fn(V) -> W)
    ensures
        sorted_index(s, k) == vsorted_index(kv_view(s, f), k),
        sorted_below(s, k) == vsorted_below(kv_view(s, f), k),
    decreases s.len(),
{
    if s.len() > 0 {
        assert(kv_view(s.drop_last(), f) =~= kv_view(s, f).drop_last());
        lemma_sorted_index_view(s.drop_last(), k, f);
    }
}

proof fn lemma_sorted_bounds<V>(s: Seq<(String, V)>, k: Seq<char>)
    ensures
        -1 <= sorted_index(s, k) < s.len(),
        0 <= sorted_below(s, k) <= s.len(),
    decreases s.len(),
{
    if s.len() > 0 {
        lemma_sorted_bounds(s.drop_last(), k);
    }
}

proof fn lemma_sorted_put_view<V, W>(s: Seq<(String, V)>, k: String, v: V, f: spec_fn(V) -> W)
    ensures
        kv_view(sorted_put(s, k, v), f) == vsorted_put(kv_view(s, f), k@, f(v)),
{
    lemma_sorted_index_view(s, k@, f);
    lemma_sorted_bounds(s, k@);
    let i = sorted_index(s, k@);
    if i >= 0 {
        assert(kv_view(s.update(i, (k, v)), f) =~= kv_view(s, f).update(i, (k@, f(v))));
    } else {
        assert(kv_view(s.insert(sorted_below(s, k@), (k, v)), f) =~= kv_view(s, f).insert(sorted_below(s, k@), (k@, f(v))));
    }
}

// ─── Exported enums ──────────────────────────────────────────────────────────

/// `"{file}:{name}"` split at its first `:`.
pub open spec fn split_scoped_key(k: Seq<char>) -> Option<(Seq<char>, Seq<char>)> {
    let i = crate::chars::first_index(k, ':');
    if i >= 0 { Some((k.take(i), k.skip(i + 1))) } else { None }
}

/// Whether `file` declares `name` as an exported local declaration.
pub open spec fn exports_local(g: SpecGlobal, file: Seq<char>, name: Seq<char>) -> bool {
    match assoc_get(g.re_export_map, file) {
        Some(es) => exists|j: int| 0 <= j < es.len() && (#[trigger] es[j] matches crate::types::SpecLexedExport::LocalDeclaration { name: n, .. } && n == name),
        None => false,
    }
}

/// The exported enums, keyed by their bare name, in name order.
pub open spec fn public_enums(g: SpecGlobal, enums: Seq<(String, Vec<crate::types::EnumEntry>)>) -> Seq<(Seq<char>, Seq<crate::types::SpecEnumEntry>)>
    decreases enums.len(),
{
    if enums.len() == 0 {
        Seq::empty()
    } else {
        let prev = public_enums(g, enums.drop_last());
        let e = enums.last();
        match split_scoped_key(e.0@) {
            Some((f, n)) => if exports_local(g, f, n) {
                vsorted_put(prev, n, crate::types::enum_entries_view(e.1@))
            } else {
                prev
            },
            None => prev,
        }
    }
}

pub open spec fn entries_view(v: Vec<crate::types::EnumEntry>) -> Seq<crate::types::SpecEnumEntry> {
    crate::types::enum_entries_view(v@)
}

/// Whether `file` exports a local declaration named `name`.
fn is_exported_locally(global: &GlobalSourceData, file: &str, name: &str) -> (res: bool)
    ensures
        res == exports_local(global@, file@, name@),
{
    let ghost rm = global@.re_export_map;
    let idx = first_key_pos(&global.re_export_map, file);
    proof {
        assert forall|j: int| 0 <= j < idx implies rm[j].0 != file@ by {
            assert(rm[j].0 == global.re_export_map@[j].0@);
        }
        lemma_first_key_index_is(rm, file@, idx as int);
    }
    if idx == global.re_export_map.len() {
        return false;
    }
    let exports = &global.re_export_map[idx].1;
    let ghost es = rm[idx as int].1;
    proof {
        assert(es == exports@.map_values(|e: crate::types::LexedExport| e@));
        assert(assoc_get(rm, file@) == Some(es));
    }
    let mut i: usize = 0;
    while i < exports.len()
        invariant
            i <= exports.len(),
            es == exports@.map_values(|e: crate::types::LexedExport| e@),
            rm == global@.re_export_map,
            assoc_get(rm, file@) == Some(es),
            forall|j: int| 0 <= j < i ==> !(#[trigger] es[j] matches crate::types::SpecLexedExport::LocalDeclaration { name: n, .. } && n == name@),
        decreases exports.len() - i,
    {
        match &exports[i] {
            crate::types::LexedExport::LocalDeclaration { name: n, .. } => {
                if str_eq(n.as_str(), name) {
                    proof { assert(es[i as int] matches crate::types::SpecLexedExport::LocalDeclaration { name: n2, .. } && n2 == name@); }
                    return true;
                }
            },
            _ => {},
        }
        i = i + 1;
    }
    false
}

/// The enums that their file exports, keyed by their bare name, in name
/// order (a later one of the same name replaces an earlier one).
pub fn collect_public_enums(global: &GlobalSourceData) -> (res: Vec<(String, Vec<crate::types::EnumEntry>)>)
    ensures
        kv_view(res@, |v: Vec<crate::types::EnumEntry>| entries_view(v)) == public_enums(global@, global.enums@),
{
    let ghost f = |v: Vec<crate::types::EnumEntry>| entries_view(v);
    let mut result: Vec<(String, Vec<crate::types::EnumEntry>)> = Vec::new();
    let ghost src = global.enums@;
    let mut i: usize = 0;
    proof { assert(kv_view(result@, f) =~= public_enums(global@, src.take(0))); }
    while i < global.enums.len()
        invariant
            i <= global.enums.len(),
            src == global.enums@,
            f == (|v: Vec<crate::types::EnumEntry>| entries_view(v)),
            kv_view(result@, f) == public_enums(global@, src.take(i as int)),
        decreases global.enums.len() - i,
    {
        proof {
            assert(src.take(i + 1).drop_last() =~= src.take(i as int));
            assert(src.take(i + 1).last() == src[i as int]);
        }
        let key = &global.enums[i].0;
        let c = crate::text::chars_of(key.as_str());
        let colon = crate::chars::find_char_range(&c, 0, c.len(), ':');
        proof {
            assert(c@.subrange(0, c@.len() as int) =~= key@);
            crate::chars::lemma_first_index_bounds(key@, ':');
        }
        if colon < c.len() {
            let file = crate::text::string_from_chars(&c, 0, colon);
            let name = crate::text::string_from_chars(&c, colon + 1, c.len());
            proof {
                assert(file@ =~= key@.take(colon as int));
                assert(name@ =~= key@.skip(colon + 1));
            }
            if is_exported_locally(global, file.as_str(), name.as_str()) {
                let entries = crate::types::clone_enum_entries(&global.enums[i].1);
                let ghost before = result@;
                proof { lemma_sorted_put_view(before, name, entries, f); }
                sorted_insert(&mut result, name, entries);
            }
        }
        i = i + 1;
    }
    proof { assert(src.take(global.enums.len() as int) =~= src); }
    result
}

// ─── Component keys ──────────────────────────────────────────────────────────

/// One resolved component: its entry, the diagnostics of the hooks run on
/// it, and the diagnostics of resolving it.
pub type Resolved = (crate::types::ComponentEntry, Vec<crate::types::Diagnostic>, Vec<crate::types::Diagnostic>);

/// How many of `rs` are components named `name`.
pub open spec fn name_count(rs: Seq<Resolved>, name: Seq<char>) -> int
    decreases rs.len(),
{
    if rs.len() == 0 {
        0
    } else {
        name_count(rs.drop_last(), name) + if rs.last().0.display_name@ == name { 1int } else { 0int }
    }
}

/// The key of the `count`-th component named `name`: the name itself the
/// first time, then the name with its file's path in parentheses.
pub open spec fn component_key(name: Seq<char>, count: int, file: Seq<char>) -> Seq<char> {
    if count == 1 {
        name
    } else {
        name + " ("@ + file + ")"@
    }
}

pub open spec fn collision_help() -> Seq<char> {
    "Two resolved components produced the same display name and disambiguation key \u{2014} only the later one is kept in the output. Check for overlapping src_dirs or a genuine duplicate declaration."@
}

/// The warning that a component replaced an earlier one under the same key.
pub open spec fn collision_diag(key: Seq<char>, previous: Seq<char>, now: Seq<char>) -> crate::types::SpecDiagnostic {
    crate::types::spec_file_diag(
        crate::types::DiagnosticSeverity::Warning,
        crate::types::DiagnosticCode::ComponentKeyCollision,
        "Duplicate component key '"@ + key + "' \u{2014} colliding file paths: previously '"@ + previous
            + "', now '"@ + now + "'"@,
        now,
        Some(collision_help()),
    )
}

/// The components of `rs` under their keys, in key order (a later one under
/// the same key replaces an earlier one and is reported), and the
/// diagnostics: for each component, its hooks', the collision warning if
/// any, then its own.
pub open spec fn keyed_components(
    rs: Seq<Resolved>,
) -> (Seq<(Seq<char>, crate::types::SpecComponentEntry)>, Seq<crate::types::SpecDiagnostic>)
    decreases rs.len(),
{
    if rs.len() == 0 {
        (Seq::empty(), Seq::empty())
    } else {
        let prev = keyed_components(rs.drop_last());
        let e = rs.last().0;
        let key = component_key(e.display_name@, name_count(rs, e.display_name@), e.file_path@);
        let i = vsorted_index(prev.0, key);
        let collision = if i >= 0 {
            seq![collision_diag(key, prev.0[i].1.file_path, e.file_path@)]
        } else {
            Seq::empty()
        };
        (
            vsorted_put(prev.0, key, e@),
            prev.1 + crate::types::diags_view(rs.last().1@) + collision + crate::types::diags_view(rs.last().2@),
        )
    }
}

/// Position of the entry keyed `k` (the last one, if several).
fn table_pos<V>(list: &Vec<(String, V)>, k: &str) -> (res: Option<usize>)
    ensures
        match res {
            Some(i) => i < list@.len() && sorted_index(list@, k@) == i,
            None => sorted_index(list@, k@) == -1,
        },
{
    let ghost t0 = list@;
    let mut i: usize = list.len();
    proof { assert(t0.subrange(0, t0.len() as int) =~= t0); }
    while i > 0
        invariant
            i <= list@.len(),
            t0 == list@,
            sorted_index(t0, k@) == sorted_index(t0.subrange(0, i as int), k@),
        decreases i,
    {
        proof { assert(t0.subrange(0, i as int).drop_last() =~= t0.subrange(0, i - 1)); }
        if str_eq(list[i - 1].0.as_str(), k) {
            return Some(i - 1);
        }
        i = i - 1;
    }
    proof { assert(t0.subrange(0, 0) =~= Seq::<(String, V)>::empty()); }
    None
}

/// Keys the resolved components by display name, disambiguating a repeated
/// name with the file's path, reports a component that still replaces an
/// earlier one under the same key, and gathers the diagnostics.
pub fn collect_components(
    results: Vec<Resolved>,
) -> (res: (Vec<(String, crate::types::ComponentEntry)>, Vec<crate::types::Diagnostic>))
    ensures
        kv_view(res.0@, |e: crate::types::ComponentEntry| e@) == keyed_components(results@).0,
        crate::types::diags_view(res.1@) == keyed_components(results@).1,
{
    let ghost f = |e: crate::types::ComponentEntry| e@;
    let ghost src = results@;
    let results_len = results.len();
    let mut components: Vec<(String, crate::types::ComponentEntry)> = Vec::new();
    let mut diagnostics: Vec<crate::types::Diagnostic> = Vec::new();
    let mut names: Vec<String> = Vec::new();
    proof {
        assert(kv_view(components@, f) =~= keyed_components(src.take(0)).0);
        assert(crate::types::diags_view(diagnostics@) =~= keyed_components(src.take(0)).1);
    }
    for r in it: results.into_iter()
        invariant
            it.seq() == src,
            src.len() == results_len,
            f == (|e: crate::types::ComponentEntry| e@),
            names@.len() == it.index(),
            forall|j: int| 0 <= j < it.index() ==> (#[trigger] names@[j])@ == src[j].0.display_name@,
            kv_view(components@, f) == keyed_components(src.take(it.index() as int)).0,
            crate::types::diags_view(diagnostics@) == keyed_components(src.take(it.index() as int)).1,
    {
        let ghost idx = it.index() as int;
        let ghost pre = src.take(idx);
        proof {
            assert(src.take(idx + 1).drop_last() =~= pre);
            assert(src.take(idx + 1).last() == r);
        }
        let (entry, hook_diags, diags) = r;
        let name = entry.display_name.clone();
        let mut found: usize = 0;
        let mut j: usize = 0;
        while j < names.len()
            invariant
                j <= names@.len(),
                names@.len() == idx,
                found <= j,
                forall|m: int| 0 <= m < idx ==> (#[trigger] names@[m])@ == src[m].0.display_name@,
                found as int == name_count(src.take(j as int), name@),
                idx < src.len(),
            decreases names.len() - j,
        {
            proof { assert(src.take(j + 1).drop_last() =~= src.take(j as int)); }
            if str_eq(names[j].as_str(), name.as_str()) {
                found = found + 1;
            }
            j = j + 1;
        }
        proof { assert(src.len() == results_len); }
        let count = found + 1;
        proof {
            assert(src.take(idx) =~= pre);
            assert(name_count(src.take(idx + 1), name@) == name_count(pre, name@) + 1);
        }
        let key: String = if count == 1 {
            name.clone()
        } else {
            let mut k = name.clone();
            k.append(" (");
            k.append(entry.file_path.as_str());
            k.append(")");
            k
        };
        let ghost before = components@;
        let ghost dv = crate::types::diags_view(diagnostics@);
        let mut h = hook_diags;
        let ghost hv = crate::types::diags_view(h@);
        diagnostics.append(&mut h);
        proof {
            lemma_sorted_index_view(before, key@, f);
            assert(crate::types::diags_view(diagnostics@) =~= dv + hv);
        }
        let ghost mid = crate::types::diags_view(diagnostics@);
        match table_pos(&components, key.as_str()) {
            Some(i) => {
                let mut message = "Duplicate component key '".to_owned();
                message.append(key.as_str());
                message.append("' \u{2014} colliding file paths: previously '");
                message.append(components[i].1.file_path.as_str());
                message.append("', now '");
                message.append(entry.file_path.as_str());
                message.append("'");
                let d = crate::types::Diagnostic {
                    severity: crate::types::DiagnosticSeverity::Warning,
                    message,
                    file: Some(entry.file_path.clone()),
                    line: None,
                    column: None,
                    help: Some("Two resolved components produced the same display name and disambiguation key \u{2014} only the later one is kept in the output. Check for overlapping src_dirs or a genuine duplicate declaration.".to_owned()),
                    code: crate::types::DiagnosticCode::ComponentKeyCollision,
                };
                proof {
                    assert(kv_view(before, f)[i as int].1.file_path == before[i as int].1.file_path@);
                    assert(d@ == collision_diag(key@, before[i as int].1.file_path@, entry.file_path@));
                }
                diagnostics.push(d);
                proof { assert(crate::types::diags_view(diagnostics@) =~= mid.push(d@)); }
            },
            None => {},
        }
        let ghost mid2 = crate::types::diags_view(diagnostics@);
        proof { lemma_sorted_put_view(before, key, entry, f); }
        sorted_insert(&mut components, key, entry);
        let mut d = diags;
        let ghost dv2 = crate::types::diags_view(d@);
        diagnostics.append(&mut d);
        proof { assert(crate::types::diags_view(diagnostics@) =~= mid2 + dv2); }
        names.push(name);
    }
    proof { assert(src.take(src.len() as int) =~= src); }
    (components, diagnostics)
}

// ─── Source directory checks ─────────────────────────────────────────────────

pub open spec fn src_dir_help() -> Seq<char> {
    "Check --src (or docgen.config.ts srcDirs) for a typo'd or stale path."@
}

/// A warning for each directory that does not exist, in order.
pub open spec fn missing_dir_warnings(dirs: Seq<(Seq<char>, bool)>) -> Seq<crate::types::SpecDiagnostic>
    decreases dirs.len(),
{
    if dirs.len() == 0 {
        Seq::empty()
    } else {
        let prev = missing_dir_warnings(dirs.drop_last());
        let (dir, exists) = dirs.last();
        if exists {
            prev
        } else {
            prev.push(crate::types::spec_file_diag(
                crate::types::DiagnosticSeverity::Warning,
                crate::types::DiagnosticCode::IoError,
                "Source directory does not exist: "@ + dir,
                dir,
                Some(src_dir_help()),
            ))
        }
    }
}

/// What the configured source directories (each with whether it exists)
/// call for: an error when none is configured or none exists, else a
/// warning for each missing one.
pub open spec fn spec_src_dir_diagnostics(dirs: Seq<(Seq<char>, bool)>) -> Seq<crate::types::SpecDiagnostic> {
    if dirs.len() == 0 {
        seq![crate::types::SpecDiagnostic {
            severity: crate::types::DiagnosticSeverity::Error,
            message: "No source directories configured \u{2014} src_dirs is empty"@,
            file: None,
            line: None,
            column: None,
            help: Some("Set --src (or docgen.config.ts srcDirs) to at least one directory to scan."@),
            code: crate::types::DiagnosticCode::IoError,
        }]
    } else if forall|i: int| 0 <= i < dirs.len() ==> !(#[trigger] dirs[i]).1 {
        seq![crate::types::spec_file_diag(
            crate::types::DiagnosticSeverity::Error,
            crate::types::DiagnosticCode::IoError,
            "None of the configured source directories exist: "@
                + crate::render::join_strs(dirs.map_values(|d: (Seq<char>, bool)| d.0), ", "@),
            dirs[0].0,
            Some(src_dir_help()),
        )]
    } else {
        missing_dir_warnings(dirs)
    }
}

/// The diagnostics of the configured source directories, given whether
/// each exists.
pub fn src_dir_diagnostics(dirs: &Vec<(String, bool)>) -> (res: Vec<crate::types::Diagnostic>)
    ensures
        crate::types::diags_view(res@) == spec_src_dir_diagnostics(dirs@.map_values(|d: (String, bool)| (d.0@, d.1))),
{
    let ghost dv = dirs@.map_values(|d: (String, bool)| (d.0@, d.1));
    let mut out: Vec<crate::types::Diagnostic> = Vec::new();
    if dirs.len() == 0 {
        out.push(crate::types::Diagnostic {
            severity: crate::types::DiagnosticSeverity::Error,
            message: "No source directories configured \u{2014} src_dirs is empty".to_owned(),
            file: None,
            line: None,
            column: None,
            help: Some("Set --src (or docgen.config.ts srcDirs) to at least one directory to scan.".to_owned()),
            code: crate::types::DiagnosticCode::IoError,
        });
        return out;
    }
    let mut any_exists = false;
    let mut listed = String::new();
    let mut warnings: Vec<crate::types::Diagnostic> = Vec::new();
    let mut i: usize = 0;
    proof {
        assert(dv.take(0) =~= Seq::<(Seq<char>, bool)>::empty());
        assert(dv.take(0).map_values(|d: (Seq<char>, bool)| d.0) =~= Seq::<Seq<char>>::empty());
    }
    while i < dirs.len()
        invariant
            i <= dirs@.len(),
            dv == dirs@.map_values(|d: (String, bool)| (d.0@, d.1)),
            any_exists == exists|j: int| 0 <= j < i && (#[trigger] dv[j]).1,
            listed@ == crate::render::join_strs(dv.take(i as int).map_values(|d: (Seq<char>, bool)| d.0), ", "@),
            crate::types::diags_view(warnings@) == missing_dir_warnings(dv.take(i as int)),
        decreases dirs.len() - i,
    {
        let ghost names = dv.take(i as int).map_values(|d: (Seq<char>, bool)| d.0);
        proof {
            assert(dv.take(i + 1).drop_last() =~= dv.take(i as int));
            assert(dv.take(i + 1).last() == dv[i as int]);
            assert(dv.take(i + 1).map_values(|d: (Seq<char>, bool)| d.0) =~= names.push(dirs@[i as int].0@));
            crate::render::lemma_join_push(names, ", "@, dirs@[i as int].0@);
        }
        if i > 0 {
            listed.append(", ");
        }
        listed.append(dirs[i].0.as_str());
        if dirs[i].1 {
            any_exists = true;
        } else {
            let mut message = "Source directory does not exist: ".to_owned();
            message.append(dirs[i].0.as_str());
            let w = crate::types::Diagnostic {
                severity: crate::types::DiagnosticSeverity::Warning,
                message,
                file: Some(dirs[i].0.clone()),
                line: None,
                column: None,
                help: Some("Check --src (or docgen.config.ts srcDirs) for a typo'd or stale path.".to_owned()),
                code: crate::types::DiagnosticCode::IoError,
            };
            let ghost old_w = crate::types::diags_view(warnings@);
            warnings.push(w);
            proof { assert(crate::types::diags_view(warnings@) =~= old_w.push(w@)); }
        }
        i = i + 1;
    }
    proof {
        assert(dv.take(dirs@.len() as int) =~= dv);
    }
    if !any_exists {
        let mut message = "None of the configured source directories exist: ".to_owned();
        message.append(listed.as_str());
        out.push(crate::types::Diagnostic {
            severity: crate::types::DiagnosticSeverity::Error,
            message,
            file: Some(dirs[0].0.clone()),
            line: None,
            column: None,
            help: Some("Check --src (or docgen.config.ts srcDirs) for a typo'd or stale path.".to_owned()),
            code: crate::types::DiagnosticCode::IoError,
        });
        proof {
            assert forall|j: int| 0 <= j < dv.len() implies !(#[trigger] dv[j]).1 by {}
        }
        return out;
    }
    proof {
        let j = choose|j: int| 0 <= j < dirs@.len() && (#[trigger] dv[j]).1;
        assert(!(forall|k: int| 0 <= k < dv.len() ==> !(#[trigger] dv[k]).1));
    }
    warnings
}

// ─── Options and output ──────────────────────────────────────────────────────

/// A user-supplied override for a named type of a custom library.
#[derive(Debug, PartialEq)]
pub enum KnownTypeOverride {
    Opaque { label: Option<String> },
    Alias { arg_index: usize },
    Skip,
}

/// Configuration of one extraction run. Paths are UTF-8 text; maps are
/// lists of (key, value) pairs.
#[derive(Debug)]
pub struct PipelineOptions {
    /// Source directories to scan.
    pub src_dirs: Vec<String>,
    /// Extra patterns to exclude (on top of stories, tests and snapshots).
    pub exclude_patterns: Vec<String>,
    /// Component name prefixes to skip.
    pub exclude_prefixes: Vec<String>,
    /// The React version.
    pub react_version: crate::react_types::ReactVersion,
    /// Whether to resolve cross-package types.
    pub cross_package: bool,
    /// PandaCSS generated output directory, if any.
    pub pandacss_outdir: Option<String>,
    /// Function names treated as `cva`-like variant functions.
    pub variant_functions: Vec<String>,
    /// Skip the HTML props filter.
    pub skip_html_props: bool,
    /// Path to tsconfig.json.
    pub tsconfig_path: Option<String>,
    /// Monorepo path aliases: package name, candidate root directories.
    pub extra_paths: Vec<(String, Vec<String>)>,
    /// Overrides for specific named types.
    pub known_type_overrides: Vec<(String, KnownTypeOverride)>,
    /// Builtin type names beyond the React standard set.
    pub extra_builtins: Vec<String>,
    /// Enable vanilla-extract support.
    pub vanilla_extract: bool,
    /// Cache directory.
    pub cache_dir: Option<String>,
    /// Opt in to a type checker for conditional and mapped types.
    pub resolve_complex_types: bool,
}

impl Default for PipelineOptions {
    fn default() -> (res: Self)
        ensures
            strs_view(res.src_dirs@) == seq!["./src"@],
            res.exclude_patterns@.len() == 0,
            res.exclude_prefixes@.len() == 0,
            res.react_version == crate::react_types::spec_react_19(),
            res.cross_package,
            res.pandacss_outdir is None,
            strs_view(res.variant_functions@) == seq!["cva"@, "tv"@, "defineRecipe"@, "recipe"@],
            !res.skip_html_props,
            res.tsconfig_path is None,
            res.extra_paths@.len() == 0,
            res.known_type_overrides@.len() == 0,
            res.extra_builtins@.len() == 0,
            !res.vanilla_extract,
            res.cache_dir is None,
            !res.resolve_complex_types,
    {
        let src_dirs = vec!["./src".to_owned()];
        let variant_functions = vec!["cva".to_owned(), "tv".to_owned(), "defineRecipe".to_owned(), "recipe".to_owned()];
        proof {
            assert(strs_view(src_dirs@) =~= seq!["./src"@]);
            assert(strs_view(variant_functions@) =~= seq!["cva"@, "tv"@, "defineRecipe"@, "recipe"@]);
        }
        PipelineOptions {
            src_dirs,
            exclude_patterns: Vec::new(),
            exclude_prefixes: Vec::new(),
            react_version: crate::react_types::react_19(),
            cross_package: true,
            pandacss_outdir: None,
            variant_functions,
            skip_html_props: false,
            tsconfig_path: None,
            extra_paths: Vec::new(),
            known_type_overrides: Vec::new(),
            extra_builtins: Vec::new(),
            vanilla_extract: false,
            cache_dir: None,
            resolve_complex_types: false,
        }
    }
}

/// Counters of one extraction run.
#[derive(Debug, Clone, Copy, PartialEq, Eq, Structural)]
pub struct ExtractionStats {
    pub components_extracted: u32,
    pub files_parsed: u32,
    pub dts_cache_hits: u32,
    pub duration_ms: u64,
}

impl Default for ExtractionStats {
    fn default() -> (res: Self)
        ensures
            res.components_extracted == 0 && res.files_parsed == 0 && res.dts_cache_hits == 0 && res.duration_ms == 0,
    {
        ExtractionStats { components_extracted: 0, files_parsed: 0, dts_cache_hits: 0, duration_ms: 0 }
    }
}

/// The result of an extraction run: components and exported enums by name,
/// in name order, and the diagnostics.
#[derive(Debug)]
pub struct ExtractionOutput {
    pub components: Vec<(String, crate::types::ComponentEntry)>,
    pub enums: Vec<(String, Vec<crate::types::EnumEntry>)>,
    pub diagnostics: Vec<crate::types::Diagnostic>,
    pub stats: ExtractionStats,
}

/// The result of handling one file change in watch mode.
#[derive(Debug)]
pub struct IncrementalUpdate {
    pub updated_components: Vec<crate::types::ComponentEntry>,
    pub affected_files: Vec<String>,
    pub diagnostics: Vec<crate::types::Diagnostic>,
    pub duration_ms: u64,
}

/// The mappings of `ms` that satisfy `keep`, in order.
pub open spec fn mappings_where(
    ms: Seq<crate::types::ComponentMapping>,
    keep: spec_fn(crate::types::ComponentMapping) -> bool,
) -> Seq<crate::types::SpecComponentMapping>
    decreases ms.len(),
{
    if ms.len() == 0 {
        Seq::empty()
    } else if keep(ms.last()) {
        mappings_where(ms.drop_last(), keep).push(ms.last()@)
    } else {
        mappings_where(ms.drop_last(), keep)
    }
}

/// The component mappings to resolve: those whose component name no
/// exclude prefix starts.
pub fn mappings_to_resolve(global: &GlobalSourceData, exclude_prefixes: &Vec<String>) -> (res: Vec<crate::types::ComponentMapping>)
    ensures
        res@.map_values(|m: crate::types::ComponentMapping| m@) == mappings_where(
            global.component_mappings@,
            |m: crate::types::ComponentMapping| !spec_should_skip(m.component_name@, strs_view(exclude_prefixes@)),
        ),
{
    let ghost keep = |m: crate::types::ComponentMapping| !spec_should_skip(m.component_name@, strs_view(exclude_prefixes@));
    let ghost ms = global.component_mappings@;
    let mut out: Vec<crate::types::ComponentMapping> = Vec::new();
    let mut i: usize = 0;
    proof { assert(out@.map_values(|m: crate::types::ComponentMapping| m@) =~= mappings_where(ms.take(0), keep)); }
    while i < global.component_mappings.len()
        invariant
            i <= global.component_mappings.len(),
            ms == global.component_mappings@,
            keep == (|m: crate::types::ComponentMapping| !spec_should_skip(m.component_name@, strs_view(exclude_prefixes@))),
            out@.map_values(|m: crate::types::ComponentMapping| m@) == mappings_where(ms.take(i as int), keep),
        decreases global.component_mappings.len() - i,
    {
        proof {
            assert(ms.take(i + 1).drop_last() =~= ms.take(i as int));
            assert(ms.take(i + 1).last() == ms[i as int]);
            assert(exclude_prefixes@.map_values(|p: String| p@) =~= strs_view(exclude_prefixes@));
        }
        let m = &global.component_mappings[i];
        if !should_skip(m.component_name.as_str(), exclude_prefixes.as_slice()) {
            let ghost old_out = out@.map_values(|m: crate::types::ComponentMapping| m@);
            let c = m.clone();
            out.push(c);
            proof { assert(out@.map_values(|m: crate::types::ComponentMapping| m@) =~= old_out.push(c@)); }
        }
        i = i + 1;
    }
    proof { assert(ms.take(global.component_mappings.len() as int) =~= ms); }
    out
}

/// The component mappings declared in one of `files`, in order.
pub fn mappings_in_files(global: &GlobalSourceData, files: &Vec<String>) -> (res: Vec<crate::types::ComponentMapping>)
    ensures
        res@.map_values(|m: crate::types::ComponentMapping| m@) == mappings_where(
            global.component_mappings@,
            |m: crate::types::ComponentMapping| strs_view(files@).contains(m.file_path@),
        ),
{
    let ghost keep = |m: crate::types::ComponentMapping| strs_view(files@).contains(m.file_path@);
    let ghost ms = global.component_mappings@;
    let mut out: Vec<crate::types::ComponentMapping> = Vec::new();
    let mut i: usize = 0;
    proof { assert(out@.map_values(|m: crate::types::ComponentMapping| m@) =~= mappings_where(ms.take(0), keep)); }
    while i < global.component_mappings.len()
        invariant
            i <= global.component_mappings.len(),
            ms == global.component_mappings@,
            keep == (|m: crate::types::ComponentMapping| strs_view(files@).contains(m.file_path@)),
            out@.map_values(|m: crate::types::ComponentMapping| m@) == mappings_where(ms.take(i as int), keep),
        decreases global.component_mappings.len() - i,
    {
        proof {
            assert(ms.take(i + 1).drop_last() =~= ms.take(i as int));
            assert(ms.take(i + 1).last() == ms[i as int]);
        }
        let m = &global.component_mappings[i];
        if contains_str(files, m.file_path.as_str()) {
            let ghost old_out = out@.map_values(|m: crate::types::ComponentMapping| m@);
            let c = m.clone();
            out.push(c);
            proof { assert(out@.map_values(|m: crate::types::ComponentMapping| m@) =~= old_out.push(c@)); }
        }
        i = i + 1;
    }
    proof { assert(ms.take(global.component_mappings.len() as int) =~= ms); }
    out
}

// ─── Laws of merging and removing files ─────────────────────────────────────

proof fn lemma_raw_key_index_found<V>(s: Seq<(String, V)>, k: Seq<char>)
    ensures
        0 <= raw_key_index(s, k) <= s.len(),
        raw_key_index(s, k) < s.len() ==> s[raw_key_index(s, k)].0@ == k,
    decreases s.len(),
{
    if s.len() > 0 && s[0].0@ != k {
        lemma_raw_key_index_found(s.drop_first(), k);
    }
}

proof fn lemma_other_files_update<V>(s: Seq<(String, V)>, i: int, x: (String, V), file: Seq<char>)
    requires
        0 <= i < s.len(),
        key_in_file(s[i].0@, file),
        key_in_file(x.0@, file),
    ensures
        other_files(s.update(i, x), file) == other_files(s, file),
    decreases s.len(),
{
    if i == s.len() - 1 {
        assert(s.update(i, x).drop_last() =~= s.drop_last());
    } else {
        assert(s.update(i, x).drop_last() =~= s.drop_last().update(i, x));
        lemma_other_files_update(s.drop_last(), i, x, file);
    }
}

proof fn lemma_other_files_put_all<V>(s: Seq<(String, V)>, es: Seq<(String, V)>, file: Seq<char>)
    requires
        forall|j: int| 0 <= j < es.len() ==> key_in_file((#[trigger] es[j]).0@, file),
    ensures
        other_files(put_all(s, es), file) == other_files(s, file),
    decreases es.len(),
{
    if es.len() > 0 {
        let prev = put_all(s, es.drop_last());
        let e = es.last();
        assert(key_in_file(es[es.len() - 1].0@, file));
        lemma_other_files_put_all(s, es.drop_last(), file);
        lemma_raw_key_index_found(prev, e.0@);
        let i = raw_key_index(prev, e.0@);
        if i < prev.len() {
            lemma_other_files_update(prev, i, (e.0, e.1), file);
        } else {
            assert(prev.push((e.0, e.1)).drop_last() =~= prev);
        }
    }
}

proof fn lemma_not_keyed_by_put<V>(s: Seq<(String, V)>, k: String, v: V)
    ensures
        not_keyed_by(put_entry(s, k, v), k@) == not_keyed_by(s, k@),
    decreases s.len(),
{
    lemma_raw_key_index_found(s, k@);
    let i = raw_key_index(s, k@);
    if i < s.len() {
        lemma_not_keyed_by_update(s, i, (k, v), k@);
    } else {
        assert(s.push((k, v)).drop_last() =~= s);
    }
}

proof fn lemma_not_keyed_by_update<V>(s: Seq<(String, V)>, i: int, x: (String, V), file: Seq<char>)
    requires
        0 <= i < s.len(),
        s[i].0@ == file,
        x.0@ == file,
    ensures
        not_keyed_by(s.update(i, x), file) == not_keyed_by(s, file),
    decreases s.len(),
{
    if i == s.len() - 1 {
        assert(s.update(i, x).drop_last() =~= s.drop_last());
    } else {
        assert(s.update(i, x).drop_last() =~= s.drop_last().update(i, x));
        lemma_not_keyed_by_update(s.drop_last(), i, x, file);
    }
}

proof fn lemma_mappings_elsewhere_append(
    a: Seq<crate::types::ComponentMapping>,
    d: Seq<crate::types::ComponentMapping>,
    file: Seq<char>,
)
    requires
        forall|j: int| 0 <= j < d.len() ==> (#[trigger] d[j]).file_path@ == file,
    ensures
        mappings_elsewhere(a + d, file) == mappings_elsewhere(a, file),
    decreases d.len(),
{
    if d.len() == 0 {
        assert(a + d =~= a);
    } else {
        assert((a + d).drop_last() =~= a + d.drop_last());
        assert(d[d.len() - 1].file_path@ == file);
        lemma_mappings_elsewhere_append(a, d.drop_last(), file);
    }
}

/// Removing a file undoes merging it: merging a file's data (every
/// declaration keyed in that file, every component declared in it) and then
/// removing the file leaves what removing the file alone would leave. So a
/// file that is re-read and merged again after its removal leaves no trace of
/// its earlier content.
pub proof fn law_remove_file_undoes_merge(g: GlobalSourceData, path: String, data: crate::types::SourceData)
    requires
        forall|j: int| 0 <= j < data.interfaces@.len() ==> key_in_file((#[trigger] data.interfaces@[j]).0@, path@),
        forall|j: int| 0 <= j < data.type_aliases@.len() ==> key_in_file((#[trigger] data.type_aliases@[j]).0@, path@),
        forall|j: int| 0 <= j < data.enums@.len() ==> key_in_file((#[trigger] data.enums@[j]).0@, path@),
        forall|j: int| 0 <= j < data.component_mappings@.len()
            ==> (#[trigger] data.component_mappings@[j]).file_path@ == path@,
    ensures
        other_files(put_all(g.interfaces@, data.interfaces@), path@) == other_files(g.interfaces@, path@),
        other_files(put_all(g.type_aliases@, data.type_aliases@), path@) == other_files(g.type_aliases@, path@),
        other_files(put_all(g.enums@, data.enums@), path@) == other_files(g.enums@, path@),
        mappings_elsewhere(g.component_mappings@ + data.component_mappings@, path@)
            == mappings_elsewhere(g.component_mappings@, path@),
        not_keyed_by(put_entry(g.import_map@, path, data.imports), path@) == not_keyed_by(g.import_map@, path@),
        not_keyed_by(put_entry(g.re_export_map@, path, data.exports), path@) == not_keyed_by(g.re_export_map@, path@),
{
    lemma_other_files_put_all(g.interfaces@, data.interfaces@, path@);
    lemma_other_files_put_all(g.type_aliases@, data.type_aliases@, path@);
    lemma_other_files_put_all(g.enums@, data.enums@, path@);
    lemma_mappings_elsewhere_append(g.component_mappings@, data.component_mappings@, path@);
    lemma_not_keyed_by_put(g.import_map@, path, data.imports);
    lemma_not_keyed_by_put(g.re_export_map@, path, data.exports);
}

proof fn lemma_other_files_exact<V>(s: Seq<(String, V)>, file: Seq<char>)
    ensures
        forall|i: int| 0 <= i < other_files(s, file).len()
            ==> !key_in_file((#[trigger] other_files(s, file)[i]).0@, file),
        forall|i: int| 0 <= i < s.len() && !key_in_file(s[i].0@, file)
            ==> other_files(s, file).contains(#[trigger] s[i]),
    decreases s.len(),
{
    if s.len() > 0 {
        lemma_other_files_exact(s.drop_last(), file);
        let r = other_files(s.drop_last(), file);
        assert forall|i: int| 0 <= i < s.len() && !key_in_file(s[i].0@, file)
            implies other_files(s, file).contains(#[trigger] s[i]) by {
            if i < s.len() - 1 {
                assert(s[i] == s.drop_last()[i]);
                let k = choose|k: int| 0 <= k < r.len() && r[k] == s[i];
                if !key_in_file(s.last().0@, file) {
                    assert(other_files(s, file)[k] == r.push(s.last())[k]);
                }
            } else {
                assert(other_files(s, file)[r.len() as int] == s.last());
            }
        }
    }
}

proof fn lemma_not_keyed_by_exact<V>(s: Seq<(String, V)>, file: Seq<char>)
    ensures
        forall|i: int| 0 <= i < not_keyed_by(s, file).len() ==> (#[trigger] not_keyed_by(s, file)[i]).0@ != file,
        forall|i: int| 0 <= i < s.len() && s[i].0@ != file ==> not_keyed_by(s, file).contains(#[trigger] s[i]),
    decreases s.len(),
{
    if s.len() > 0 {
        lemma_not_keyed_by_exact(s.drop_last(), file);
        let r = not_keyed_by(s.drop_last(), file);
        assert forall|i: int| 0 <= i < s.len() && s[i].0@ != file
            implies not_keyed_by(s, file).contains(#[trigger] s[i]) by {
            if i < s.len() - 1 {
                assert(s[i] == s.drop_last()[i]);
                let k = choose|k: int| 0 <= k < r.len() && r[k] == s[i];
                if s.last().0@ != file {
                    assert(not_keyed_by(s, file)[k] == r.push(s.last())[k]);
                }
            } else {
                assert(not_keyed_by(s, file)[r.len() as int] == s.last());
            }
        }
    }
}

proof fn lemma_mappings_elsewhere_exact(s: Seq<crate::types::ComponentMapping>, file: Seq<char>)
    ensures
        forall|i: int| 0 <= i < mappings_elsewhere(s, file).len()
            ==> (#[trigger] mappings_elsewhere(s, file)[i]).file_path@ != file,
        forall|i: int| 0 <= i < s.len() && s[i].file_path@ != file
            ==> mappings_elsewhere(s, file).contains(#[trigger] s[i]),
    decreases s.len(),
{
    if s.len() > 0 {
        lemma_mappings_elsewhere_exact(s.drop_last(), file);
        let r = mappings_elsewhere(s.drop_last(), file);
        assert forall|i: int| 0 <= i < s.len() && s[i].file_path@ != file
            implies mappings_elsewhere(s, file).contains(#[trigger] s[i]) by {
            if i < s.len() - 1 {
                assert(s[i] == s.drop_last()[i]);
                let k = choose|k: int| 0 <= k < r.len() && r[k] == s[i];
                if s.last().file_path@ != file {
                    assert(mappings_elsewhere(s, file)[k] == r.push(s.last())[k]);
                }
            } else {
                assert(mappings_elsewhere(s, file)[r.len() as int] == s.last());
            }
        }
    }
}

/// Removing a file takes out exactly what it contributed: afterwards no
/// declaration is keyed in the file, no component is declared in it and it
/// has no imports or exports, while every entry of another file is still
/// there.
pub proof fn law_remove_file_is_exact(g: GlobalSourceData, path: Seq<char>)
    ensures
        forall|i: int| 0 <= i < other_files(g.interfaces@, path).len()
            ==> !key_in_file((#[trigger] other_files(g.interfaces@, path)[i]).0@, path),
        forall|i: int| 0 <= i < g.interfaces@.len() && !key_in_file(g.interfaces@[i].0@, path)
            ==> other_files(g.interfaces@, path).contains(#[trigger] g.interfaces@[i]),
        forall|i: int| 0 <= i < other_files(g.type_aliases@, path).len()
            ==> !key_in_file((#[trigger] other_files(g.type_aliases@, path)[i]).0@, path),
        forall|i: int| 0 <= i < g.type_aliases@.len() && !key_in_file(g.type_aliases@[i].0@, path)
            ==> other_files(g.type_aliases@, path).contains(#[trigger] g.type_aliases@[i]),
        forall|i: int| 0 <= i < other_files(g.enums@, path).len()
            ==> !key_in_file((#[trigger] other_files(g.enums@, path)[i]).0@, path),
        forall|i: int| 0 <= i < g.enums@.len() && !key_in_file(g.enums@[i].0@, path)
            ==> other_files(g.enums@, path).contains(#[trigger] g.enums@[i]),
        forall|i: int| 0 <= i < mappings_elsewhere(g.component_mappings@, path).len()
            ==> (#[trigger] mappings_elsewhere(g.component_mappings@, path)[i]).file_path@ != path,
        forall|i: int| 0 <= i < g.component_mappings@.len() && g.component_mappings@[i].file_path@ != path
            ==> mappings_elsewhere(g.component_mappings@, path).contains(#[trigger] g.component_mappings@[i]),
        forall|i: int| 0 <= i < not_keyed_by(g.import_map@, path).len()
            ==> (#[trigger] not_keyed_by(g.import_map@, path)[i]).0@ != path,
        forall|i: int| 0 <= i < g.import_map@.len() && g.import_map@[i].0@ != path
            ==> not_keyed_by(g.import_map@, path).contains(#[trigger] g.import_map@[i]),
        forall|i: int| 0 <= i < not_keyed_by(g.re_export_map@, path).len()
            ==> (#[trigger] not_keyed_by(g.re_export_map@, path)[i]).0@ != path,
        forall|i: int| 0 <= i < g.re_export_map@.len() && g.re_export_map@[i].0@ != path
            ==> not_keyed_by(g.re_export_map@, path).contains(#[trigger] g.re_export_map@[i]),
{
    lemma_other_files_exact(g.interfaces@, path);
    lemma_other_files_exact(g.type_aliases@, path);
    lemma_other_files_exact(g.enums@, path);
    lemma_mappings_elsewhere_exact(g.component_mappings@, path);
    lemma_not_keyed_by_exact(g.import_map@, path);
    lemma_not_keyed_by_exact(g.re_export_map@, path);
}

// ─── Law of the component table ─────────────────────────────────────────────

/// Whether the keys of a table strictly increase: each key occurs once, in
/// order.
pub open spec fn keys_increasing<W>(s: Seq<(Seq<char>, W)>) -> bool {
    forall|i: int, j: int| 0 <= i < j < s.len() ==> crate::text::seq_lt(s[i].0, s[j].0)
}

pub(crate) proof fn lemma_vsorted_index<W>(s: Seq<(Seq<char>, W)>, k: Seq<char>)
    ensures
        -1 <= vsorted_index(s, k) < s.len(),
        vsorted_index(s, k) >= 0 ==> s[vsorted_index(s, k)].0 == k,
        vsorted_index(s, k) < 0 ==> forall|j: int| 0 <= j < s.len() ==> s[j].0 != k,
    decreases s.len(),
{
    if s.len() > 0 {
        lemma_vsorted_index(s.drop_last(), k);
        if vsorted_index(s, k) < 0 {
            assert forall|j: int| 0 <= j < s.len() implies s[j].0 != k by {
                if j < s.len() - 1 {
                    assert(s[j] == s.drop_last()[j]);
                }
            }
        }
    }
}

pub(crate) proof fn lemma_below_is_prefix<W>(s: Seq<(Seq<char>, W)>, k: Seq<char>)
    requires
        keys_increasing(s),
        forall|j: int| 0 <= j < s.len() ==> s[j].0 != k,
    ensures
        0 <= vsorted_below(s, k) <= s.len(),
        forall|j: int| 0 <= j < s.len() ==> (j < vsorted_below(s, k) <==> crate::text::seq_lt(s[j].0, k)),
    decreases s.len(),
{
    if s.len() > 0 {
        let t = s.drop_last();
        let n = s.len() - 1;
        assert forall|i: int, j: int| 0 <= i < j < t.len() implies crate::text::seq_lt(t[i].0, t[j].0) by {
            assert(t[i] == s[i] && t[j] == s[j]);
        }
        assert forall|j: int| 0 <= j < t.len() implies t[j].0 != k by {
            assert(t[j] == s[j]);
        }
        lemma_below_is_prefix(t, k);
        let last = s[n].0;
        crate::text::lemma_seq_lt_total(last, k);
        if crate::text::seq_lt(last, k) {
            assert forall|j: int| 0 <= j < t.len() implies crate::text::seq_lt(t[j].0, k) by {
                assert(t[j] == s[j]);
                crate::text::lemma_seq_lt_transitive(s[j].0, last, k);
            }
            if vsorted_below(t, k) < t.len() {
                let j = vsorted_below(t, k);
                assert(crate::text::seq_lt(t[j].0, k));
            }
            assert(vsorted_below(s, k) == s.len());
        } else {
            assert(vsorted_below(s, k) == vsorted_below(t, k));
        }
        assert forall|j: int| 0 <= j < s.len()
            implies (j < vsorted_below(s, k) <==> crate::text::seq_lt(s[j].0, k)) by {
            if j < n {
                assert(t[j] == s[j]);
            }
        }
    }
}

pub(crate) proof fn lemma_vsorted_put_increasing<W>(s: Seq<(Seq<char>, W)>, k: Seq<char>, w: W)
    requires
        keys_increasing(s),
    ensures
        keys_increasing(vsorted_put(s, k, w)),
{
    lemma_vsorted_index(s, k);
    let i = vsorted_index(s, k);
    if i >= 0 {
        let r = s.update(i, (k, w));
        assert forall|a: int, b: int| 0 <= a < b < r.len() implies crate::text::seq_lt(r[a].0, r[b].0) by {
            assert(r[a].0 == s[a].0 && r[b].0 == s[b].0);
        }
    } else {
        lemma_below_is_prefix(s, k);
        let b = vsorted_below(s, k);
        let r = s.insert(b, (k, w));
        assert forall|x: int, y: int| 0 <= x < y < r.len() implies crate::text::seq_lt(r[x].0, r[y].0) by {
            if y < b {
                assert(r[x] == s[x] && r[y] == s[y]);
            } else if y == b {
                assert(r[x] == s[x]);
            } else if x < b {
                assert(r[x] == s[x] && r[y] == s[y - 1]);
            } else if x == b {
                assert(r[y] == s[y - 1]);
                crate::text::lemma_seq_lt_total(s[y - 1].0, k);
            } else {
                assert(r[x] == s[x - 1] && r[y] == s[y - 1]);
            }
        }
    }
}

/// The extracted components form a table keyed by name: each key occurs
/// once, and the keys come in increasing order.
pub proof fn law_component_keys_increasing(rs: Seq<Resolved>)
    ensures
        keys_increasing(keyed_components(rs).0),
    decreases rs.len(),
{
    if rs.len() > 0 {
        law_component_keys_increasing(rs.drop_last());
        let prev = keyed_components(rs.drop_last());
        let e = rs.last().0;
        let key = component_key(e.display_name@, name_count(rs, e.display_name@), e.file_path@);
        lemma_vsorted_put_increasing(prev.0, key, e@);
    }
}

/// The exported enums form a table keyed by bare name: each name occurs
/// once, and the names come in increasing order.
pub proof fn law_public_enum_names_increasing(g: SpecGlobal, enums: Seq<(String, Vec<crate::types::EnumEntry>)>)
    ensures
        keys_increasing(public_enums(g, enums)),
    decreases enums.len(),
{
    if enums.len() > 0 {
        law_public_enum_names_increasing(g, enums.drop_last());
        let prev = public_enums(g, enums.drop_last());
        let e = enums.last();
        match split_scoped_key(e.0@) {
            Some((f, n)) => if exports_local(g, f, n) {
                lemma_vsorted_put_increasing(prev, n, crate::types::enum_entries_view(e.1@));
            },
            None => {},
        }
    }
}

// ─── One change of a watched file ────────────────────────────────────────────

/// The diagnostics of `rs`, in order: for each component its hooks', then
/// its own.
pub open spec fn resolved_diags(rs: Seq<Resolved>) -> Seq<crate::types::SpecDiagnostic>
    decreases rs.len(),
{
    if rs.len() == 0 {
        Seq::empty()
    } else {
        resolved_diags(rs.drop_last()) + crate::types::diags_view(rs.last().1@)
            + crate::types::diags_view(rs.last().2@)
    }
}

/// Appends copies of `src` to `out`.
fn extend_diags(out: &mut Vec<crate::types::Diagnostic>, src: &Vec<crate::types::Diagnostic>)
    ensures
        crate::types::diags_view(final(out)@)
            == crate::types::diags_view(old(out)@) + crate::types::diags_view(src@),
{
    let ghost before = crate::types::diags_view(out@);
    let mut i: usize = 0;
    proof { assert(before + crate::types::diags_view(src@.take(0)) =~= before); }
    while i < src.len()
        invariant
            i <= src.len(),
            before == crate::types::diags_view(old(out)@),
            crate::types::diags_view(out@) == before + crate::types::diags_view(src@.take(i as int)),
        decreases src.len() - i,
    {
        let ghost prev = crate::types::diags_view(out@);
        let d = src[i].clone();
        out.push(d);
        proof {
            assert(crate::types::diags_view(out@) =~= prev.push(d@));
            assert(crate::types::diags_view(src@.take(i + 1))
                =~= crate::types::diags_view(src@.take(i as int)).push(src@[i as int]@));
            assert(before + crate::types::diags_view(src@.take(i + 1))
                =~= (before + crate::types::diags_view(src@.take(i as int))).push(d@));
        }
        i = i + 1;
    }
    proof { assert(src@.take(src.len() as int) =~= src@); }
}

/// The diagnostics of one change of a watched file: the failure to read it,
/// if any, then each re-resolved component's hooks' and own diagnostics.
pub open spec fn update_diags(io: Option<crate::types::Diagnostic>, rs: Seq<Resolved>) -> Seq<crate::types::SpecDiagnostic> {
    io_diags(io) + resolved_diags(rs)
}

/// The failure to read a file, as a list of at most one diagnostic.
pub open spec fn io_diags(io: Option<crate::types::Diagnostic>) -> Seq<crate::types::SpecDiagnostic> {
    match io {
        Some(d) => seq![d@],
        None => Seq::empty(),
    }
}

/// Settles one change of a watched file, from the failure to read it (if
/// any) and the re-resolved components of every affected file: the
/// components in order; every diagnostic of the change; and what is kept as
/// the changed file's diagnostics, the same list, or nothing when it is
/// empty (the file's earlier diagnostics are then cleared).
pub fn settle_file_update(
    io: Option<crate::types::Diagnostic>,
    results: Vec<Resolved>,
) -> (res: (Vec<crate::types::ComponentEntry>, Vec<crate::types::Diagnostic>, Option<Vec<crate::types::Diagnostic>>))
    ensures
        res.0@.map_values(|e: crate::types::ComponentEntry| e@)
            == results@.map_values(|r: Resolved| r.0@),
        crate::types::diags_view(res.1@) == update_diags(io, results@),
        match res.2 {
            Some(kept) => crate::types::diags_view(kept@) == update_diags(io, results@)
                && update_diags(io, results@).len() > 0,
            None => update_diags(io, results@).len() == 0,
        },
{
    let ghost src = results@;
    let ghost head = io_diags(io);
    let ghost io_v = io;
    let mut components: Vec<crate::types::ComponentEntry> = Vec::new();
    let mut all: Vec<crate::types::Diagnostic> = Vec::new();
    match io {
        Some(d) => {
            all.push(d);
        },
        None => {},
    }
    proof {
        assert(crate::types::diags_view(all@) =~= head);
        assert(head + resolved_diags(src.take(0)) =~= head);
        assert(components@.map_values(|e: crate::types::ComponentEntry| e@)
            =~= src.take(0).map_values(|r: Resolved| r.0@));
    }
    let mut i: usize = 0;
    while i < results.len()
        invariant
            i <= results.len(),
            src == results@,
            head == io_diags(io_v),
            components@.map_values(|e: crate::types::ComponentEntry| e@)
                == src.take(i as int).map_values(|r: Resolved| r.0@),
            crate::types::diags_view(all@) == head + resolved_diags(src.take(i as int)),
        decreases results.len() - i,
    {
        proof {
            assert(src.take(i + 1).drop_last() =~= src.take(i as int));
            assert(src.take(i + 1).last() == src[i as int]);
        }
        let r = &results[i];
        let ghost a0 = crate::types::diags_view(all@);
        extend_diags(&mut all, &r.1);
        extend_diags(&mut all, &r.2);
        proof {
            assert(a0 + crate::types::diags_view(r.1@) + crate::types::diags_view(r.2@)
                =~= head + resolved_diags(src.take(i + 1)));
        }
        let ghost c0 = components@.map_values(|e: crate::types::ComponentEntry| e@);
        let e = r.0.clone();
        components.push(e);
        proof {
            assert(components@.map_values(|e: crate::types::ComponentEntry| e@) =~= c0.push(e@));
            assert(src.take(i + 1).map_values(|r: Resolved| r.0@)
                =~= src.take(i as int).map_values(|r: Resolved| r.0@).push(src[i as int].0@));
        }
        i = i + 1;
    }
    proof {
        assert(src.take(results.len() as int) =~= src);
        assert(head + resolved_diags(src) == update_diags(io_v, src));
    }
    if all.len() == 0 {
        (components, all, None)
    } else {
        let mut kept: Vec<crate::types::Diagnostic> = Vec::new();
        extend_diags(&mut kept, &all);
        proof { assert(Seq::<crate::types::SpecDiagnostic>::empty() + crate::types::diags_view(all@) =~= crate::types::diags_view(all@)); }
        (components, all, Some(kept))
    }
}

// ─── Law of the affected files ───────────────────────────────────────────────

/// The files affected by a change of `changed` form the least set that holds
/// `changed` and every direct dependent of each of its members: that set
/// holds `changed`, holds every direct dependent of its members, and lies
/// inside every other set `s` with both properties.
pub proof fn law_affected_is_least_closed_set(
    groups: Seq<(Seq<char>, Seq<Seq<char>>)>,
    changed: Seq<char>,
    s: Set<Seq<char>>,
)
    ensures
        depends_on(groups, changed, changed),
        forall|v: Seq<char>, t: Seq<char>|
            depends_on(groups, changed, v) && #[trigger] dependents(groups, v).contains(t)
                ==> depends_on(groups, changed, t),
        s.contains(changed)
            && (forall|v: Seq<char>, t: Seq<char>| s.contains(v) && #[trigger] dependents(groups, v).contains(t) ==> s.contains(t))
            ==> forall|x: Seq<char>| depends_on(groups, changed, x) ==> s.contains(x),
{
    let p0 = seq![changed];
    assert(is_dep_path(groups, p0));
    assert forall|v: Seq<char>, t: Seq<char>|
        depends_on(groups, changed, v) && #[trigger] dependents(groups, v).contains(t)
        implies depends_on(groups, changed, t) by {
        lemma_depends_step(groups, changed, v, t);
    }
    if s.contains(changed)
        && (forall|v: Seq<char>, t: Seq<char>| s.contains(v) && #[trigger] dependents(groups, v).contains(t) ==> s.contains(t))
    {
        assert forall|x: Seq<char>| depends_on(groups, changed, x) implies s.contains(x) by {
            let p = choose|p: Seq<Seq<char>>| #[trigger] is_dep_path(groups, p) && p[0] == changed && p.last() == x;
            lemma_closed_holds_chain(groups, s, changed, p);
        }
    }
}

// ─── Law of the source-directory check ───────────────────────────────────────

proof fn lemma_contains_in_concat(a: Seq<char>, b: Seq<char>, p: Seq<char>)
    ensures
        seq_contains_seq(a, p) ==> seq_contains_seq(a + b, p),
        seq_contains_seq(b, p) ==> seq_contains_seq(a + b, p),
{
    if seq_contains_seq(a, p) {
        let k = choose|k: int| 0 <= k <= a.len() - p.len() && #[trigger] a.subrange(k, k + p.len()) == p;
        assert((a + b).subrange(k, k + p.len()) =~= a.subrange(k, k + p.len()));
    }
    if seq_contains_seq(b, p) {
        let k = choose|k: int| 0 <= k <= b.len() - p.len() && #[trigger] b.subrange(k, k + p.len()) == p;
        assert((a + b).subrange(a.len() + k, a.len() + k + p.len()) =~= b.subrange(k, k + p.len()));
    }
}

proof fn lemma_contains_self(p: Seq<char>)
    ensures
        seq_contains_seq(p, p),
{
    assert(p.subrange(0int, 0int + p.len()) =~= p);
}

proof fn lemma_join_contains_each(ss: Seq<Seq<char>>, sep: Seq<char>)
    ensures
        forall|i: int| 0 <= i < ss.len() ==> seq_contains_seq(crate::render::join_strs(ss, sep), #[trigger] ss[i]),
    decreases ss.len(),
{
    if ss.len() == 1 {
        lemma_contains_self(ss[0]);
    } else if ss.len() > 1 {
        let prev = crate::render::join_strs(ss.drop_last(), sep);
        lemma_join_contains_each(ss.drop_last(), sep);
        assert forall|i: int| 0 <= i < ss.len()
            implies seq_contains_seq(crate::render::join_strs(ss, sep), #[trigger] ss[i]) by {
            assert(crate::render::join_strs(ss, sep) == prev + sep + ss.last());
            if i < ss.len() - 1 {
                assert(ss.drop_last()[i] == ss[i]);
                lemma_contains_in_concat(prev, sep, ss[i]);
                lemma_contains_in_concat(prev + sep, ss.last(), ss[i]);
            } else {
                lemma_contains_self(ss.last());
                lemma_contains_in_concat(prev + sep, ss.last(), ss[i]);
            }
        }
    }
}

/// When none of the configured source directories exists, the one error
/// reported names every one of them.
pub proof fn law_missing_dirs_error_names_every_dir(dirs: Seq<(Seq<char>, bool)>)
    requires
        dirs.len() > 0,
        forall|i: int| 0 <= i < dirs.len() ==> !(#[trigger] dirs[i]).1,
    ensures
        spec_src_dir_diagnostics(dirs).len() == 1,
        spec_src_dir_diagnostics(dirs)[0].severity == crate::types::DiagnosticSeverity::Error,
        spec_src_dir_diagnostics(dirs)[0].code == crate::types::DiagnosticCode::IoError,
        forall|i: int| 0 <= i < dirs.len()
            ==> seq_contains_seq(spec_src_dir_diagnostics(dirs)[0].message, (#[trigger] dirs[i]).0),
{
    let names = dirs.map_values(|d: (Seq<char>, bool)| d.0);
    let head = "None of the configured source directories exist: "@;
    lemma_join_contains_each(names, ", "@);
    assert forall|i: int| 0 <= i < dirs.len()
        implies seq_contains_seq(spec_src_dir_diagnostics(dirs)[0].message, (#[trigger] dirs[i]).0) by {
        assert(names[i] == dirs[i].0);
        lemma_contains_in_concat(head, crate::render::join_strs(names, ", "@), dirs[i].0);
    }
}

/// Whether two lists of resolved components hold the same values, entry for
/// entry and diagnostic for diagnostic.
pub open spec fn same_resolved(a: Seq<Resolved>, b: Seq<Resolved>) -> bool {
    &&& a.len() == b.len()
    &&& forall|i: int| 0 <= i < a.len() ==> {
        &&& (#[trigger] a[i]).0@ == b[i].0@
        &&& crate::types::diags_view(a[i].1@) == crate::types::diags_view(b[i].1@)
        &&& crate::types::diags_view(a[i].2@) == crate::types::diags_view(b[i].2@)
    }
}

proof fn lemma_name_count_same(a: Seq<Resolved>, b: Seq<Resolved>, name: Seq<char>)
    requires
        same_resolved(a, b),
    ensures
        name_count(a, name) == name_count(b, name),
    decreases a.len(),
{
    if a.len() > 0 {
        assert(same_resolved(a.drop_last(), b.drop_last())) by {
            assert forall|i: int| 0 <= i < a.drop_last().len() implies {
                &&& (#[trigger] a.drop_last()[i]).0@ == b.drop_last()[i].0@
                &&& crate::types::diags_view(a.drop_last()[i].1@) == crate::types::diags_view(b.drop_last()[i].1@)
                &&& crate::types::diags_view(a.drop_last()[i].2@) == crate::types::diags_view(b.drop_last()[i].2@)
            } by {
                assert(a.drop_last()[i] == a[i] && b.drop_last()[i] == b[i]);
            }
        }
        lemma_name_count_same(a.drop_last(), b.drop_last(), name);
        assert(a.last() == a[a.len() - 1] && b.last() == b[b.len() - 1]);
    }
}

/// The component table and its diagnostics depend on nothing but the values
/// resolved: two runs that resolve the same components, in the same order,
/// give the same keys, in the same increasing order, with the same entries
/// and diagnostics.
pub proof fn law_component_table_is_deterministic(a: Seq<Resolved>, b: Seq<Resolved>)
    requires
        same_resolved(a, b),
    ensures
        keyed_components(a) == keyed_components(b),
        keys_increasing(keyed_components(a).0),
    decreases a.len(),
{
    law_component_keys_increasing(a);
    if a.len() > 0 {
        assert(same_resolved(a.drop_last(), b.drop_last())) by {
            assert forall|i: int| 0 <= i < a.drop_last().len() implies {
                &&& (#[trigger] a.drop_last()[i]).0@ == b.drop_last()[i].0@
                &&& crate::types::diags_view(a.drop_last()[i].1@) == crate::types::diags_view(b.drop_last()[i].1@)
                &&& crate::types::diags_view(a.drop_last()[i].2@) == crate::types::diags_view(b.drop_last()[i].2@)
            } by {
                assert(a.drop_last()[i] == a[i] && b.drop_last()[i] == b[i]);
            }
        }
        law_component_table_is_deterministic(a.drop_last(), b.drop_last());
        assert(a.last() == a[a.len() - 1] && b.last() == b[b.len() - 1]);
        lemma_name_count_same(a, b, a.last().0.display_name@);
    }
}

/// The warning for a configured source directory that does not exist.
pub open spec fn missing_dir_warning(dir: Seq<char>) -> crate::types::SpecDiagnostic {
    crate::types::spec_file_diag(
        crate::types::DiagnosticSeverity::Warning,
        crate::types::DiagnosticCode::IoError,
        "Source directory does not exist: "@ + dir,
        dir,
        Some(src_dir_help()),
    )
}

proof fn lemma_no_missing_no_warnings(dirs: Seq<(Seq<char>, bool)>)
    ensures
        (forall|j: int| 0 <= j < dirs.len() ==> (#[trigger] dirs[j]).1) ==> missing_dir_warnings(dirs).len() == 0,
    decreases dirs.len(),
{
    if dirs.len() > 0 && forall|j: int| 0 <= j < dirs.len() ==> (#[trigger] dirs[j]).1 {
        let rest = dirs.drop_last();
        assert forall|j: int| 0 <= j < rest.len() implies (#[trigger] rest[j]).1 by {
            assert(rest[j] == dirs[j]);
        }
        lemma_no_missing_no_warnings(rest);
        assert(dirs.last() == dirs[dirs.len() - 1]);
    }
}

proof fn lemma_missing_dir_warnings(dirs: Seq<(Seq<char>, bool)>)
    ensures
        missing_dir_warnings(dirs)
            == dirs.filter(|d: (Seq<char>, bool)| !d.1).map_values(|d: (Seq<char>, bool)| missing_dir_warning(d.0)),
    decreases dirs.len(),
{
    reveal(Seq::filter);
    if dirs.len() > 0 {
        lemma_missing_dir_warnings(dirs.drop_last());
        let f = dirs.drop_last().filter(|d: (Seq<char>, bool)| !d.1);
        assert(f.push(dirs.last()).map_values(|d: (Seq<char>, bool)| missing_dir_warning(d.0))
            =~= f.map_values(|d: (Seq<char>, bool)| missing_dir_warning(d.0)).push(missing_dir_warning(dirs.last().0)));
    }
}

/// When some but not all configured source directories exist, there is no
/// error: each missing directory, in order, gets one warning naming it, and
/// nothing else is reported; when all exist, nothing is reported.
pub proof fn law_some_missing_dirs_each_warned(dirs: Seq<(Seq<char>, bool)>)
    requires
        exists|j: int| 0 <= j < dirs.len() && (#[trigger] dirs[j]).1,
    ensures
        spec_src_dir_diagnostics(dirs)
            == dirs.filter(|d: (Seq<char>, bool)| !d.1).map_values(|d: (Seq<char>, bool)| missing_dir_warning(d.0)),
        forall|i: int| 0 <= i < spec_src_dir_diagnostics(dirs).len()
            ==> (#[trigger] spec_src_dir_diagnostics(dirs)[i]).severity == crate::types::DiagnosticSeverity::Warning,
        (forall|j: int| 0 <= j < dirs.len() ==> (#[trigger] dirs[j]).1) ==> spec_src_dir_diagnostics(dirs).len() == 0,
{
    lemma_missing_dir_warnings(dirs);
    let j = choose|j: int| 0 <= j < dirs.len() && (#[trigger] dirs[j]).1;
    assert(dirs.len() > 0);
    assert(!(forall|i: int| 0 <= i < dirs.len() ==> !(#[trigger] dirs[i]).1));
    lemma_no_missing_no_warnings(dirs);
}

// ─── Law of the reverse import graph ─────────────────────────────────────────

proof fn lemma_group_push_keeps(
    g: Seq<(Seq<char>, Seq<Seq<char>>)>,
    k: Seq<char>,
    v: Seq<char>,
    k2: Seq<char>,
    v2: Seq<char>,
)
    ensures
        dependents(g, k2).contains(v2) ==> dependents(group_push(g, k, v), k2).contains(v2),
        dependents(group_push(g, k, v), k).contains(v),
{
    let r = group_push(g, k, v);
    lemma_first_key_index_bounds(g, k);
    lemma_first_key_index_bounds(g, k2);
    let i = first_key_index(g, k);
    let i2 = first_key_index(g, k2);
    if i < g.len() {
        assert forall|j: int| 0 <= j < i2 implies r[j].0 != k2 by {
            assert(r[j].0 == g[j].0);
        }
        if i2 < g.len() {
            assert(r[i2].0 == k2);
        }
        lemma_first_key_index_is(r, k2, i2);
        assert forall|j: int| 0 <= j < i implies r[j].0 != k by {
            assert(r[j].0 == g[j].0);
        }
        lemma_first_key_index_is(r, k, i);
        assert(r[i].1 == g[i].1.push(v));
        assert(r[i].1[g[i].1.len() as int] == v);
        if dependents(g, k2).contains(v2) {
            let t = choose|t: int| 0 <= t < g[i2].1.len() && g[i2].1[t] == v2;
            if i2 == i {
                assert(r[i].1[t] == v2);
            } else {
                assert(r[i2] == g[i2]);
            }
        }
    } else {
        assert forall|j: int| 0 <= j < i2 implies r[j].0 != k2 by {
            assert(r[j] == g[j]);
        }
        if i2 < g.len() {
            assert(r[i2] == g[i2]);
            lemma_first_key_index_is(r, k2, i2);
        }
        assert forall|j: int| 0 <= j < g.len() implies r[j].0 != k by {
            assert(r[j] == g[j]);
        }
        lemma_first_key_index_is(r, k, g.len() as int);
        assert(r[g.len() as int].1 == seq![v]);
        assert(seq![v][0] == v);
        if dependents(g, k2).contains(v2) {
            let t = choose|t: int| 0 <= t < g[i2].1.len() && g[i2].1[t] == v2;
            assert(r[i2].1[t] == v2);
        }
    }
}

proof fn lemma_group_all_has(
    g: Seq<(Seq<char>, Seq<Seq<char>>)>,
    pairs: Seq<(Seq<char>, Seq<char>)>,
    k: Seq<char>,
    v: Seq<char>,
)
    requires
        pairs.contains((k, v)),
    ensures
        dependents(group_all(g, pairs), k).contains(v),
    decreases pairs.len(),
{
    let prev = group_all(g, pairs.drop_last());
    lemma_group_push_keeps(prev, pairs.last().0, pairs.last().1, k, v);
    if pairs.last() != (k, v) {
        let t = choose|t: int| 0 <= t < pairs.len() && pairs[t] == (k, v);
        assert(pairs.drop_last()[t] == (k, v));
        lemma_group_all_has(g, pairs.drop_last(), k, v);
    }
}

proof fn lemma_reverse_pairs_has(
    im: Seq<(Seq<char>, Seq<SpecImportBinding>)>,
    ci: int,
    bi: int,
    x: (Seq<char>, Seq<char>),
)
    requires
        0 <= ci < im.len(),
        0 <= bi < im[ci].1.len(),
        binding_pairs(im[ci].0, im[ci].1[bi]).contains(x),
    ensures
        reverse_pairs(im).contains(x),
    decreases im.len(),
{
    if ci < im.len() - 1 {
        assert(im.drop_last()[ci] == im[ci]);
        lemma_reverse_pairs_has(im.drop_last(), ci, bi, x);
        let t = choose|t: int| 0 <= t < reverse_pairs(im.drop_last()).len() && reverse_pairs(im.drop_last())[t] == x;
        assert(reverse_pairs(im)[t] == x);
    } else {
        lemma_bindings_pairs_has(im[ci].0, im[ci].1, bi, x);
        let prev = reverse_pairs(im.drop_last());
        let bp = bindings_pairs(im.last().0, im.last().1);
        let t = choose|t: int| 0 <= t < bp.len() && bp[t] == x;
        assert(reverse_pairs(im)[prev.len() + t] == x);
    }
}

proof fn lemma_bindings_pairs_has(consumer: Seq<char>, bs: Seq<SpecImportBinding>, bi: int, x: (Seq<char>, Seq<char>))
    requires
        0 <= bi < bs.len(),
        binding_pairs(consumer, bs[bi]).contains(x),
    ensures
        bindings_pairs(consumer, bs).contains(x),
    decreases bs.len(),
{
    let prev = bindings_pairs(consumer, bs.drop_last());
    if bi < bs.len() - 1 {
        assert(bs.drop_last()[bi] == bs[bi]);
        lemma_bindings_pairs_has(consumer, bs.drop_last(), bi, x);
        let t = choose|t: int| 0 <= t < prev.len() && prev[t] == x;
        assert(bindings_pairs(consumer, bs)[t] == x);
    } else {
        let bp = binding_pairs(consumer, bs.last());
        let t = choose|t: int| 0 <= t < bp.len() && bp[t] == x;
        assert(bindings_pairs(consumer, bs)[prev.len() + t] == x);
    }
}

/// Every relative import (its specifier starting with `.`, as `./x` and
/// `../x` do) makes the importing file a dependent of each file the import
/// may stand for: the specifier joined to the importer's directory, with
/// each of `.ts`, `.tsx`, `/index.ts` and `/index.tsx` appended.
pub proof fn law_relative_imports_make_dependents(
    im: Seq<(Seq<char>, Seq<SpecImportBinding>)>,
    ci: int,
    bi: int,
    parent: Seq<char>,
    e: int,
)
    requires
        0 <= ci < im.len(),
        0 <= bi < im[ci].1.len(),
        im[ci].1[bi].specifier.len() > 0,
        im[ci].1[bi].specifier[0] == '.',
        spec_parent_dir(im[ci].0) == Some(parent),
        0 <= e < 4,
    ensures
        dependents(
            group_all(Seq::empty(), reverse_pairs(im)),
            spec_join_path(parent, im[ci].1[bi].specifier) + import_extensions()[e],
        ).contains(im[ci].0),
{
    let consumer = im[ci].0;
    let b = im[ci].1[bi];
    reveal_strlit(".");
    assert(b.specifier.subrange(0, 1) =~= "."@);
    assert(seq_starts_with(b.specifier, "."@));
    let bp = binding_pairs(consumer, b);
    let x = (spec_join_path(parent, b.specifier) + import_extensions()[e], consumer);
    assert(bp[e] == x);
    lemma_reverse_pairs_has(im, ci, bi, x);
    lemma_group_all_has(Seq::empty(), reverse_pairs(im), x.0, x.1);
}

} // verus!
