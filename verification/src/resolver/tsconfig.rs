//! Path aliases from a tsconfig's `compilerOptions.paths`, in the form the
//! module resolver takes them, the comment stripping that makes a tsconfig
//! file parseable as JSON, and the reading of the parsed JSON.

use vstd::prelude::*;
use crate::chars::{line_ranges, lines_of, trim_end_matches, trim_end_matches_range};
use crate::render::{join_strs, lemma_join_push};
use crate::resolver::context::{join_path, parent_dir, spec_join_path, spec_parent_dir};
use crate::text::{chars_of, str_eq, string_from_chars};
use crate::types::strs_view;

verus! {

// ─── Comment stripping ───────────────────────────────────────────────────────

/// Index of the first `//` in `l` at or after `i`, or -1.
pub open spec fn find_double_slash(l: Seq<char>, i: int) -> int
    decreases l.len() - i,
{
    if i < 0 || i + 1 >= l.len() {
        -1
    } else if l[i] == '/' && l[i + 1] == '/' {
        i
    } else {
        find_double_slash(l, i + 1)
    }
}

/// Number of `"` characters in `s`.
pub open spec fn count_quotes(s: Seq<char>) -> int
    decreases s.len(),
{
    if s.len() == 0 {
        0
    } else {
        count_quotes(s.drop_last()) + if s.last() == '"' { 1int } else { 0int }
    }
}

/// A line with a trailing `//` comment removed, unless the `//` stands
/// after an odd number of quotes (inside a string, by that heuristic).
pub open spec fn strip_line_comment(l: Seq<char>) -> Seq<char> {
    let i = find_double_slash(l, 0);
    if i >= 0 && count_quotes(l.take(i)) % 2 == 0 { l.take(i) } else { l }
}

/// `s` with single-line `//` comments removed, line by line, the lines
/// joined with `\n`. Block comments are left alone.
pub open spec fn spec_strip_json_comments(s: Seq<char>) -> Seq<char> {
    join_strs(lines_of(s).map_values(|l: Seq<char>| strip_line_comment(l)), "\n"@)
}

proof fn lemma_find_double_slash_bounds(l: Seq<char>, i: int)
    ensures
        find_double_slash(l, i) >= -1,
        find_double_slash(l, i) >= 0 ==> i <= find_double_slash(l, i) && find_double_slash(l, i) + 1 < l.len(),
    decreases l.len() - i,
{
    if i >= 0 && i + 1 < l.len() && !(l[i] == '/' && l[i + 1] == '/') {
        lemma_find_double_slash_bounds(l, i + 1);
    }
}

/// Position of the first `//` in `c[lo..hi]`, relative to `lo`.
fn find_double_slash_range(c: &Vec<char>, lo: usize, hi: usize) -> (res: Option<usize>)
    requires
        lo <= hi <= c@.len(),
    ensures
        match res {
            Some(k) => k == find_double_slash(c@.subrange(lo as int, hi as int), 0),
            None => find_double_slash(c@.subrange(lo as int, hi as int), 0) == -1,
        },
{
    let ghost l = c@.subrange(lo as int, hi as int);
    let mut i: usize = lo;
    while hi - i >= 2
        invariant
            lo <= i <= hi,
            hi <= c@.len(),
            l == c@.subrange(lo as int, hi as int),
            find_double_slash(l, 0) == find_double_slash(l, i - lo),
        decreases hi - i,
    {
        if c[i] == '/' && c[i + 1] == '/' {
            return Some(i - lo);
        }
        i = i + 1;
    }
    None
}

/// Number of `"` characters in `c[lo..hi]`.
fn count_quotes_range(c: &Vec<char>, lo: usize, hi: usize) -> (res: usize)
    requires
        lo <= hi <= c@.len(),
    ensures
        res as int == count_quotes(c@.subrange(lo as int, hi as int)),
{
    let mut n: usize = 0;
    let mut i: usize = lo;
    while i < hi
        invariant
            lo <= i <= hi,
            hi <= c@.len(),
            n <= i - lo,
            n as int == count_quotes(c@.subrange(lo as int, i as int)),
        decreases hi - i,
    {
        proof { assert(c@.subrange(lo as int, i + 1).drop_last() =~= c@.subrange(lo as int, i as int)); }
        if c[i] == '"' {
            n = n + 1;
        }
        i = i + 1;
    }
    n
}

/// Removes single-line `//` comments from a tsconfig text: on each line, a
/// `//` preceded by an even number of quotes and everything after it. The
/// lines are joined with `\n`; block comments are not handled.
pub fn strip_json_comments(s: &str) -> (res: String)
    ensures
        res@ == spec_strip_json_comments(s@),
{
    let c = chars_of(s);
    let ranges = line_ranges(&c, 0, c.len());
    proof { assert(c@.subrange(0, c@.len() as int) =~= s@); }
    let ghost lines = lines_of(s@);
    let ghost target = lines.map_values(|l: Seq<char>| strip_line_comment(l));
    let mut out = String::new();
    let mut k: usize = 0;
    proof {
        assert(ranges@.map_values(|r: (usize, usize)| c@.subrange(r.0 as int, r.1 as int)) == lines);
        assert(target.subrange(0, 0) =~= Seq::<Seq<char>>::empty());
    }
    while k < ranges.len()
        invariant
            k <= ranges.len(),
            c@ == s@,
            forall|q: int| 0 <= q < ranges@.len() ==> (#[trigger] ranges@[q]).0 <= ranges@[q].1 <= c@.len(),
            ranges@.map_values(|r: (usize, usize)| c@.subrange(r.0 as int, r.1 as int)) == lines,
            target == lines.map_values(|l: Seq<char>| strip_line_comment(l)),
            out@ == join_strs(target.subrange(0, k as int), "\n"@),
        decreases ranges.len() - k,
    {
        let (lo, hi) = ranges[k];
        let ghost l = c@.subrange(lo as int, hi as int);
        proof {
            assert(lines[k as int] == l);
            assert(target[k as int] == strip_line_comment(l));
        }
        proof { lemma_find_double_slash_bounds(l, 0); }
        let piece: String = match find_double_slash_range(&c, lo, hi) {
            Some(idx) => {
                let cut = lo + idx;
                proof { assert(c@.subrange(lo as int, cut as int) =~= l.take(idx as int)); }
                if count_quotes_range(&c, lo, cut) % 2 == 0 {
                    string_from_chars(&c, lo, cut)
                } else {
                    string_from_chars(&c, lo, hi)
                }
            },
            None => string_from_chars(&c, lo, hi),
        };
        proof {
            lemma_join_push(target.subrange(0, k as int), "\n"@, piece@);
            assert(target.subrange(0, k + 1) =~= target.subrange(0, k as int).push(piece@));
        }
        if k > 0 {
            out.append("\n");
        }
        out.append(piece.as_str());
        k = k + 1;
    }
    proof { assert(target.subrange(0, ranges.len() as int) =~= target); }
    out
}

// ─── Path aliases ────────────────────────────────────────────────────────────

/// The directory of the tsconfig file (the path itself when it has none).
pub open spec fn tsconfig_dir(tsconfig: Seq<char>) -> Seq<char> {
    match spec_parent_dir(tsconfig) {
        Some(d) => d,
        None => tsconfig,
    }
}

/// The directory alias targets are relative to: `baseUrl` under the
/// tsconfig's directory, or that directory.
pub open spec fn alias_root(tsconfig: Seq<char>, base_url: Option<Seq<char>>) -> Seq<char> {
    match base_url {
        Some(b) => spec_join_path(tsconfig_dir(tsconfig), b),
        None => tsconfig_dir(tsconfig),
    }
}

/// A target pattern without its trailing wildcard: `"./src/lib/*"` is `"./src/lib"`.
pub open spec fn strip_wildcard(t: Seq<char>) -> Seq<char> {
    trim_end_matches(trim_end_matches(t, "/*"@), "*"@)
}

/// The resolved paths of the string targets, in order.
pub open spec fn alias_targets(root: Seq<char>, targets: Seq<Option<Seq<char>>>) -> Seq<Seq<char>>
    decreases targets.len(),
{
    if targets.len() == 0 {
        Seq::empty()
    } else {
        let prev = alias_targets(root, targets.drop_last());
        match targets.last() {
            Some(t) => prev.push(spec_join_path(root, strip_wildcard(t))),
            None => prev,
        }
    }
}

/// The aliases of `paths`: entries whose targets are not an array are skipped.
pub open spec fn spec_tsconfig_aliases(
    tsconfig: Seq<char>,
    base_url: Option<Seq<char>>,
    paths: Seq<(Seq<char>, Option<Seq<Option<Seq<char>>>>)>,
) -> Seq<(Seq<char>, Seq<Seq<char>>)>
    decreases paths.len(),
{
    if paths.len() == 0 {
        Seq::empty()
    } else {
        let prev = spec_tsconfig_aliases(tsconfig, base_url, paths.drop_last());
        match paths.last().1 {
            Some(ts) => prev.push((
                trim_end_matches(paths.last().0, "/*"@),
                alias_targets(alias_root(tsconfig, base_url), ts),
            )),
            None => prev,
        }
    }
}

pub open spec fn opt_targets_view(t: Option<Vec<Option<String>>>) -> Option<Seq<Option<Seq<char>>>> {
    match t {
        Some(v) => Some(v@.map_values(|o: Option<String>| crate::types::opt_str_view(o))),
        None => None,
    }
}

pub open spec fn paths_view(p: Seq<(String, Option<Vec<Option<String>>>)>) -> Seq<(Seq<char>, Option<Seq<Option<Seq<char>>>>)> {
    p.map_values(|e: (String, Option<Vec<Option<String>>>)| (e.0@, opt_targets_view(e.1)))
}

/// `s` with `p` removed from its end as often as it repeats.
fn trim_end_str(s: &str, p: &str) -> (res: String)
    ensures
        res@ == trim_end_matches(s@, p@),
{
    let c = chars_of(s);
    let pc = chars_of(p);
    proof { assert(c@.subrange(0, c@.len() as int) =~= s@); }
    let e = trim_end_matches_range(&c, 0, c.len(), &pc);
    string_from_chars(&c, 0, e)
}

/// The module resolver's aliases for a tsconfig at `tsconfig` with the given
/// `baseUrl` and `paths` entries (pattern, targets; a target that is not a
/// string is `None`, targets that are not an array are `None`). Each
/// pattern loses a trailing `/*`; each target its trailing wildcard, and is
/// resolved against `baseUrl` or the tsconfig's directory.
pub fn tsconfig_aliases(
    tsconfig: &str,
    base_url: Option<&str>,
    paths: &Vec<(String, Option<Vec<Option<String>>>)>,
) -> (res: Vec<(String, Vec<String>)>)
    ensures
        res@.map_values(|a: (String, Vec<String>)| (a.0@, strs_view(a.1@)))
            == spec_tsconfig_aliases(tsconfig@, crate::react_types::opt_str_view(base_url), paths_view(paths@)),
{
    let dir: String = match parent_dir(tsconfig) {
        Some(d) => d,
        None => tsconfig.to_owned(),
    };
    let root: String = match base_url {
        Some(b) => join_path(dir.as_str(), b),
        None => dir,
    };
    let ghost bv = crate::react_types::opt_str_view(base_url);
    proof { assert(root@ == alias_root(tsconfig@, bv)); }
    let ghost pv = paths_view(paths@);
    let mut out: Vec<(String, Vec<String>)> = Vec::new();
    let mut i: usize = 0;
    proof { assert(pv.take(0) =~= Seq::<(Seq<char>, Option<Seq<Option<Seq<char>>>>)>::empty()); }
    while i < paths.len()
        invariant
            i <= paths.len(),
            pv == paths_view(paths@),
            root@ == alias_root(tsconfig@, bv),
            out@.map_values(|a: (String, Vec<String>)| (a.0@, strs_view(a.1@)))
                == spec_tsconfig_aliases(tsconfig@, bv, pv.take(i as int)),
        decreases paths.len() - i,
    {
        proof {
            assert(pv.take(i + 1).drop_last() =~= pv.take(i as int));
            assert(pv.take(i + 1).last() == pv[i as int]);
        }
        match &paths[i].1 {
            Some(targets) => {
                let ghost tv = targets@.map_values(|o: Option<String>| crate::types::opt_str_view(o));
                let mut resolved: Vec<String> = Vec::new();
                let mut j: usize = 0;
                proof { assert(tv.take(0) =~= Seq::<Option<Seq<char>>>::empty()); }
                while j < targets.len()
                    invariant
                        j <= targets.len(),
                        tv == targets@.map_values(|o: Option<String>| crate::types::opt_str_view(o)),
                        strs_view(resolved@) == alias_targets(root@, tv.take(j as int)),
                    decreases targets.len() - j,
                {
                    proof {
                        assert(tv.take(j + 1).drop_last() =~= tv.take(j as int));
                        assert(tv.take(j + 1).last() == tv[j as int]);
                    }
                    match &targets[j] {
                        Some(t) => {
                            let a = trim_end_str(t.as_str(), "/*");
                            let b = trim_end_str(a.as_str(), "*");
                            let joined = join_path(root.as_str(), b.as_str());
                            let ghost old_r = strs_view(resolved@);
                            resolved.push(joined);
                            proof { assert(strs_view(resolved@) =~= old_r.push(joined@)); }
                        },
                        None => {},
                    }
                    j = j + 1;
                }
                proof { assert(tv.take(targets.len() as int) =~= tv); }
                let pattern = trim_end_str(paths[i].0.as_str(), "/*");
                let ghost old_out = out@.map_values(|a: (String, Vec<String>)| (a.0@, strs_view(a.1@)));
                let ghost entry = (pattern@, strs_view(resolved@));
                out.push((pattern, resolved));
                proof {
                    assert(out@.map_values(|a: (String, Vec<String>)| (a.0@, strs_view(a.1@))) =~= old_out.push(entry));
                }
            },
            None => {},
        }
        i = i + 1;
    }
    proof { assert(pv.take(paths.len() as int) =~= pv); }
    out
}

// ─── Reading a tsconfig ──────────────────────────────────────────────────────

#[verifier::external_type_specification]
#[verifier::external_body]
pub struct ExJsonValue(serde_json::Value);

/// A JSON value, with object members in the order the parser gives them.
#[derive(Debug)]
pub enum JsonValue {
    Null,
    Bool(bool),
    /// A number, as serde_json writes it back.
    Number(String),
    String(String),
    Array(Vec<JsonValue>),
    Object(Vec<(String, JsonValue)>),
}

pub enum SpecJson {
    Null,
    Bool(bool),
    Number(Seq<char>),
    String(Seq<char>),
    Array(Seq<SpecJson>),
    Object(Seq<(Seq<char>, SpecJson)>),
}

pub open spec fn json_view(j: JsonValue) -> SpecJson
    decreases j,
{
    match j {
        JsonValue::Null => SpecJson::Null,
        JsonValue::Bool(b) => SpecJson::Bool(b),
        JsonValue::Number(n) => SpecJson::Number(n@),
        JsonValue::String(s) => SpecJson::String(s@),
        JsonValue::Array(v) => SpecJson::Array(
            Seq::new(v@.len(), |i: int| if 0 <= i < v@.len() { json_view(v@[i]) } else { SpecJson::Null }),
        ),
        JsonValue::Object(es) => SpecJson::Object(
            Seq::new(
                es@.len(),
                |i: int| if 0 <= i < es@.len() { (es@[i].0@, json_view(es@[i].1)) } else { (Seq::empty(), SpecJson::Null) },
            ),
        ),
    }
}

impl View for JsonValue {
    type V = SpecJson;

    open spec fn view(&self) -> SpecJson {
        json_view(*self)
    }
}

pub open spec fn json_opt_view(o: Option<JsonValue>) -> Option<SpecJson> {
    match o {
        Some(j) => Some(j@),
        None => None,
    }
}

/// What serde_json parses `text` into (`None` where it is not JSON).
pub uninterp spec fn spec_parse_json(text: Seq<char>) -> Option<SpecJson>;

/// `serde_json::from_str::<serde_json::Value>`, as a `JsonValue`. Trusted:
/// the contract only names the result, which depends on the text alone.
#[verifier::external_body]
fn parse_json(text: &str) -> (res: Option<JsonValue>)
    ensures
        json_opt_view(res) == spec_parse_json(text@),
{
    serde_json::from_str::<serde_json::Value>(text).ok().map(|v| json_from_value(&v))
}

/// A parsed `serde_json::Value` as a `JsonValue`, variant for variant.
#[verifier::external_body]
fn json_from_value(v: &serde_json::Value) -> JsonValue {
    match v {
        serde_json::Value::Null => JsonValue::Null,
        serde_json::Value::Bool(b) => JsonValue::Bool(*b),
        serde_json::Value::Number(n) => JsonValue::Number(n.to_string()),
        serde_json::Value::String(s) => JsonValue::String(s.clone()),
        serde_json::Value::Array(a) => JsonValue::Array(a.iter().map(json_from_value).collect()),
        serde_json::Value::Object(m) => {
            JsonValue::Object(m.iter().map(|(k, x)| (k.clone(), json_from_value(x))).collect())
        },
    }
}

/// The position of the first member keyed `k`, or -1.
pub open spec fn json_key_index(es: Seq<(Seq<char>, SpecJson)>, k: Seq<char>) -> int
    decreases es.len(),
{
    if es.len() == 0 {
        -1
    } else if es[0].0 == k {
        0
    } else {
        let r = json_key_index(es.drop_first(), k);
        if r < 0 {
            -1
        } else {
            r + 1
        }
    }
}

/// `v[k]`: the member keyed `k` of an object, `null` otherwise.
pub open spec fn json_field(v: SpecJson, k: Seq<char>) -> SpecJson {
    match v {
        SpecJson::Object(es) => if json_key_index(es, k) >= 0 {
            es[json_key_index(es, k)].1
        } else {
            SpecJson::Null
        },
        _ => SpecJson::Null,
    }
}

/// The targets of a `paths` entry: each string target, `None` for any other
/// item; `None` when the entry is not an array.
pub open spec fn json_targets(t: SpecJson) -> Option<Seq<Option<Seq<char>>>> {
    match t {
        SpecJson::Array(items) => Some(
            items.map_values(
                |x: SpecJson|
                    match x {
                        SpecJson::String(s) => Some(s),
                        _ => None,
                    },
            ),
        ),
        _ => None,
    }
}

/// The `baseUrl` (where it is a string) and the `paths` entries of a
/// tsconfig's `compilerOptions`; `None` where `paths` is not an object.
pub open spec fn spec_tsconfig_paths_of(config: SpecJson) -> Option<
    (Option<Seq<char>>, Seq<(Seq<char>, Option<Seq<Option<Seq<char>>>>)>),
> {
    let options = json_field(config, "compilerOptions"@);
    let base_url = match json_field(options, "baseUrl"@) {
        SpecJson::String(s) => Some(s),
        _ => None,
    };
    match json_field(options, "paths"@) {
        SpecJson::Object(es) => Some(
            (base_url, es.map_values(|e: (Seq<char>, SpecJson)| (e.0, json_targets(e.1)))),
        ),
        _ => None,
    }
}

proof fn lemma_json_view_children(j: JsonValue)
    ensures
        j matches JsonValue::Array(v) ==> j@ == SpecJson::Array(v@.map_values(|x: JsonValue| x@)),
        j matches JsonValue::Object(es) ==> j@ == SpecJson::Object(
            es@.map_values(|e: (String, JsonValue)| (e.0@, e.1@)),
        ),
{
    match j {
        JsonValue::Array(v) => { assert(j@->Array_0 =~= v@.map_values(|x: JsonValue| x@)); },
        JsonValue::Object(es) => {
            assert(j@->Object_0 =~= es@.map_values(|e: (String, JsonValue)| (e.0@, e.1@)));
        },
        _ => {},
    }
}

/// `v[k]`, `None` standing for `null`.
fn json_field_of<'a>(v: &'a JsonValue, k: &str) -> (res: Option<&'a JsonValue>)
    ensures
        json_field(v@, k@) == match res {
            Some(r) => r@,
            None => SpecJson::Null,
        },
{
    proof { lemma_json_view_children(*v); }
    match v {
        JsonValue::Object(es) => {
            let ghost ev = es@.map_values(|e: (String, JsonValue)| (e.0@, e.1@));
            let mut i: usize = 0;
            proof { assert(ev.skip(0) =~= ev); }
            while i < es.len()
                invariant
                    i <= es.len(),
                    ev == es@.map_values(|e: (String, JsonValue)| (e.0@, e.1@)),
                    v@ == SpecJson::Object(ev),
                    json_key_index(ev, k@) == if json_key_index(ev.skip(i as int), k@) < 0 {
                        -1
                    } else {
                        json_key_index(ev.skip(i as int), k@) + i
                    },
                decreases es.len() - i,
            {
                proof { assert(ev.skip(i as int)[0] == ev[i as int]); }
                if str_eq(es[i].0.as_str(), k) {
                    proof {
                        assert(json_key_index(ev, k@) == i);
                        assert(ev[i as int].1 == es@[i as int].1@);
                    }
                    return Some(&es[i].1);
                }
                proof { assert(ev.skip(i as int).drop_first() =~= ev.skip(i + 1)); }
                i = i + 1;
            }
            proof { assert(ev.skip(es@.len() as int) =~= Seq::<(Seq<char>, SpecJson)>::empty()); }
            None
        },
        _ => None,
    }
}

fn targets_of(t: &JsonValue) -> (res: Option<Vec<Option<String>>>)
    ensures
        opt_targets_view(res) == json_targets(t@),
{
    proof { lemma_json_view_children(*t); }
    match t {
        JsonValue::Array(items) => {
            let mut out: Vec<Option<String>> = Vec::new();
            let mut i: usize = 0;
            while i < items.len()
                invariant
                    i <= items.len(),
                    out@.len() == i,
                    forall|j: int|
                        0 <= j < i ==> crate::types::opt_str_view(#[trigger] out@[j]) == match items@[j]@ {
                            SpecJson::String(s) => Some(s),
                            _ => None,
                        },
                decreases items.len() - i,
            {
                proof { lemma_json_view_children(items@[i as int]); }
                let x = match &items[i] {
                    JsonValue::String(s) => Some(s.clone()),
                    _ => None,
                };
                out.push(x);
                i = i + 1;
            }
            proof {
                assert(out@.map_values(|o: Option<String>| crate::types::opt_str_view(o)) =~= items@.map_values(
                    |x: JsonValue| x@,
                ).map_values(
                    |x: SpecJson|
                        match x {
                            SpecJson::String(s) => Some(s),
                            _ => None,
                        },
                ));
            }
            Some(out)
        },
        _ => None,
    }
}

/// The `baseUrl` (where it is a string) and the `paths` entries of a parsed
/// tsconfig's `compilerOptions`; `None` where `paths` is not an object.
pub fn tsconfig_paths_of(config: &JsonValue) -> (res: Option<(Option<String>, Vec<(String, Option<Vec<Option<String>>>)>)>)
    ensures
        match res {
            Some(r) => spec_tsconfig_paths_of(config@) == Some(
                (crate::types::opt_str_view(r.0), paths_view(r.1@)),
            ),
            None => spec_tsconfig_paths_of(config@) is None,
        },
{
    let options = json_field_of(config, "compilerOptions");
    let (base_url, paths) = match options {
        None => (None, None),
        Some(o) => {
            let b = match json_field_of(o, "baseUrl") {
                Some(JsonValue::String(s)) => Some(s.clone()),
                _ => None,
            };
            (b, json_field_of(o, "paths"))
        },
    };
    match paths {
        Some(JsonValue::Object(es)) => {
            let ghost ev = es@.map_values(|e: (String, JsonValue)| (e.0@, e.1@));
            let mut out: Vec<(String, Option<Vec<Option<String>>>)> = Vec::new();
            let mut i: usize = 0;
            while i < es.len()
                invariant
                    i <= es.len(),
                    out@.len() == i,
                    forall|j: int|
                        0 <= j < i ==> (#[trigger] out@[j]).0@ == es@[j].0@ && opt_targets_view(out@[j].1)
                            == json_targets(es@[j].1@),
                decreases es.len() - i,
            {
                let t = targets_of(&es[i].1);
                out.push((es[i].0.clone(), t));
                i = i + 1;
            }
            proof {
                lemma_json_view_children(*paths.unwrap());
                assert(paths_view(out@) =~= ev.map_values(|e: (Seq<char>, SpecJson)| (e.0, json_targets(e.1))));
            }
            Some((base_url, out))
        },
        _ => {
            proof {
                match paths {
                    Some(p) => { lemma_json_view_children(*p); },
                    None => {},
                }
            }
            None
        },
    }
}

/// The aliases of a tsconfig file at `tsconfig` with the text `content`:
/// none when the text, with its line comments stripped, is not JSON or has
/// no `compilerOptions.paths` object.
pub fn tsconfig_paths_from_text(tsconfig: &str, content: &str) -> (res: Vec<(String, Vec<String>)>)
    ensures
        res@.map_values(|a: (String, Vec<String>)| (a.0@, strs_view(a.1@))) == match spec_parse_json(
            spec_strip_json_comments(content@),
        ) {
            Some(v) => match spec_tsconfig_paths_of(v) {
                Some(found) => spec_tsconfig_aliases(tsconfig@, found.0, found.1),
                None => Seq::empty(),
            },
            None => Seq::empty(),
        },
{
    let stripped = strip_json_comments(content);
    match parse_json(stripped.as_str()) {
        None => {
            let out: Vec<(String, Vec<String>)> = Vec::new();
            proof { assert(out@.map_values(|a: (String, Vec<String>)| (a.0@, strs_view(a.1@))) =~= Seq::empty()); }
            out
        },
        Some(v) => match tsconfig_paths_of(&v) {
            None => {
                let out: Vec<(String, Vec<String>)> = Vec::new();
                proof {
                    assert(out@.map_values(|a: (String, Vec<String>)| (a.0@, strs_view(a.1@))) =~= Seq::empty());
                }
                out
            },
            Some((base_url, paths)) => {
                let r = match base_url {
                    Some(b) => tsconfig_aliases(tsconfig, Some(b.as_str()), &paths),
                    None => tsconfig_aliases(tsconfig, None, &paths),
                };
                r
            },
        },
    }
}

} // verus!
verus! {

// ─── Law of comment stripping ────────────────────────────────────────────────

/// Whether `//` starts at `j` in `l`.
pub open spec fn slashes_at(l: Seq<char>, j: int) -> bool {
    0 <= j && j + 1 < l.len() && l[j] == '/' && l[j + 1] == '/'
}

proof fn lemma_find_double_slash_first(l: Seq<char>, i: int)
    requires
        i >= 0,
    ensures
        find_double_slash(l, i) >= 0 ==> slashes_at(l, find_double_slash(l, i))
            && i <= find_double_slash(l, i)
            && forall|j: int| i <= j < find_double_slash(l, i) ==> !slashes_at(l, j),
        find_double_slash(l, i) < 0 ==> forall|j: int| i <= j ==> !slashes_at(l, j),
    decreases l.len() - i,
{
    if i + 1 < l.len() && !(l[i] == '/' && l[i + 1] == '/') {
        lemma_find_double_slash_first(l, i + 1);
    }
}

/// A line is cut, if at all, at its first `//`: what stays is either the
/// whole line or the part before a `//` with no `//` earlier and an even
/// number of quotes before it; and when the first `//` of a line has an
/// even number of quotes before it, nothing from that `//` on is kept.
pub proof fn law_line_cut_at_first_double_slash(l: Seq<char>)
    ensures
        strip_line_comment(l) == l || exists|i: int| {
            &&& slashes_at(l, i)
            &&& forall|j: int| 0 <= j < i ==> !slashes_at(l, j)
            &&& count_quotes(l.take(i)) % 2 == 0
            &&& strip_line_comment(l) == #[trigger] l.take(i)
        },
        forall|i: int| #[trigger] slashes_at(l, i) && (forall|j: int| 0 <= j < i ==> !slashes_at(l, j))
            && count_quotes(l.take(i)) % 2 == 0 ==> strip_line_comment(l) == l.take(i),
{
    lemma_find_double_slash_first(l, 0);
    let k = find_double_slash(l, 0);
    if k >= 0 && count_quotes(l.take(k)) % 2 == 0 {
        assert(strip_line_comment(l) == l.take(k));
    }
    assert forall|i: int| #[trigger] slashes_at(l, i) && (forall|j: int| 0 <= j < i ==> !slashes_at(l, j))
        && count_quotes(l.take(i)) % 2 == 0 implies strip_line_comment(l) == l.take(i) by {
        if k < 0 {
            assert(!slashes_at(l, i));
        } else if k < i {
            assert(!slashes_at(l, k));
        } else if k > i {
            assert(!slashes_at(l, i));
        }
    }
}

} // verus!
