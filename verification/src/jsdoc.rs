//! JSDoc comment parsing: the description text and the `@tag` table.

use vstd::prelude::*;
use crate::chars::{
    first_index, first_ws, line_ranges, lines_of, range_starts_with, starts_with, trim, trim_end_matches,
    trim_end_matches_range, trim_range, trim_start_matches, trim_start_matches_range, find_char_range,
    find_ws_range, trim_start_range, spec_is_ws, trim_start, trim_end, lemma_first_ws_is,
};
use crate::render::{join_strs, lemma_join_push};
use crate::text::{chars_of, push_char, seq_lt, str_eq, str_lt, string_from_chars};
use crate::types::pairs_view;

verus! {

// ─── Specification ───────────────────────────────────────────────────────────

/// The body of a comment: `/**` removed from the front and `*/` from the
/// back, each as often as it repeats.
pub open spec fn jsdoc_inner(raw: Seq<char>) -> Seq<char> {
    trim_end_matches(trim_start_matches(raw, seq!['/', '*', '*']), seq!['*', '/'])
}

/// A leading `* ` or `*` removed.
pub open spec fn strip_star(l: Seq<char>) -> Seq<char> {
    if starts_with(l, seq!['*', ' ']) {
        l.skip(2)
    } else if starts_with(l, seq!['*']) {
        l.skip(1)
    } else {
        l
    }
}

pub open spec fn desc_line(l: Seq<char>) -> Seq<char> {
    strip_star(trim(l))
}

pub open spec fn desc_lines(lines: Seq<Seq<char>>) -> Seq<Seq<char>> {
    lines.map_values(|l: Seq<char>| desc_line(l))
}

/// The lines before the first one that starts with `@`.
pub open spec fn take_desc(ls: Seq<Seq<char>>) -> Seq<Seq<char>>
    decreases ls.len(),
{
    if ls.len() == 0 {
        Seq::empty()
    } else if starts_with(ls[0], seq!['@']) {
        Seq::empty()
    } else {
        seq![ls[0]] + take_desc(ls.drop_first())
    }
}

/// The description of a JSDoc comment: its lines, trimmed and without the
/// leading `*`, up to the first `@tag` line, joined and trimmed.
pub open spec fn spec_parse_jsdoc_text(raw: Seq<char>) -> Seq<char> {
    trim(join_strs(take_desc(desc_lines(lines_of(jsdoc_inner(raw)))), seq!['\n']))
}

pub open spec fn tag_line(l: Seq<char>) -> Seq<char> {
    trim(strip_star(trim(l)))
}

/// `@tag value`: the tag name up to the first whitespace, the rest trimmed.
pub open spec fn split_tag(rest: Seq<char>) -> (Seq<char>, Seq<char>) {
    let sp = first_ws(rest);
    if sp >= 0 {
        (rest.take(sp), trim(rest.skip(sp)))
    } else {
        (rest, Seq::empty())
    }
}

pub open spec fn param_prefix() -> Seq<char> {
    seq!['p', 'a', 'r', 'a', 'm', ':']
}

/// The value of a `@param` tag with any leading `{type}` removed.
pub open spec fn param_value_text(value: Seq<char>) -> Seq<char> {
    let v1 = trim_start_matches(value, seq!['{']);
    let close = first_index(v1, '}');
    if close >= 0 {
        trim(v1.skip(close + 1))
    } else {
        v1
    }
}

/// `@param name description` is stored as `param:name`.
pub open spec fn param_entry(value: Seq<char>) -> Option<(Seq<char>, Seq<char>)> {
    let v = param_value_text(value);
    let sp = first_ws(v);
    if sp >= 0 {
        Some((param_prefix() + v.take(sp), trim(v.skip(sp))))
    } else if v.len() > 0 {
        Some((param_prefix() + v, Seq::empty()))
    } else {
        None
    }
}

/// The tag table entry a line contributes, if it is a tag line.
pub open spec fn tag_entry(l: Seq<char>) -> Option<(Seq<char>, Seq<char>)> {
    let t = tag_line(l);
    if t.len() > 0 && t[0] == '@' {
        let (tag, value) = split_tag(t.skip(1));
        if tag == seq!['p', 'a', 'r', 'a', 'm'] {
            param_entry(value)
        } else {
            Some((tag, value))
        }
    } else {
        None
    }
}

/// Index of the entry keyed `k` (the last one, if several), or -1.
pub open spec fn pair_index(tags: Seq<(Seq<char>, Seq<char>)>, k: Seq<char>) -> int
    decreases tags.len(),
{
    if tags.len() == 0 {
        -1
    } else if tags.last().0 == k {
        tags.len() - 1
    } else {
        pair_index(tags.drop_last(), k)
    }
}

/// Number of entries whose key sorts before `k`.
pub open spec fn pairs_below(tags: Seq<(Seq<char>, Seq<char>)>, k: Seq<char>) -> int
    decreases tags.len(),
{
    if tags.len() == 0 {
        0
    } else {
        pairs_below(tags.drop_last(), k) + if seq_lt(tags.last().0, k) { 1int } else { 0int }
    }
}

/// Insertion into a key-ordered table: an existing key has its value
/// replaced in place, a new key goes after every smaller key.
pub open spec fn pair_insert(
    tags: Seq<(Seq<char>, Seq<char>)>,
    k: Seq<char>,
    v: Seq<char>,
) -> Seq<(Seq<char>, Seq<char>)> {
    let i = pair_index(tags, k);
    if i >= 0 {
        tags.update(i, (k, v))
    } else {
        tags.insert(pairs_below(tags, k), (k, v))
    }
}

pub open spec fn collect_tags(ls: Seq<Seq<char>>) -> Seq<(Seq<char>, Seq<char>)>
    decreases ls.len(),
{
    if ls.len() == 0 {
        Seq::empty()
    } else {
        let prev = collect_tags(ls.drop_last());
        match tag_entry(ls.last()) {
            Some(e) => pair_insert(prev, e.0, e.1),
            None => prev,
        }
    }
}

/// The `@tag` table of a JSDoc comment, ordered by tag.
pub open spec fn spec_extract_jsdoc_tags(raw: Seq<char>) -> Seq<(Seq<char>, Seq<char>)> {
    collect_tags(lines_of(jsdoc_inner(raw)))
}

// ─── Lemmas ──────────────────────────────────────────────────────────────────

proof fn lemma_take_desc(ls: Seq<Seq<char>>, k: int)
    requires
        0 <= k <= ls.len(),
        forall|j: int| 0 <= j < k ==> !starts_with(#[trigger] ls[j], seq!['@']),
        k < ls.len() ==> starts_with(ls[k], seq!['@']),
    ensures
        take_desc(ls) == ls.take(k),
    decreases ls.len(),
{
    if ls.len() == 0 {
        assert(ls.take(k) =~= Seq::<Seq<char>>::empty());
    } else if k == 0 {
        assert(ls.take(0) =~= Seq::<Seq<char>>::empty());
    } else {
        let t = ls.drop_first();
        assert forall|j: int| 0 <= j < k - 1 implies !starts_with(#[trigger] t[j], seq!['@']) by {
            assert(t[j] == ls[j + 1]);
        }
        lemma_take_desc(t, k - 1);
        assert(seq![ls[0]] + t.take(k - 1) =~= ls.take(k));
    }
}

// ─── Implementation ──────────────────────────────────────────────────────────

/// Bounds of `strip_star(c[lo..hi])`.
fn strip_star_range(c: &Vec<char>, lo: usize, hi: usize) -> (res: usize)
    requires
        lo <= hi <= c@.len(),
    ensures
        lo <= res <= hi,
        c@.subrange(res as int, hi as int) == strip_star(c@.subrange(lo as int, hi as int)),
{
    let star_space = vec!['*', ' '];
    let star = vec!['*'];
    proof {
        assert(star_space@ =~= seq!['*', ' ']);
        assert(star@ =~= seq!['*']);
    }
    if range_starts_with(c, lo, hi, &star_space) {
        proof { assert(c@.subrange(lo as int, hi as int).skip(2) =~= c@.subrange(lo + 2, hi as int)); }
        lo + 2
    } else if range_starts_with(c, lo, hi, &star) {
        proof { assert(c@.subrange(lo as int, hi as int).skip(1) =~= c@.subrange(lo + 1, hi as int)); }
        lo + 1
    } else {
        lo
    }
}

/// Bounds of `jsdoc_inner(c)`.
fn inner_range(c: &Vec<char>) -> (res: (usize, usize))
    ensures
        res.0 <= res.1 <= c@.len(),
        c@.subrange(res.0 as int, res.1 as int) == jsdoc_inner(c@),
{
    let open = vec!['/', '*', '*'];
    let close = vec!['*', '/'];
    proof {
        assert(open@ =~= seq!['/', '*', '*']);
        assert(close@ =~= seq!['*', '/']);
        assert(c@.subrange(0, c@.len() as int) =~= c@);
    }
    let lo = trim_start_matches_range(c, 0, c.len(), &open);
    let hi = trim_end_matches_range(c, lo, c.len(), &close);
    (lo, hi)
}

/// The description text of a JSDoc comment (`/** ... */`): everything
/// before the first `@tag` line, with comment decoration removed.
pub fn parse_jsdoc_text(raw: &str) -> (res: String)
    ensures
        res@ == spec_parse_jsdoc_text(raw@),
{
    let c = chars_of(raw);
    let (lo, hi) = inner_range(&c);
    let lines = line_ranges(&c, lo, hi);
    let ghost ls = lines_of(jsdoc_inner(c@));
    let ghost ds = desc_lines(ls);
    let at = vec!['@'];
    proof { assert(at@ =~= seq!['@']); }
    let mut joined: Vec<char> = Vec::new();
    let mut k: usize = 0;
    proof {
        assert(ds.take(0) =~= Seq::<Seq<char>>::empty());
        if lines@.len() == 0 {
            lemma_take_desc(ds, 0);
        }
    }
    while k < lines.len()
        invariant
            k <= lines@.len(),
            at@ == seq!['@'],
            ls == lines_of(jsdoc_inner(c@)),
            ds == desc_lines(ls),
            lines@.map_values(|r: (usize, usize)| c@.subrange(r.0 as int, r.1 as int)) == ls,
            forall|m: int| 0 <= m < lines@.len() ==> (#[trigger] lines@[m]).0 <= lines@[m].1 <= c@.len(),
            forall|j: int| 0 <= j < k ==> !starts_with(#[trigger] ds[j], seq!['@']),
            joined@ == join_strs(ds.take(k as int), seq!['\n']),
            k == lines@.len() ==> take_desc(ds) == ds.take(k as int),
        ensures
            joined@ == join_strs(ds.take(k as int), seq!['\n']),
            take_desc(ds) == ds.take(k as int),
        decreases lines.len() - k,
    {
        let (a0, b0) = lines[k];
        let (a1, b1) = trim_range(&c, a0, b0);
        let a2 = strip_star_range(&c, a1, b1);
        proof {
            assert(ls[k as int] == c@.subrange(a0 as int, b0 as int));
            assert(ds[k as int] == c@.subrange(a2 as int, b1 as int));
        }
        if range_starts_with(&c, a2, b1, &at) {
            proof { lemma_take_desc(ds, k as int); }
            break;
        }
        let ghost before = joined@;
        if k > 0 {
            joined.push('\n');
        }
        let mut i = a2;
        while i < b1
            invariant
                a2 <= i <= b1 <= c@.len(),
                k > 0 ==> joined@ == before + seq!['\n'] + c@.subrange(a2 as int, i as int),
                k == 0 ==> joined@ == before + c@.subrange(a2 as int, i as int),
            decreases b1 - i,
        {
            joined.push(c[i]);
            proof {
                assert(c@.subrange(a2 as int, i + 1) =~= c@.subrange(a2 as int, i as int).push(c@[i as int]));
            }
            i = i + 1;
        }
        proof {
            lemma_join_push(ds.take(k as int), seq!['\n'], ds[k as int]);
            assert(ds.take(k + 1) =~= ds.take(k as int).push(ds[k as int]));
            if k == 0 {
                assert(joined@ =~= ds[0]);
            } else {
                assert(joined@ =~= before + seq!['\n'] + ds[k as int]);
            }
        }
        k = k + 1;
        proof {
            if k == lines@.len() {
                lemma_take_desc(ds, k as int);
            }
        }
    }
    let (t0, t1) = trim_range(&joined, 0, joined.len());
    proof { assert(joined@.subrange(0, joined@.len() as int) =~= joined@); }
    string_from_chars(&joined, t0, t1)
}

/// Inserts `(key, value)` into a key-ordered tag table, replacing any
/// existing value for `key`.
fn insert_tag(tags: &mut Vec<(String, String)>, key: String, value: String)
    ensures
        pairs_view(final(tags)@) == pair_insert(pairs_view(old(tags)@), key@, value@),
{
    let ghost t0 = pairs_view(tags@);
    let mut i: usize = tags.len();
    proof { assert(t0.subrange(0, t0.len() as int) =~= t0); }
    while i > 0
        invariant
            i <= tags@.len(),
            t0 == pairs_view(tags@),
            t0 == pairs_view(old(tags)@),
            pair_index(t0, key@) == pair_index(t0.subrange(0, i as int), key@),
        decreases i,
    {
        proof { assert(t0.subrange(0, i as int).drop_last() =~= t0.subrange(0, i - 1)); }
        if str_eq(tags[i - 1].0.as_str(), key.as_str()) {
            let ghost kv = key@;
            let ghost vv = value@;
            tags.set(i - 1, (key, value));
            proof {
                assert(pair_index(t0, kv) == i - 1);
                assert(pairs_view(tags@) =~= t0.update(i - 1, (kv, vv)));
            }
            return;
        }
        i = i - 1;
    }
    proof { assert(t0.subrange(0, 0) =~= Seq::<(Seq<char>, Seq<char>)>::empty()); }
    let mut below: usize = 0;
    let mut j: usize = 0;
    while j < tags.len()
        invariant
            j <= tags@.len(),
            below <= j,
            t0 == pairs_view(tags@),
            below as int == pairs_below(t0.subrange(0, j as int), key@),
        decreases tags.len() - j,
    {
        proof { assert(t0.subrange(0, j + 1).drop_last() =~= t0.subrange(0, j as int)); }
        if str_lt(tags[j].0.as_str(), key.as_str()) {
            below = below + 1;
        }
        j = j + 1;
    }
    proof { assert(t0.subrange(0, tags@.len() as int) =~= t0); }
    let ghost kv = key@;
    let ghost vv = value@;
    tags.insert(below, (key, value));
    proof { assert(pairs_view(tags@) =~= t0.insert(below as int, (kv, vv))); }
}

/// The tag table entry for the line `c[lo..hi]`.
fn tag_entry_of(c: &Vec<char>, lo: usize, hi: usize) -> (res: Option<(String, String)>)
    requires
        lo <= hi <= c@.len(),
    ensures
        match res {
            Some(p) => tag_entry(c@.subrange(lo as int, hi as int)) == Some((p.0@, p.1@)),
            None => tag_entry(c@.subrange(lo as int, hi as int)) is None,
        },
{
    let (a1, b1) = trim_range(c, lo, hi);
    let a2 = strip_star_range(c, a1, b1);
    let (a, b) = trim_range(c, a2, b1);
    let ghost t = tag_line(c@.subrange(lo as int, hi as int));
    proof { assert(t == c@.subrange(a as int, b as int)); }
    if a == b || c[a] != '@' {
        return None;
    }
    let r0 = a + 1;
    proof { assert(t.skip(1) =~= c@.subrange(r0 as int, b as int)); }
    let sp = find_ws_range(c, r0, b);
    let tag_end = sp;
    let (v0, v1) = if sp < b {
        trim_range(c, sp, b)
    } else {
        (b, b)
    };
    proof {
        let rest = c@.subrange(r0 as int, b as int);
        if sp < b {
            assert(rest.take(sp - r0) =~= c@.subrange(r0 as int, sp as int));
            assert(rest.skip(sp - r0) =~= c@.subrange(sp as int, b as int));
        } else {
            assert(rest =~= c@.subrange(r0 as int, sp as int));
            assert(c@.subrange(b as int, b as int) =~= Seq::<char>::empty());
        }
        assert(split_tag(rest) == (c@.subrange(r0 as int, tag_end as int), c@.subrange(v0 as int, v1 as int)));
    }
    let param = vec!['p', 'a', 'r', 'a', 'm'];
    proof { assert(param@ =~= seq!['p', 'a', 'r', 'a', 'm']); }
    let is_param = tag_end - r0 == 5 && range_starts_with(c, r0, tag_end, &param);
    proof {
        let tg = c@.subrange(r0 as int, tag_end as int);
        if tag_end - r0 == 5 {
            assert(tg.subrange(0, 5) =~= tg);
        }
    }
    if is_param {
        let brace = vec!['{'];
        proof { assert(brace@ =~= seq!['{']); }
        let w0 = trim_start_matches_range(c, v0, v1, &brace);
        let close = find_char_range(c, w0, v1, '}');
        let (p0, p1) = if close < v1 {
            trim_range(c, close + 1, v1)
        } else {
            (w0, v1)
        };
        proof {
            let v1s = c@.subrange(w0 as int, v1 as int);
            if close < v1 {
                assert(v1s.skip(close - w0 + 1) =~= c@.subrange(close + 1, v1 as int));
            }
            assert(param_value_text(c@.subrange(v0 as int, v1 as int)) == c@.subrange(p0 as int, p1 as int));
        }
        let psp = find_ws_range(c, p0, p1);
        proof { reveal_strlit("param:"); assert("param:"@ =~= param_prefix()); }
        if psp < p1 {
            let name = string_from_chars(c, p0, psp);
            let (d0, d1) = trim_range(c, psp, p1);
            let desc = string_from_chars(c, d0, d1);
            let mut key = "param:".to_owned();
            key.append(name.as_str());
            proof {
                let v = c@.subrange(p0 as int, p1 as int);
                assert(v.take(psp - p0) =~= c@.subrange(p0 as int, psp as int));
                assert(v.skip(psp - p0) =~= c@.subrange(psp as int, p1 as int));
            }
            Some((key, desc))
        } else if p1 > p0 {
            let name = string_from_chars(c, p0, p1);
            let mut key = "param:".to_owned();
            key.append(name.as_str());
            proof { reveal_strlit(""); }
            Some((key, String::new()))
        } else {
            None
        }
    } else {
        let tag = string_from_chars(c, r0, tag_end);
        let value = string_from_chars(c, v0, v1);
        Some((tag, value))
    }
}

/// The `@tag` table of a JSDoc comment. `@param name text` is stored under
/// `param:name`; a later tag replaces an earlier one with the same name.
pub fn extract_jsdoc_tags(raw: &str) -> (res: Vec<(String, String)>)
    ensures
        pairs_view(res@) == spec_extract_jsdoc_tags(raw@),
{
    let c = chars_of(raw);
    let (lo, hi) = inner_range(&c);
    let lines = line_ranges(&c, lo, hi);
    let ghost ls = lines_of(jsdoc_inner(c@));
    let mut tags: Vec<(String, String)> = Vec::new();
    let mut k: usize = 0;
    proof {
        assert(pairs_view(tags@) =~= Seq::empty());
        assert(ls.take(0) =~= Seq::<Seq<char>>::empty());
    }
    while k < lines.len()
        invariant
            k <= lines@.len(),
            ls == lines_of(jsdoc_inner(c@)),
            lines@.map_values(|r: (usize, usize)| c@.subrange(r.0 as int, r.1 as int)) == ls,
            forall|m: int| 0 <= m < lines@.len() ==> (#[trigger] lines@[m]).0 <= lines@[m].1 <= c@.len(),
            pairs_view(tags@) == collect_tags(ls.take(k as int)),
        decreases lines.len() - k,
    {
        let (a0, b0) = lines[k];
        proof {
            assert(ls[k as int] == c@.subrange(a0 as int, b0 as int));
            assert(ls.take(k + 1).drop_last() =~= ls.take(k as int));
            assert(ls.take(k + 1).last() == ls[k as int]);
        }
        match tag_entry_of(&c, a0, b0) {
            Some((key, value)) => insert_tag(&mut tags, key, value),
            None => {},
        }
        k = k + 1;
    }
    proof { assert(ls.take(lines@.len() as int) =~= ls); }
    tags
}

// ─── Finding the comment of a declaration ───────────────────────────────────

/// How far before a declaration (in bytes) its JSDoc comment may end: enough
/// for blank lines and a decorator.
pub const JSDOC_PROXIMITY: u32 = 120;

/// A comment of a source file: its byte span, whether it is a block comment,
/// and its text (the source between the two offsets).
pub struct OwnedComment {
    pub span_start: u32,
    pub span_end: u32,
    pub is_block: bool,
    pub text: String,
}

/// The comments of one file, in source order, and the end offsets of those
/// already claimed by a declaration.
pub struct JsDocIndex {
    pub comments: Vec<OwnedComment>,
    pub consumed: Vec<u32>,
}

/// The number of leading comments that end at or before `at` (for comments in
/// source order: those that end at or before `at`).
pub open spec fn ending_before(cs: Seq<OwnedComment>, at: u32) -> int
    decreases cs.len(),
{
    if cs.len() == 0 || cs[0].span_end > at {
        0
    } else {
        1 + ending_before(cs.drop_first(), at)
    }
}

/// Searching back from comment `i`: the first unclaimed block comment, as
/// long as the comments stay within reach of `at`; -1 if there is none.
pub open spec fn nearest_unclaimed(cs: Seq<OwnedComment>, consumed: Seq<u32>, at: u32, i: int) -> int
    decreases i + 1,
{
    if i < 0 || i >= cs.len() {
        -1
    } else if at - cs[i].span_end > JSDOC_PROXIMITY {
        -1
    } else if cs[i].is_block && !consumed.contains(cs[i].span_end) {
        i
    } else {
        nearest_unclaimed(cs, consumed, at, i - 1)
    }
}

/// The comment that documents a declaration starting at `at`: the nearest
/// unclaimed block comment that ends before it within reach, or -1.
pub open spec fn spec_jsdoc_for(cs: Seq<OwnedComment>, consumed: Seq<u32>, at: u32) -> int {
    nearest_unclaimed(cs, consumed, at, ending_before(cs, at) - 1)
}

/// The description a declaration starting at `at` reads from the comment
/// that documents it, or nothing.
pub open spec fn spec_peek_jsdoc(cs: Seq<OwnedComment>, consumed: Seq<u32>, at: u32) -> Seq<char> {
    let k = spec_jsdoc_for(cs, consumed, at);
    if k < 0 {
        Seq::empty()
    } else {
        spec_parse_jsdoc_text(cs[k].text@)
    }
}

/// A lookup that claims: the description and tag table read for a
/// declaration starting at `at`, and the claims afterwards (the comment is
/// claimed when it gives either).
pub open spec fn spec_claim_jsdoc(cs: Seq<OwnedComment>, consumed: Seq<u32>, at: u32) -> (
    Seq<char>,
    Seq<(Seq<char>, Seq<char>)>,
    Seq<u32>,
) {
    let k = spec_jsdoc_for(cs, consumed, at);
    if k < 0 {
        (Seq::empty(), Seq::empty(), consumed)
    } else {
        let text = cs[k].text@;
        let d = spec_parse_jsdoc_text(text);
        let t = spec_extract_jsdoc_tags(text);
        (d, t, if d.len() > 0 || t.len() > 0 { consumed.push(cs[k].span_end) } else { consumed })
    }
}

proof fn lemma_ending_before(cs: Seq<OwnedComment>, at: u32)
    ensures
        0 <= ending_before(cs, at) <= cs.len(),
        forall|j: int| 0 <= j < ending_before(cs, at) ==> cs[j].span_end <= at,
        ending_before(cs, at) < cs.len() ==> cs[ending_before(cs, at)].span_end > at,
    decreases cs.len(),
{
    if cs.len() > 0 && cs[0].span_end <= at {
        lemma_ending_before(cs.drop_first(), at);
        assert forall|j: int| 0 <= j < ending_before(cs, at) implies cs[j].span_end <= at by {
            if j > 0 {
                assert(cs[j] == cs.drop_first()[j - 1]);
            }
        }
    }
}

proof fn lemma_nearest_unclaimed(cs: Seq<OwnedComment>, consumed: Seq<u32>, at: u32, i: int)
    ensures
        nearest_unclaimed(cs, consumed, at, i) == -1 || 0 <= nearest_unclaimed(cs, consumed, at, i) <= i,
        nearest_unclaimed(cs, consumed, at, i) >= 0 ==> {
            let k = nearest_unclaimed(cs, consumed, at, i);
            &&& k < cs.len()
            &&& cs[k].is_block
            &&& !consumed.contains(cs[k].span_end)
        },
    decreases i + 1,
{
    if 0 <= i < cs.len() && at - cs[i].span_end <= JSDOC_PROXIMITY
        && !(cs[i].is_block && !consumed.contains(cs[i].span_end)) {
        lemma_nearest_unclaimed(cs, consumed, at, i - 1);
    }
}

fn contains_u32(v: &Vec<u32>, x: u32) -> (res: bool)
    ensures
        res == v@.contains(x),
{
    let mut i: usize = 0;
    while i < v.len()
        invariant
            i <= v@.len(),
            forall|j: int| 0 <= j < i ==> v@[j] != x,
        decreases v.len() - i,
    {
        if v[i] == x {
            return true;
        }
        i = i + 1;
    }
    false
}

impl JsDocIndex {
    pub fn new(comments: Vec<OwnedComment>) -> (res: Self)
        ensures
            res.comments@ == comments@,
            res.consumed@.len() == 0,
    {
        JsDocIndex { comments, consumed: Vec::new() }
    }

    /// The index of the comment that documents a declaration starting at
    /// byte offset `at`, if there is one.
    fn locate(&self, at: u32) -> (res: Option<usize>)
        ensures
            match res {
                None => spec_jsdoc_for(self.comments@, self.consumed@, at) < 0,
                Some(k) => k == spec_jsdoc_for(self.comments@, self.consumed@, at) && k < self.comments@.len(),
            },
    {
        let ghost cs = self.comments@;
        let ghost cons = self.consumed@;
        proof {
            lemma_ending_before(cs, at);
            assert(cs.skip(0) =~= cs);
        }
        let mut upper: usize = 0;
        while upper < self.comments.len() && self.comments[upper].span_end <= at
            invariant
                cs == self.comments@,
                upper <= cs.len(),
                ending_before(cs, at) == upper + ending_before(cs.skip(upper as int), at),
            decreases self.comments.len() - upper,
        {
            proof {
                assert(cs.skip(upper as int).drop_first() =~= cs.skip(upper + 1));
                assert(cs.skip(upper as int)[0] == cs[upper as int]);
            }
            upper = upper + 1;
        }
        proof {
            if upper < cs.len() {
                assert(cs.skip(upper as int)[0] == cs[upper as int]);
            }
            assert(ending_before(cs, at) == upper);
        }
        let mut i: usize = upper;
        let mut found: Option<usize> = None;
        while i > 0
            invariant
                cs == self.comments@,
                cons == self.consumed@,
                i <= upper,
                upper == ending_before(cs, at),
                upper <= cs.len(),
                forall|j: int| 0 <= j < upper ==> cs[j].span_end <= at,
                i > 0 ==> found is None,
                found is None ==> nearest_unclaimed(cs, cons, at, upper - 1) == nearest_unclaimed(cs, cons, at, i - 1),
                found matches Some(k) ==> k == nearest_unclaimed(cs, cons, at, upper - 1) && k < cs.len(),
            decreases i,
        {
            let c = &self.comments[i - 1];
            proof { assert(cs[i - 1].span_end <= at); }
            if at - c.span_end > JSDOC_PROXIMITY {
                i = 0;
            } else if c.is_block && !contains_u32(&self.consumed, c.span_end) {
                found = Some(i - 1);
                i = 0;
            } else {
                i = i - 1;
            }
        }
        proof {
            if found is None {
                assert(nearest_unclaimed(cs, cons, at, i - 1) == -1);
            }
        }
        found
    }

    /// The description and `@tag` table of the comment that documents a
    /// declaration starting at byte offset `at` (empty where there is none).
    /// A comment that gives a description or a tag is claimed, so that it
    /// documents one declaration only.
    pub fn find_jsdoc_with_tags(&mut self, at: u32) -> (res: (String, Vec<(String, String)>))
        ensures
            final(self).comments@ == old(self).comments@,
            (res.0@, pairs_view(res.1@), final(self).consumed@) == spec_claim_jsdoc(
                old(self).comments@,
                old(self).consumed@,
                at,
            ),
            ({
                let k = spec_jsdoc_for(old(self).comments@, old(self).consumed@, at);
                if k < 0 {
                    &&& res.0@.len() == 0
                    &&& res.1@.len() == 0
                    &&& final(self).consumed@ == old(self).consumed@
                } else {
                    let text = old(self).comments@[k].text@;
                    &&& res.0@ == spec_parse_jsdoc_text(text)
                    &&& pairs_view(res.1@) == spec_extract_jsdoc_tags(text)
                    &&& final(self).consumed@ == if res.0@.len() > 0 || res.1@.len() > 0 {
                        old(self).consumed@.push(old(self).comments@[k].span_end)
                    } else {
                        old(self).consumed@
                    }
                }
            }),
    {
        match self.locate(at) {
            None => (String::new(), Vec::new()),
            Some(k) => {
                let text = parse_jsdoc_text(self.comments[k].text.as_str());
                let tags = extract_jsdoc_tags(self.comments[k].text.as_str());
                if !text.as_str().is_empty() || tags.len() > 0 {
                    let end = self.comments[k].span_end;
                    self.consumed.push(end);
                }
                (text, tags)
            },
        }
    }

    /// The description of the comment that documents a declaration starting
    /// at `at`, without claiming it.
    pub fn peek_jsdoc(&self, at: u32) -> (res: String)
        ensures
            res@ == spec_peek_jsdoc(self.comments@, self.consumed@, at),
    {
        match self.locate(at) {
            None => String::new(),
            Some(k) => parse_jsdoc_text(self.comments[k].text.as_str()),
        }
    }

    /// The description of the comment that documents a declaration starting
    /// at `at`, claimed as `find_jsdoc_with_tags` claims it.
    pub fn find_jsdoc(&mut self, at: u32) -> (res: String)
        ensures
            final(self).comments@ == old(self).comments@,
            ({
                let k = spec_jsdoc_for(old(self).comments@, old(self).consumed@, at);
                if k < 0 {
                    &&& res@.len() == 0
                    &&& final(self).consumed@ == old(self).consumed@
                } else {
                    let text = old(self).comments@[k].text@;
                    &&& res@ == spec_parse_jsdoc_text(text)
                    &&& final(self).consumed@ == if res@.len() > 0 || spec_extract_jsdoc_tags(text).len() > 0 {
                        old(self).consumed@.push(old(self).comments@[k].span_end)
                    } else {
                        old(self).consumed@
                    }
                }
            }),
    {
        self.find_jsdoc_with_tags(at).0
    }
}

/// A claiming lookup adds at most one claim, and never one already made.
pub proof fn lemma_claim_is_fresh(cs: Seq<OwnedComment>, consumed: Seq<u32>, at: u32)
    ensures
        ({
            let after = spec_claim_jsdoc(cs, consumed, at).2;
            after == consumed || (after == consumed.push(after.last()) && !consumed.contains(after.last()))
        }),
{
    lemma_ending_before(cs, at);
    lemma_nearest_unclaimed(cs, consumed, at, ending_before(cs, at) - 1);
    let k = spec_jsdoc_for(cs, consumed, at);
    if k >= 0 {
        let after = spec_claim_jsdoc(cs, consumed, at).2;
        if after != consumed {
            assert(after.last() == cs[k].span_end);
        }
    }
}

/// A comment that has documented one declaration documents no other: once
/// claimed, the lookup for any later declaration picks another comment.
pub proof fn law_claimed_comment_documents_one_declaration(
    cs: Seq<OwnedComment>,
    consumed: Seq<u32>,
    at: u32,
    later: u32,
)
    requires
        spec_jsdoc_for(cs, consumed, at) >= 0,
    ensures
        ({
            let k = spec_jsdoc_for(cs, consumed, at);
            let claimed = consumed.push(cs[k].span_end);
            let k2 = spec_jsdoc_for(cs, claimed, later);
            k2 >= 0 ==> cs[k2].span_end != cs[k].span_end
        }),
{
    let k = spec_jsdoc_for(cs, consumed, at);
    let claimed = consumed.push(cs[k].span_end);
    lemma_ending_before(cs, at);
    lemma_ending_before(cs, later);
    lemma_nearest_unclaimed(cs, consumed, at, ending_before(cs, at) - 1);
    lemma_nearest_unclaimed(cs, claimed, later, ending_before(cs, later) - 1);
    assert(claimed.contains(cs[k].span_end)) by {
        assert(claimed[claimed.len() - 1] == cs[k].span_end);
    }
}

// ─── Law of the tag table ────────────────────────────────────────────────────

proof fn lemma_pair_insert_is_table_put(tags: Seq<(Seq<char>, Seq<char>)>, k: Seq<char>, v: Seq<char>)
    ensures
        pair_insert(tags, k, v) == crate::pipeline::vsorted_put(tags, k, v),
{
    lemma_pair_index_is_table_index(tags, k);
}

proof fn lemma_pair_index_is_table_index(tags: Seq<(Seq<char>, Seq<char>)>, k: Seq<char>)
    ensures
        pair_index(tags, k) == crate::pipeline::vsorted_index(tags, k),
        pairs_below(tags, k) == crate::pipeline::vsorted_below(tags, k),
    decreases tags.len(),
{
    if tags.len() > 0 {
        lemma_pair_index_is_table_index(tags.drop_last(), k);
    }
}

proof fn lemma_collect_tags_increasing(ls: Seq<Seq<char>>)
    ensures
        crate::pipeline::keys_increasing(collect_tags(ls)),
    decreases ls.len(),
{
    if ls.len() > 0 {
        lemma_collect_tags_increasing(ls.drop_last());
        let prev = collect_tags(ls.drop_last());
        match tag_entry(ls.last()) {
            Some(e) => {
                lemma_pair_insert_is_table_put(prev, e.0, e.1);
                crate::pipeline::lemma_vsorted_put_increasing(prev, e.0, e.1);
            },
            None => {},
        }
    }
}

/// The `@tag` table of a comment holds each tag once (a later tag replaces
/// an earlier one of the same name), in tag order.
pub proof fn law_tags_once_each_in_order(raw: Seq<char>)
    ensures
        crate::pipeline::keys_increasing(spec_extract_jsdoc_tags(raw)),
{
    lemma_collect_tags_increasing(lines_of(jsdoc_inner(raw)));
}

} // verus!
verus! {

// ─── Law of tag values ───────────────────────────────────────────────────────

/// A tag line `@tag value` (other than `@param`), whose tag holds no
/// whitespace and whose value has none at either end, records the whole
/// value under the tag: inner spaces and every word after the first are
/// kept.
pub proof fn law_tag_value_kept_whole(tag: Seq<char>, value: Seq<char>)
    requires
        tag.len() > 0,
        forall|i: int| 0 <= i < tag.len() ==> !spec_is_ws(#[trigger] tag[i]),
        tag != seq!['p', 'a', 'r', 'a', 'm'],
        value.len() > 0,
        !spec_is_ws(value[0]),
        !spec_is_ws(value.last()),
    ensures
        tag_entry(seq!['@'] + tag + seq![' '] + value) == Some((tag, value)),
{
    let l = seq!['@'] + tag + seq![' '] + value;
    assert(l[0] == '@');
    assert(l.last() == value.last());
    assert(trim_start(l) == l);
    assert(trim_end(l) == l);
    assert(trim(l) == l);
    assert(!starts_with(l, seq!['*', ' ']) && !starts_with(l, seq!['*'])) by {
        assert(l.subrange(0, 1)[0] == '@');
        assert(l.subrange(0, 2)[0] == '@');
    }
    assert(strip_star(l) == l);
    assert(tag_line(l) == l);
    let rest = l.skip(1);
    assert(rest =~= tag + seq![' '] + value);
    assert forall|j: int| 0 <= j < rest.len() && j < tag.len() implies !spec_is_ws(rest[j]) by {
        assert(rest[j] == tag[j]);
    }
    assert(spec_is_ws(rest[tag.len() as int]));
    lemma_first_ws_is(rest, tag.len() as int);
    assert(rest.take(tag.len() as int) =~= tag);
    let after = rest.skip(tag.len() as int);
    assert(after =~= seq![' '] + value);
    assert(after.drop_first() =~= value);
    assert(trim_start(after) == trim_start(value));
    assert(trim_start(value) == value);
    assert(trim_end(value) == value);
}

} // verus!
