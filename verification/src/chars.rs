//! Specifications and implementations of the `str` operations the parsers
//! use (`trim`, `lines`, `trim_start_matches`, ...), stated over `Seq<char>`
//! and computed over character vectors by index range.

use vstd::prelude::*;

verus! {

/// `char::is_whitespace`: the Unicode `White_Space` property.
pub open spec fn spec_is_ws(c: char) -> bool {
    let u = c as u32;
    (0x09 <= u && u <= 0x0D) || u == 0x20 || u == 0x85 || u == 0xA0 || u == 0x1680
        || (0x2000 <= u && u <= 0x200A) || u == 0x2028 || u == 0x2029 || u == 0x202F || u == 0x205F
        || u == 0x3000
}

pub fn is_ws(c: char) -> (res: bool)
    ensures
        res == spec_is_ws(c),
{
    let u = c as u32;
    (0x09 <= u && u <= 0x0D) || u == 0x20 || u == 0x85 || u == 0xA0 || u == 0x1680
        || (0x2000 <= u && u <= 0x200A) || u == 0x2028 || u == 0x2029 || u == 0x202F || u == 0x205F
        || u == 0x3000
}

pub open spec fn trim_start(s: Seq<char>) -> Seq<char>
    decreases s.len(),
{
    if s.len() > 0 && spec_is_ws(s[0]) { trim_start(s.drop_first()) } else { s }
}

pub open spec fn trim_end(s: Seq<char>) -> Seq<char>
    decreases s.len(),
{
    if s.len() > 0 && spec_is_ws(s.last()) { trim_end(s.drop_last()) } else { s }
}

/// `str::trim`: whitespace removed from both ends.
pub open spec fn trim(s: Seq<char>) -> Seq<char> {
    trim_end(trim_start(s))
}

pub open spec fn starts_with(s: Seq<char>, p: Seq<char>) -> bool {
    p.len() <= s.len() && s.subrange(0, p.len() as int) == p
}

pub open spec fn ends_with(s: Seq<char>, p: Seq<char>) -> bool {
    p.len() <= s.len() && s.subrange(s.len() - p.len(), s.len() as int) == p
}

/// `str::trim_start_matches` with a non-empty pattern.
pub open spec fn trim_start_matches(s: Seq<char>, p: Seq<char>) -> Seq<char>
    decreases s.len(),
{
    if p.len() > 0 && starts_with(s, p) { trim_start_matches(s.skip(p.len() as int), p) } else { s }
}

/// `str::trim_end_matches` with a non-empty pattern.
pub open spec fn trim_end_matches(s: Seq<char>, p: Seq<char>) -> Seq<char>
    decreases s.len(),
{
    if p.len() > 0 && ends_with(s, p) { trim_end_matches(s.take(s.len() - p.len()), p) } else { s }
}

/// Index of the first occurrence of `c` in `s`, or -1.
pub open spec fn first_index(s: Seq<char>, c: char) -> int
    decreases s.len(),
{
    if s.len() == 0 {
        -1
    } else if s[0] == c {
        0
    } else {
        let r = first_index(s.drop_first(), c);
        if r < 0 { -1 } else { r + 1 }
    }
}

/// Index of the first whitespace character of `s`, or -1.
pub open spec fn first_ws(s: Seq<char>) -> int
    decreases s.len(),
{
    if s.len() == 0 {
        -1
    } else if spec_is_ws(s[0]) {
        0
    } else {
        let r = first_ws(s.drop_first());
        if r < 0 { -1 } else { r + 1 }
    }
}

/// A line as `str::lines` yields it: a `\r` before the `\n` is dropped.
pub open spec fn strip_cr(s: Seq<char>) -> Seq<char> {
    if s.len() > 0 && s.last() == '\r' { s.drop_last() } else { s }
}

/// `str::lines`: split at `\n` (or `\r\n`); a final line ending is optional.
pub open spec fn lines_of(s: Seq<char>) -> Seq<Seq<char>>
    decreases s.len(),
{
    if s.len() == 0 {
        Seq::empty()
    } else {
        let i = first_index(s, '\n');
        if i < 0 {
            seq![s]
        } else {
            proof { lemma_first_index_bounds(s, '\n'); }
            seq![strip_cr(s.take(i))] + lines_of(s.skip(i + 1))
        }
    }
}

// ─── Lemmas ──────────────────────────────────────────────────────────────────

pub proof fn lemma_first_index_bounds(s: Seq<char>, c: char)
    ensures
        -1 <= first_index(s, c) < s.len(),
        first_index(s, c) >= 0 ==> s[first_index(s, c)] == c,
        forall|j: int| 0 <= j < s.len() && (first_index(s, c) < 0 || j < first_index(s, c)) ==> s[j] != c,
    decreases s.len(),
{
    if s.len() > 0 && s[0] != c {
        lemma_first_index_bounds(s.drop_first(), c);
        assert forall|j: int| 0 <= j < s.len() && (first_index(s, c) < 0 || j < first_index(s, c)) implies s[j] != c by {
            if j > 0 {
                assert(s[j] == s.drop_first()[j - 1]);
            }
        }
    }
}

/// `first_index` is determined by the position of the first match.
pub proof fn lemma_first_index_is(s: Seq<char>, c: char, k: int)
    requires
        -1 <= k < s.len(),
        k >= 0 ==> s[k] == c,
        forall|j: int| 0 <= j < s.len() && (k < 0 || j < k) ==> s[j] != c,
    ensures
        first_index(s, c) == k,
    decreases s.len(),
{
    if s.len() > 0 && s[0] != c {
        let t = s.drop_first();
        let k2 = if k < 0 { -1 } else { k - 1 };
        assert forall|j: int| 0 <= j < t.len() && (k2 < 0 || j < k2) implies t[j] != c by {
            assert(t[j] == s[j + 1]);
        }
        lemma_first_index_is(t, c, k2);
    }
}

pub proof fn lemma_first_ws_bounds(s: Seq<char>)
    ensures
        -1 <= first_ws(s) < s.len(),
        first_ws(s) >= 0 ==> spec_is_ws(s[first_ws(s)]),
        forall|j: int| 0 <= j < s.len() && (first_ws(s) < 0 || j < first_ws(s)) ==> !spec_is_ws(s[j]),
    decreases s.len(),
{
    if s.len() > 0 && !spec_is_ws(s[0]) {
        lemma_first_ws_bounds(s.drop_first());
        assert forall|j: int| 0 <= j < s.len() && (first_ws(s) < 0 || j < first_ws(s)) implies !spec_is_ws(s[j]) by {
            if j > 0 {
                assert(s[j] == s.drop_first()[j - 1]);
            }
        }
    }
}

pub proof fn lemma_first_ws_is(s: Seq<char>, k: int)
    requires
        -1 <= k < s.len(),
        k >= 0 ==> spec_is_ws(s[k]),
        forall|j: int| 0 <= j < s.len() && (k < 0 || j < k) ==> !spec_is_ws(s[j]),
    ensures
        first_ws(s) == k,
    decreases s.len(),
{
    if s.len() > 0 && !spec_is_ws(s[0]) {
        let t = s.drop_first();
        let k2 = if k < 0 { -1 } else { k - 1 };
        assert forall|j: int| 0 <= j < t.len() && (k2 < 0 || j < k2) implies !spec_is_ws(t[j]) by {
            assert(t[j] == s[j + 1]);
        }
        lemma_first_ws_is(t, k2);
    }
}

// ─── Range operations over a character vector ────────────────────────────────

/// `c[lo..hi]`.
pub open spec fn sub(c: Seq<char>, lo: int, hi: int) -> Seq<char> {
    c.subrange(lo, hi)
}

/// Bounds of `trim_start(c[lo..hi])`.
pub fn trim_start_range(c: &Vec<char>, lo: usize, hi: usize) -> (res: usize)
    requires
        lo <= hi <= c@.len(),
    ensures
        lo <= res <= hi,
        c@.subrange(res as int, hi as int) == trim_start(c@.subrange(lo as int, hi as int)),
{
    let mut i = lo;
    while i < hi && is_ws(c[i])
        invariant
            lo <= i <= hi,
            hi <= c@.len(),
            trim_start(c@.subrange(lo as int, hi as int)) == trim_start(c@.subrange(i as int, hi as int)),
        decreases hi - i,
    {
        proof { assert(c@.subrange(i as int, hi as int).drop_first() =~= c@.subrange(i + 1, hi as int)); }
        i = i + 1;
    }
    i
}

/// Bounds of `trim_end(c[lo..hi])`.
pub fn trim_end_range(c: &Vec<char>, lo: usize, hi: usize) -> (res: usize)
    requires
        lo <= hi <= c@.len(),
    ensures
        lo <= res <= hi,
        c@.subrange(lo as int, res as int) == trim_end(c@.subrange(lo as int, hi as int)),
{
    let mut j = hi;
    while j > lo && is_ws(c[j - 1])
        invariant
            lo <= j <= hi,
            hi <= c@.len(),
            trim_end(c@.subrange(lo as int, hi as int)) == trim_end(c@.subrange(lo as int, j as int)),
        decreases j - lo,
    {
        proof { assert(c@.subrange(lo as int, j as int).drop_last() =~= c@.subrange(lo as int, j - 1)); }
        j = j - 1;
    }
    j
}

/// Bounds of `trim(c[lo..hi])`.
pub fn trim_range(c: &Vec<char>, lo: usize, hi: usize) -> (res: (usize, usize))
    requires
        lo <= hi <= c@.len(),
    ensures
        lo <= res.0 <= res.1 <= hi,
        c@.subrange(res.0 as int, res.1 as int) == trim(c@.subrange(lo as int, hi as int)),
{
    let a = trim_start_range(c, lo, hi);
    let b = trim_end_range(c, a, hi);
    (a, b)
}

/// Whether `c[lo..hi]` starts with `p`.
pub fn range_starts_with(c: &Vec<char>, lo: usize, hi: usize, p: &Vec<char>) -> (res: bool)
    requires
        lo <= hi <= c@.len(),
    ensures
        res == starts_with(c@.subrange(lo as int, hi as int), p@),
{
    if p.len() > hi - lo {
        return false;
    }
    let mut i: usize = 0;
    while i < p.len()
        invariant
            lo <= hi <= c@.len(),
            p@.len() <= hi - lo,
            i <= p@.len(),
            forall|j: int| 0 <= j < i ==> c@[lo + j] == p@[j],
        decreases p.len() - i,
    {
        if c[lo + i] != p[i] {
            proof { assert(c@.subrange(lo as int, hi as int).subrange(0, p@.len() as int)[i as int] != p@[i as int]); }
            return false;
        }
        i = i + 1;
    }
    proof { assert(c@.subrange(lo as int, hi as int).subrange(0, p@.len() as int) =~= p@); }
    true
}

/// Whether `c[lo..hi]` ends with `p`.
pub fn range_ends_with(c: &Vec<char>, lo: usize, hi: usize, p: &Vec<char>) -> (res: bool)
    requires
        lo <= hi <= c@.len(),
    ensures
        res == ends_with(c@.subrange(lo as int, hi as int), p@),
{
    if p.len() > hi - lo {
        return false;
    }
    let r = range_starts_with(c, hi - p.len(), hi, p);
    proof {
        let s = c@.subrange(lo as int, hi as int);
        assert(s.subrange(s.len() - p@.len(), s.len() as int) =~= c@.subrange(hi - p@.len(), hi as int));
        let t = c@.subrange(hi - p@.len(), hi as int);
        assert(t.subrange(0, p@.len() as int) =~= t);
    }
    r
}

/// Start of `trim_start_matches(c[lo..hi], p)`.
pub fn trim_start_matches_range(c: &Vec<char>, lo: usize, hi: usize, p: &Vec<char>) -> (res: usize)
    requires
        lo <= hi <= c@.len(),
    ensures
        lo <= res <= hi,
        c@.subrange(res as int, hi as int) == trim_start_matches(c@.subrange(lo as int, hi as int), p@),
{
    if p.len() == 0 {
        return lo;
    }
    let mut i = lo;
    while range_starts_with(c, i, hi, p)
        invariant
            lo <= i <= hi,
            hi <= c@.len(),
            p@.len() > 0,
            trim_start_matches(c@.subrange(lo as int, hi as int), p@)
                == trim_start_matches(c@.subrange(i as int, hi as int), p@),
        decreases hi - i,
    {
        proof { assert(c@.subrange(i as int, hi as int).skip(p@.len() as int) =~= c@.subrange(i + p@.len(), hi as int)); }
        i = i + p.len();
    }
    i
}

/// End of `trim_end_matches(c[lo..hi], p)`.
pub fn trim_end_matches_range(c: &Vec<char>, lo: usize, hi: usize, p: &Vec<char>) -> (res: usize)
    requires
        lo <= hi <= c@.len(),
    ensures
        lo <= res <= hi,
        c@.subrange(lo as int, res as int) == trim_end_matches(c@.subrange(lo as int, hi as int), p@),
{
    if p.len() == 0 {
        return hi;
    }
    let mut j = hi;
    while range_ends_with(c, lo, j, p)
        invariant
            lo <= j <= hi,
            hi <= c@.len(),
            p@.len() > 0,
            trim_end_matches(c@.subrange(lo as int, hi as int), p@)
                == trim_end_matches(c@.subrange(lo as int, j as int), p@),
        decreases j - lo,
    {
        proof {
            let s = c@.subrange(lo as int, j as int);
            assert(s.take(s.len() - p@.len()) =~= c@.subrange(lo as int, j - p@.len()));
        }
        j = j - p.len();
    }
    j
}

/// Position of the first `ch` in `c[lo..hi]`, as an absolute index, or `hi`.
pub fn find_char_range(c: &Vec<char>, lo: usize, hi: usize, ch: char) -> (res: usize)
    requires
        lo <= hi <= c@.len(),
    ensures
        lo <= res <= hi,
        first_index(c@.subrange(lo as int, hi as int), ch) == if res == hi { -1 } else { res - lo },
{
    let mut i = lo;
    while i < hi && c[i] != ch
        invariant
            lo <= i <= hi,
            hi <= c@.len(),
            forall|j: int| lo <= j < i ==> c@[j] != ch,
        decreases hi - i,
    {
        i = i + 1;
    }
    proof {
        let s = c@.subrange(lo as int, hi as int);
        let k = if i == hi { -1 } else { i - lo };
        lemma_first_index_is(s, ch, k);
    }
    i
}

/// Position of the first whitespace in `c[lo..hi]`, as an absolute index, or `hi`.
pub fn find_ws_range(c: &Vec<char>, lo: usize, hi: usize) -> (res: usize)
    requires
        lo <= hi <= c@.len(),
    ensures
        lo <= res <= hi,
        first_ws(c@.subrange(lo as int, hi as int)) == if res == hi { -1 } else { res - lo },
{
    let mut i = lo;
    while i < hi && !is_ws(c[i])
        invariant
            lo <= i <= hi,
            hi <= c@.len(),
            forall|j: int| lo <= j < i ==> !spec_is_ws(c@[j]),
        decreases hi - i,
    {
        i = i + 1;
    }
    proof {
        let s = c@.subrange(lo as int, hi as int);
        let k = if i == hi { -1 } else { i - lo };
        lemma_first_ws_is(s, k);
    }
    i
}

/// The ranges of the lines of `c[lo..hi]`, as `str::lines` yields them.
pub fn line_ranges(c: &Vec<char>, lo: usize, hi: usize) -> (res: Vec<(usize, usize)>)
    requires
        lo <= hi <= c@.len(),
    ensures
        forall|k: int| 0 <= k < res@.len() ==> (#[trigger] res@[k]).0 <= res@[k].1 <= hi,
        res@.map_values(|r: (usize, usize)| c@.subrange(r.0 as int, r.1 as int))
            == lines_of(c@.subrange(lo as int, hi as int)),
{
    let mut out: Vec<(usize, usize)> = Vec::new();
    let ghost whole = lines_of(c@.subrange(lo as int, hi as int));
    let mut pos = lo;
    while pos < hi
        invariant
            lo <= pos <= hi,
            hi <= c@.len(),
            forall|k: int| 0 <= k < out@.len() ==> (#[trigger] out@[k]).0 <= out@[k].1 <= hi,
            whole == out@.map_values(|r: (usize, usize)| c@.subrange(r.0 as int, r.1 as int))
                + lines_of(c@.subrange(pos as int, hi as int)),
        decreases hi - pos,
    {
        let ghost s = c@.subrange(pos as int, hi as int);
        let nl = find_char_range(c, pos, hi, '\n');
        if nl == hi {
            out.push((pos, hi));
            proof {
                assert(lines_of(s) == seq![s]);
                assert(lines_of(c@.subrange(hi as int, hi as int)) =~= Seq::<Seq<char>>::empty());
            }
            pos = hi;
        } else {
            let mut end = nl;
            if end > pos && c[end - 1] == '\r' {
                end = end - 1;
            }
            out.push((pos, end));
            proof {
                let i = nl - pos;
                assert(s.take(i) =~= c@.subrange(pos as int, nl as int));
                assert(strip_cr(s.take(i)) =~= c@.subrange(pos as int, end as int));
                assert(s.skip(i + 1) =~= c@.subrange(nl + 1, hi as int));
                assert(lines_of(s) == seq![strip_cr(s.take(i))] + lines_of(s.skip(i + 1)));
            }
            pos = nl + 1;
        }
        proof {
            let m = out@.map_values(|r: (usize, usize)| c@.subrange(r.0 as int, r.1 as int));
            let m0 = m.drop_last();
            assert(m0 =~= out@.drop_last().map_values(|r: (usize, usize)| c@.subrange(r.0 as int, r.1 as int)));
            assert(m =~= m0.push(m.last()));
        }
    }
    proof {
        assert(lines_of(c@.subrange(hi as int, hi as int)) =~= Seq::<Seq<char>>::empty());
        assert(whole =~= out@.map_values(|r: (usize, usize)| c@.subrange(r.0 as int, r.1 as int)));
    }
    out
}

/// Whether `c[lo..hi]` contains `ch`.
pub fn range_contains(c: &Vec<char>, lo: usize, hi: usize, ch: char) -> (res: bool)
    requires
        lo <= hi <= c@.len(),
    ensures
        res == c@.subrange(lo as int, hi as int).contains(ch),
{
    let mut i = lo;
    while i < hi
        invariant
            lo <= i <= hi,
            hi <= c@.len(),
            forall|j: int| lo <= j < i ==> c@[j] != ch,
        decreases hi - i,
    {
        if c[i] == ch {
            proof { assert(c@.subrange(lo as int, hi as int)[i - lo] == ch); }
            return true;
        }
        i = i + 1;
    }
    proof {
        assert forall|k: int| 0 <= k < hi - lo implies c@.subrange(lo as int, hi as int)[k] != ch by {
            assert(c@.subrange(lo as int, hi as int)[k] == c@[lo + k]);
        }
    }
    false
}

} // verus!
