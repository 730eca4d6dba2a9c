//! Character-sequence helpers shared by the parsers and resolvers.

use vstd::prelude::*;

verus! {

/// Compares two string slices for equality (`<str as PartialEq>::eq`).
/// Trusted: std documents `==` on `str` as byte-wise, hence char-wise, equality.
#[verifier::external_body]
pub(crate) fn str_eq(a: &str, b: &str) -> (res: bool)
    ensures
        res == (a@ == b@),
{
    a == b
}

} // verus!

verus! {

/// The characters of `s`, in order.
pub fn chars_of(s: &str) -> (res: Vec<char>)
    ensures
        res@ == s@,
{
    broadcast use vstd::string::group_string_axioms;
    let mut out: Vec<char> = Vec::new();
    for c in iter: s.chars()
        invariant
            out@ == iter.seq().subrange(0, iter.index() as int),
    {
        proof { assert(iter.seq().subrange(0, iter.index() + 1) =~= out@.push(c)); }
        out.push(c);
    }
    proof { assert(out@ =~= s@); }
    out
}

} // verus!

verus! {

/// Appends one character (`String::push`).
/// Trusted: std documents `push` as appending the given char to the end.
#[verifier::external_body]
pub(crate) fn push_char(s: &mut String, c: char)
    ensures
        final(s)@ == old(s)@.push(c),
{
    s.push(c);
}

/// The text of `chars[from..to]` as a `String`.
pub fn string_from_chars(chars: &Vec<char>, from: usize, to: usize) -> (res: String)
    requires
        from <= to <= chars@.len(),
    ensures
        res@ == chars@.subrange(from as int, to as int),
{
    let mut out = String::new();
    let mut i = from;
    while i < to
        invariant
            from <= i <= to,
            to <= chars@.len(),
            out@ == chars@.subrange(from as int, i as int),
        decreases to - i,
    {
        push_char(&mut out, chars[i]);
        proof { assert(out@ =~= chars@.subrange(from as int, i + 1)); }
        i = i + 1;
    }
    out
}

/// Whether `a` sorts strictly before `b`: lexicographic by code point, the
/// order of `str` (UTF-8 byte order agrees with code point order).
pub open spec fn seq_lt(a: Seq<char>, b: Seq<char>) -> bool
    decreases a.len(),
{
    if a.len() == 0 {
        b.len() > 0
    } else if b.len() == 0 {
        false
    } else if a[0] != b[0] {
        (a[0] as int) < (b[0] as int)
    } else {
        seq_lt(a.drop_first(), b.drop_first())
    }
}

/// No sequence sorts before itself.
pub proof fn lemma_seq_lt_irreflexive(a: Seq<char>)
    ensures
        !seq_lt(a, a),
    decreases a.len(),
{
    if a.len() > 0 {
        lemma_seq_lt_irreflexive(a.drop_first());
    }
}

/// Of two different sequences exactly one sorts before the other.
pub proof fn lemma_seq_lt_total(a: Seq<char>, b: Seq<char>)
    ensures
        a != b ==> (seq_lt(a, b) != seq_lt(b, a)),
        a == b ==> !seq_lt(a, b),
    decreases a.len(),
{
    if a == b {
        lemma_seq_lt_irreflexive(a);
    } else if a.len() > 0 && b.len() > 0 && a[0] == b[0] {
        lemma_seq_lt_total(a.drop_first(), b.drop_first());
        if a.drop_first() == b.drop_first() {
            assert(a =~= seq![a[0]] + a.drop_first());
            assert(b =~= seq![b[0]] + b.drop_first());
        }
    } else if a.len() > 0 && b.len() > 0 {
        assert((a[0] as int) != (b[0] as int));
    } else if a.len() == 0 && b.len() == 0 {
        assert(a =~= b);
    }
}

/// Sorting before is transitive.
pub proof fn lemma_seq_lt_transitive(a: Seq<char>, b: Seq<char>, c: Seq<char>)
    requires
        seq_lt(a, b),
        seq_lt(b, c),
    ensures
        seq_lt(a, c),
    decreases a.len(),
{
    if a.len() > 0 && b.len() > 0 && c.len() > 0 && a[0] == b[0] && b[0] == c[0] {
        lemma_seq_lt_transitive(a.drop_first(), b.drop_first(), c.drop_first());
    }
}

/// Whether `a` sorts strictly before `b`.
pub fn str_lt(a: &str, b: &str) -> (res: bool)
    ensures
        res == seq_lt(a@, b@),
{
    let x = chars_of(a);
    let y = chars_of(b);
    let mut i: usize = 0;
    proof {
        assert(x@.skip(0) =~= x@);
        assert(y@.skip(0) =~= y@);
    }
    while i < x.len() && i < y.len() && x[i] == y[i]
        invariant
            i <= x@.len(),
            i <= y@.len(),
            seq_lt(x@, y@) == seq_lt(x@.skip(i as int), y@.skip(i as int)),
        decreases x.len() - i,
    {
        proof {
            assert(x@.skip(i as int).drop_first() =~= x@.skip(i + 1));
            assert(y@.skip(i as int).drop_first() =~= y@.skip(i + 1));
        }
        i = i + 1;
    }
    if i == x.len() {
        i < y.len()
    } else if i == y.len() {
        false
    } else {
        let cx: char = x[i];
        let cy: char = y[i];
        cx < cy
    }
}

pub open spec fn seq_starts_with(s: Seq<char>, prefix: Seq<char>) -> bool {
    prefix.len() <= s.len() && s.subrange(0, prefix.len() as int) == prefix
}

pub open spec fn seq_ends_with(s: Seq<char>, suffix: Seq<char>) -> bool {
    suffix.len() <= s.len() && s.subrange(s.len() - suffix.len(), s.len() as int) == suffix
}

/// Whether `s[at..]` begins with `prefix`.
pub fn chars_match_at(s: &Vec<char>, at: usize, prefix: &Vec<char>) -> (res: bool)
    requires
        at <= s@.len(),
    ensures
        res == seq_starts_with(s@.subrange(at as int, s@.len() as int), prefix@),
{
    if prefix.len() > s.len() - at {
        return false;
    }
    let mut i: usize = 0;
    while i < prefix.len()
        invariant
            prefix@.len() <= s@.len() - at,
            at <= s@.len(),
            s@.len() <= usize::MAX,
            i <= prefix@.len(),
            forall|j: int| 0 <= j < i ==> s@[at + j] == prefix@[j],
        decreases prefix.len() - i,
    {
        if s[at + i] != prefix[i] {
            proof {
                assert(s@.subrange(at as int, s@.len() as int).subrange(0, prefix@.len() as int)[i as int] != prefix@[i as int]);
            }
            return false;
        }
        i = i + 1;
    }
    proof { assert(s@.subrange(at as int, s@.len() as int).subrange(0, prefix@.len() as int) =~= prefix@); }
    true
}

/// Whether `s` starts with `prefix`.
pub fn str_starts_with(s: &str, prefix: &str) -> (res: bool)
    ensures
        res == seq_starts_with(s@, prefix@),
{
    let x = chars_of(s);
    let p = chars_of(prefix);
    let r = chars_match_at(&x, 0, &p);
    proof { assert(x@.subrange(0, x@.len() as int) =~= x@); }
    r
}

/// Whether `pattern` occurs in `s` (the empty pattern occurs everywhere).
pub open spec fn seq_contains_seq(s: Seq<char>, pattern: Seq<char>) -> bool {
    exists|i: int| 0 <= i <= s.len() - pattern.len() && #[trigger] s.subrange(i, i + pattern.len()) == pattern
}

/// Whether `pattern` occurs in `s` (`str::contains` with a `&str` pattern).
pub fn str_contains(s: &str, pattern: &str) -> (res: bool)
    ensures
        res == seq_contains_seq(s@, pattern@),
{
    let x = chars_of(s);
    let p = chars_of(pattern);
    if p.len() > x.len() {
        return false;
    }
    let limit = x.len() - p.len();
    let mut i: usize = 0;
    while i <= limit
        invariant
            x@ == s@,
            p@ == pattern@,
            p@.len() <= x@.len(),
            limit == x@.len() - p@.len(),
            i <= limit + 1,
            forall|j: int| 0 <= j < i ==> #[trigger] x@.subrange(j, j + p@.len()) != p@,
        decreases limit + 1 - i,
    {
        let found = chars_match_at(&x, i, &p);
        proof {
            assert(x@.subrange(i as int, x@.len() as int).subrange(0, p@.len() as int) =~= x@.subrange(
                i as int,
                i + p@.len(),
            ));
        }
        if found {
            return true;
        }
        if i == limit {
            return false;
        }
        i = i + 1;
    }
    false
}

/// Whether `s` ends with `suffix`.
pub fn str_ends_with(s: &str, suffix: &str) -> (res: bool)
    ensures
        res == seq_ends_with(s@, suffix@),
{
    let x = chars_of(s);
    let p = chars_of(suffix);
    if p.len() > x.len() {
        return false;
    }
    let r = chars_match_at(&x, x.len() - p.len(), &p);
    proof {
        let t = x@.subrange(x@.len() - p@.len(), x@.len() as int);
        assert(t.subrange(0, p@.len() as int) =~= t);
    }
    r
}

/// The lowercase form of a string, as computed by `str::to_lowercase`
/// (full Unicode case mapping, including context-dependent sigma).
pub uninterp spec fn spec_to_lowercase(s: Seq<char>) -> Seq<char>;

/// `str::to_lowercase`. Trusted: its result is a function of the input
/// alone; what that function is (Unicode case tables) is not stated.
#[verifier::external_body]
pub(crate) fn to_lowercase(s: &str) -> (res: String)
    ensures
        res@ == spec_to_lowercase(s@),
{
    s.to_lowercase()
}

} // verus!
