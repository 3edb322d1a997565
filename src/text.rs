//! Character-level vocabulary of the record grammar: blanks, trimming,
//! and cutting a text at a separator.
//!
//! The executable functions work on a span `lo..hi` of a character vector,
//! so that a record is decoded once and its pieces are located by index.
use vstd::prelude::*;

verus! {

/// The characters that separate tokens and that trimming removes: the
/// Unicode `White_Space` characters, those `char::is_whitespace` accepts.
pub open spec fn is_space(c: char) -> bool {
    c == '\t' || c == '\n' || c == '\u{0B}' || c == '\u{0C}' || c == '\r' || c == ' '
        || c == '\u{85}' || c == '\u{A0}' || c == '\u{1680}' || ('\u{2000}' <= c && c
        <= '\u{200A}') || c == '\u{2028}' || c == '\u{2029}' || c == '\u{202F}' || c
        == '\u{205F}' || c == '\u{3000}'
}

/// A text made of spaces only (the empty text included).
pub open spec fn is_blank(s: Seq<char>) -> bool {
    forall|i: int| 0 <= i < s.len() ==> is_space(#[trigger] s[i])
}

/// Whether the character `c` does not occur in `s`.
pub open spec fn free_of(s: Seq<char>, c: char) -> bool {
    forall|i: int| 0 <= i < s.len() ==> #[trigger] s[i] != c
}

pub open spec fn trim_start(s: Seq<char>) -> Seq<char>
    decreases s.len(),
{
    if s.len() > 0 && is_space(s[0]) {
        trim_start(s.drop_first())
    } else {
        s
    }
}

pub open spec fn trim_end(s: Seq<char>) -> Seq<char>
    decreases s.len(),
{
    if s.len() > 0 && is_space(s.last()) {
        trim_end(s.drop_last())
    } else {
        s
    }
}

/// `s` without its leading and trailing spaces.
pub open spec fn trim(s: Seq<char>) -> Seq<char> {
    trim_end(trim_start(s))
}

/// Whether the end of `s` lies inside a double-quoted span, that is whether
/// an odd number of double quotes stand in `s`.
pub open spec fn inside_quotes(s: Seq<char>) -> bool
    decreases s.len(),
{
    if s.len() == 0 {
        false
    } else {
        inside_quotes(s.drop_last()) != (s.last() == '"')
    }
}

/// Whether `s` is cut at position `i`: the character there is `sep` and,
/// when `quoted` holds, it does not stand inside double quotes.
pub open spec fn cuts_at(s: Seq<char>, sep: char, quoted: bool, i: int) -> bool {
    s[i] == sep && !(quoted && inside_quotes(s.take(i)))
}

/// The first position at or after `k` where `s` is cut, or `s.len()` where
/// there is none.
pub open spec fn next_cut(s: Seq<char>, sep: char, quoted: bool, k: int) -> int
    decreases s.len() - k,
{
    if k < 0 || k >= s.len() {
        s.len() as int
    } else if cuts_at(s, sep, quoted, k) {
        k
    } else {
        next_cut(s, sep, quoted, k + 1)
    }
}

/// The pieces of `s` between its cuts at `sep`, in order; a text without a
/// cut is one piece.
pub open spec fn split(s: Seq<char>, sep: char, quoted: bool) -> Seq<Seq<char>>
    decreases s.len(),
{
    let i = next_cut(s, sep, quoted, 0);
    if 0 <= i < s.len() {
        seq![s.take(i)] + split(s.skip(i + 1), sep, quoted)
    } else {
        seq![s]
    }
}

/// The texts that a list of spans of `cs` stands for.
pub open spec fn spans_view(cs: Seq<char>, spans: Seq<(usize, usize)>) -> Seq<Seq<char>> {
    spans.map_values(|p: (usize, usize)| cs.subrange(p.0 as int, p.1 as int))
}

pub proof fn lemma_next_cut_bounds(s: Seq<char>, sep: char, quoted: bool, k: int)
    requires
        0 <= k <= s.len(),
    ensures
        k <= next_cut(s, sep, quoted, k) <= s.len(),
        next_cut(s, sep, quoted, k) < s.len() ==> cuts_at(s, sep, quoted, next_cut(s, sep, quoted, k)),
        forall|i: int| k <= i < next_cut(s, sep, quoted, k) ==> !cuts_at(s, sep, quoted, i),
    decreases s.len() - k,
{
    if k < s.len() && !cuts_at(s, sep, quoted, k) {
        lemma_next_cut_bounds(s, sep, quoted, k + 1);
    }
}

/// Where the first `a.len()` characters hold no `sep`, the first cut of
/// `a + [sep] + b` at or after `k` is right after `a`.
pub proof fn lemma_next_cut_after(a: Seq<char>, b: Seq<char>, sep: char, k: int)
    requires
        free_of(a, sep),
        0 <= k <= a.len(),
    ensures
        next_cut(a + seq![sep] + b, sep, false, k) == a.len(),
    decreases a.len() - k,
{
    let s = a + seq![sep] + b;
    if k < a.len() {
        assert(s[k] == a[k]);
        lemma_next_cut_after(a, b, sep, k + 1);
    } else {
        assert(s[k] == sep);
    }
}

/// A text without `sep` is one piece.
pub proof fn lemma_split_free(a: Seq<char>, sep: char, quoted: bool)
    requires
        free_of(a, sep),
    ensures
        split(a, sep, quoted) == seq![a],
{
    lemma_next_cut_bounds(a, sep, quoted, 0);
}

/// Cutting `a + [sep] + b`, where `a` holds no `sep`, gives `a` and then the
/// pieces of `b`.
pub proof fn lemma_split_cons(a: Seq<char>, b: Seq<char>, sep: char)
    requires
        free_of(a, sep),
    ensures
        split(a + seq![sep] + b, sep, false) == seq![a] + split(b, sep, false),
{
    let s = a + seq![sep] + b;
    lemma_next_cut_after(a, b, sep, 0);
    assert(s.take(a.len() as int) =~= a);
    assert(s.skip(a.len() as int + 1) =~= b);
}

proof fn lemma_outside_quotes(s: Seq<char>)
    requires
        free_of(s, '"'),
    ensures
        !inside_quotes(s),
    decreases s.len(),
{
    if s.len() > 0 {
        assert(s.last() == s[s.len() - 1]);
        lemma_outside_quotes(s.drop_last());
    }
}

proof fn lemma_next_cut_unquoted(s: Seq<char>, sep: char, k: int)
    requires
        free_of(s, '"'),
    ensures
        next_cut(s, sep, true, k) == next_cut(s, sep, false, k),
    decreases s.len() - k,
{
    if 0 <= k < s.len() {
        assert(free_of(s.take(k), '"')) by {
            assert forall|i: int| 0 <= i < s.take(k).len() implies #[trigger] s.take(k)[i] != '"' by {
                assert(s.take(k)[i] == s[i]);
            }
        }
        lemma_outside_quotes(s.take(k));
        lemma_next_cut_unquoted(s, sep, k + 1);
    }
}

/// In a text without double quotes, quotes change nothing to the cuts.
pub proof fn lemma_split_unquoted(s: Seq<char>, sep: char)
    requires
        free_of(s, '"'),
    ensures
        split(s, sep, true) == split(s, sep, false),
    decreases s.len(),
{
    lemma_next_cut_unquoted(s, sep, 0);
    let i = next_cut(s, sep, false, 0);
    if 0 <= i < s.len() {
        let rest = s.skip(i + 1);
        assert forall|j: int| 0 <= j < rest.len() implies #[trigger] rest[j] != '"' by {
            assert(rest[j] == s[i + 1 + j]);
        }
        lemma_split_unquoted(rest, sep);
    }
}

/// Whether `s` neither starts nor ends with a space.
pub open spec fn trimmed(s: Seq<char>) -> bool {
    s.len() == 0 || (!is_space(s[0]) && !is_space(s.last()))
}

/// The texts `xs`, with `sep` between two neighbours.
pub open spec fn join(xs: Seq<Seq<char>>, sep: Seq<char>) -> Seq<char>
    decreases xs.len(),
{
    if xs.len() == 0 {
        Seq::empty()
    } else if xs.len() == 1 {
        xs[0]
    } else {
        xs[0] + sep + join(xs.drop_first(), sep)
    }
}

/// Joining one more text adds the separator and that text at the end.
pub proof fn lemma_join_push(xs: Seq<Seq<char>>, x: Seq<char>, sep: Seq<char>)
    requires
        xs.len() > 0,
    ensures
        join(xs.push(x), sep) == join(xs, sep) + sep + x,
    decreases xs.len(),
{
    let ys = xs.push(x);
    if xs.len() == 1 {
        assert(ys.drop_first() =~= seq![x]);
        assert(join(seq![x], sep) == x);
        assert(ys[0] == xs[0]);
        assert(join(ys, sep) =~= join(xs, sep) + sep + x);
    } else {
        assert(ys.drop_first() =~= xs.drop_first().push(x));
        lemma_join_push(xs.drop_first(), x, sep);
        assert(join(ys, sep) =~= join(xs, sep) + sep + x);
    }
}

pub proof fn lemma_free_of_add(a: Seq<char>, b: Seq<char>, c: char)
    requires
        free_of(a, c),
        free_of(b, c),
    ensures
        free_of(a + b, c),
{
    assert forall|i: int| 0 <= i < (a + b).len() implies #[trigger] (a + b)[i] != c by {
        if i < a.len() {
            assert((a + b)[i] == a[i]);
        } else {
            assert((a + b)[i] == b[i - a.len()]);
        }
    }
}

/// A join of texts without `c`, by a separator without `c`, holds no `c`.
pub proof fn lemma_join_free_of(xs: Seq<Seq<char>>, sep: Seq<char>, c: char)
    requires
        free_of(sep, c),
        forall|j: int| 0 <= j < xs.len() ==> free_of(#[trigger] xs[j], c),
    ensures
        free_of(join(xs, sep), c),
    decreases xs.len(),
{
    if xs.len() > 1 {
        let rest = xs.drop_first();
        assert forall|j: int| 0 <= j < rest.len() implies free_of(#[trigger] rest[j], c) by {
            assert(rest[j] == xs[j + 1]);
        }
        lemma_join_free_of(rest, sep, c);
        lemma_free_of_add(xs[0], sep, c);
        lemma_free_of_add(xs[0] + sep, join(rest, sep), c);
    }
}

/// Cutting `p + join(xs, [sep, ' '])` at `sep` gives `p + xs[0]`, then each
/// further text with the space before it.
pub proof fn lemma_split_join(p: Seq<char>, xs: Seq<Seq<char>>, sep: char)
    requires
        xs.len() >= 1,
        sep != ' ',
        free_of(p, sep),
        forall|j: int| 0 <= j < xs.len() ==> free_of(#[trigger] xs[j], sep),
    ensures
        split(p + join(xs, seq![sep, ' ']), sep, false) == seq![p + xs[0]] + xs.drop_first().map_values(
            |x: Seq<char>| seq![' '] + x,
        ),
    decreases xs.len(),
{
    let rest = xs.drop_first();
    lemma_free_of_add(p, xs[0], sep);
    if xs.len() == 1 {
        lemma_split_free(p + xs[0], sep, false);
        assert(rest.map_values(|x: Seq<char>| seq![' '] + x) =~= Seq::<Seq<char>>::empty());
        assert(seq![p + xs[0]] + Seq::<Seq<char>>::empty() =~= seq![p + xs[0]]);
    } else {
        let tail = join(rest, seq![sep, ' ']);
        assert(p + join(xs, seq![sep, ' ']) =~= (p + xs[0]) + seq![sep] + (seq![' '] + tail));
        lemma_split_cons(p + xs[0], seq![' '] + tail, sep);
        assert forall|j: int| 0 <= j < rest.len() implies free_of(#[trigger] rest[j], sep) by {
            assert(rest[j] == xs[j + 1]);
        }
        lemma_split_join(seq![' '], rest, sep);
        assert(seq![p + xs[0]] + (seq![seq![' '] + rest[0]] + rest.drop_first().map_values(
            |x: Seq<char>| seq![' '] + x,
        )) =~= seq![p + xs[0]] + rest.map_values(|x: Seq<char>| seq![' '] + x));
    }
}

proof fn lemma_trim_start_padded(p: Seq<char>, x: Seq<char>)
    requires
        is_blank(p),
        trimmed(x),
        x.len() > 0,
    ensures
        trim_start(p + x) == x,
    decreases p.len(),
{
    if p.len() > 0 {
        assert((p + x)[0] == p[0]);
        assert((p + x).drop_first() =~= p.drop_first() + x);
        lemma_trim_start_padded(p.drop_first(), x);
    } else {
        assert(p + x =~= x);
    }
}

/// Spaces before a text that is trimmed and not empty go with trimming.
pub proof fn lemma_trim_padded(p: Seq<char>, x: Seq<char>)
    requires
        is_blank(p),
        trimmed(x),
        x.len() > 0,
    ensures
        trim(p + x) == x,
{
    lemma_trim_start_padded(p, x);
}

/// No piece of a cut without quotes holds the separator, and none holds a
/// character that the whole text lacks.
pub proof fn lemma_split_pieces_free(s: Seq<char>, sep: char, c: char)
    requires
        c == sep || free_of(s, c),
    ensures
        forall|j: int| 0 <= j < split(s, sep, false).len() ==> free_of(
            #[trigger] split(s, sep, false)[j],
            c,
        ),
    decreases s.len(),
{
    lemma_next_cut_bounds(s, sep, false, 0);
    let i = next_cut(s, sep, false, 0);
    let parts = split(s, sep, false);
    if 0 <= i < s.len() {
        let rest = s.skip(i + 1);
        assert forall|k: int| 0 <= k < rest.len() implies (c == sep || #[trigger] rest[k] != c) by {
            assert(rest[k] == s[i + 1 + k]);
        }
        lemma_split_pieces_free(rest, sep, c);
        assert forall|j: int| 0 <= j < parts.len() implies free_of(#[trigger] parts[j], c) by {
            if j == 0 {
                assert forall|k: int| 0 <= k < s.take(i).len() implies #[trigger] s.take(i)[k] != c by {
                    assert(!cuts_at(s, sep, false, k));
                }
            } else {
                assert(parts[j] == split(rest, sep, false)[j - 1]);
            }
        }
    } else {
        assert forall|k: int| 0 <= k < s.len() implies #[trigger] s[k] != c by {
            assert(!cuts_at(s, sep, false, k));
        }
    }
}

proof fn lemma_trim_start_bounds(s: Seq<char>) -> (a: int)
    ensures
        0 <= a <= s.len(),
        trim_start(s) == s.skip(a),
        forall|k: int| 0 <= k < a ==> is_space(#[trigger] s[k]),
        a < s.len() ==> !is_space(s[a]),
    decreases s.len(),
{
    if s.len() > 0 && is_space(s[0]) {
        let t = s.drop_first();
        let a = lemma_trim_start_bounds(t);
        assert(t.skip(a) =~= s.skip(a + 1));
        assert forall|k: int| 0 <= k < a + 1 implies is_space(#[trigger] s[k]) by {
            if k > 0 {
                assert(s[k] == t[k - 1]);
            }
        }
        a + 1
    } else {
        assert(s.skip(0) =~= s);
        0
    }
}

proof fn lemma_trim_end_bounds(s: Seq<char>) -> (b: int)
    ensures
        0 <= b <= s.len(),
        trim_end(s) == s.take(b),
        forall|k: int| b <= k < s.len() ==> is_space(#[trigger] s[k]),
        b > 0 ==> !is_space(s[b - 1]),
    decreases s.len(),
{
    if s.len() > 0 && is_space(s.last()) {
        let t = s.drop_last();
        let b = lemma_trim_end_bounds(t);
        assert(t.take(b) =~= s.take(b));
        assert forall|k: int| b <= k < s.len() implies is_space(#[trigger] s[k]) by {
            if k < s.len() - 1 {
                assert(s[k] == t[k]);
            }
        }
        b
    } else {
        assert(s.take(s.len() as int) =~= s);
        s.len() as int
    }
}

/// Trimming keeps the span `a..b` of `s`, with only spaces outside it and
/// none at its ends.
pub proof fn lemma_trim_bounds(s: Seq<char>) -> (r: (int, int))
    ensures
        0 <= r.0 <= r.1 <= s.len(),
        trim(s) == s.subrange(r.0, r.1),
        forall|k: int| 0 <= k < r.0 ==> is_space(#[trigger] s[k]),
        forall|k: int| r.1 <= k < s.len() ==> is_space(#[trigger] s[k]),
        r.0 < r.1 ==> !is_space(s[r.0]) && !is_space(s[r.1 - 1]),
{
    let a = lemma_trim_start_bounds(s);
    let u = s.skip(a);
    let b = lemma_trim_end_bounds(u);
    assert(u.take(b) =~= s.subrange(a, a + b));
    assert forall|k: int| a + b <= k < s.len() implies is_space(#[trigger] s[k]) by {
        assert(s[k] == u[k - a]);
    }
    if b > 0 {
        assert(s[a + b - 1] == u[b - 1]);
    }
    (a, a + b)
}

/// Trimming what has no `c` leaves no `c`.
pub proof fn lemma_trim_free_of(s: Seq<char>, c: char)
    requires
        free_of(s, c),
    ensures
        free_of(trim(s), c),
{
    let r = lemma_trim_bounds(s);
    assert forall|k: int| 0 <= k < trim(s).len() implies #[trigger] trim(s)[k] != c by {
        assert(trim(s)[k] == s[r.0 + k]);
    }
}

/// Trimming twice is trimming once.
pub proof fn lemma_trim_twice(s: Seq<char>)
    ensures
        trim(trim(s)) == trim(s),
{
    let r = lemma_trim_bounds(s);
    let t = trim(s);
    if t.len() > 0 {
        assert(t[0] == s[r.0]);
        assert(t.last() == s[r.1 - 1]);
        lemma_trim_padded(Seq::empty(), t);
        assert(Seq::<char>::empty() + t =~= t);
    }
}

/// A text that is not blank keeps its character at `i` when trimmed, if that
/// character is not a space.
pub proof fn lemma_trim_keeps(s: Seq<char>, i: int) -> (j: int)
    requires
        0 <= i < s.len(),
        !is_space(s[i]),
    ensures
        0 <= j < trim(s).len(),
        trim(s)[j] == s[i],
{
    let r = lemma_trim_bounds(s);
    i - r.0
}

/// A space in front changes nothing to trimming.
pub proof fn lemma_trim_after_space(v: Seq<char>)
    ensures
        trim(seq![' '] + v) == trim(v),
{
    assert((seq![' '] + v).drop_first() =~= v);
}

pub fn is_space_char(c: char) -> (b: bool)
    ensures
        b == is_space(c),
{
    c == '\t' || c == '\n' || c == '\u{0B}' || c == '\u{0C}' || c == '\r' || c == ' '
        || c == '\u{85}' || c == '\u{A0}' || c == '\u{1680}' || ('\u{2000}' <= c && c
        <= '\u{200A}') || c == '\u{2028}' || c == '\u{2029}' || c == '\u{202F}' || c
        == '\u{205F}' || c == '\u{3000}'
}

/// The characters of `s`, in order.
pub fn chars_of(s: &str) -> (r: Vec<char>)
    ensures
        r@ == s@,
{
    let mut r: Vec<char> = Vec::new();
    for c in it: s.chars()
        invariant
            r@ == it.seq().take(it.index() as int),
    {
        r.push(c);
    }
    r
}

/// The text of the span `lo..hi` of `s`.
pub fn text_of_span(s: &str, lo: usize, hi: usize) -> (r: String)
    requires
        lo <= hi <= s@.len(),
    ensures
        r@ == s@.subrange(lo as int, hi as int),
{
    s.substring_char(lo, hi).to_owned()
}

/// Whether the span `lo..hi` of `cs` is blank.
pub fn blank_span(cs: &Vec<char>, lo: usize, hi: usize) -> (b: bool)
    requires
        lo <= hi <= cs.len(),
    ensures
        b == is_blank(cs@.subrange(lo as int, hi as int)),
{
    let mut i: usize = lo;
    while i < hi
        invariant
            lo <= i <= hi <= cs.len(),
            forall|j: int| lo <= j < i ==> is_space(#[trigger] cs@[j]),
        decreases hi - i,
    {
        if !is_space_char(cs[i]) {
            assert(cs@.subrange(lo as int, hi as int)[i - lo] == cs@[i as int]);
            return false;
        }
        i = i + 1;
    }
    assert forall|j: int| 0 <= j < hi - lo implies is_space(
        #[trigger] cs@.subrange(lo as int, hi as int)[j],
    ) by {
        assert(cs@.subrange(lo as int, hi as int)[j] == cs@[lo + j]);
    }
    true
}

/// The span that remains of `lo..hi` once its leading and trailing spaces
/// are removed.
pub fn trim_span(cs: &Vec<char>, lo: usize, hi: usize) -> (r: (usize, usize))
    requires
        lo <= hi <= cs.len(),
    ensures
        lo <= r.0 <= r.1 <= hi,
        cs@.subrange(r.0 as int, r.1 as int) == trim(cs@.subrange(lo as int, hi as int)),
{
    let mut a: usize = lo;
    while a < hi && is_space_char(cs[a])
        invariant
            lo <= a <= hi <= cs.len(),
            trim_start(cs@.subrange(lo as int, hi as int)) == trim_start(
                cs@.subrange(a as int, hi as int),
            ),
        decreases hi - a,
    {
        assert(cs@.subrange(a as int, hi as int).drop_first() =~= cs@.subrange(
            a + 1,
            hi as int,
        ));
        a = a + 1;
    }
    let mut b: usize = hi;
    while b > a && is_space_char(cs[b - 1])
        invariant
            lo <= a <= b <= hi <= cs.len(),
            trim_end(cs@.subrange(a as int, hi as int)) == trim_end(
                cs@.subrange(a as int, b as int),
            ),
        decreases b - a,
    {
        assert(cs@.subrange(a as int, b as int).drop_last() =~= cs@.subrange(
            a as int,
            b - 1,
        ));
        b = b - 1;
    }
    (a, b)
}

/// The first place at or after `lo` where the span `lo..hi` is cut at `sep`,
/// or `hi` where there is none.
pub fn find_cut(cs: &Vec<char>, lo: usize, hi: usize, sep: char, quoted: bool) -> (r: usize)
    requires
        lo <= hi <= cs.len(),
    ensures
        lo <= r <= hi,
        r - lo == next_cut(cs@.subrange(lo as int, hi as int), sep, quoted, 0),
{
    let ghost t = cs@.subrange(lo as int, hi as int);
    let mut i: usize = lo;
    let mut in_quotes: bool = false;
    while i < hi
        invariant
            lo <= i <= hi <= cs.len(),
            t == cs@.subrange(lo as int, hi as int),
            next_cut(t, sep, quoted, 0) == next_cut(t, sep, quoted, i - lo),
            in_quotes == inside_quotes(t.take(i - lo)),
        decreases hi - i,
    {
        let c = cs[i];
        assert(t[i - lo] == c);
        if c == sep && !(quoted && in_quotes) {
            return i;
        }
        assert(t.take(i - lo + 1).drop_last() =~= t.take(i - lo));
        if c == '"' {
            in_quotes = !in_quotes;
        }
        i = i + 1;
    }
    i
}

/// The spans between the cuts of `lo..hi` at `sep`, in order.
pub fn split_span(cs: &Vec<char>, lo: usize, hi: usize, sep: char, quoted: bool) -> (r: Vec<
    (usize, usize),
>)
    requires
        lo <= hi <= cs.len(),
    ensures
        spans_view(cs@, r@) == split(cs@.subrange(lo as int, hi as int), sep, quoted),
        forall|j: int| 0 <= j < r.len() ==> lo <= (#[trigger] r@[j]).0 <= r@[j].1 <= hi,
{
    let mut out: Vec<(usize, usize)> = Vec::new();
    let mut start: usize = lo;
    loop
        invariant
            lo <= start <= hi <= cs.len(),
            split(cs@.subrange(lo as int, hi as int), sep, quoted) == spans_view(cs@, out@) + split(
                cs@.subrange(start as int, hi as int),
                sep,
                quoted,
            ),
            forall|j: int| 0 <= j < out.len() ==> lo <= (#[trigger] out@[j]).0 <= out@[j].1 <= hi,
        decreases hi - start,
    {
        let ghost t = cs@.subrange(start as int, hi as int);
        let i = find_cut(cs, start, hi, sep, quoted);
        if i < hi {
            assert(t.take(i - start) =~= cs@.subrange(start as int, i as int));
            assert(t.skip(i - start + 1) =~= cs@.subrange(i + 1, hi as int));
            assert(spans_view(cs@, out@.push((start, i))) =~= spans_view(cs@, out@) + seq![
                cs@.subrange(start as int, i as int),
            ]);
            out.push((start, i));
            start = i + 1;
        } else {
            assert(spans_view(cs@, out@.push((start, hi))) =~= spans_view(cs@, out@) + seq![t]);
            out.push((start, hi));
            return out;
        }
    }
}

} // verus!
