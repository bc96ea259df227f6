//! Character-level text handling shared by the command parsers: whitespace,
//! trimming, splitting on a separator, comparison and string building.
use vstd::prelude::*;

verus! {

/// The Unicode `White_Space` property, which is what `char::is_whitespace`
/// and `str::trim` go by.
pub open spec fn is_white(c: char) -> bool {
    let u = c as u32;
    ||| 0x09 <= u <= 0x0d
    ||| u == 0x20
    ||| u == 0x85
    ||| u == 0xa0
    ||| u == 0x1680
    ||| 0x2000 <= u <= 0x200a
    ||| u == 0x2028
    ||| u == 0x2029
    ||| u == 0x202f
    ||| u == 0x205f
    ||| u == 0x3000
}

/// Whether `c` is a whitespace character.
pub fn is_whitespace(c: char) -> (b: bool)
    ensures
        b == is_white(c),
{
    let u = c as u32;
    (0x09 <= u && u <= 0x0d) || u == 0x20 || u == 0x85 || u == 0xa0 || u == 0x1680 || (0x2000
        <= u && u <= 0x200a) || u == 0x2028 || u == 0x2029 || u == 0x202f || u == 0x205f || u
        == 0x3000
}

/// `s` without its leading whitespace.
pub open spec fn trim_start_seq(s: Seq<char>) -> Seq<char>
    decreases s.len(),
{
    if s.len() > 0 && is_white(s[0]) {
        trim_start_seq(s.drop_first())
    } else {
        s
    }
}

/// `s` without its trailing whitespace.
pub open spec fn trim_end_seq(s: Seq<char>) -> Seq<char>
    decreases s.len(),
{
    if s.len() > 0 && is_white(s.last()) {
        trim_end_seq(s.drop_last())
    } else {
        s
    }
}

/// `s` without leading and trailing whitespace.
pub open spec fn trim_seq(s: Seq<char>) -> Seq<char> {
    trim_end_seq(trim_start_seq(s))
}

/// Whether every character of `s` is whitespace.
pub open spec fn all_white(s: Seq<char>) -> bool {
    forall|j: int| 0 <= j < s.len() ==> is_white(#[trigger] s[j])
}

pub proof fn lemma_trim_start_at(s: Seq<char>, a: int)
    requires
        0 <= a <= s.len(),
        forall|j: int| 0 <= j < a ==> is_white(#[trigger] s[j]),
        a == s.len() || !is_white(s[a]),
    ensures
        trim_start_seq(s) == s.skip(a),
    decreases a,
{
    if a > 0 {
        lemma_trim_start_at(s.drop_first(), a - 1);
        assert(s.drop_first().skip(a - 1) =~= s.skip(a));
    } else {
        assert(s.skip(0) =~= s);
    }
}

pub proof fn lemma_trim_end_at(s: Seq<char>, b: int)
    requires
        0 <= b <= s.len(),
        forall|j: int| b <= j < s.len() ==> is_white(#[trigger] s[j]),
        b == 0 || !is_white(s[b - 1]),
    ensures
        trim_end_seq(s) == s.take(b),
    decreases s.len() - b,
{
    if b < s.len() {
        lemma_trim_end_at(s.drop_last(), b);
        assert(s.drop_last().take(b) =~= s.take(b));
    } else {
        assert(s.take(b) =~= s);
    }
}

/// Trimming whitespace on both sides of a text that is already surrounded by
/// whitespace-only runs gives the trimmed text.
pub proof fn lemma_trim_bounds(s: Seq<char>, a: int, b: int)
    requires
        0 <= a <= b <= s.len(),
        forall|j: int| 0 <= j < a ==> is_white(#[trigger] s[j]),
        forall|j: int| b <= j < s.len() ==> is_white(#[trigger] s[j]),
        a == b || (!is_white(s[a]) && !is_white(s[b - 1])),
    ensures
        trim_seq(s) == s.subrange(a, b),
{
    if a == b {
        assert forall|j: int| 0 <= j < s.len() implies is_white(#[trigger] s[j]) by {
            if j < a {
            } else {
            }
        }
        lemma_trim_start_at(s, s.len() as int);
        lemma_trim_end_at(s.skip(s.len() as int), 0);
        assert(s.skip(s.len() as int).take(0) =~= s.subrange(a, b));
    } else {
        lemma_trim_start_at(s, a);
        let t = s.skip(a);
        assert forall|j: int| b - a <= j < t.len() implies is_white(#[trigger] t[j]) by {
            assert(t[j] == s[j + a]);
        }
        lemma_trim_end_at(t, b - a);
        assert(t.take(b - a) =~= s.subrange(a, b));
    }
}

/// The characters of `s`, in order.
pub fn chars_of(s: &str) -> (v: Vec<char>)
    ensures
        v@ == s@,
{
    let mut v: Vec<char> = Vec::new();
    for c in it: s.chars()
        invariant
            v@ == it.seq().take(it.index() as int),
    {
        v.push(c);
    }
    assert(v@ == s@);
    v
}

/// `s` with leading and trailing whitespace removed (`str::trim`).
pub fn trim<'a>(s: &'a str) -> (r: &'a str)
    ensures
        r@ == trim_seq(s@),
{
    let cs = chars_of(s);
    let n = cs.len();
    let mut a: usize = 0;
    while a < n && is_whitespace(cs[a])
        invariant
            a <= n,
            n == cs@.len(),
            cs@ == s@,
            forall|j: int| 0 <= j < a ==> is_white(#[trigger] cs@[j]),
        decreases n - a,
    {
        a = a + 1;
    }
    let mut b: usize = n;
    while b > a && is_whitespace(cs[b - 1])
        invariant
            a <= b <= n,
            n == cs@.len(),
            cs@ == s@,
            forall|j: int| b <= j < n ==> is_white(#[trigger] cs@[j]),
            a == n || !is_white(cs@[a as int]),
        decreases b,
    {
        b = b - 1;
    }
    proof {
        lemma_trim_bounds(s@, a as int, b as int);
    }
    s.substring_char(a, b)
}

/// Whether the two texts hold the same characters.
pub fn str_eq(a: &str, b: &str) -> (r: bool)
    ensures
        r == (a@ == b@),
{
    let x = chars_of(a);
    let y = chars_of(b);
    if x.len() != y.len() {
        return false;
    }
    let mut i: usize = 0;
    while i < x.len()
        invariant
            x@ == a@,
            y@ == b@,
            x@.len() == y@.len(),
            i <= x@.len(),
            forall|j: int| 0 <= j < i ==> x@[j] == y@[j],
        decreases x@.len() - i,
    {
        if x[i] != y[i] {
            return false;
        }
        i = i + 1;
    }
    assert(a@ =~= b@);
    true
}

/// Whether the first character of `s` is `c`.
pub fn starts_with_char(s: &str, c: char) -> (r: bool)
    ensures
        r == (s@.len() > 0 && s@[0] == c),
{
    let cs = chars_of(s);
    cs.len() > 0 && cs[0] == c
}

/// Whether `s` ends with `suffix`.
pub fn ends_with(s: &str, suffix: &str) -> (r: bool)
    ensures
        r == (suffix@.len() <= s@.len() && s@.skip(s@.len() - suffix@.len()) == suffix@),
{
    let x = chars_of(s);
    let y = chars_of(suffix);
    if y.len() > x.len() {
        return false;
    }
    let off = x.len() - y.len();
    let mut i: usize = 0;
    while i < y.len()
        invariant
            x@ == s@,
            y@ == suffix@,
            off + y.len() == x.len(),
            y@.len() <= x@.len(),
            i <= y@.len(),
            forall|j: int| 0 <= j < i ==> x@[off + j] == y@[j],
        decreases y@.len() - i,
    {
        if x[off + i] != y[i] {
            assert(s@.skip(off as int)[i as int] != suffix@[i as int]);
            return false;
        }
        i = i + 1;
    }
    assert(s@.skip(off as int) =~= suffix@);
    true
}

/// `s` cut at every occurrence of `sep` (`str::split` with a character).
pub open spec fn split_seq(s: Seq<char>, sep: char) -> Seq<Seq<char>>
    decreases s.len(),
{
    if s.len() == 0 {
        seq![Seq::<char>::empty()]
    } else {
        let init = split_seq(s.drop_last(), sep);
        if s.last() == sep {
            init.push(Seq::<char>::empty())
        } else {
            init.update(init.len() - 1, init.last().push(s.last()))
        }
    }
}

pub proof fn lemma_split_nonempty(s: Seq<char>, sep: char)
    ensures
        split_seq(s, sep).len() >= 1,
    decreases s.len(),
{
    if s.len() > 0 {
        lemma_split_nonempty(s.drop_last(), sep);
    }
}

/// `s` split at every occurrence of `sep`; an empty piece stands between
/// two adjacent separators and at an end that is a separator.
pub fn split_char<'a>(s: &'a str, sep: char) -> (v: Vec<&'a str>)
    ensures
        v@.len() == split_seq(s@, sep).len(),
        forall|k: int| 0 <= k < v@.len() ==> #[trigger] v@[k]@ == split_seq(s@, sep)[k],
{
    let cs = chars_of(s);
    let n = cs.len();
    let mut pieces: Vec<&'a str> = Vec::new();
    let mut start: usize = 0;
    let mut i: usize = 0;
    assert(s@.take(0) =~= Seq::<char>::empty());
    while i < n
        invariant
            n == cs@.len(),
            cs@ == s@,
            start <= i <= n,
            pieces@.len() + 1 == split_seq(s@.take(i as int), sep).len(),
            forall|k: int|
                0 <= k < pieces@.len() ==> #[trigger] pieces@[k]@ == split_seq(
                    s@.take(i as int),
                    sep,
                )[k],
            split_seq(s@.take(i as int), sep).last() == s@.subrange(start as int, i as int),
        decreases n - i,
    {
        let ghost old_split = split_seq(s@.take(i as int), sep);
        proof {
            lemma_split_nonempty(s@.take(i as int), sep);
            assert(s@.take(i + 1).drop_last() =~= s@.take(i as int));
            assert(s@.take(i + 1).last() == s@[i as int]);
        }
        if cs[i] == sep {
            let piece = s.substring_char(start, i);
            pieces.push(piece);
            start = i + 1;
            assert(s@.subrange(start as int, (i + 1) as int) =~= Seq::<char>::empty());
        } else {
            assert(s@.subrange(start as int, (i + 1) as int) =~= s@.subrange(
                start as int,
                i as int,
            ).push(s@[i as int]));
        }
        i = i + 1;
    }
    let piece = s.substring_char(start, n);
    pieces.push(piece);
    assert(s@.take(n as int) =~= s@);
    pieces
}

/// Index of the first `c` in `s`, or `s.len()` where there is none.
pub open spec fn first_index(s: Seq<char>, c: char) -> int
    decreases s.len(),
{
    if s.len() == 0 {
        0
    } else if s[0] == c {
        0
    } else {
        1 + first_index(s.drop_first(), c)
    }
}

pub proof fn lemma_first_index(s: Seq<char>, c: char)
    ensures
        0 <= first_index(s, c) <= s.len(),
        forall|j: int| 0 <= j < first_index(s, c) ==> s[j] != c,
        first_index(s, c) < s.len() ==> s[first_index(s, c)] == c,
    decreases s.len(),
{
    if s.len() > 0 && s[0] != c {
        lemma_first_index(s.drop_first(), c);
        assert forall|j: int| 0 <= j < first_index(s, c) implies s[j] != c by {
            if j > 0 {
                assert(s[j] == s.drop_first()[j - 1]);
            }
        }
    }
}

/// The first index holding `c` is the one before which no `c` stands.
pub proof fn lemma_first_index_is(s: Seq<char>, c: char, i: int)
    requires
        0 <= i <= s.len(),
        forall|j: int| 0 <= j < i ==> s[j] != c,
        i == s.len() || s[i] == c,
    ensures
        first_index(s, c) == i,
{
    lemma_first_index(s, c);
    let f = first_index(s, c);
    if f < i {
        assert(s[f] != c);
    } else if f > i {
        assert(s[i] != c);
    }
}

/// The text before and after the first `c` in `s` (`str::split_once`).
pub open spec fn split_once_seq(s: Seq<char>, c: char) -> Option<(Seq<char>, Seq<char>)> {
    let i = first_index(s, c);
    if i < s.len() {
        Some((s.take(i), s.skip(i + 1)))
    } else {
        None
    }
}

/// Splits `s` at the first `c`, if there is one.
pub fn split_once<'a>(s: &'a str, c: char) -> (r: Option<(&'a str, &'a str)>)
    ensures
        match r {
            Some((x, y)) => split_once_seq(s@, c) == Some((x@, y@)),
            None => split_once_seq(s@, c) is None,
        },
{
    let cs = chars_of(s);
    let n = cs.len();
    let mut i: usize = 0;
    while i < n && cs[i] != c
        invariant
            i <= n,
            n == cs@.len(),
            cs@ == s@,
            forall|j: int| 0 <= j < i ==> s@[j] != c,
        decreases n - i,
    {
        i = i + 1;
    }
    proof {
        lemma_first_index_is(s@, c, i as int);
    }
    if i < n {
        let x = s.substring_char(0, i);
        let y = s.substring_char(i + 1, n);
        assert(s@.subrange(0, i as int) =~= s@.take(i as int));
        assert(s@.subrange(i + 1, n as int) =~= s@.skip(i + 1));
        Some((x, y))
    } else {
        None
    }
}

/// A text without the separator is a single piece.
pub proof fn lemma_split_no_sep(s: Seq<char>, sep: char)
    requires
        !s.contains(sep),
    ensures
        split_seq(s, sep) == seq![s],
    decreases s.len(),
{
    if s.len() > 0 {
        assert(!s.drop_last().contains(sep)) by {
            if s.drop_last().contains(sep) {
                let j = choose|j: int| 0 <= j < s.drop_last().len() && s.drop_last()[j] == sep;
                assert(s[j] == sep);
            }
        }
        lemma_split_no_sep(s.drop_last(), sep);
        assert(s.last() != sep) by {
            assert(s[s.len() - 1] == s.last());
        }
        assert(s.drop_last().push(s.last()) =~= s);
        assert(split_seq(s, sep) =~= seq![s]);
    } else {
        assert(s =~= Seq::<char>::empty());
    }
}

/// Splitting `a`, a separator, then `b` gives the pieces of `a` followed by
/// the pieces of `b`.
pub proof fn lemma_split_concat(a: Seq<char>, b: Seq<char>, sep: char)
    ensures
        split_seq(a + seq![sep] + b, sep) == split_seq(a, sep) + split_seq(b, sep),
    decreases b.len(),
{
    let s = a + seq![sep] + b;
    lemma_split_nonempty(a, sep);
    if b.len() == 0 {
        assert(s.drop_last() =~= a);
        assert(s.last() == sep);
        assert(split_seq(b, sep) =~= seq![Seq::<char>::empty()]);
        assert(split_seq(s, sep) =~= split_seq(a, sep) + split_seq(b, sep));
    } else {
        assert(s.drop_last() =~= a + seq![sep] + b.drop_last());
        assert(s.last() == b.last());
        lemma_split_concat(a, b.drop_last(), sep);
        lemma_split_nonempty(b.drop_last(), sep);
        assert(split_seq(s, sep) =~= split_seq(a, sep) + split_seq(b, sep));
    }
}

/// Text without the separator put before `s` joins its first piece.
pub proof fn lemma_split_pad_front(w: Seq<char>, s: Seq<char>, sep: char)
    requires
        !w.contains(sep),
    ensures
        split_seq(w + s, sep) == split_seq(s, sep).update(0, w + split_seq(s, sep)[0]),
    decreases s.len(),
{
    lemma_split_nonempty(s, sep);
    if s.len() == 0 {
        assert(w + s =~= w);
        lemma_split_no_sep(w, sep);
        assert(w + Seq::<char>::empty() =~= w);
        assert(split_seq(w + s, sep) =~= split_seq(s, sep).update(0, w + split_seq(s, sep)[0]));
    } else {
        assert((w + s).drop_last() =~= w + s.drop_last());
        assert((w + s).last() == s.last());
        lemma_split_pad_front(w, s.drop_last(), sep);
        lemma_split_nonempty(s.drop_last(), sep);
        let y = split_seq(s.drop_last(), sep);
        if s.last() == sep {
            assert(split_seq(w + s, sep) =~= split_seq(s, sep).update(0, w + split_seq(s, sep)[0]));
        } else {
            if y.len() == 1 {
                assert((w + y[0]).push(s.last()) =~= w + y[0].push(s.last()));
            }
            assert(split_seq(w + s, sep) =~= split_seq(s, sep).update(0, w + split_seq(s, sep)[0]));
        }
    }
}

/// Text without the separator put after `s` joins its last piece.
pub proof fn lemma_split_pad_back(s: Seq<char>, w: Seq<char>, sep: char)
    requires
        !w.contains(sep),
    ensures
        split_seq(s + w, sep) == split_seq(s, sep).update(
            split_seq(s, sep).len() - 1,
            split_seq(s, sep).last() + w,
        ),
    decreases w.len(),
{
    lemma_split_nonempty(s, sep);
    let p = split_seq(s, sep);
    if w.len() == 0 {
        assert(s + w =~= s);
        assert(p.last() + w =~= p.last());
        assert(p.update(p.len() - 1, p.last() + w) =~= p);
    } else {
        assert(!w.drop_last().contains(sep)) by {
            if w.drop_last().contains(sep) {
                let j = choose|j: int| 0 <= j < w.drop_last().len() && w.drop_last()[j] == sep;
                assert(w[j] == sep);
            }
        }
        assert(w.last() != sep) by {
            assert(w[w.len() - 1] == w.last());
        }
        assert((s + w).drop_last() =~= s + w.drop_last());
        assert((s + w).last() == w.last());
        lemma_split_pad_back(s, w.drop_last(), sep);
        assert((p.last() + w.drop_last()).push(w.last()) =~= p.last() + w);
        assert(split_seq(s + w, sep) =~= p.update(p.len() - 1, p.last() + w));
    }
}

pub proof fn lemma_trim_start_white_prefix(w: Seq<char>, q: Seq<char>)
    requires
        all_white(w),
    ensures
        trim_start_seq(w + q) == trim_start_seq(q),
    decreases w.len(),
{
    if w.len() > 0 {
        assert((w + q)[0] == w[0]);
        assert((w + q).drop_first() =~= w.drop_first() + q);
        assert(all_white(w.drop_first())) by {
            assert forall|j: int| 0 <= j < w.drop_first().len() implies is_white(
                #[trigger] w.drop_first()[j],
            ) by {
                assert(w.drop_first()[j] == w[j + 1]);
            }
        }
        lemma_trim_start_white_prefix(w.drop_first(), q);
    } else {
        assert(w + q =~= q);
    }
}

pub proof fn lemma_trim_end_white_suffix(q: Seq<char>, w: Seq<char>)
    requires
        all_white(w),
    ensures
        trim_end_seq(q + w) == trim_end_seq(q),
    decreases w.len(),
{
    if w.len() > 0 {
        assert((q + w).last() == w[w.len() - 1]);
        assert((q + w).drop_last() =~= q + w.drop_last());
        assert(all_white(w.drop_last())) by {
            assert forall|j: int| 0 <= j < w.drop_last().len() implies is_white(
                #[trigger] w.drop_last()[j],
            ) by {
                assert(w.drop_last()[j] == w[j]);
            }
        }
        lemma_trim_end_white_suffix(q, w.drop_last());
    } else {
        assert(q + w =~= q);
    }
}

pub proof fn lemma_trim_start_append(p: Seq<char>, w: Seq<char>)
    requires
        exists|j: int| 0 <= j < p.len() && !is_white(#[trigger] p[j]),
    ensures
        trim_start_seq(p + w) == trim_start_seq(p) + w,
    decreases p.len(),
{
    assert((p + w)[0] == p[0]);
    if is_white(p[0]) {
        assert((p + w).drop_first() =~= p.drop_first() + w);
        let j = choose|j: int| 0 <= j < p.len() && !is_white(#[trigger] p[j]);
        assert(j > 0);
        assert(p.drop_first()[j - 1] == p[j]);
        lemma_trim_start_append(p.drop_first(), w);
    }
}

/// Whitespace around a text does not change what trimming it gives.
pub proof fn lemma_trim_pad(w1: Seq<char>, p: Seq<char>, w2: Seq<char>)
    requires
        all_white(w1),
        all_white(w2),
    ensures
        trim_seq(w1 + p + w2) == trim_seq(p),
{
    assert(w1 + p + w2 =~= w1 + (p + w2));
    lemma_trim_start_white_prefix(w1, p + w2);
    if exists|j: int| 0 <= j < p.len() && !is_white(#[trigger] p[j]) {
        lemma_trim_start_append(p, w2);
        lemma_trim_end_white_suffix(trim_start_seq(p), w2);
    } else {
        assert(all_white(p + w2)) by {
            assert forall|j: int| 0 <= j < (p + w2).len() implies is_white(#[trigger] (p + w2)[j]) by {
                if j < p.len() {
                    assert((p + w2)[j] == p[j]);
                } else {
                    assert((p + w2)[j] == w2[j - p.len()]);
                }
            }
        }
        assert(all_white(p));
        lemma_trim_start_white_prefix(p + w2, Seq::<char>::empty());
        lemma_trim_start_white_prefix(p, Seq::<char>::empty());
        assert(p + w2 + Seq::<char>::empty() =~= p + w2);
        assert(p + Seq::<char>::empty() =~= p);
    }
}

/// A text that begins and ends with non-whitespace is its own trim.
pub proof fn lemma_trim_solid(p: Seq<char>)
    requires
        p.len() > 0,
        !is_white(p[0]),
        !is_white(p.last()),
    ensures
        trim_seq(p) == p,
{
    lemma_trim_bounds(p, 0, p.len() as int);
    assert(p.subrange(0, p.len() as int) =~= p);
}

/// Trimming only the end keeps a prefix, and keeps a first character that is
/// not whitespace.
pub proof fn lemma_trim_end_prefix(s: Seq<char>)
    ensures
        trim_end_seq(s).len() <= s.len(),
        forall|j: int| 0 <= j < trim_end_seq(s).len() ==> #[trigger] trim_end_seq(s)[j] == s[j],
        s.len() > 0 && !is_white(s[0]) ==> trim_end_seq(s).len() >= 1,
    decreases s.len(),
{
    if s.len() > 0 && is_white(s.last()) {
        lemma_trim_end_prefix(s.drop_last());
        if s.len() == 1 {
            assert(s.last() == s[0]);
        }
    }
}

/// Appends `c` to `s` (`String::push`).
#[verifier::external_body]
pub(crate) fn push_char(s: &mut String, c: char)
    ensures
        final(s)@ == old(s)@.push(c),
{
    s.push(c);
}

/// What `{:?}` writes for a string: the text in double quotes, with quotes,
/// backslashes and unprintable characters escaped.
pub uninterp spec fn debug_text(s: Seq<char>) -> Seq<char>;

/// The `{:?}` rendering of `s` (`<str as Debug>::fmt`). The escaping rules
/// (`char::escape_debug`) are not stated: the result is named by `debug_text`.
#[verifier::external_body]
pub(crate) fn debug_quote(s: &str) -> (r: String)
    ensures
        r@ == debug_text(s@),
{
    format!("{:?}", s)
}

} // verus!
