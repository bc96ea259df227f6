//! What holds of every id list: how parts combine, what whitespace does,
//! and what a range, a single id and a leading minus give.
use vstd::prelude::*;

use crate::db::sentence_pairs::{
    id_list, id_range, id_token, part_ids, parts_ids, IdListFault, MAX_RANGE_LEN,
};
use crate::decimal::{all_digits, digits_value, is_digit, lemma_parse_digits, IntErrorKind};
use crate::text::{
    all_white, first_index, is_white, lemma_first_index_is, lemma_split_concat,
    lemma_split_no_sep, lemma_split_pad_back, lemma_split_pad_front, lemma_trim_end_prefix,
    lemma_trim_pad, lemma_trim_solid, split_once_seq, split_seq, trim_end_seq, trim_seq,
    trim_start_seq,
};

verus! {

/// The ids of `x` followed by those of `y`, or the first error.
pub open spec fn then_ids(
    x: Result<Seq<u64>, IdListFault>,
    y: Result<Seq<u64>, IdListFault>,
) -> Result<Seq<u64>, IdListFault> {
    match x {
        Err(f) => Err(f),
        Ok(a) => match y {
            Err(f) => Err(f),
            Ok(b) => Ok(a + b),
        },
    }
}

proof fn lemma_parts_concat(p: Seq<Seq<char>>, q: Seq<Seq<char>>)
    ensures
        parts_ids(p + q) == then_ids(parts_ids(p), parts_ids(q)),
    decreases p.len(),
{
    if p.len() == 0 {
        assert(p + q =~= q);
        match parts_ids(q) {
            Ok(b) => {
                assert(Seq::<u64>::empty() + b =~= b);
            },
            Err(_) => {},
        }
    } else {
        assert((p + q)[0] == p[0]);
        assert((p + q).drop_first() =~= p.drop_first() + q);
        lemma_parts_concat(p.drop_first(), q);
        match part_ids(p[0]) {
            Ok(a) => match parts_ids(p.drop_first()) {
                Ok(b) => match parts_ids(q) {
                    Ok(c) => {
                        assert(a + (b + c) =~= (a + b) + c);
                    },
                    Err(_) => {},
                },
                Err(_) => {},
            },
            Err(_) => {},
        }
    }
}

proof fn lemma_parts_pointwise(p: Seq<Seq<char>>, q: Seq<Seq<char>>)
    requires
        p.len() == q.len(),
        forall|k: int| 0 <= k < p.len() ==> part_ids(#[trigger] p[k]) == part_ids(q[k]),
    ensures
        parts_ids(p) == parts_ids(q),
    decreases p.len(),
{
    if p.len() > 0 {
        assert(part_ids(p[0]) == part_ids(q[0]));
        assert forall|k: int| 0 <= k < p.drop_first().len() implies part_ids(
            #[trigger] p.drop_first()[k],
        ) == part_ids(q.drop_first()[k]) by {
            assert(p.drop_first()[k] == p[k + 1]);
            assert(q.drop_first()[k] == q[k + 1]);
        }
        lemma_parts_pointwise(p.drop_first(), q.drop_first());
    }
}

proof fn lemma_white_no_comma(w: Seq<char>)
    requires
        all_white(w),
    ensures
        !w.contains(','),
{
    if w.contains(',') {
        let j = choose|j: int| 0 <= j < w.len() && w[j] == ',';
        assert(is_white(w[j]));
    }
}

proof fn lemma_part_trim(w1: Seq<char>, p: Seq<char>, w2: Seq<char>)
    requires
        all_white(w1),
        all_white(w2),
    ensures
        part_ids(w1 + p + w2) == part_ids(p),
{
    lemma_trim_pad(w1, p, w2);
}

/// The ids of two id lists joined by a comma are the ids of the first
/// followed by those of the second; an error in the first list comes first.
pub proof fn law_id_list_concat(a: Seq<char>, b: Seq<char>)
    ensures
        id_list(a + seq![','] + b) == then_ids(id_list(a), id_list(b)),
{
    lemma_split_concat(a, b, ',');
    lemma_parts_concat(split_seq(a, ','), split_seq(b, ','));
}

/// Whitespace before and after a whole id list is ignored.
pub proof fn law_id_list_ignores_padding(w1: Seq<char>, s: Seq<char>, w2: Seq<char>)
    requires
        all_white(w1),
        all_white(w2),
    ensures
        id_list(w1 + s + w2) == id_list(s),
{
    lemma_white_no_comma(w1);
    lemma_white_no_comma(w2);
    crate::text::lemma_split_nonempty(s, ',');
    let p = split_seq(s, ',');
    lemma_split_pad_front(w1, s, ',');
    let p1 = split_seq(w1 + s, ',');
    lemma_split_pad_back(w1 + s, w2, ',');
    let p2 = split_seq(w1 + s + w2, ',');
    let e: Seq<char> = Seq::empty();
    assert forall|k: int| 0 <= k < p2.len() implies part_ids(#[trigger] p2[k]) == part_ids(
        p[k],
    ) by {
        if k == 0 && p.len() == 1 {
            assert(p2[k] == w1 + p[0] + w2);
            lemma_part_trim(w1, p[0], w2);
        } else if k == 0 {
            assert(p2[k] =~= w1 + p[0] + e);
            lemma_part_trim(w1, p[0], e);
        } else if k == p.len() - 1 {
            assert(p2[k] =~= e + p[k] + w2);
            lemma_part_trim(e, p[k], w2);
        } else {
            assert(p2[k] == p[k]);
        }
    }
    lemma_parts_pointwise(p2, p);
}

proof fn lemma_solid_digits(a: Seq<char>)
    requires
        a.len() > 0,
        all_digits(a),
    ensures
        !is_white(a[0]),
        !is_white(a.last()),
        trim_seq(a) == a,
        !a.contains(','),
        !a.contains('-'),
{
    assert(is_digit(a[0]));
    assert(is_digit(a[a.len() - 1]));
    lemma_trim_solid(a);
    if a.contains(',') {
        let j = choose|j: int| 0 <= j < a.len() && a[j] == ',';
        assert(is_digit(a[j]));
    }
    if a.contains('-') {
        let j = choose|j: int| 0 <= j < a.len() && a[j] == '-';
        assert(is_digit(a[j]));
    }
}

proof fn lemma_white_no_dash(w: Seq<char>)
    requires
        all_white(w),
    ensures
        !w.contains('-'),
{
    if w.contains('-') {
        let j = choose|j: int| 0 <= j < w.len() && w[j] == '-';
        assert(is_white(w[j]));
    }
}

/// A single-part list is that part's ids.
proof fn lemma_one_part(s: Seq<char>)
    requires
        !s.contains(','),
    ensures
        id_list(s) == part_ids(s),
{
    lemma_split_no_sep(s, ',');
    assert(seq![s].drop_first() =~= Seq::<Seq<char>>::empty());
    assert(seq![s][0] == s);
    assert(parts_ids(Seq::<Seq<char>>::empty()) == Ok::<Seq<u64>, IdListFault>(Seq::empty()));
    match part_ids(s) {
        Ok(a) => {
            assert(a + Seq::<u64>::empty() =~= a);
        },
        Err(_) => {},
    }
}

/// A range `start-end` of decimal ids, with any whitespace around it and
/// around its endpoints, is the ids from `start` to `end`; a reversed range
/// is refused with its start and end, and a range of more than
/// `MAX_RANGE_LEN` ids is refused.
pub proof fn law_id_list_range(
    w1: Seq<char>,
    a: Seq<char>,
    w2: Seq<char>,
    w3: Seq<char>,
    b: Seq<char>,
    w4: Seq<char>,
)
    requires
        all_white(w1),
        all_white(w2),
        all_white(w3),
        all_white(w4),
        a.len() > 0,
        b.len() > 0,
        all_digits(a),
        all_digits(b),
        digits_value(a) <= u64::MAX,
        digits_value(b) <= u64::MAX,
    ensures
        ({
            let start = digits_value(a) as u64;
            let end = digits_value(b) as u64;
            let token = a + w2 + seq!['-'] + w3 + b;
            id_list(w1 + token + w4) == if start > end {
                Err::<Seq<u64>, IdListFault>(IdListFault::InvalidRange { token, start, end })
            } else if end - start + 1 > MAX_RANGE_LEN {
                Err(IdListFault::RangeTooLarge { token })
            } else {
                Ok(id_range(start, end))
            }
        }),
{
    let token = a + w2 + seq!['-'] + w3 + b;
    let s = w1 + token + w4;
    lemma_solid_digits(a);
    lemma_solid_digits(b);
    lemma_white_no_comma(w1);
    lemma_white_no_comma(w2);
    lemma_white_no_comma(w3);
    lemma_white_no_comma(w4);
    lemma_white_no_dash(w2);
    assert(!s.contains(',')) by {
        if s.contains(',') {
            let j = choose|j: int| 0 <= j < s.len() && s[j] == ',';
            let i1 = w1.len() as int;
            let i2 = i1 + a.len();
            let i3 = i2 + w2.len();
            let i4 = i3 + 1;
            let i5 = i4 + w3.len();
            let i6 = i5 + b.len();
            if j < i1 {
                assert(w1.contains(','));
            } else if j < i2 {
                assert(a[j - i1] == s[j]);
            } else if j < i3 {
                assert(w2[j - i2] == s[j]);
            } else if j < i4 {
                assert(s[j] == '-');
            } else if j < i5 {
                assert(w3[j - i4] == s[j]);
            } else if j < i6 {
                assert(b[j - i5] == s[j]);
            } else {
                assert(w4[j - i6] == s[j]);
            }
        }
    }
    lemma_one_part(s);
    lemma_trim_pad(w1, token, w4);
    assert(token[0] == a[0]);
    assert(token.last() == b.last());
    lemma_trim_solid(token);
    let i: int = (a.len() + w2.len()) as int;
    assert forall|j: int| 0 <= j < i implies token[j] != '-' by {
        if j < a.len() {
            assert(token[j] == a[j]);
        } else {
            assert(token[j] == w2[j - a.len()]);
        }
    }
    assert(token[i] == '-');
    lemma_first_index_is(token, '-', i);
    assert(token.take(i) =~= a + w2);
    assert(token.skip(i + 1) =~= w3 + b);
    let e: Seq<char> = Seq::empty();
    assert(e + a + w2 =~= a + w2);
    lemma_trim_pad(e, a, w2);
    assert(w3 + b + e =~= w3 + b);
    lemma_trim_pad(w3, b, e);
    lemma_parse_digits(a, u64::MAX as nat);
    lemma_parse_digits(b, u64::MAX as nat);
}

/// A single decimal id, with any whitespace around it, is that id.
pub proof fn law_id_list_single(w1: Seq<char>, a: Seq<char>, w2: Seq<char>)
    requires
        all_white(w1),
        all_white(w2),
        a.len() > 0,
        all_digits(a),
        digits_value(a) <= u64::MAX,
    ensures
        id_list(w1 + a + w2) == Ok::<Seq<u64>, IdListFault>(seq![digits_value(a) as u64]),
{
    let s = w1 + a + w2;
    lemma_solid_digits(a);
    lemma_white_no_comma(w1);
    lemma_white_no_comma(w2);
    lemma_white_no_dash(w1);
    lemma_white_no_dash(w2);
    assert(!s.contains(',')) by {
        if s.contains(',') {
            let j = choose|j: int| 0 <= j < s.len() && s[j] == ',';
            if j < w1.len() {
                assert(w1[j] == s[j]);
            } else if j < w1.len() + a.len() {
                assert(a[j - w1.len()] == s[j]);
            } else {
                assert(w2[j - w1.len() - a.len()] == s[j]);
            }
        }
    }
    lemma_one_part(s);
    lemma_trim_pad(w1, a, w2);
    lemma_first_index_is(a, '-', a.len() as int);
    lemma_parse_digits(a, u64::MAX as nat);
}

/// A list that begins with a minus sign is refused: ids are unsigned, and
/// the leading minus is an invalid digit of the first id.
pub proof fn law_id_list_leading_minus(x: Seq<char>)
    ensures
        id_list(seq!['-'] + x) matches Err(IdListFault::ParseInt { token, source })
            && source == IntErrorKind::InvalidDigit && token.len() > 0 && token[0] == '-',
{
    let m = seq!['-'];
    assert(!m.contains(',')) by {
        if m.contains(',') {
            let j = choose|j: int| 0 <= j < m.len() && m[j] == ',';
            assert(m[0] == '-');
        }
    }
    crate::text::lemma_split_nonempty(x, ',');
    lemma_split_pad_front(m, x, ',');
    let ps = split_seq(m + x, ',');
    let part = ps[0];
    assert(part == m + split_seq(x, ',')[0]);
    assert(part[0] == '-');
    assert(!is_white('-'));
    assert(trim_start_seq(part) == part);
    lemma_trim_end_prefix(part);
    let p = trim_seq(part);
    assert(p[0] == '-');
    lemma_first_index_is(p, '-', 0);
    assert(p.take(0) =~= Seq::<char>::empty());
    lemma_trim_solid_empty();
    assert(!is_digit('-'));
}

proof fn lemma_trim_solid_empty()
    ensures
        trim_seq(Seq::<char>::empty()) == Seq::<char>::empty(),
{
}

} // verus!
