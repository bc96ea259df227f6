//! Sentence-pair records and printer-style id lists ("1,3,5-8").
use vstd::prelude::*;

use crate::decimal::{parse_int_seq, parse_u64, push_decimal, decimal_seq, IntErrorKind};
use crate::text::{
    debug_quote, debug_text, split_char, split_once, split_once_seq, split_seq, trim,
    trim_seq,
};

verus! {

/// A single Russian/English sentence with its IPA transcription and id.
#[derive(Debug, Clone)]
pub struct SentencePair {
    pub id: u64,
    pub ru: String,
    pub ipa: String,
    pub en: String,
    pub words: String,
}

/// Largest number of ids a single range (e.g. "1-1000000") may expand to.
///
/// Without this bound, a range like "0-18446744073709551615" would try to
/// build a vector of 2^64 ids instead of failing fast.
pub const MAX_RANGE_LEN: u64 = 1_000_000;

/// Error returned by [`parse_id_list`].
#[derive(Debug, Clone)]
pub enum IdListError {
    /// `token` is not an id; `source` says why.
    ParseInt { token: String, source: IntErrorKind },
    /// The range `token` starts after it ends.
    InvalidRange { token: String, start: u64, end: u64 },
    /// The range `token` holds more than [`MAX_RANGE_LEN`] ids.
    RangeTooLarge { token: String },
}

/// What an [`IdListError`] says, with its texts as character sequences.
pub enum IdListFault {
    ParseInt { token: Seq<char>, source: IntErrorKind },
    InvalidRange { token: Seq<char>, start: u64, end: u64 },
    RangeTooLarge { token: Seq<char> },
}

impl View for IdListError {
    type V = IdListFault;

    open spec fn view(&self) -> IdListFault {
        match self {
            IdListError::ParseInt { token, source } => IdListFault::ParseInt {
                token: token@,
                source: *source,
            },
            IdListError::InvalidRange { token, start, end } => IdListFault::InvalidRange {
                token: token@,
                start: *start,
                end: *end,
            },
            IdListError::RangeTooLarge { token } => IdListFault::RangeTooLarge { token: token@ },
        }
    }
}

/// The message of an id-list error.
pub open spec fn fault_message(f: IdListFault) -> Seq<char> {
    match f {
        IdListFault::ParseInt { token, source } => "invalid id "@ + debug_text(token) + ": "@
            + source.description_spec(),
        IdListFault::InvalidRange { token, start, end } => "invalid range "@ + debug_text(token)
            + ": start "@ + decimal_seq(start as nat) + " is greater than end "@ + decimal_seq(
            end as nat,
        ),
        IdListFault::RangeTooLarge { token } => "range "@ + debug_text(token) + " spans more than "@
            + decimal_seq(MAX_RANGE_LEN as nat) + " ids"@,
    }
}

impl IdListError {
    /// The error's message, e.g. `invalid id "abc": invalid digit found in string`.
    #[allow(clippy::inherent_to_string)]
    pub fn to_string(&self) -> (r: String)
        ensures
            r@ == fault_message(self@),
    {
        match self {
            IdListError::ParseInt { token, source } => {
                let mut m = "invalid id ".to_owned();
                m.append(debug_quote(token.as_str()).as_str());
                m.append(": ");
                m.append(source.description().as_str());
                m
            },
            IdListError::InvalidRange { token, start, end } => {
                let mut m = "invalid range ".to_owned();
                m.append(debug_quote(token.as_str()).as_str());
                m.append(": start ");
                push_decimal(&mut m, *start);
                m.append(" is greater than end ");
                push_decimal(&mut m, *end);
                m
            },
            IdListError::RangeTooLarge { token } => {
                let mut m = "range ".to_owned();
                m.append(debug_quote(token.as_str()).as_str());
                m.append(" spans more than ");
                push_decimal(&mut m, MAX_RANGE_LEN);
                m.append(" ids");
                m
            },
        }
    }
}

/// The id that `token` denotes, or why it denotes none.
pub open spec fn id_token(token: Seq<char>) -> Result<u64, IdListFault> {
    match parse_int_seq(token, u64::MAX as nat) {
        Ok(v) => Ok(v as u64),
        Err(k) => Err(IdListFault::ParseInt { token, source: k }),
    }
}

/// The ids `start`, `start + 1`, ..., `end`.
pub open spec fn id_range(start: u64, end: u64) -> Seq<u64> {
    Seq::new((end - start + 1) as nat, |k: int| (start + k) as u64)
}

/// The ids that one comma-separated part of an id list stands for: a
/// single id, or a range `start-end` of at most [`MAX_RANGE_LEN`] ids, with
/// whitespace around the part and around each endpoint ignored.
pub open spec fn part_ids(part: Seq<char>) -> Result<Seq<u64>, IdListFault> {
    let p = trim_seq(part);
    match split_once_seq(p, '-') {
        Some((a, b)) => if trim_seq(a).len() == 0 {
            // no range start: the part is read as one id, so a leading
            // minus sign is an invalid digit
            match id_token(p) {
                Err(f) => Err(f),
                Ok(v) => Ok(seq![v]),
            }
        } else {
            match id_token(trim_seq(a)) {
                Err(f) => Err(f),
                Ok(start) => match id_token(trim_seq(b)) {
                    Err(f) => Err(f),
                    Ok(end) => if start > end {
                        Err(IdListFault::InvalidRange { token: p, start, end })
                    } else if end - start + 1 > MAX_RANGE_LEN {
                        Err(IdListFault::RangeTooLarge { token: p })
                    } else {
                        Ok(id_range(start, end))
                    },
                },
            }
        },
        None => match id_token(p) {
            Err(f) => Err(f),
            Ok(v) => Ok(seq![v]),
        },
    }
}

/// The ids of the parts, in order; the first failing part decides the error.
pub open spec fn parts_ids(parts: Seq<Seq<char>>) -> Result<Seq<u64>, IdListFault>
    decreases parts.len(),
{
    if parts.len() == 0 {
        Ok(Seq::empty())
    } else {
        match part_ids(parts[0]) {
            Err(f) => Err(f),
            Ok(a) => match parts_ids(parts.drop_first()) {
                Err(f) => Err(f),
                Ok(b) => Ok(a + b),
            },
        }
    }
}

/// The ids that a printer-style id list stands for.
pub open spec fn id_list(spec: Seq<char>) -> Result<Seq<u64>, IdListFault> {
    parts_ids(split_seq(spec, ','))
}

fn parse_id(token: &str) -> (r: Result<u64, IdListError>)
    ensures
        match id_token(token@) {
            Ok(v) => r matches Ok(x) && x == v,
            Err(f) => r matches Err(e) && e@ == f,
        },
{
    match parse_u64(token) {
        Ok(v) => Ok(v),
        Err(k) => Err(IdListError::ParseInt { token: token.to_owned(), source: k }),
    }
}

/// Appends the ids of one part of an id list to `out`.
fn push_part_ids(part: &str, out: &mut Vec<u64>) -> (r: Result<(), IdListError>)
    ensures
        match part_ids(part@) {
            Ok(ids) => r is Ok && final(out)@ == old(out)@ + ids,
            Err(f) => r matches Err(e) && e@ == f,
        },
{
    let part = trim(part);
    if let Some((start_str, end_str)) = split_once(part, '-') {
        let start_trimmed = trim(start_str);
        if start_trimmed.unicode_len() == 0 {
            let id = parse_id(part)?;
            out.push(id);
            return Ok(());
        }
        let start = parse_id(start_trimmed)?;
        let end = parse_id(trim(end_str))?;
        if start > end {
            return Err(IdListError::InvalidRange { token: part.to_owned(), start, end });
        }
        let span: u128 = (end as u128) - (start as u128) + 1;
        if span > MAX_RANGE_LEN as u128 {
            return Err(IdListError::RangeTooLarge { token: part.to_owned() });
        }
        let count: u64 = end - start + 1;
        let ghost old_out = out@;
        let mut k: u64 = 0;
        while k < count
            invariant
                k <= count,
                count == end - start + 1,
                start <= end,
                out@ == old_out + Seq::new(k as nat, |j: int| (start + j) as u64),
            decreases count - k,
        {
            out.push(start + k);
            k = k + 1;
            assert(out@ =~= old_out + Seq::new(k as nat, |j: int| (start + j) as u64));
        }
        assert(out@ =~= old_out + id_range(start, end));
        Ok(())
    } else {
        let id = parse_id(part)?;
        out.push(id);
        Ok(())
    }
}

/// Parse a printer-style id list, e.g. "1,3,5-8" -> [1, 3, 5, 6, 7, 8].
///
/// Whitespace around ids, ranges, and range endpoints is ignored, so
/// "1, 3, 5 - 8" parses the same as "1,3,5-8".
///
/// Ids are unsigned, so a `-` is only ever treated as a range separator;
/// a leading minus sign (e.g. "-3") is rejected as an invalid digit.
///
/// A reversed range (e.g. "8-5") is rejected rather than silently producing
/// an empty list, and a range spanning more than [`MAX_RANGE_LEN`] ids is
/// rejected rather than exhausting memory.
pub fn parse_id_list(spec: &str) -> (r: Result<Vec<u64>, IdListError>)
    ensures
        match id_list(spec@) {
            Ok(ids) => r matches Ok(v) && v@ == ids,
            Err(f) => r matches Err(e) && e@ == f,
        },
{
    let parts = split_char(spec, ',');
    let ghost ps = split_seq(spec@, ',');
    let mut result: Vec<u64> = Vec::new();
    let mut i: usize = 0;
    assert(ps.skip(0) =~= ps);
    while i < parts.len()
        invariant
            parts@.len() == ps.len(),
            forall|k: int| 0 <= k < parts@.len() ==> #[trigger] parts@[k]@ == ps[k],
            ps == split_seq(spec@, ','),
            i <= parts@.len(),
            parts_ids(ps) == match parts_ids(ps.skip(i as int)) {
                Ok(b) => Ok(result@ + b),
                Err(f) => Err(f),
            },
        decreases parts@.len() - i,
    {
        let ghost before = result@;
        let ghost rest = ps.skip(i as int);
        assert(rest[0] == ps[i as int]);
        assert(rest.drop_first() =~= ps.skip(i + 1));
        assert(parts@[i as int]@ == ps[i as int]);
        push_part_ids(parts[i], &mut result)?;
        proof {
            let a = part_ids(ps[i as int])->Ok_0;
            assert(result@ == before + a);
            match parts_ids(ps.skip(i + 1)) {
                Ok(b) => {
                    assert(before + (a + b) =~= result@ + b);
                },
                Err(_) => {},
            }
        }
        i = i + 1;
    }
    proof {
        assert(ps.skip(i as int) =~= Seq::<Seq<char>>::empty());
        assert(result@ + Seq::<u64>::empty() =~= result@);
    }
    Ok(result)
}

/// Whether some pair in `pairs` has the id `id`.
pub open spec fn has_pair(pairs: Seq<SentencePair>, id: u64) -> bool {
    exists|j: int| 0 <= j < pairs.len() && #[trigger] pairs[j].id == id
}

/// The pairs whose id is one of `wanted`, in their order in `pairs`.
pub open spec fn pairs_wanted(pairs: Seq<SentencePair>, wanted: Seq<u64>) -> Seq<SentencePair>
    decreases pairs.len(),
{
    if pairs.len() == 0 {
        Seq::empty()
    } else {
        let init = pairs_wanted(pairs.drop_last(), wanted);
        if wanted.contains(pairs.last().id) {
            init.push(pairs.last())
        } else {
            init
        }
    }
}

/// Whether `id` is one of `ids`.
pub fn contains_id(ids: &[u64], id: u64) -> (r: bool)
    ensures
        r == ids@.contains(id),
{
    let mut i: usize = 0;
    while i < ids.len()
        invariant
            i <= ids@.len(),
            forall|j: int| 0 <= j < i ==> ids@[j] != id,
        decreases ids@.len() - i,
    {
        if ids[i] == id {
            return true;
        }
        i = i + 1;
    }
    false
}

/// Whether some pair has the id `id`.
pub fn has_pair_with_id(pairs: &[SentencePair], id: u64) -> (r: bool)
    ensures
        r == has_pair(pairs@, id),
{
    let mut i: usize = 0;
    while i < pairs.len()
        invariant
            i <= pairs@.len(),
            forall|j: int| 0 <= j < i ==> #[trigger] pairs@[j].id != id,
        decreases pairs@.len() - i,
    {
        if pairs[i].id == id {
            return true;
        }
        i = i + 1;
    }
    false
}

/// The pairs whose `id` appears in `wanted`, in their order in `pairs`.
pub fn select_pairs<'a>(pairs: &'a [SentencePair], wanted: &[u64]) -> (r: Vec<&'a SentencePair>)
    ensures
        r@.len() == pairs_wanted(pairs@, wanted@).len(),
        forall|k: int| 0 <= k < r@.len() ==> *#[trigger] r@[k] == pairs_wanted(pairs@, wanted@)[k],
{
    let mut r: Vec<&'a SentencePair> = Vec::new();
    let mut i: usize = 0;
    assert(pairs@.take(0) =~= Seq::<SentencePair>::empty());
    while i < pairs.len()
        invariant
            i <= pairs@.len(),
            r@.len() == pairs_wanted(pairs@.take(i as int), wanted@).len(),
            forall|k: int|
                0 <= k < r@.len() ==> *#[trigger] r@[k] == pairs_wanted(
                    pairs@.take(i as int),
                    wanted@,
                )[k],
        decreases pairs@.len() - i,
    {
        assert(pairs@.take(i + 1).drop_last() =~= pairs@.take(i as int));
        assert(pairs@.take(i + 1).last() == pairs@[i as int]);
        if contains_id(wanted, pairs[i].id) {
            r.push(&pairs[i]);
        }
        i = i + 1;
    }
    assert(pairs@.take(pairs@.len() as int) =~= pairs@);
    r
}

/// Whether the ids are in strictly increasing order.
pub open spec fn strictly_increasing(v: Seq<u64>) -> bool {
    forall|i: int, j: int| 0 <= i < j < v.len() ==> v[i] < v[j]
}

/// An id that is wanted and that no pair has.
pub open spec fn is_missing(x: u64, wanted: Seq<u64>, pairs: Seq<SentencePair>) -> bool {
    wanted.contains(x) && !has_pair(pairs, x)
}

/// The first position of `v` whose id is not below `x`.
fn lower_bound(v: &Vec<u64>, x: u64) -> (k: usize)
    requires
        strictly_increasing(v@),
    ensures
        k <= v@.len(),
        forall|j: int| 0 <= j < k ==> v@[j] < x,
        forall|j: int| k <= j < v@.len() ==> v@[j] >= x,
{
    let mut lo: usize = 0;
    let mut hi: usize = v.len();
    while lo < hi
        invariant
            lo <= hi <= v@.len(),
            strictly_increasing(v@),
            forall|j: int| 0 <= j < lo ==> v@[j] < x,
            forall|j: int| hi <= j < v@.len() ==> v@[j] >= x,
        decreases hi - lo,
    {
        let mid = lo + (hi - lo) / 2;
        if v[mid] < x {
            lo = mid + 1;
        } else {
            hi = mid;
        }
    }
    lo
}

/// The wanted ids that no pair has, in increasing order and each once.
pub fn missing_ids(wanted: &[u64], pairs: &[SentencePair]) -> (r: Vec<u64>)
    ensures
        strictly_increasing(r@),
        forall|x: u64| r@.contains(x) <==> is_missing(x, wanted@, pairs@),
{
    let mut r: Vec<u64> = Vec::new();
    let mut i: usize = 0;
    while i < wanted.len()
        invariant
            i <= wanted@.len(),
            strictly_increasing(r@),
            forall|x: u64| #[trigger] r@.contains(x) <==> is_missing(x, wanted@.take(i as int), pairs@),
        decreases wanted@.len() - i,
    {
        let w = wanted[i];
        let ghost before = r@;
        assert(wanted@.take(i + 1) =~= wanted@.take(i as int).push(w));
        if !has_pair_with_id(pairs, w) {
            let k = lower_bound(&r, w);
            if k < r.len() && r[k] == w {
                assert(r@[k as int] == w);
                assert(before.contains(w));
            } else {
                r.insert(k, w);
                assert forall|a: int, b: int| 0 <= a < b < r@.len() implies r@[a] < r@[b] by {
                    if b < k {
                        assert(r@[a] == before[a] && r@[b] == before[b]);
                    } else if b == k {
                        assert(r@[a] == before[a]);
                    } else if a < k {
                        assert(r@[a] == before[a] && r@[b] == before[b - 1]);
                    } else if a == k {
                        assert(r@[b] == before[b - 1]);
                        assert(before[b - 1] >= w);
                        assert(before[b - 1] != w) by {
                            if b - 1 > k {
                                assert(before[k as int] < before[b - 1]);
                            }
                        }
                    } else {
                        assert(r@[a] == before[a - 1] && r@[b] == before[b - 1]);
                    }
                }
                assert forall|x: u64| r@.contains(x) <==> (before.contains(x) || x == w) by {
                    if r@.contains(x) {
                        let j = choose|j: int| 0 <= j < r@.len() && r@[j] == x;
                        if j < k {
                            assert(before[j] == x);
                        } else if j > k {
                            assert(before[j - 1] == x);
                        }
                    }
                    if before.contains(x) {
                        let j = choose|j: int| 0 <= j < before.len() && before[j] == x;
                        if j < k {
                            assert(r@[j] == x);
                        } else {
                            assert(r@[j + 1] == x);
                        }
                    }
                    if x == w {
                        assert(r@[k as int] == x);
                    }
                }
            }
        }
        assert(forall|x: u64|
            r@.contains(x) <==> (before.contains(x) || (x == w && !has_pair(pairs@, w))));
        assert forall|x: u64| r@.contains(x) <==> is_missing(x, wanted@.take(i + 1), pairs@) by {
            assert(before.contains(x) <==> is_missing(x, wanted@.take(i as int), pairs@));
            if wanted@.take(i as int).contains(x) {
                let j = choose|j: int| 0 <= j < i && #[trigger] wanted@.take(i as int)[j] == x;
                assert(wanted@.take(i + 1)[j] == x);
            }
            assert(wanted@.take(i + 1)[i as int] == w);
            if wanted@.take(i + 1).contains(x) {
                let j = choose|j: int| 0 <= j < i + 1 && #[trigger] wanted@.take(i + 1)[j] == x;
                if j < i {
                    assert(wanted@.take(i as int)[j] == x);
                } else {
                    assert(x == w);
                }
            }
        }
        i = i + 1;
    }
    assert(wanted@.take(wanted@.len() as int) =~= wanted@);
    r
}

proof fn lemma_pairs_wanted(pairs: Seq<SentencePair>, wanted: Seq<u64>)
    ensures
        forall|k: int|
            0 <= k < pairs_wanted(pairs, wanted).len() ==> wanted.contains(
                #[trigger] pairs_wanted(pairs, wanted)[k].id,
            ),
        forall|j: int|
            0 <= j < pairs.len() && wanted.contains(#[trigger] pairs[j].id) ==> exists|k: int|
                0 <= k < pairs_wanted(pairs, wanted).len() && pairs_wanted(pairs, wanted)[k]
                    == pairs[j],
    decreases pairs.len(),
{
    if pairs.len() > 0 {
        let t = pairs.drop_last();
        lemma_pairs_wanted(t, wanted);
        let init = pairs_wanted(t, wanted);
        let pw = pairs_wanted(pairs, wanted);
        assert forall|j: int|
            0 <= j < pairs.len() && wanted.contains(#[trigger] pairs[j].id) implies exists|k: int|
                0 <= k < pw.len() && pw[k] == pairs[j] by {
            if j == pairs.len() - 1 {
                assert(pw[pw.len() - 1] == pairs[j]);
            } else {
                assert(t[j] == pairs[j]);
                let k = choose|k: int| 0 <= k < init.len() && init[k] == t[j];
                assert(pw[k] == init[k]);
            }
        }
        assert forall|k: int| 0 <= k < pw.len() implies wanted.contains(#[trigger] pw[k].id) by {
            if k < init.len() {
                assert(pw[k] == init[k]);
            }
        }
    }
}

/// Every requested id is reported: either a selected pair has it, or it
/// is among the ids that no pair has. Every selected pair was requested.
pub proof fn law_wanted_ids_are_selected_or_missing(pairs: Seq<SentencePair>, wanted: Seq<u64>)
    ensures
        forall|w: u64|
            #[trigger] wanted.contains(w) ==> is_missing(w, wanted, pairs) || exists|k: int|
                0 <= k < pairs_wanted(pairs, wanted).len() && pairs_wanted(pairs, wanted)[k].id
                    == w,
        forall|k: int|
            0 <= k < pairs_wanted(pairs, wanted).len() ==> wanted.contains(
                #[trigger] pairs_wanted(pairs, wanted)[k].id,
            ),
{
    lemma_pairs_wanted(pairs, wanted);
    assert forall|w: u64| #[trigger] wanted.contains(w) implies is_missing(w, wanted, pairs)
        || exists|k: int|
        0 <= k < pairs_wanted(pairs, wanted).len() && pairs_wanted(pairs, wanted)[k].id == w by {
        if has_pair(pairs, w) {
            let j = choose|j: int| 0 <= j < pairs.len() && #[trigger] pairs[j].id == w;
            assert(wanted.contains(pairs[j].id));
        }
    }
}

/// The message for an id list that does not parse: the list, quoted, and
/// the reason.
pub open spec fn id_spec_message(spec: Seq<char>, f: IdListFault) -> Seq<char> {
    "invalid id spec "@ + debug_text(spec) + ": "@ + fault_message(f)
}

/// The message for an id list `spec` that failed with `e`.
pub fn id_spec_error(spec: &str, e: &IdListError) -> (r: String)
    ensures
        r@ == id_spec_message(spec@, e@),
{
    let mut m = "invalid id spec ".to_owned();
    m.append(debug_quote(spec).as_str());
    m.append(": ");
    m.append(e.to_string().as_str());
    m
}

/// The ids written as `{:?}` writes a list of numbers: `[1, 2, 3]`.
pub open spec fn id_list_text(ids: Seq<u64>) -> Seq<char> {
    "["@ + id_items_text(ids) + "]"@
}

/// The ids in decimal, separated by `, `.
pub open spec fn id_items_text(ids: Seq<u64>) -> Seq<char>
    decreases ids.len(),
{
    if ids.len() == 0 {
        Seq::empty()
    } else if ids.len() == 1 {
        decimal_seq(ids[0] as nat)
    } else {
        id_items_text(ids.drop_last()) + ", "@ + decimal_seq(ids.last() as nat)
    }
}

/// The warning for requested ids that no record has.
pub fn missing_warning(ids: &[u64]) -> (r: String)
    ensures
        r@ == "warning: id(s) not found: "@ + id_list_text(ids@),
{
    let mut m = "warning: id(s) not found: [".to_owned();
    let ghost head = m@;
    proof {
        reveal_strlit("warning: id(s) not found: [");
        reveal_strlit("warning: id(s) not found: ");
        reveal_strlit("[");
        assert(head =~= "warning: id(s) not found: "@ + "["@);
        assert(ids@.take(0) =~= Seq::<u64>::empty());
    }
    let mut i: usize = 0;
    while i < ids.len()
        invariant
            i <= ids@.len(),
            head == "warning: id(s) not found: "@ + "["@,
            m@ == head + id_items_text(ids@.take(i as int)),
        decreases ids@.len() - i,
    {
        let ghost before = m@;
        if i > 0 {
            m.append(", ");
        }
        push_decimal(&mut m, ids[i]);
        proof {
            let t = ids@.take(i + 1);
            assert(t.drop_last() =~= ids@.take(i as int));
            if i == 0 {
                assert(ids@.take(0) =~= Seq::<u64>::empty());
            }
        }
        i = i + 1;
    }
    assert(ids@.take(ids@.len() as int) =~= ids@);
    m.append("]");
    assert(m@ =~= "warning: id(s) not found: "@ + id_list_text(ids@));
    m
}

/// The command's arguments, `<path> <id-spec>`, or its usage line.
pub fn cli_args(prog: &str, args: &[String]) -> (r: Result<(String, String), String>)
    ensures
        args@.len() == 2 ==> (r matches Ok((p, ids)) && p@ == args@[0]@ && ids@ == args@[1]@),
        args@.len() != 2 ==> (r matches Err(m) && m@ == "usage: "@ + prog@ + " <path> <id-spec>"@),
{
    if args.len() != 2 {
        let mut m = "usage: ".to_owned();
        m.append(prog);
        m.append(" <path> <id-spec>");
        return Err(m);
    }
    Ok((args[0].clone(), args[1].clone()))
}

/// Which records are selected, and which ids are reported missing, depend
/// only on which ids are wanted: not on their order, nor on repeats.
pub proof fn law_selection_ignores_order_and_repeats(
    pairs: Seq<SentencePair>,
    w1: Seq<u64>,
    w2: Seq<u64>,
)
    requires
        forall|x: u64| w1.contains(x) <==> w2.contains(x),
    ensures
        pairs_wanted(pairs, w1) == pairs_wanted(pairs, w2),
        forall|x: u64| is_missing(x, w1, pairs) <==> is_missing(x, w2, pairs),
    decreases pairs.len(),
{
    if pairs.len() > 0 {
        law_selection_ignores_order_and_repeats(pairs.drop_last(), w1, w2);
        assert(w1.contains(pairs.last().id) <==> w2.contains(pairs.last().id));
    }
}

} // verus!
