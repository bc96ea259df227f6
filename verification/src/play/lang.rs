//! English and Russian text for a sentence pair, keyed by id.
//!
//! The two languages differ in what a "clause" is drawn from: English
//! clauses come from the `words` field, Russian clauses come from splitting
//! `ru` itself.
use vstd::prelude::*;

use crate::db::sentence_pairs::SentencePair;
use crate::play::PlayError;
use crate::text::{chars_of, trim, trim_seq};

verus! {

/// The characters that separate clauses.
pub open spec fn is_delim(c: char) -> bool {
    c == ',' || c == '.' || c == ';' || c == '-'
}

/// `text` split on runs of `,`, `.`, `;` or `-`, the way
/// `re.split(r'[,.;-]+', text)` splits it: consecutive delimiters make a
/// single split point, and a leading or trailing delimiter still yields an
/// empty piece at that end.
pub open spec fn clauses_seq(s: Seq<char>) -> Seq<Seq<char>>
    decreases s.len(),
{
    if s.len() == 0 {
        seq![Seq::<char>::empty()]
    } else {
        let init = clauses_seq(s.drop_last());
        if is_delim(s.last()) {
            if s.len() > 1 && is_delim(s[s.len() - 2]) {
                init
            } else {
                init.push(Seq::<char>::empty())
            }
        } else {
            init.update(init.len() - 1, init.last().push(s.last()))
        }
    }
}

pub proof fn lemma_clauses_nonempty(s: Seq<char>)
    ensures
        clauses_seq(s).len() >= 1,
        s.len() > 0 && is_delim(s.last()) ==> clauses_seq(s).last().len() == 0,
    decreases s.len(),
{
    if s.len() > 0 {
        lemma_clauses_nonempty(s.drop_last());
        if is_delim(s.last()) && s.len() > 1 && is_delim(s[s.len() - 2]) {
            assert(s.drop_last().last() == s[s.len() - 2]);
        }
    }
}

/// Split `text` into clauses (see [`clauses_seq`]).
pub fn split_clauses<'a>(text: &'a str) -> (v: Vec<&'a str>)
    ensures
        v@.len() == clauses_seq(text@).len(),
        forall|k: int| 0 <= k < v@.len() ==> #[trigger] v@[k]@ == clauses_seq(text@)[k],
{
    let cs = chars_of(text);
    let n = cs.len();
    let mut result: Vec<&'a str> = Vec::new();
    let mut seg_start: usize = 0;
    let mut i: usize = 0;
    assert(text@.take(0) =~= Seq::<char>::empty());
    while i < n
        invariant
            n == cs@.len(),
            cs@ == text@,
            seg_start <= i <= n,
            i > 0 && is_delim(text@[i - 1]) ==> seg_start == i,
            result@.len() + 1 == clauses_seq(text@.take(i as int)).len(),
            forall|k: int|
                0 <= k < result@.len() ==> #[trigger] result@[k]@ == clauses_seq(
                    text@.take(i as int),
                )[k],
            clauses_seq(text@.take(i as int)).last() == text@.subrange(seg_start as int, i as int),
        decreases n - i,
    {
        proof {
            lemma_clauses_nonempty(text@.take(i as int));
            assert(text@.take(i + 1).drop_last() =~= text@.take(i as int));
            assert(text@.take(i + 1).last() == text@[i as int]);
            if i > 0 {
                assert(text@.take(i + 1)[i - 1] == text@[i - 1]);
            }
        }
        let ch = cs[i];
        if ch == ',' || ch == '.' || ch == ';' || ch == '-' {
            if i > 0 && (cs[i - 1] == ',' || cs[i - 1] == '.' || cs[i - 1] == ';' || cs[i - 1]
                == '-') {
                seg_start = i + 1;
            } else {
                result.push(text.substring_char(seg_start, i));
                seg_start = i + 1;
            }
            assert(text@.subrange(seg_start as int, (i + 1) as int) =~= Seq::<char>::empty());
        } else {
            assert(text@.subrange(seg_start as int, (i + 1) as int) =~= text@.subrange(
                seg_start as int,
                i as int,
            ).push(text@[i as int]));
        }
        i = i + 1;
    }
    result.push(text.substring_char(seg_start, n));
    assert(text@.take(n as int) =~= text@);
    result
}

/// The 1-based `clause`-th clause of `text`, trimmed, or how many clauses
/// there are when there is no such clause.
pub open spec fn nth_clause_spec(text: Seq<char>, clause: usize) -> Result<Seq<char>, usize> {
    let cs = clauses_seq(text);
    if clause == 0 || clause > cs.len() {
        Err(cs.len() as usize)
    } else {
        Ok(trim_seq(cs[clause - 1]))
    }
}

/// Return the 1-based `clause`-th piece of `text` (see [`split_clauses`]),
/// trimmed of surrounding whitespace.
pub fn nth_clause(text: &str, clause: usize) -> (r: Result<String, PlayError>)
    ensures
        match nth_clause_spec(text@, clause) {
            Ok(t) => r matches Ok(s) && s@ == t,
            Err(available) => r matches Err(PlayError::ClauseOutOfRange { clause: c, available: a })
                && c == clause && a == available,
        },
{
    let clauses = split_clauses(text);
    if clause == 0 || clause > clauses.len() {
        return Err(PlayError::ClauseOutOfRange { clause, available: clauses.len() });
    }
    Ok(trim(clauses[clause - 1]).to_owned())
}

/// The pair with `id`: the first one in `pairs`.
pub fn load_pair<'a>(pairs: &'a [SentencePair], id: u64) -> (r: Result<&'a SentencePair, PlayError>)
    ensures
        match r {
            Ok(p) => exists|i: int|
                0 <= i < pairs@.len() && pairs@[i] == *p && p.id == id && forall|j: int|
                    0 <= j < i ==> #[trigger] pairs@[j].id != id,
            Err(e) => e == PlayError::PairNotFound(id) && forall|j: int|
                0 <= j < pairs@.len() ==> #[trigger] pairs@[j].id != id,
        },
{
    let mut i: usize = 0;
    while i < pairs.len()
        invariant
            i <= pairs@.len(),
            forall|j: int| 0 <= j < i ==> #[trigger] pairs@[j].id != id,
        decreases pairs@.len() - i,
    {
        if pairs[i].id == id {
            return Ok(&pairs[i]);
        }
        i = i + 1;
    }
    Err(PlayError::PairNotFound(id))
}

/// The English text to say: the sentence, or a clause of its word list.
pub open spec fn en_text(pair: SentencePair, clause: Option<usize>) -> Result<Seq<char>, usize> {
    match clause {
        None => Ok(pair.en@),
        Some(c) => nth_clause_spec(pair.words@, c),
    }
}

/// The Russian text to say: the sentence, or a clause of it.
pub open spec fn ru_text(pair: SentencePair, clause: Option<usize>) -> Result<Seq<char>, usize> {
    match clause {
        None => Ok(pair.ru@),
        Some(c) => nth_clause_spec(pair.ru@, c),
    }
}

/// The English text for `pair`: the whole sentence, or the `clause`-th
/// clause of its word list.
pub fn select_en_text(pair: &SentencePair, clause: Option<usize>) -> (r: Result<String, PlayError>)
    ensures
        match en_text(*pair, clause) {
            Ok(t) => r matches Ok(s) && s@ == t,
            Err(available) => r matches Err(PlayError::ClauseOutOfRange { clause: c, available: a })
                && Some(c) == clause && a == available,
        },
{
    match clause {
        None => Ok(pair.en.clone()),
        Some(clause) => nth_clause(pair.words.as_str(), clause),
    }
}

/// The Russian text for `pair`: the whole sentence, or its `clause`-th
/// clause.
pub fn select_ru_text(pair: &SentencePair, clause: Option<usize>) -> (r: Result<String, PlayError>)
    ensures
        match ru_text(*pair, clause) {
            Ok(t) => r matches Ok(s) && s@ == t,
            Err(available) => r matches Err(PlayError::ClauseOutOfRange { clause: c, available: a })
                && Some(c) == clause && a == available,
        },
{
    match clause {
        None => Ok(pair.ru.clone()),
        Some(clause) => nth_clause(pair.ru.as_str(), clause),
    }
}

/// Whether `r` is what selecting a text gives: the text, or the clause
/// out of range with the number of clauses there are.
pub open spec fn selected(t: Result<Seq<char>, usize>, clause: Option<usize>, r: Result<String, PlayError>) -> bool {
    match t {
        Ok(t) => r matches Ok(s) && s@ == t,
        Err(available) => r matches Err(PlayError::ClauseOutOfRange { clause: c, available: a })
            && Some(c) == clause && a == available,
    }
}

/// Whether `i` is the first index of a pair with `id`.
pub open spec fn first_with_id(pairs: Seq<SentencePair>, id: u64, i: int) -> bool {
    0 <= i < pairs.len() && pairs[i].id == id && forall|j: int|
        0 <= j < i ==> #[trigger] pairs[j].id != id
}

/// The English text that rendering `id`/`clause` synthesizes (after the
/// lead-in silence): the text of the first pair with `id`.
pub fn render_en(pairs: &[SentencePair], id: u64, clause: Option<usize>) -> (r: Result<String, PlayError>)
    ensures
        (forall|j: int| 0 <= j < pairs@.len() ==> #[trigger] pairs@[j].id != id) ==> r == Err::<
            String,
            PlayError,
        >(PlayError::PairNotFound(id)),
        forall|i: int| #[trigger]
            first_with_id(pairs@, id, i) ==> selected(en_text(pairs@[i], clause), clause, r),
{
    let pair = load_pair(pairs, id)?;
    select_en_text(pair, clause)
}

/// The Russian text that rendering `id`/`clause` synthesizes (after the
/// lead-in silence): the text of the first pair with `id`.
pub fn render_ru(pairs: &[SentencePair], id: u64, clause: Option<usize>) -> (r: Result<String, PlayError>)
    ensures
        (forall|j: int| 0 <= j < pairs@.len() ==> #[trigger] pairs@[j].id != id) ==> r == Err::<
            String,
            PlayError,
        >(PlayError::PairNotFound(id)),
        forall|i: int| #[trigger]
            first_with_id(pairs@, id, i) ==> selected(ru_text(pairs@[i], clause), clause, r),
{
    let pair = load_pair(pairs, id)?;
    select_ru_text(pair, clause)
}

/// Clauses hold no delimiter; only the first and the last clause can be
/// empty (a run of delimiters is one split point); a text without
/// delimiters is a single clause.
pub proof fn law_clauses_shape(s: Seq<char>)
    ensures
        clauses_seq(s).len() >= 1,
        forall|k: int, j: int|
            0 <= k < clauses_seq(s).len() && 0 <= j < clauses_seq(s)[k].len() ==> !is_delim(
                #[trigger] clauses_seq(s)[k][j],
            ),
        forall|k: int| 0 < k < clauses_seq(s).len() - 1 ==> #[trigger] clauses_seq(s)[k].len() > 0,
        (forall|j: int| 0 <= j < s.len() ==> !is_delim(#[trigger] s[j])) ==> clauses_seq(s) == seq![s],
        s.len() > 0 && !is_delim(s.last()) ==> clauses_seq(s).last().len() > 0,
    decreases s.len(),
{
    let c = clauses_seq(s);
    if s.len() == 0 {
        assert(c == seq![Seq::<char>::empty()]);
        assert(s =~= Seq::<char>::empty());
    } else {
        let t = s.drop_last();
        law_clauses_shape(t);
        let init = clauses_seq(t);
        if (forall|j: int| 0 <= j < s.len() ==> !is_delim(#[trigger] s[j])) {
            assert forall|j: int| 0 <= j < t.len() implies !is_delim(#[trigger] t[j]) by {
                assert(t[j] == s[j]);
            }
            assert(!is_delim(s[s.len() - 1]));
            assert(t.push(s.last()) =~= s);
        }
        if is_delim(s.last()) {
            if s.len() > 1 && is_delim(s[s.len() - 2]) {
                assert(c == init);
            } else {
                assert(c == init.push(Seq::<char>::empty()));
                if t.len() > 0 {
                    assert(t.last() == s[s.len() - 2]);
                }
            }
        } else {
            assert(c == init.update(init.len() - 1, init.last().push(s.last())));
            assert forall|k: int, j: int|
                0 <= k < c.len() && 0 <= j < c[k].len() implies !is_delim(#[trigger] c[k][j]) by {
                if k == c.len() - 1 && j == c[k].len() - 1 {
                    assert(c[k][j] == s.last());
                } else if k == c.len() - 1 {
                    assert(c[k][j] == init.last()[j]);
                } else {
                    assert(c[k] == init[k]);
                }
            }
        }
    }
}

/// The maximal runs of delimiters in `s`, left to right.
pub open spec fn delim_runs(s: Seq<char>) -> Seq<Seq<char>>
    decreases s.len(),
{
    if s.len() == 0 {
        Seq::empty()
    } else {
        let init = delim_runs(s.drop_last());
        if is_delim(s.last()) {
            if s.len() > 1 && is_delim(s[s.len() - 2]) {
                init.update(init.len() - 1, init.last().push(s.last()))
            } else {
                init.push(seq![s.last()])
            }
        } else {
            init
        }
    }
}

/// `pieces[0] + runs[0] + pieces[1] + ... + runs[k-1] + pieces[k]`.
pub open spec fn interleave(pieces: Seq<Seq<char>>, runs: Seq<Seq<char>>) -> Seq<char>
    decreases runs.len(),
{
    if runs.len() == 0 {
        if pieces.len() > 0 {
            pieces[0]
        } else {
            Seq::empty()
        }
    } else {
        interleave(pieces.drop_last(), runs.drop_last()) + runs.last() + pieces.last()
    }
}

/// The clauses and the runs of delimiters between them rebuild the text:
/// there is one clause more than there are runs, every run is a non-empty
/// stretch of delimiters, and the clauses with the runs between them, in
/// order, are the text again.
pub proof fn law_clauses_rebuild_text(s: Seq<char>)
    ensures
        clauses_seq(s).len() == delim_runs(s).len() + 1,
        interleave(clauses_seq(s), delim_runs(s)) == s,
        forall|k: int| 0 <= k < delim_runs(s).len() ==> #[trigger] delim_runs(s)[k].len() > 0,
        forall|k: int, j: int|
            0 <= k < delim_runs(s).len() && 0 <= j < delim_runs(s)[k].len() ==> is_delim(
                #[trigger] delim_runs(s)[k][j],
            ),
        s.len() > 0 && is_delim(s.last()) ==> delim_runs(s).len() > 0,
    decreases s.len(),
{
    let c = clauses_seq(s);
    let r = delim_runs(s);
    if s.len() == 0 {
        assert(interleave(c, r) == c[0]);
        assert(s =~= Seq::<char>::empty());
    } else {
        let t = s.drop_last();
        let x = s.last();
        law_clauses_rebuild_text(t);
        lemma_clauses_nonempty(t);
        let ci = clauses_seq(t);
        let ri = delim_runs(t);
        assert(t.push(x) =~= s);
        if is_delim(x) {
            if s.len() > 1 && is_delim(s[s.len() - 2]) {
                assert(t.last() == s[s.len() - 2]);
                assert(c == ci);
                assert(r == ri.update(ri.len() - 1, ri.last().push(x)));
                let head = interleave(ci.drop_last(), ri.drop_last());
                assert(ci.last() =~= Seq::<char>::empty());
                assert(head + ri.last() + ci.last() == t);
                assert(r.drop_last() =~= ri.drop_last());
                assert(interleave(c, r) == head + ri.last().push(x) + ci.last());
                assert(head + ri.last().push(x) + ci.last() =~= (head + ri.last() + ci.last()).push(
                    x,
                ));
                assert forall|k: int| 0 <= k < r.len() implies #[trigger] r[k].len() > 0 by {
                    if k < ri.len() - 1 {
                        assert(r[k] == ri[k]);
                    }
                }
                assert forall|k: int, j: int| 0 <= k < r.len() && 0 <= j < r[k].len() implies is_delim(
                    #[trigger] r[k][j],
                ) by {
                    if k < ri.len() - 1 {
                        assert(r[k] == ri[k]);
                    } else if j < ri.last().len() {
                        assert(r[k][j] == ri.last()[j]);
                    }
                }
            } else {
                assert(c == ci.push(Seq::<char>::empty()));
                assert(r == ri.push(seq![x]));
                assert(c.drop_last() =~= ci);
                assert(r.drop_last() =~= ri);
                assert(interleave(c, r) == interleave(ci, ri) + seq![x] + Seq::<char>::empty());
                assert(interleave(c, r) =~= t.push(x));
                assert forall|k: int| 0 <= k < r.len() implies #[trigger] r[k].len() > 0 by {
                    if k < ri.len() {
                        assert(r[k] == ri[k]);
                    }
                }
                assert forall|k: int, j: int| 0 <= k < r.len() && 0 <= j < r[k].len() implies is_delim(
                    #[trigger] r[k][j],
                ) by {
                    if k < ri.len() {
                        assert(r[k] == ri[k]);
                    }
                }
            }
        } else {
            assert(c == ci.update(ci.len() - 1, ci.last().push(x)));
            assert(r == ri);
            if ri.len() == 0 {
                assert(interleave(c, r) == c[0]);
                assert(interleave(ci, ri) == ci[0]);
                assert(c[0] =~= t.push(x));
            } else {
                let head = interleave(ci.drop_last(), ri.drop_last());
                assert(c.drop_last() =~= ci.drop_last());
                assert(interleave(c, r) == head + ri.last() + ci.last().push(x));
                assert(head + ri.last() + ci.last().push(x) =~= (head + ri.last() + ci.last()).push(
                    x,
                ));
            }
        }
    }
}

/// Clause numbers count from 1: a number picks a clause exactly when it is
/// between 1 and the number of clauses, and then it is that clause
/// (counting from the first), trimmed; 0 and numbers past the last clause
/// are out of range, and the error gives the number of clauses. The same
/// holds of the English word list and of the Russian sentence of a pair.
pub proof fn law_clause_numbers_count_from_one(text: Seq<char>, c: usize, pair: SentencePair)
    requires
        text.len() < usize::MAX,
    ensures
        nth_clause_spec(text, c) is Ok <==> 1 <= c <= clauses_seq(text).len(),
        1 <= c <= clauses_seq(text).len() ==> nth_clause_spec(text, c) == Ok::<Seq<char>, usize>(
            trim_seq(clauses_seq(text)[c - 1]),
        ),
        nth_clause_spec(text, c) matches Err(n) ==> n == clauses_seq(text).len(),
        1 <= c <= clauses_seq(pair.words@).len() ==> en_text(pair, Some(c)) == Ok::<
            Seq<char>,
            usize,
        >(trim_seq(clauses_seq(pair.words@)[c - 1])),
        1 <= c <= clauses_seq(pair.ru@).len() ==> ru_text(pair, Some(c)) == Ok::<Seq<char>, usize>(
            trim_seq(clauses_seq(pair.ru@)[c - 1]),
        ),
        en_text(pair, None) == Ok::<Seq<char>, usize>(pair.en@),
        ru_text(pair, None) == Ok::<Seq<char>, usize>(pair.ru@),
{
    lemma_clauses_len(text);
}

proof fn lemma_clauses_len(s: Seq<char>)
    ensures
        clauses_seq(s).len() <= s.len() + 1,
    decreases s.len(),
{
    if s.len() > 0 {
        let t = s.drop_last();
        lemma_clauses_len(t);
        let init = clauses_seq(t);
        if is_delim(s.last()) {
            if s.len() > 1 && is_delim(s[s.len() - 2]) {
                assert(clauses_seq(s) == init);
            } else {
                assert(clauses_seq(s) == init.push(Seq::<char>::empty()));
            }
        } else {
            lemma_clauses_nonempty(t);
            assert(clauses_seq(s) == init.update(init.len() - 1, init.last().push(s.last())));
        }
    }
}

} // verus!
