//! Rendering Russian sentences of the dataset to a single mp3: which
//! sentences (an id list), which voice model, and where to write.
use vstd::prelude::*;

use crate::db::sentence_pairs::{id_list, id_range, part_ids, parts_ids, IdListFault, MAX_RANGE_LEN};
use crate::decimal::{decimal_seq, is_digit, lemma_parse_bound, lemma_parse_digits_only, parse_int_seq, parse_u64, push_decimal};
use crate::paths::{answers_for, config_found, join_path, path_exists, path_join, PathAnswer};
use crate::scripts::json::{parse_json_value, value_at, Json, JsonValue};
use crate::say::{arg_texts, opt_view};
use crate::text::{
    debug_quote, debug_text, ends_with, first_index, lemma_first_index, split_char, split_once, split_once_seq, split_seq,
    starts_with_char, str_eq, trim, trim_seq,
};

verus! {

/// One comma-separated part of an id list: a single id, or a range
/// `start-end` of at most `MAX_RANGE_LEN` ids. `None` where the range's
/// length does not fit in a `u64` (the range from 0 to `u64::MAX`).
pub open spec fn script_part(part: Seq<char>) -> Option<Result<Seq<u64>, Seq<char>>> {
    let p = trim_seq(part);
    match split_once_seq(p, '-') {
        Some((a, b)) => match parse_int_seq(trim_seq(a), u64::MAX as nat) {
            Err(_) => Some(Err("invalid id "@ + debug_text(a))),
            Ok(start) => match parse_int_seq(trim_seq(b), u64::MAX as nat) {
                Err(_) => Some(Err("invalid id "@ + debug_text(b))),
                Ok(end) => if start > end {
                    Some(
                        Err(
                            "invalid range "@ + debug_text(p) + ": start "@ + decimal_seq(start)
                                + " is greater than end "@ + decimal_seq(end),
                        ),
                    )
                } else if end - start + 1 > u64::MAX {
                    None
                } else if end - start + 1 > MAX_RANGE_LEN {
                    Some(
                        Err(
                            "range "@ + debug_text(p) + " spans more than "@ + decimal_seq(
                                MAX_RANGE_LEN as nat,
                            ) + " ids"@,
                        ),
                    )
                } else {
                    Some(Ok(id_range(start as u64, end as u64)))
                },
            },
        },
        None => match parse_int_seq(p, u64::MAX as nat) {
            Err(_) => Some(Err("invalid id "@ + debug_text(p))),
            Ok(v) => Some(Ok(seq![v as u64])),
        },
    }
}

/// The ids of the parts in order, the first failing part's message, or
/// `None` where a part's range length overflows before any part fails.
pub open spec fn script_parts(parts: Seq<Seq<char>>) -> Option<Result<Seq<u64>, Seq<char>>>
    decreases parts.len(),
{
    if parts.len() == 0 {
        Some(Ok(Seq::empty()))
    } else {
        match script_part(parts[0]) {
            None => None,
            Some(Err(m)) => Some(Err(m)),
            Some(Ok(a)) => match script_parts(parts.drop_first()) {
                None => None,
                Some(Err(m)) => Some(Err(m)),
                Some(Ok(b)) => Some(Ok(a + b)),
            },
        }
    }
}

/// The ids of a printer-style id list ("1,3,5-8"), or the message saying
/// why it is refused.
pub open spec fn script_id_list(spec: Seq<char>) -> Option<Result<Seq<u64>, Seq<char>>> {
    script_parts(split_seq(spec, ','))
}

fn push_script_part(part: &str, out: &mut Vec<u64>) -> (r: Option<Result<(), String>>)
    ensures
        match script_part(part@) {
            Some(Ok(ids)) => r == Some(Ok::<(), String>(())) && final(out)@ == old(out)@ + ids,
            Some(Err(m)) => r matches Some(Err(e)) && e@ == m,
            None => r is None,
        },
{
    let part = trim(part);
    if let Some((start_str, end_str)) = split_once(part, '-') {
        let start = match parse_u64(trim(start_str)) {
            Ok(v) => v,
            Err(_) => {
                let mut m = "invalid id ".to_owned();
                m.append(debug_quote(start_str).as_str());
                return Some(Err(m));
            },
        };
        let end = match parse_u64(trim(end_str)) {
            Ok(v) => v,
            Err(_) => {
                let mut m = "invalid id ".to_owned();
                m.append(debug_quote(end_str).as_str());
                return Some(Err(m));
            },
        };
        if start > end {
            let mut m = "invalid range ".to_owned();
            m.append(debug_quote(part).as_str());
            m.append(": start ");
            push_decimal(&mut m, start);
            m.append(" is greater than end ");
            push_decimal(&mut m, end);
            return Some(Err(m));
        }
        if start == 0 && end == u64::MAX {
            return None;
        }
        let count: u64 = end - start + 1;
        if count > MAX_RANGE_LEN {
            let mut m = "range ".to_owned();
            m.append(debug_quote(part).as_str());
            m.append(" spans more than ");
            push_decimal(&mut m, MAX_RANGE_LEN);
            m.append(" ids");
            return Some(Err(m));
        }
        let ghost old_out = out@;
        let mut k: u64 = 0;
        while k < count
            invariant
                k <= count,
                count == end - start + 1,
                start <= end,
                out@ == old_out + Seq::new(k as nat, |j: int| (start + j) as u64),
            decreases count - k,
        {
            out.push(start + k);
            k = k + 1;
            assert(out@ =~= old_out + Seq::new(k as nat, |j: int| (start + j) as u64));
        }
        assert(out@ =~= old_out + id_range(start, end));
        Some(Ok(()))
    } else {
        match parse_u64(part) {
            Ok(id) => {
                out.push(id);
                Some(Ok(()))
            },
            Err(_) => {
                let mut m = "invalid id ".to_owned();
                m.append(debug_quote(part).as_str());
                Some(Err(m))
            },
        }
    }
}

/// Parse a printer-style id list, e.g. "1,3,5-8" -> [1, 3, 5, 6, 7, 8], or
/// say why it is refused; `None` where the list reaches a range from 0 to
/// `u64::MAX`, whose length does not fit in a `u64`, before any part fails.
pub fn try_parse_id_list(spec: &str) -> (r: Option<Result<Vec<u64>, String>>)
    ensures
        match script_id_list(spec@) {
            Some(Ok(ids)) => r matches Some(Ok(v)) && v@ == ids,
            Some(Err(m)) => r matches Some(Err(e)) && e@ == m,
            None => r is None,
        },
{
    let parts = split_char(spec, ',');
    let ghost ps = split_seq(spec@, ',');
    let mut result: Vec<u64> = Vec::new();
    let mut i: usize = 0;
    assert(ps.skip(0) =~= ps);
    while i < parts.len()
        invariant
            parts@.len() == ps.len(),
            forall|k: int| 0 <= k < parts@.len() ==> #[trigger] parts@[k]@ == ps[k],
            ps == split_seq(spec@, ','),
            i <= parts@.len(),
            script_parts(ps) == match script_parts(ps.skip(i as int)) {
                None => None,
                Some(Err(m)) => Some(Err(m)),
                Some(Ok(b)) => Some(Ok(result@ + b)),
            },
        decreases parts@.len() - i,
    {
        let ghost before = result@;
        let ghost rest = ps.skip(i as int);
        assert(rest[0] == ps[i as int]);
        assert(rest.drop_first() =~= ps.skip(i + 1));
        assert(parts@[i as int]@ == ps[i as int]);
        match push_script_part(parts[i], &mut result) {
            None => {
                return None;
            },
            Some(Err(m)) => {
                return Some(Err(m));
            },
            Some(Ok(())) => {},
        }
        proof {
            let a = script_part(ps[i as int])->0->Ok_0;
            assert(result@ == before + a);
            match script_parts(ps.skip(i + 1)) {
                Some(Ok(b)) => {
                    assert(before + (a + b) =~= result@ + b);
                },
                _ => {},
            }
        }
        i = i + 1;
    }
    proof {
        assert(ps.skip(i as int) =~= Seq::<Seq<char>>::empty());
        assert(result@ + Seq::<u64>::empty() =~= result@);
    }
    Some(Ok(result))
}

/// Parse a printer-style id list, e.g. "1,3,5-8" -> [1, 3, 5, 6, 7, 8]. The
/// list must not reach a range from 0 to `u64::MAX`, whose length does not
/// fit in a `u64` (see [`try_parse_id_list`]).
pub fn parse_id_list(spec: &str) -> (r: Result<Vec<u64>, String>)
    requires
        script_id_list(spec@) is Some,
    ensures
        match script_id_list(spec@) {
            Some(Ok(ids)) => r matches Ok(v) && v@ == ids,
            Some(Err(m)) => r matches Err(e) && e@ == m,
            None => true,
        },
{
    try_parse_id_list(spec).unwrap()
}

proof fn lemma_script_part_agrees(part: Seq<char>)
    requires
        script_part(part) is Some,
    ensures
        script_part(part)->0 is Ok <==> part_ids(part) is Ok,
        script_part(part) matches Some(Ok(ids)) ==> part_ids(part) == Ok::<Seq<u64>, IdListFault>(
            ids,
        ),
{
    let p = trim_seq(part);
    match split_once_seq(p, '-') {
        Some((a, b)) => {
            lemma_parse_bound(trim_seq(a), u64::MAX as nat);
            lemma_parse_bound(trim_seq(b), u64::MAX as nat);
            lemma_first_index(p, '-');
            lemma_parse_digits_only(p, u64::MAX as nat);
            let i = first_index(p, '-');
            assert(p[i] == '-');
            assert(!is_digit('-'));
        },
        None => {
            lemma_parse_bound(p, u64::MAX as nat);
        },
    }
}

proof fn lemma_script_parts_agree(parts: Seq<Seq<char>>)
    requires
        script_parts(parts) is Some,
    ensures
        script_parts(parts)->0 is Ok <==> parts_ids(parts) is Ok,
        script_parts(parts) matches Some(Ok(ids)) ==> parts_ids(parts) == Ok::<
            Seq<u64>,
            IdListFault,
        >(ids),
    decreases parts.len(),
{
    if parts.len() > 0 {
        lemma_script_part_agrees(parts[0]);
        if script_part(parts[0]) matches Some(Ok(_)) {
            lemma_script_parts_agree(parts.drop_first());
        }
    }
}

/// The renderer reads id lists as the `sentence-pairs` command does: where
/// it reads a list at all, it accepts the same lists and gives the same ids.
pub proof fn law_script_id_lists_agree(spec: Seq<char>)
    requires
        script_id_list(spec) is Some,
    ensures
        script_id_list(spec)->0 is Ok <==> id_list(spec) is Ok,
        script_id_list(spec) matches Some(Ok(ids)) ==> id_list(spec) == Ok::<
            Seq<u64>,
            IdListFault,
        >(ids),
{
    lemma_script_parts_agree(split_seq(spec, ','));
}

/// The model and config paths of a Russian voice under `home`.
pub open spec fn voice_model_paths_spec(home: Seq<char>, voice: Seq<char>) -> Result<
    (Seq<char>, Seq<char>),
    Seq<char>,
> {
    let root = join_path(home, ".local/share/piper-voices"@);
    if voice == "denis"@ {
        Ok(
            (
                join_path(root, "ru/ru_RU/denis/medium/ru_RU-denis-medium.onnx"@),
                join_path(root, "ru/ru_RU/denis/medium/ru_RU-denis-medium.onnx.json"@),
            ),
        )
    } else if voice == "irina"@ {
        Ok(
            (
                join_path(root, "ru/ru_RU/irina/medium/ru_RU-irina-medium.onnx"@),
                join_path(root, "ru/ru_RU/irina/medium/ru_RU-irina-medium.onnx.json"@),
            ),
        )
    } else {
        Err(
            "invalid choice for --voice: "@ + debug_text(voice)
                + " (choose from \"irina\", \"denis\")"@,
        )
    }
}

/// The model and config paths of the Russian voice `voice` ("denis" or
/// "irina") under `home`.
pub fn voice_model_paths(home: &str, voice: &str) -> (r: Result<(String, String), String>)
    ensures
        match voice_model_paths_spec(home@, voice@) {
            Ok((m, c)) => r matches Ok((x, y)) && x@ == m && y@ == c,
            Err(msg) => r matches Err(e) && e@ == msg,
        },
{
    let (model_rel, config_rel) = if str_eq(voice, "denis") {
        (
            "ru/ru_RU/denis/medium/ru_RU-denis-medium.onnx",
            "ru/ru_RU/denis/medium/ru_RU-denis-medium.onnx.json",
        )
    } else if str_eq(voice, "irina") {
        (
            "ru/ru_RU/irina/medium/ru_RU-irina-medium.onnx",
            "ru/ru_RU/irina/medium/ru_RU-irina-medium.onnx.json",
        )
    } else {
        let mut m = "invalid choice for --voice: ".to_owned();
        m.append(debug_quote(voice).as_str());
        m.append(" (choose from \"irina\", \"denis\")");
        return Err(m);
    };
    let root = path_join(home, ".local/share/piper-voices");
    Ok((path_join(root.as_str(), model_rel), path_join(root.as_str(), config_rel)))
}

/// The literal text of the last `"id"` member whose value is a number.
pub open spec fn record_id(fields: Seq<(Seq<char>, JsonValue)>) -> Option<Seq<char>>
    decreases fields.len(),
{
    if fields.len() == 0 {
        None
    } else {
        let last = fields.last();
        if last.0 == "id"@ && last.1 is Number {
            Some(last.1->Number_0)
        } else {
            record_id(fields.drop_last())
        }
    }
}

/// The text of the last `"ru"` member whose value is a string.
pub open spec fn record_ru(fields: Seq<(Seq<char>, JsonValue)>) -> Option<Seq<char>>
    decreases fields.len(),
{
    if fields.len() == 0 {
        None
    } else {
        let last = fields.last();
        if last.0 == "ru"@ && last.1 is Str {
            Some(last.1->Str_0)
        } else {
            record_ru(fields.drop_last())
        }
    }
}

/// One dataset record: its id's literal text and its Russian sentence.
pub open spec fn record_of(item: JsonValue) -> Result<(Seq<char>, Seq<char>), Seq<char>> {
    match item {
        JsonValue::Object(fields) => match (record_id(fields), record_ru(fields)) {
            (Some(id), Some(ru)) => Ok((id, ru)),
            _ => Err("dataset record missing \"id\" or \"ru\" field"@),
        },
        _ => Err("expected each dataset record to be a JSON object"@),
    }
}

/// The records of the items in order, or the error of the first item that
/// is not a record.
pub open spec fn records_of(items: Seq<JsonValue>) -> Result<Seq<(Seq<char>, Seq<char>)>, Seq<char>>
    decreases items.len(),
{
    if items.len() == 0 {
        Ok(Seq::empty())
    } else {
        match records_of(items.drop_last()) {
            Err(m) => Err(m),
            Ok(rs) => match record_of(items.last()) {
                Err(m) => Err(m),
                Ok(r) => Ok(rs.push(r)),
            },
        }
    }
}

/// The (id, Russian sentence) records of a dataset text: a JSON array of
/// objects, each with a number `"id"` and a string `"ru"`.
pub open spec fn dataset_records(src: Seq<char>) -> Result<Seq<(Seq<char>, Seq<char>)>, Seq<char>> {
    match value_at(src, 0) {
        Err(m) => Err(m),
        Ok((JsonValue::Array(items), _)) => records_of(items),
        Ok(_) => Err("expected the dataset to be a JSON array"@),
    }
}

/// A record that fails in a prefix of the items fails the whole.
pub proof fn lemma_records_prefix_err(items: Seq<JsonValue>, k: int)
    requires
        0 <= k <= items.len(),
        records_of(items.take(k)) is Err,
    ensures
        records_of(items) == records_of(items.take(k)),
    decreases items.len(),
{
    if k == items.len() {
        assert(items.take(k) =~= items);
    } else {
        assert(items.drop_last().take(k) =~= items.take(k));
        lemma_records_prefix_err(items.drop_last(), k);
    }
}

/// The records as character sequences.
pub open spec fn records_view(v: Seq<(String, String)>) -> Seq<(Seq<char>, Seq<char>)> {
    Seq::new(v.len(), |i: int| (v[i].0@, v[i].1@))
}

/// The id and sentence of one parsed record, read as the last `"id"` number
/// and the last `"ru"` string among its members.
fn read_record(item: &Json) -> (r: Result<(String, String), String>)
    ensures
        match record_of(item@) {
            Ok((id, ru)) => r matches Ok((a, b)) && a@ == id && b@ == ru,
            Err(m) => r matches Err(x) && x@ == m,
        },
{
    match item {
        Json::Object(fields) => {
            let ghost fv = item@->Object_0;
            assert(fv == crate::scripts::json::entries_view(fields@));
            proof {
                crate::scripts::json::lemma_entries_len(fields@);
                reveal_strlit("id");
                reveal_strlit("ru");
                assert("id"@[0] != "ru"@[0]);
                assert(fv.take(0) =~= Seq::empty());
            }
            let mut id: Option<String> = None;
            let mut ru: Option<String> = None;
            let mut i: usize = 0;
            while i < fields.len()
                invariant
                    i <= fields@.len(),
                    fv == crate::scripts::json::entries_view(fields@),
                    fv.len() == fields@.len(),
                    "id"@ != "ru"@,
                    opt_view(id) == record_id(fv.take(i as int)),
                    opt_view(ru) == record_ru(fv.take(i as int)),
                decreases fields@.len() - i,
            {
                proof {
                    crate::scripts::json::lemma_entries_prefix(fields@, i as int);
                    assert(fv.take(i + 1).drop_last() =~= fv.take(i as int));
                }
                let (key, value) = &fields[i];
                if str_eq(key.as_str(), "id") {
                    match value {
                        Json::Number(n) => {
                            id = Some(n.clone());
                        },
                        _ => {},
                    }
                } else if str_eq(key.as_str(), "ru") {
                    match value {
                        Json::Str(t) => {
                            ru = Some(t.clone());
                        },
                        _ => {},
                    }
                }
                i = i + 1;
            }
            assert(fv.take(fields@.len() as int) =~= fv);
            match (id, ru) {
                (Some(a), Some(b)) => Ok((a, b)),
                _ => Err("dataset record missing \"id\" or \"ru\" field".to_owned()),
            }
        },
        _ => Err("expected each dataset record to be a JSON object".to_owned()),
    }
}

/// Extracts the (id, Russian sentence) records, in file order, from the
/// dataset's JSON text. Ids are returned as their number literals.
pub fn load_ru_sentences(json_src: &str) -> (r: Result<Vec<(String, String)>, String>)
    ensures
        match dataset_records(json_src@) {
            Ok(recs) => r matches Ok(v) && records_view(v@) == recs,
            Err(m) => r matches Err(x) && x@ == m,
        },
{
    let value = parse_json_value(json_src)?;
    match value {
        Json::Array(items) => {
            let ghost iv = value@->Array_0;
            let mut result: Vec<(String, String)> = Vec::new();
            proof {
                crate::scripts::json::lemma_items_len(items@);
                assert(iv.take(0) =~= Seq::empty());
                assert(records_view(result@) =~= Seq::empty());
            }
            let mut i: usize = 0;
            while i < items.len()
                invariant
                    i <= items@.len(),
                    iv == crate::scripts::json::items_view(items@),
                    iv.len() == items@.len(),
                    dataset_records(json_src@) == records_of(iv),
                    records_of(iv.take(i as int)) == Ok::<Seq<(Seq<char>, Seq<char>)>, Seq<char>>(
                        records_view(result@),
                    ),
                decreases items@.len() - i,
            {
                proof {
                    crate::scripts::json::lemma_items_prefix(items@, i as int);
                    assert(iv.take(i + 1).drop_last() =~= iv.take(i as int));
                }
                let rec = read_record(&items[i]);
                match rec {
                    Ok(pair) => {
                        let ghost before = result@;
                        result.push(pair);
                        assert(records_view(result@) =~= records_view(before).push(
                            (pair.0@, pair.1@),
                        ));
                    },
                    Err(m) => {
                        proof {
                            lemma_records_prefix_err(iv, i + 1);
                        }
                        return Err(m);
                    },
                }
                i = i + 1;
            }
            assert(iv.take(items@.len() as int) =~= iv);
            Ok(result)
        },
        _ => Err("expected the dataset to be a JSON array".to_owned()),
    }
}

/// The message for an id that no sentence has.
pub open spec fn missing_sentence_message(id: u64) -> Seq<char> {
    "no sentence pair with id "@ + decimal_seq(id as nat)
}

/// The text of the last sentence with `id` (later entries win, as when the
/// sentences are collected into a map by id), or the message that there is
/// none.
pub fn text_for_id<'a>(sentences: &'a [(u64, String)], id: u64) -> (r: Result<&'a String, String>)
    ensures
        match r {
            Ok(t) => exists|i: int|
                0 <= i < sentences@.len() && sentences@[i].0 == id && sentences@[i].1 == *t
                    && forall|j: int| i < j < sentences@.len() ==> #[trigger] sentences@[j].0 != id,
            Err(m) => m@ == missing_sentence_message(id) && forall|j: int|
                0 <= j < sentences@.len() ==> #[trigger] sentences@[j].0 != id,
        },
{
    let mut i: usize = sentences.len();
    while i > 0
        invariant
            i <= sentences@.len(),
            forall|j: int| i <= j < sentences@.len() ==> #[trigger] sentences@[j].0 != id,
        decreases i,
    {
        i = i - 1;
        if sentences[i].0 == id {
            return Ok(&sentences[i].1);
        }
    }
    let mut m = "no sentence pair with id ".to_owned();
    push_decimal(&mut m, id);
    Err(m)
}

/// Whether `output` names an mp3 file, or the message saying it must.
pub fn check_output(output: &str) -> (r: Result<(), String>)
    ensures
        match r {
            Ok(()) => output@.len() >= 4 && output@.skip(output@.len() - 4) == ".mp3"@,
            Err(m) => !(output@.len() >= 4 && output@.skip(output@.len() - 4) == ".mp3"@) && m@
                == "output path must end with .mp3: "@ + output@,
        },
{
    proof {
        reveal_strlit(".mp3");
    }
    if ends_with(output, ".mp3") {
        Ok(())
    } else {
        let mut m = "output path must end with .mp3: ".to_owned();
        m.append(output);
        Err(m)
    }
}

/// The message for a voice file that is not there.
pub open spec fn missing_voice_file_message(path: Seq<char>) -> Seq<char> {
    "voice file not found: "@ + path + " (run setup_piper_voices --install)"@
}

/// The voice files, given whether the model and the config exist: the
/// model is checked first.
pub open spec fn voice_files_check(
    paths: (Seq<char>, Seq<char>),
    model_exists: bool,
    config_exists: bool,
) -> Result<(Seq<char>, Seq<char>), Seq<char>> {
    if !model_exists {
        Err(missing_voice_file_message(paths.0))
    } else if !config_exists {
        Err(missing_voice_file_message(paths.1))
    } else {
        Ok(paths)
    }
}

/// The model and config paths, given the answers about the model file and
/// (where the model file is there) the config file, or the message naming
/// the first one that is missing.
pub fn check_voice_model_files(
    model: String,
    config: String,
    model_answer: &PathAnswer,
    config_answer: Option<&PathAnswer>,
) -> (r: Result<(String, String), String>)
    requires
        answers_for((model@, config@), *model_answer, match config_answer {
            Some(c) => Some(*c),
            None => None,
        }),
    ensures
        match voice_files_check(
            (model@, config@),
            model_answer.found(),
            config_found(
                match config_answer {
                    Some(c) => Some(*c),
                    None => None,
                },
            ),
        ) {
            Ok((m, c)) => r matches Ok((x, y)) && x@ == m && y@ == c,
            Err(msg) => r matches Err(e) && e@ == msg,
        },
{
    let config_present = match config_answer {
        Some(c) => c.present(),
        None => true,
    };
    let missing = if !model_answer.present() {
        model
    } else if !config_present {
        config
    } else {
        return Ok((model, config));
    };
    let mut m = "voice file not found: ".to_owned();
    m.append(missing.as_str());
    m.append(" (run setup_piper_voices --install)");
    Err(m)
}

/// The model and config paths of the voice `voice` under `home`, once both
/// are found on disk; the model is looked for first. What is on disk is not
/// known here: the result is what the check gives for some answers about
/// exactly these two files.
pub fn find_voice_files(home: &str, voice: &str) -> (r: Result<(String, String), String>)
    ensures
        match voice_model_paths_spec(home@, voice@) {
            Err(msg) => r matches Err(e) && e@ == msg,
            Ok(p) => exists|model: PathAnswer, config: Option<PathAnswer>|
                #![trigger answers_for(p, model, config)]
                answers_for(p, model, config) && match voice_files_check(
                    p,
                    model.found(),
                    config_found(config),
                ) {
                    Ok((m, c)) => r matches Ok((x, y)) && x@ == m && y@ == c,
                    Err(msg) => r matches Err(e) && e@ == msg,
                },
        },
{
    let (model, config) = voice_model_paths(home, voice)?;
    let ghost p = (model@, config@);
    let model_answer = path_exists(model.as_str());
    if !model_answer.present() {
        let r = check_voice_model_files(model, config, &model_answer, None);
        assert(answers_for(p, model_answer, None));
        return r;
    }
    let config_answer = path_exists(config.as_str());
    let r = check_voice_model_files(model, config, &model_answer, Some(&config_answer));
    assert(answers_for(p, model_answer, Some(config_answer)));
    r
}

/// The ids of all the sentences, in order.
pub fn sentence_ids(sentences: &[(u64, String)]) -> (r: Vec<u64>)
    ensures
        r@.len() == sentences@.len(),
        forall|i: int| 0 <= i < r@.len() ==> r@[i] == #[trigger] sentences@[i].0,
{
    let mut v: Vec<u64> = Vec::new();
    let mut i: usize = 0;
    while i < sentences.len()
        invariant
            i <= sentences@.len(),
            v@.len() == i,
            forall|j: int| 0 <= j < i ==> v@[j] == #[trigger] sentences@[j].0,
        decreases sentences@.len() - i,
    {
        v.push(sentences[i].0);
        i = i + 1;
    }
    v
}

/// The arguments of the mp3 renderer.
#[derive(Debug)]
pub struct Args {
    pub ids: Option<String>,
    pub voice: String,
    pub output: String,
}

/// What has been read of the arguments so far: ids, voice, output.
pub type ScanModel = (Option<Seq<char>>, Seq<char>, Option<Seq<char>>);

/// Reads the arguments from `i` on: `--voice` takes "irina" or "denis",
/// `-o`/`--output` takes a path, any other flag is refused, and the one
/// positional argument is the id list.
pub open spec fn scan_args(args: Seq<Seq<char>>, i: int, read: ScanModel) -> Result<
    ScanModel,
    Seq<char>,
>
    decreases args.len() - i,
{
    if i < 0 || i >= args.len() {
        Ok(read)
    } else {
        let a = args[i];
        if a == "--voice"@ {
            if i + 1 >= args.len() {
                Err("--voice requires a value"@)
            } else {
                let value = args[i + 1];
                if value != "irina"@ && value != "denis"@ {
                    Err(
                        "invalid choice for --voice: "@ + debug_text(value)
                            + " (choose from \"irina\", \"denis\")"@,
                    )
                } else {
                    scan_args(args, i + 2, (read.0, value, read.2))
                }
            }
        } else if a == "-o"@ || a == "--output"@ {
            if i + 1 >= args.len() {
                Err("--output requires a value"@)
            } else {
                scan_args(args, i + 2, (read.0, read.1, Some(args[i + 1])))
            }
        } else if a.len() > 0 && a[0] == '-' && a != "-"@ {
            Err("unexpected argument: "@ + debug_text(a))
        } else if read.0 is Some {
            Err("unexpected argument: "@ + debug_text(a))
        } else {
            scan_args(args, i + 1, (Some(a), read.1, read.2))
        }
    }
}

/// The renderer's arguments: an optional id list, the voice ("denis" by
/// default), and the output path, which is required.
pub open spec fn render_args(args: Seq<Seq<char>>) -> Result<ScanModel, Seq<char>> {
    match scan_args(args, 0, (None, "denis"@, None)) {
        Err(m) => Err(m),
        Ok(s) => if s.2 is None {
            Err("--output is required"@)
        } else {
            Ok(s)
        },
    }
}

/// Reads the renderer's arguments: `[ids] -o|--output OUTPUT.mp3 [--voice irina|denis]`.
pub fn parse_args(args: &[String]) -> (r: Result<Args, String>)
    ensures
        match render_args(arg_texts(args@)) {
            Ok(s) => r matches Ok(a) && opt_view(a.ids) == s.0 && a.voice@ == s.1 && Some(a.output@)
                == s.2,
            Err(m) => r matches Err(e) && e@ == m,
        },
{
    let ghost texts = arg_texts(args@);
    let mut ids: Option<String> = None;
    let mut voice = "denis".to_owned();
    let mut output: Option<String> = None;
    let mut i: usize = 0;
    while i < args.len()
        invariant
            texts == arg_texts(args@),
            texts.len() == args@.len(),
            i <= args@.len(),
            scan_args(texts, i as int, (opt_view(ids), voice@, opt_view(output))) == scan_args(
                texts,
                0,
                (None, "denis"@, None),
            ),
        decreases args@.len() - i,
    {
        let arg = args[i].as_str();
        assert(texts[i as int] == arg@);
        if str_eq(arg, "--voice") {
            if i + 1 >= args.len() {
                return Err("--voice requires a value".to_owned());
            }
            let value = args[i + 1].as_str();
            assert(texts[i + 1] == value@);
            if !str_eq(value, "irina") && !str_eq(value, "denis") {
                let mut m = "invalid choice for --voice: ".to_owned();
                m.append(debug_quote(value).as_str());
                m.append(" (choose from \"irina\", \"denis\")");
                return Err(m);
            }
            voice = value.to_owned();
            i = i + 2;
        } else if str_eq(arg, "-o") || str_eq(arg, "--output") {
            if i + 1 >= args.len() {
                return Err("--output requires a value".to_owned());
            }
            let value = args[i + 1].as_str();
            assert(texts[i + 1] == value@);
            output = Some(value.to_owned());
            i = i + 2;
        } else if starts_with_char(arg, '-') && !str_eq(arg, "-") {
            let mut m = "unexpected argument: ".to_owned();
            m.append(debug_quote(arg).as_str());
            return Err(m);
        } else if ids.is_some() {
            let mut m = "unexpected argument: ".to_owned();
            m.append(debug_quote(arg).as_str());
            return Err(m);
        } else {
            ids = Some(arg.to_owned());
            i = i + 1;
        }
    }
    match output {
        Some(output) => Ok(Args { ids, voice, output }),
        None => Err("--output is required".to_owned()),
    }
}

/// The renderer takes `--voice` with exactly the voices it has model files
/// for: where the arguments are read as flags, `--voice V` sets the voice
/// to `V` and reading goes on after it when `V` has model paths, and the
/// arguments are refused when it has none. In particular
/// `--voice V -o OUT` gives the voice `V`, the output `OUT` and no id list.
pub proof fn law_renderer_takes_every_voice_it_has_files_for(
    home: Seq<char>,
    args: Seq<Seq<char>>,
    i: int,
    read: ScanModel,
    voice: Seq<char>,
    output: Seq<char>,
)
    requires
        0 <= i,
        i + 1 < args.len(),
        args[i] == "--voice"@,
    ensures
        voice_model_paths_spec(home, args[i + 1]) is Ok ==> scan_args(args, i, read) == scan_args(
            args,
            i + 2,
            (read.0, args[i + 1], read.2),
        ),
        voice_model_paths_spec(home, args[i + 1]) is Err ==> scan_args(args, i, read) is Err,
        voice_model_paths_spec(home, voice) is Ok ==> render_args(
            seq!["--voice"@, voice, "-o"@, output],
        ) == Ok::<ScanModel, Seq<char>>((None, voice, Some(output))),
{
    reveal_strlit("--voice");
    reveal_strlit("-o");
    let a = seq!["--voice"@, voice, "-o"@, output];
    assert(a[0] == "--voice"@);
    assert(a[1] == voice);
    assert(a[2] == "-o"@);
    assert(a[3] == output);
    assert("-o"@ != "--voice"@) by {
        assert("-o"@.len() != "--voice"@.len());
    }
    if voice_model_paths_spec(home, voice) is Ok {
        assert(scan_args(a, 4, (None, voice, Some(output))) == Ok::<ScanModel, Seq<char>>(
            (None, voice, Some(output)),
        ));
        assert(scan_args(a, 2, (None, voice, None)) == scan_args(
            a,
            4,
            (None, voice, Some(output)),
        ));
        assert(scan_args(a, 0, (None, "denis"@, None)) == scan_args(a, 2, (None, voice, None)));
    }
}

proof fn lemma_scan_args_read_from_i_on(a: Seq<Seq<char>>, b: Seq<Seq<char>>, i: int, read: ScanModel)
    requires
        a.len() == b.len(),
        forall|j: int| i <= j < a.len() ==> a[j] == b[j],
    ensures
        scan_args(a, i, read) == scan_args(b, i, read),
    decreases a.len() - i,
{
    if 0 <= i < a.len() {
        let x = a[i];
        if i + 1 < a.len() {
            assert(a[i + 1] == b[i + 1]);
            let v = a[i + 1];
            lemma_scan_args_read_from_i_on(a, b, i + 2, (read.0, v, read.2));
            lemma_scan_args_read_from_i_on(a, b, i + 2, (read.0, read.1, Some(v)));
        }
        lemma_scan_args_read_from_i_on(a, b, i + 1, (Some(x), read.1, read.2));
    }
}

/// `--output` does what `-o` does: wherever the arguments are read as
/// flags, writing `--output` for `-o` gives the same result; in particular,
/// as the first argument, the same arguments.
pub proof fn law_long_output_flag_is_its_short_form(args: Seq<Seq<char>>, i: int, read: ScanModel)
    requires
        0 <= i < args.len(),
        args[i] == "-o"@,
    ensures
        scan_args(args.update(i, "--output"@), i, read) == scan_args(args, i, read),
        i == 0 ==> render_args(args.update(0, "--output"@)) == render_args(args),
{
    reveal_strlit("-o");
    reveal_strlit("--output");
    reveal_strlit("--voice");
    assert("--output"@[2] != "--voice"@[2]);
    assert("-o"@.len() != "--voice"@.len());
    let b = args.update(i, "--output"@);
    assert(b[i] == "--output"@);
    if i + 1 < args.len() {
        assert(b[i + 1] == args[i + 1]);
        let v = args[i + 1];
        lemma_scan_args_read_from_i_on(b, args, i + 2, (read.0, read.1, Some(v)));
        lemma_scan_args_read_from_i_on(b, args, i + 2, (None, "denis"@, Some(v)));
    }
}

} // verus!
