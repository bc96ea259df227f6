//! The voice model paths are written in three places: the speaker's voice
//! choice, the mp3 renderer's voices and the setup check's file list. These
//! laws keep them in step.
use vstd::prelude::*;

use crate::paths::join_path;
use crate::say::{language_voice, named_voice};
use crate::scripts::make_ru_mp3::voice_model_paths_spec;
use crate::scripts::setup_piper_voices::voice_files_spec;

verus! {

/// Joining `a` and then `b` onto `base` is joining `a/b` onto it, when both
/// are relative and `a` does not end with a slash.
pub proof fn lemma_join_nested(base: Seq<char>, a: Seq<char>, b: Seq<char>)
    requires
        a.len() > 0,
        a[0] != '/',
        a.last() != '/',
        b.len() > 0,
        b[0] != '/',
    ensures
        join_path(join_path(base, a), b) == join_path(base, a + "/"@ + b),
{
    reveal_strlit("/");
    let ab = a + "/"@ + b;
    assert(ab[0] == a[0]);
    let ja = join_path(base, a);
    assert(ja.len() > 0 && ja.last() == a.last());
    if base.len() > 0 && base.last() != '/' {
        assert(ja + seq!['/'] + b =~= base + seq!['/'] + ab);
    } else {
        assert(ja + seq!['/'] + b =~= base + ab);
    }
}

/// The directory under `home` that holds the voice models.
pub open spec fn voices_dir(home: Seq<char>) -> Seq<char> {
    join_path(home, ".local/share/piper-voices"@)
}

/// Whether `path` is one of the voice files the setup check looks for
/// under `home`.
pub open spec fn is_checked_voice_file(home: Seq<char>, path: Seq<char>) -> bool {
    exists|k: int|
        0 <= k < voice_files_spec().len() && path == join_path(
            voices_dir(home),
            #[trigger] voice_files_spec()[k],
        )
}

proof fn lemma_under_voices_dir(home: Seq<char>, rel: Seq<char>, full: Seq<char>)
    requires
        full == ".local/share/piper-voices"@ + "/"@ + rel,
        rel.len() > 0,
        rel[0] != '/',
    ensures
        join_path(home, full) == join_path(voices_dir(home), rel),
{
    reveal_strlit(".local/share/piper-voices");
    assert(".local/share/piper-voices"@.last() == 's');
    lemma_join_nested(home, ".local/share/piper-voices"@, rel);
}

/// Every model and config file of every voice the speaker can choose is
/// among the files the setup check looks for (and can download).
pub proof fn law_spoken_voices_are_checked(home: Seq<char>, lang: Seq<char>, voice: Seq<char>)
    ensures
        language_voice(home, lang) matches Some((m, c)) ==> is_checked_voice_file(home, m)
            && is_checked_voice_file(home, c),
        named_voice(home, lang, voice) matches Some((m, c)) ==> is_checked_voice_file(home, m)
            && is_checked_voice_file(home, c),
{
    reveal_strlit("/");
    let files = voice_files_spec();
    reveal_strlit("en/en_US/amy/medium/en_US-amy-medium.onnx");
    reveal_strlit("en/en_US/amy/medium/en_US-amy-medium.onnx.json");
    reveal_strlit("ru/ru_RU/denis/medium/ru_RU-denis-medium.onnx");
    reveal_strlit("ru/ru_RU/denis/medium/ru_RU-denis-medium.onnx.json");
    reveal_strlit("ru/ru_RU/irina/medium/ru_RU-irina-medium.onnx");
    reveal_strlit("ru/ru_RU/irina/medium/ru_RU-irina-medium.onnx.json");
    reveal_strlit(".local/share/piper-voices");
    reveal_strlit(".local/share/piper-voices/en/en_US/amy/medium/en_US-amy-medium.onnx");
    reveal_strlit(".local/share/piper-voices/en/en_US/amy/medium/en_US-amy-medium.onnx.json");
    reveal_strlit(".local/share/piper-voices/ru/ru_RU/denis/medium/ru_RU-denis-medium.onnx");
    reveal_strlit(".local/share/piper-voices/ru/ru_RU/denis/medium/ru_RU-denis-medium.onnx.json");
    reveal_strlit(".local/share/piper-voices/ru/ru_RU/irina/medium/ru_RU-irina-medium.onnx");
    reveal_strlit(".local/share/piper-voices/ru/ru_RU/irina/medium/ru_RU-irina-medium.onnx.json");
    let base = ".local/share/piper-voices"@ + "/"@;
    let fulls = seq![
        ".local/share/piper-voices/en/en_US/amy/medium/en_US-amy-medium.onnx"@,
        ".local/share/piper-voices/en/en_US/amy/medium/en_US-amy-medium.onnx.json"@,
        ".local/share/piper-voices/ru/ru_RU/denis/medium/ru_RU-denis-medium.onnx"@,
        ".local/share/piper-voices/ru/ru_RU/denis/medium/ru_RU-denis-medium.onnx.json"@,
        ".local/share/piper-voices/ru/ru_RU/irina/medium/ru_RU-irina-medium.onnx"@,
        ".local/share/piper-voices/ru/ru_RU/irina/medium/ru_RU-irina-medium.onnx.json"@,
    ];
    assert forall|k: int| 0 <= k < 6 implies join_path(home, #[trigger] fulls[k]) == join_path(
        voices_dir(home),
        files[k],
    ) by {
        assert(fulls[k] =~= base + files[k]);
        lemma_under_voices_dir(home, files[k], fulls[k]);
    }
    assert(join_path(home, fulls[0]) == join_path(voices_dir(home), files[0]));
    assert(join_path(home, fulls[1]) == join_path(voices_dir(home), files[1]));
    assert(join_path(home, fulls[2]) == join_path(voices_dir(home), files[2]));
    assert(join_path(home, fulls[3]) == join_path(voices_dir(home), files[3]));
    assert(join_path(home, fulls[4]) == join_path(voices_dir(home), files[4]));
    assert(join_path(home, fulls[5]) == join_path(voices_dir(home), files[5]));
}

/// The mp3 renderer's voices are the speaker's Russian voices: the same
/// names, with the same model and config files.
pub proof fn law_renderer_voices_are_spoken_voices(home: Seq<char>, voice: Seq<char>)
    ensures
        match voice_model_paths_spec(home, voice) {
            Ok(p) => named_voice(home, "ru"@, voice) == Some(p),
            Err(_) => named_voice(home, "ru"@, voice) is None,
        },
{
    reveal_strlit("/");
    reveal_strlit(".local/share/piper-voices");
    reveal_strlit("ru/ru_RU/denis/medium/ru_RU-denis-medium.onnx");
    reveal_strlit("ru/ru_RU/denis/medium/ru_RU-denis-medium.onnx.json");
    reveal_strlit("ru/ru_RU/irina/medium/ru_RU-irina-medium.onnx");
    reveal_strlit("ru/ru_RU/irina/medium/ru_RU-irina-medium.onnx.json");
    reveal_strlit(".local/share/piper-voices/ru/ru_RU/denis/medium/ru_RU-denis-medium.onnx");
    reveal_strlit(".local/share/piper-voices/ru/ru_RU/denis/medium/ru_RU-denis-medium.onnx.json");
    reveal_strlit(".local/share/piper-voices/ru/ru_RU/irina/medium/ru_RU-irina-medium.onnx");
    reveal_strlit(".local/share/piper-voices/ru/ru_RU/irina/medium/ru_RU-irina-medium.onnx.json");
    reveal_strlit("ru");
    reveal_strlit("en");
    reveal_strlit("denis");
    reveal_strlit("irina");
    assert("ru"@[0] != "en"@[0]);
    assert("denis"@[0] != "irina"@[0]);
    let base = ".local/share/piper-voices"@ + "/"@;
    let d1 = "ru/ru_RU/denis/medium/ru_RU-denis-medium.onnx"@;
    let d2 = "ru/ru_RU/denis/medium/ru_RU-denis-medium.onnx.json"@;
    let i1 = "ru/ru_RU/irina/medium/ru_RU-irina-medium.onnx"@;
    let i2 = "ru/ru_RU/irina/medium/ru_RU-irina-medium.onnx.json"@;
    let fd1 = ".local/share/piper-voices/ru/ru_RU/denis/medium/ru_RU-denis-medium.onnx"@;
    let fd2 = ".local/share/piper-voices/ru/ru_RU/denis/medium/ru_RU-denis-medium.onnx.json"@;
    let fi1 = ".local/share/piper-voices/ru/ru_RU/irina/medium/ru_RU-irina-medium.onnx"@;
    let fi2 = ".local/share/piper-voices/ru/ru_RU/irina/medium/ru_RU-irina-medium.onnx.json"@;
    assert(fd1 =~= base + d1);
    assert(fd2 =~= base + d2);
    assert(fi1 =~= base + i1);
    assert(fi2 =~= base + i2);
    lemma_under_voices_dir(home, d1, fd1);
    lemma_under_voices_dir(home, d2, fd2);
    lemma_under_voices_dir(home, i1, fi1);
    lemma_under_voices_dir(home, i2, fi2);
}

} // verus!
