//! Voices for the `piper` text-to-speech CLI (English and Russian): which
//! model files a language or a named voice uses, whether they are present,
//! the `say` command's flags, and the errors of speaking.
use vstd::prelude::*;

use crate::decimal::push_decimal;
use crate::paths::{answers_for, config_found, join_path, path_exists, path_join, PathAnswer};
use crate::text::{debug_quote, debug_text, str_eq, trim, trim_seq};

verus! {

/// Audio sample rate (Hz) produced by the voice models and the rate `say`
/// asks `aplay` to play back at.
pub const SAMPLE_RATE: u32 = 22050;

/// Paths to a Piper voice's ONNX model and its accompanying config file.
#[derive(Debug, Clone, PartialEq, Eq)]
pub struct VoiceSpec {
    pub model: String,
    pub model_config: String,
}

impl View for VoiceSpec {
    type V = (Seq<char>, Seq<char>);

    open spec fn view(&self) -> (Seq<char>, Seq<char>) {
        (self.model@, self.model_config@)
    }
}

/// Error returned when resolving a voice or running `piper`/`aplay`.
#[derive(Debug)]
pub enum SayError {
    UnsupportedLanguage(String),
    UnsupportedVoice { lang: String, voice: String },
    HomeNotSet,
    MissingFile { field: String, path: String },
    /// The program could not be started; `message` is the system's reason.
    Io { program: String, message: String },
    /// The program ran and failed; `status` is how it exited.
    ProcessFailed { program: String, status: String, stderr: String },
}

/// What a [`SayError`] says, with its texts as character sequences.
pub enum SayFault {
    UnsupportedLanguage(Seq<char>),
    UnsupportedVoice { lang: Seq<char>, voice: Seq<char> },
    HomeNotSet,
    MissingFile { field: Seq<char>, path: Seq<char> },
    Io { program: Seq<char>, message: Seq<char> },
    ProcessFailed { program: Seq<char>, status: Seq<char>, stderr: Seq<char> },
}

impl View for SayError {
    type V = SayFault;

    open spec fn view(&self) -> SayFault {
        match self {
            SayError::UnsupportedLanguage(l) => SayFault::UnsupportedLanguage(l@),
            SayError::UnsupportedVoice { lang, voice } => SayFault::UnsupportedVoice {
                lang: lang@,
                voice: voice@,
            },
            SayError::HomeNotSet => SayFault::HomeNotSet,
            SayError::MissingFile { field, path } => SayFault::MissingFile {
                field: field@,
                path: path@,
            },
            SayError::Io { program, message } => SayFault::Io {
                program: program@,
                message: message@,
            },
            SayError::ProcessFailed { program, status, stderr } => SayFault::ProcessFailed {
                program: program@,
                status: status@,
                stderr: stderr@,
            },
        }
    }
}

/// The message of a speaking error.
pub open spec fn say_fault_message(f: SayFault) -> Seq<char> {
    match f {
        SayFault::UnsupportedLanguage(l) => "Unsupported language: "@ + l,
        SayFault::UnsupportedVoice { lang, voice } => "Unsupported voice for "@ + lang + ": "@
            + voice,
        SayFault::HomeNotSet => "HOME environment variable is not set"@,
        SayFault::MissingFile { field, path } => field + " not found at "@ + path,
        SayFault::Io { program, message } => "failed to run "@ + program + ": "@ + message,
        SayFault::ProcessFailed { program, status, stderr } => if trim_seq(stderr).len() == 0 {
            program + " failed ("@ + status + ")"@
        } else {
            program + " failed ("@ + status + "): "@ + trim_seq(stderr)
        },
    }
}

impl SayError {
    /// The error's message, e.g. `Unsupported voice for en: irina`.
    #[allow(clippy::inherent_to_string)]
    pub fn to_string(&self) -> (r: String)
        ensures
            r@ == say_fault_message(self@),
    {
        match self {
            SayError::UnsupportedLanguage(lang) => {
                let mut m = "Unsupported language: ".to_owned();
                m.append(lang.as_str());
                m
            },
            SayError::UnsupportedVoice { lang, voice } => {
                let mut m = "Unsupported voice for ".to_owned();
                m.append(lang.as_str());
                m.append(": ");
                m.append(voice.as_str());
                m
            },
            SayError::HomeNotSet => "HOME environment variable is not set".to_owned(),
            SayError::MissingFile { field, path } => {
                let mut m = field.clone();
                m.append(" not found at ");
                m.append(path.as_str());
                m
            },
            SayError::Io { program, message } => {
                let mut m = "failed to run ".to_owned();
                m.append(program.as_str());
                m.append(": ");
                m.append(message.as_str());
                m
            },
            SayError::ProcessFailed { program, status, stderr } => {
                let mut m = program.clone();
                m.append(" failed (");
                m.append(status.as_str());
                let t = trim(stderr.as_str());
                if t.unicode_len() == 0 {
                    m.append(")");
                } else {
                    m.append("): ");
                    m.append(t);
                }
                m
            },
        }
    }
}

/// The model and config paths, under `home`, of the default voice for
/// `lang` ("en": amy, "ru": denis).
pub open spec fn language_voice(home: Seq<char>, lang: Seq<char>) -> Option<(Seq<char>, Seq<char>)> {
    if lang == "en"@ {
        Some(
            (
                join_path(
                    home,
                    ".local/share/piper-voices/en/en_US/amy/medium/en_US-amy-medium.onnx"@,
                ),
                join_path(
                    home,
                    ".local/share/piper-voices/en/en_US/amy/medium/en_US-amy-medium.onnx.json"@,
                ),
            ),
        )
    } else if lang == "ru"@ {
        Some(
            (
                join_path(
                    home,
                    ".local/share/piper-voices/ru/ru_RU/denis/medium/ru_RU-denis-medium.onnx"@,
                ),
                join_path(
                    home,
                    ".local/share/piper-voices/ru/ru_RU/denis/medium/ru_RU-denis-medium.onnx.json"@,
                ),
            ),
        )
    } else {
        None
    }
}

/// The model and config paths, under `home`, of the named `voice` for
/// `lang`: "irina" and "denis" exist for Russian, "denis" being the default.
pub open spec fn named_voice(home: Seq<char>, lang: Seq<char>, voice: Seq<char>) -> Option<
    (Seq<char>, Seq<char>),
> {
    if lang == "ru"@ && voice == "irina"@ {
        Some(
            (
                join_path(
                    home,
                    ".local/share/piper-voices/ru/ru_RU/irina/medium/ru_RU-irina-medium.onnx"@,
                ),
                join_path(
                    home,
                    ".local/share/piper-voices/ru/ru_RU/irina/medium/ru_RU-irina-medium.onnx.json"@,
                ),
            ),
        )
    } else if lang == "ru"@ && voice == "denis"@ {
        language_voice(home, "ru"@)
    } else {
        None
    }
}

fn voice_at(home: &str, model: &str, config: &str) -> (v: VoiceSpec)
    ensures
        v@ == (join_path(home@, model@), join_path(home@, config@)),
{
    VoiceSpec { model: path_join(home, model), model_config: path_join(home, config) }
}

/// The default `VoiceSpec` for `lang`, or `None` if `lang` isn't supported.
pub fn language_spec(home: &str, lang: &str) -> (r: Option<VoiceSpec>)
    ensures
        match language_voice(home@, lang@) {
            Some(p) => r matches Some(v) && v@ == p,
            None => r is None,
        },
{
    if str_eq(lang, "en") {
        Some(
            voice_at(
                home,
                ".local/share/piper-voices/en/en_US/amy/medium/en_US-amy-medium.onnx",
                ".local/share/piper-voices/en/en_US/amy/medium/en_US-amy-medium.onnx.json",
            ),
        )
    } else if str_eq(lang, "ru") {
        Some(
            voice_at(
                home,
                ".local/share/piper-voices/ru/ru_RU/denis/medium/ru_RU-denis-medium.onnx",
                ".local/share/piper-voices/ru/ru_RU/denis/medium/ru_RU-denis-medium.onnx.json",
            ),
        )
    } else {
        None
    }
}

/// The named-voice `VoiceSpec` for `lang`/`voice`, or `None` if that
/// combination isn't supported. Languages with only one voice have no entry
/// here and use [`language_spec`] instead.
pub fn voice_spec(home: &str, lang: &str, voice: &str) -> (r: Option<VoiceSpec>)
    ensures
        match named_voice(home@, lang@, voice@) {
            Some(p) => r matches Some(v) && v@ == p,
            None => r is None,
        },
{
    if str_eq(lang, "ru") && str_eq(voice, "irina") {
        Some(
            voice_at(
                home,
                ".local/share/piper-voices/ru/ru_RU/irina/medium/ru_RU-irina-medium.onnx",
                ".local/share/piper-voices/ru/ru_RU/irina/medium/ru_RU-irina-medium.onnx.json",
            ),
        )
    } else if str_eq(lang, "ru") && str_eq(voice, "denis") {
        language_spec(home, "ru")
    } else {
        None
    }
}

/// The voice for `lang`, or its named `voice` if one is given; the error
/// names the voice or the language that is not supported.
pub open spec fn chosen_voice(home: Seq<char>, lang: Seq<char>, voice: Option<Seq<char>>) -> Result<
    (Seq<char>, Seq<char>),
    SayFault,
> {
    match voice {
        Some(v) => match named_voice(home, lang, v) {
            Some(p) => Ok(p),
            None => Err(SayFault::UnsupportedVoice { lang, voice: v }),
        },
        None => match language_voice(home, lang) {
            Some(p) => Ok(p),
            None => Err(SayFault::UnsupportedLanguage(lang)),
        },
    }
}

/// Return the `VoiceSpec` for `lang`, or its `voice` variant if given.
///
/// Returns [`SayError::UnsupportedVoice`] for a `voice` not recognized for
/// `lang` (even if `lang` itself is supported), or
/// [`SayError::UnsupportedLanguage`] for an unsupported `lang` when no
/// `voice` is given.
pub fn get_voice_spec(home: &str, lang: &str, voice: Option<&str>) -> (r: Result<
    VoiceSpec,
    SayError,
>)
    ensures
        match chosen_voice(
            home@,
            lang@,
            match voice {
                Some(v) => Some(v@),
                None => None,
            },
        ) {
            Ok(p) => r matches Ok(v) && v@ == p,
            Err(f) => r matches Err(e) && e@ == f,
        },
{
    match voice {
        Some(voice) => match voice_spec(home, lang, voice) {
            Some(v) => Ok(v),
            None => Err(
                SayError::UnsupportedVoice { lang: lang.to_owned(), voice: voice.to_owned() },
            ),
        },
        None => match language_spec(home, lang) {
            Some(v) => Ok(v),
            None => Err(SayError::UnsupportedLanguage(lang.to_owned())),
        },
    }
}

/// What checking a voice's files gives, where `model_exists` and
/// `config_exists` say what is on disk: the first missing file is reported.
pub open spec fn model_files_check(
    spec: (Seq<char>, Seq<char>),
    model_exists: bool,
    config_exists: bool,
) -> Result<(Seq<char>, Seq<char>), SayFault> {
    if !model_exists {
        Err(SayFault::MissingFile { field: "Model"@, path: spec.0 })
    } else if !config_exists {
        Err(SayFault::MissingFile { field: "Model config"@, path: spec.1 })
    } else {
        Ok(spec)
    }
}

/// Return `spec`, given the answers about its model file and (where the
/// model file is there) its config file, or the error naming the first one
/// that is missing.
pub fn check_model_files(spec: VoiceSpec, model: &PathAnswer, config: Option<&PathAnswer>) -> (r:
    Result<VoiceSpec, SayError>)
    requires
        answers_for(spec@, *model, match config {
            Some(c) => Some(*c),
            None => None,
        }),
    ensures
        match model_files_check(
            spec@,
            model.found(),
            config_found(
                match config {
                    Some(c) => Some(*c),
                    None => None,
                },
            ),
        ) {
            Ok(p) => r matches Ok(v) && v@ == p,
            Err(f) => r matches Err(e) && e@ == f,
        },
{
    if !model.present() {
        return Err(SayError::MissingFile { field: "Model".to_owned(), path: spec.model });
    }
    match config {
        Some(c) => {
            if !c.present() {
                return Err(
                    SayError::MissingFile { field: "Model config".to_owned(), path: spec.model_config },
                );
            }
        },
        None => {},
    }
    Ok(spec)
}

/// Return `spec` after checking that its model files exist. The model file
/// is checked first; the config file only when the model file is there.
/// What is on disk is not known here: the result is what the check gives
/// for some answers about exactly these two files.
pub fn validate_paths(spec: VoiceSpec) -> (r: Result<VoiceSpec, SayError>)
    ensures
        exists|model: PathAnswer, config: Option<PathAnswer>|
            #![trigger answers_for(spec@, model, config)]
            answers_for(spec@, model, config) && match model_files_check(
                spec@,
                model.found(),
                config_found(config),
            ) {
                Ok(p) => r matches Ok(v) && v@ == p,
                Err(f) => r matches Err(e) && e@ == f,
            },
{
    let ghost sv = spec@;
    let model = path_exists(spec.model.as_str());
    if !model.present() {
        let r = check_model_files(spec, &model, None);
        assert(answers_for(sv, model, None));
        return r;
    }
    let config = path_exists(spec.model_config.as_str());
    let r = check_model_files(spec, &model, Some(&config));
    assert(answers_for(sv, model, Some(config)));
    r
}

/// The arguments that make `piper` read text on stdin and write raw audio
/// for the voice `spec` to stdout.
pub fn piper_args(spec: &VoiceSpec) -> (r: Vec<String>)
    ensures
        r@.len() == 5,
        r@[0]@ == "-m"@,
        r@[1]@ == spec.model@,
        r@[2]@ == "-c"@,
        r@[3]@ == spec.model_config@,
        r@[4]@ == "--output-raw"@,
{
    let mut v: Vec<String> = Vec::new();
    v.push("-m".to_owned());
    v.push(spec.model.clone());
    v.push("-c".to_owned());
    v.push(spec.model_config.clone());
    v.push("--output-raw".to_owned());
    v
}

/// The arguments that make `aplay` play raw S16LE mono audio at
/// [`SAMPLE_RATE`] from stdin.
pub fn aplay_args() -> (r: Vec<String>)
    ensures
        r@.len() == 9,
        r@[0]@ == "-q"@,
        r@[1]@ == "-c"@,
        r@[2]@ == "1"@,
        r@[3]@ == "-r"@,
        r@[4]@ == crate::decimal::decimal_seq(SAMPLE_RATE as nat),
        r@[5]@ == "-f"@,
        r@[6]@ == "S16_LE"@,
        r@[7]@ == "-t"@,
        r@[8]@ == "raw"@,
{
    let mut v: Vec<String> = Vec::new();
    v.push("-q".to_owned());
    v.push("-c".to_owned());
    v.push("1".to_owned());
    v.push("-r".to_owned());
    let mut rate = String::new();
    push_decimal(&mut rate, SAMPLE_RATE as u64);
    assert(rate@ =~= crate::decimal::decimal_seq(SAMPLE_RATE as nat));
    v.push(rate);
    v.push("-f".to_owned());
    v.push("S16_LE".to_owned());
    v.push("-t".to_owned());
    v.push("raw".to_owned());
    v
}

/// The arguments that make `ffmpeg` encode raw S16LE mono audio at
/// [`SAMPLE_RATE`] from stdin into the file `output`, overwriting it.
pub fn ffmpeg_args(output: &str) -> (r: Vec<String>)
    ensures
        r@.len() == 13,
        r@[0]@ == "-y"@,
        r@[1]@ == "-hide_banner"@,
        r@[2]@ == "-loglevel"@,
        r@[3]@ == "error"@,
        r@[4]@ == "-f"@,
        r@[5]@ == "s16le"@,
        r@[6]@ == "-ar"@,
        r@[7]@ == crate::decimal::decimal_seq(SAMPLE_RATE as nat),
        r@[8]@ == "-ac"@,
        r@[9]@ == "1"@,
        r@[10]@ == "-i"@,
        r@[11]@ == "-"@,
        r@[12]@ == output@,
{
    let mut v: Vec<String> = Vec::new();
    v.push("-y".to_owned());
    v.push("-hide_banner".to_owned());
    v.push("-loglevel".to_owned());
    v.push("error".to_owned());
    v.push("-f".to_owned());
    v.push("s16le".to_owned());
    v.push("-ar".to_owned());
    let mut rate = String::new();
    push_decimal(&mut rate, SAMPLE_RATE as u64);
    assert(rate@ =~= crate::decimal::decimal_seq(SAMPLE_RATE as nat));
    v.push(rate);
    v.push("-ac".to_owned());
    v.push("1".to_owned());
    v.push("-i".to_owned());
    v.push("-".to_owned());
    v.push(output.to_owned());
    v
}

/// Flags parsed from `say`'s command-line arguments, before the text falls
/// back to stdin.
#[derive(Debug)]
pub struct ParsedFlags {
    pub lang: String,
    pub voice: Option<String>,
    pub text_arg: Option<String>,
}

/// What the flags say: language, optional voice, optional text.
pub type FlagsModel = (Seq<char>, Option<Seq<char>>, Option<Seq<char>>);

pub open spec fn opt_view(o: Option<String>) -> Option<Seq<char>> {
    match o {
        Some(s) => Some(s@),
        None => None,
    }
}

impl View for ParsedFlags {
    type V = FlagsModel;

    open spec fn view(&self) -> FlagsModel {
        (self.lang@, opt_view(self.voice), opt_view(self.text_arg))
    }
}

/// The texts of the arguments.
pub open spec fn arg_texts(args: Seq<String>) -> Seq<Seq<char>> {
    args.map_values(|a: String| a@)
}

/// Reads the flags from argument `i` on, given what was read before it:
/// `-l`/`--lang` takes "en" or "ru", `-v`/`--voice` takes any voice, the
/// first other argument is the text and a second one is refused.
pub open spec fn flags_from(args: Seq<Seq<char>>, i: int, read: FlagsModel) -> Result<
    FlagsModel,
    Seq<char>,
>
    decreases args.len() - i,
{
    if i < 0 || i >= args.len() {
        Ok(read)
    } else {
        let a = args[i];
        if a == "-l"@ || a == "--lang"@ {
            if i + 1 >= args.len() {
                Err("--lang requires a value"@)
            } else {
                let value = args[i + 1];
                if value != "en"@ && value != "ru"@ {
                    Err(
                        "invalid choice for --lang: "@ + debug_text(value)
                            + " (choose from \"en\", \"ru\")"@,
                    )
                } else {
                    flags_from(args, i + 2, (value, read.1, read.2))
                }
            }
        } else if a == "-v"@ || a == "--voice"@ {
            if i + 1 >= args.len() {
                Err("--voice requires a value"@)
            } else {
                flags_from(args, i + 2, (read.0, Some(args[i + 1]), read.2))
            }
        } else if read.2 is None {
            flags_from(args, i + 1, (read.0, read.1, Some(a)))
        } else {
            Err("unexpected argument: "@ + debug_text(a))
        }
    }
}

/// The flags of `say`'s arguments: by default English, no voice, no text.
pub open spec fn say_flags(args: Seq<Seq<char>>) -> Result<FlagsModel, Seq<char>> {
    flags_from(args, 0, ("en"@, None, None))
}

/// Reads `say`'s flags: `[-l|--lang en|ru] [-v|--voice VOICE] [text]`.
pub fn parse_flags(args: &[String]) -> (r: Result<ParsedFlags, String>)
    ensures
        match say_flags(arg_texts(args@)) {
            Ok(m) => r matches Ok(f) && f@ == m,
            Err(msg) => r matches Err(e) && e@ == msg,
        },
{
    let ghost texts = arg_texts(args@);
    let mut lang = "en".to_owned();
    let mut voice: Option<String> = None;
    let mut text_arg: Option<String> = None;
    let mut i: usize = 0;
    while i < args.len()
        invariant
            texts == arg_texts(args@),
            texts.len() == args@.len(),
            i <= args@.len(),
            flags_from(texts, i as int, (lang@, opt_view(voice), opt_view(text_arg)))
                == say_flags(texts),
        decreases args@.len() - i,
    {
        let arg = args[i].as_str();
        assert(texts[i as int] == arg@);
        if str_eq(arg, "-l") || str_eq(arg, "--lang") {
            if i + 1 >= args.len() {
                return Err("--lang requires a value".to_owned());
            }
            let value = args[i + 1].as_str();
            assert(texts[i + 1] == value@);
            if !str_eq(value, "en") && !str_eq(value, "ru") {
                let mut m = "invalid choice for --lang: ".to_owned();
                m.append(debug_quote(value).as_str());
                m.append(" (choose from \"en\", \"ru\")");
                return Err(m);
            }
            lang = value.to_owned();
            i = i + 2;
        } else if str_eq(arg, "-v") || str_eq(arg, "--voice") {
            if i + 1 >= args.len() {
                return Err("--voice requires a value".to_owned());
            }
            let value = args[i + 1].as_str();
            assert(texts[i + 1] == value@);
            voice = Some(value.to_owned());
            i = i + 2;
        } else if text_arg.is_none() {
            text_arg = Some(arg.to_owned());
            i = i + 1;
        } else {
            let mut m = "unexpected argument: ".to_owned();
            m.append(debug_quote(arg).as_str());
            return Err(m);
        }
    }
    Ok(ParsedFlags { lang, voice, text_arg })
}

/// The Russian voice "denis" is the Russian default voice.
pub proof fn law_denis_is_russian_default(home: Seq<char>)
    ensures
        named_voice(home, "ru"@, "denis"@) == language_voice(home, "ru"@),
{
    reveal_strlit("irina");
    reveal_strlit("denis");
    reveal_strlit("ru");
    reveal_strlit("en");
    assert("denis"@[0] != "irina"@[0]);
    assert("ru"@[0] != "en"@[0]);
}

/// The Russian voice "irina" has model files of its own, other than the
/// default Russian voice's.
pub proof fn law_irina_is_its_own_voice(home: Seq<char>)
    ensures
        named_voice(home, "ru"@, "irina"@) != language_voice(home, "ru"@),
{
    reveal_strlit("ru");
    reveal_strlit("en");
    assert("ru"@[0] != "en"@[0]);
    reveal_strlit(".local/share/piper-voices/ru/ru_RU/irina/medium/ru_RU-irina-medium.onnx");
    reveal_strlit(".local/share/piper-voices/ru/ru_RU/denis/medium/ru_RU-denis-medium.onnx");
    let irina = ".local/share/piper-voices/ru/ru_RU/irina/medium/ru_RU-irina-medium.onnx"@;
    let denis = ".local/share/piper-voices/ru/ru_RU/denis/medium/ru_RU-denis-medium.onnx"@;
    let a = join_path(home, irina);
    let b = join_path(home, denis);
    let off: int = if home.len() > 0 && home.last() != '/' {
        home.len() + 1int
    } else {
        home.len() as int
    };
    assert(irina[35] != denis[35]);
    assert(a[off + 35] == irina[35]);
    assert(b[off + 35] == denis[35]);
    assert(a != b);
}

/// Whether `p` is an ONNX model file under the voices directory in
/// `home`, with its config file at the same path plus `.json`.
pub open spec fn is_model_pair(home: Seq<char>, p: (Seq<char>, Seq<char>)) -> bool {
    exists|rel: Seq<char>|
        #![trigger ".local/share/piper-voices/"@ + rel]
        rel.len() >= 5 && rel.skip(rel.len() - 5) == ".onnx"@ && p.0 == join_path(
            home,
            ".local/share/piper-voices/"@ + rel,
        ) && p.1 == join_path(home, ".local/share/piper-voices/"@ + rel + ".json"@)
}

proof fn lemma_model_pair(home: Seq<char>, rel: Seq<char>, model: Seq<char>, config: Seq<char>)
    requires
        rel.len() >= 5,
        rel.skip(rel.len() - 5) == ".onnx"@,
        model == ".local/share/piper-voices/"@ + rel,
        config == ".local/share/piper-voices/"@ + rel + ".json"@,
    ensures
        is_model_pair(home, (join_path(home, model), join_path(home, config))),
{
    assert(model == ".local/share/piper-voices/"@ + rel);
}

/// Every voice that can be chosen is an ONNX model file under the voices
/// directory in `home`, with its config file at the same path plus
/// `.json`; choosing one looks at nothing but the arguments.
pub proof fn law_voices_are_model_pairs(home: Seq<char>, lang: Seq<char>, voice: Option<Seq<char>>)
    ensures
        chosen_voice(home, lang, voice) matches Ok(p) ==> is_model_pair(home, p),
{
    let prefix = ".local/share/piper-voices/"@;
    reveal_strlit(".local/share/piper-voices/");
    reveal_strlit(".onnx");
    reveal_strlit(".json");
    reveal_strlit("en/en_US/amy/medium/en_US-amy-medium.onnx");
    reveal_strlit(".local/share/piper-voices/en/en_US/amy/medium/en_US-amy-medium.onnx");
    reveal_strlit(".local/share/piper-voices/en/en_US/amy/medium/en_US-amy-medium.onnx.json");
    let rel = "en/en_US/amy/medium/en_US-amy-medium.onnx"@;
    assert(rel.skip(rel.len() - 5) =~= ".onnx"@);
    assert(".local/share/piper-voices/en/en_US/amy/medium/en_US-amy-medium.onnx"@ =~= prefix + rel);
    assert(".local/share/piper-voices/en/en_US/amy/medium/en_US-amy-medium.onnx.json"@ =~= prefix + rel + ".json"@);
    lemma_model_pair(
        home,
        rel,
        ".local/share/piper-voices/en/en_US/amy/medium/en_US-amy-medium.onnx"@,
        ".local/share/piper-voices/en/en_US/amy/medium/en_US-amy-medium.onnx.json"@,
    );
    reveal_strlit("ru/ru_RU/denis/medium/ru_RU-denis-medium.onnx");
    reveal_strlit(".local/share/piper-voices/ru/ru_RU/denis/medium/ru_RU-denis-medium.onnx");
    reveal_strlit(".local/share/piper-voices/ru/ru_RU/denis/medium/ru_RU-denis-medium.onnx.json");
    let rel = "ru/ru_RU/denis/medium/ru_RU-denis-medium.onnx"@;
    assert(rel.skip(rel.len() - 5) =~= ".onnx"@);
    assert(".local/share/piper-voices/ru/ru_RU/denis/medium/ru_RU-denis-medium.onnx"@ =~= prefix + rel);
    assert(".local/share/piper-voices/ru/ru_RU/denis/medium/ru_RU-denis-medium.onnx.json"@ =~= prefix + rel + ".json"@);
    lemma_model_pair(
        home,
        rel,
        ".local/share/piper-voices/ru/ru_RU/denis/medium/ru_RU-denis-medium.onnx"@,
        ".local/share/piper-voices/ru/ru_RU/denis/medium/ru_RU-denis-medium.onnx.json"@,
    );
    reveal_strlit("ru/ru_RU/irina/medium/ru_RU-irina-medium.onnx");
    reveal_strlit(".local/share/piper-voices/ru/ru_RU/irina/medium/ru_RU-irina-medium.onnx");
    reveal_strlit(".local/share/piper-voices/ru/ru_RU/irina/medium/ru_RU-irina-medium.onnx.json");
    let rel = "ru/ru_RU/irina/medium/ru_RU-irina-medium.onnx"@;
    assert(rel.skip(rel.len() - 5) =~= ".onnx"@);
    assert(".local/share/piper-voices/ru/ru_RU/irina/medium/ru_RU-irina-medium.onnx"@ =~= prefix + rel);
    assert(".local/share/piper-voices/ru/ru_RU/irina/medium/ru_RU-irina-medium.onnx.json"@ =~= prefix + rel + ".json"@);
    lemma_model_pair(
        home,
        rel,
        ".local/share/piper-voices/ru/ru_RU/irina/medium/ru_RU-irina-medium.onnx"@,
        ".local/share/piper-voices/ru/ru_RU/irina/medium/ru_RU-irina-medium.onnx.json"@,
    );
}

/// Whether `a` is the language flag.
pub open spec fn is_lang_flag(a: Seq<char>) -> bool {
    a == "-l"@ || a == "--lang"@
}

proof fn lemma_flags_after_lang(
    pre: Seq<Seq<char>>,
    rest: Seq<Seq<char>>,
    i: int,
    lang: Seq<char>,
    other: Seq<char>,
    voice: Option<Seq<char>>,
    text: Option<Seq<char>>,
)
    requires
        pre.len() == 2,
        0 <= i,
        forall|j: int| 0 <= j < rest.len() ==> !is_lang_flag(#[trigger] rest[j]),
    ensures
        flags_from(pre + rest, i + 2, (lang, voice, text)) == match flags_from(
            rest,
            i,
            (other, voice, text),
        ) {
            Ok(m) => Ok::<FlagsModel, Seq<char>>((lang, m.1, m.2)),
            Err(e) => Err(e),
        },
    decreases rest.len() - i,
{
    let all = pre + rest;
    if i < rest.len() {
        assert(all[i + 2] == rest[i]);
        assert(!is_lang_flag(rest[i]));
        if i + 1 < rest.len() {
            assert(all[i + 3] == rest[i + 1]);
        }
        let a = rest[i];
        if a == "-v"@ || a == "--voice"@ {
            if i + 1 < rest.len() {
                lemma_flags_after_lang(pre, rest, i + 2, lang, other, Some(rest[i + 1]), text);
            }
        } else if text is None {
            lemma_flags_after_lang(pre, rest, i + 1, lang, other, voice, Some(a));
        }
    }
}

/// The language flag takes every language that has a voice: putting
/// `-l LANG` or `--lang LANG` before arguments that set no language of
/// their own sets the language to `LANG` and changes nothing else, neither
/// the voice and text read nor whether the arguments are refused.
pub proof fn law_lang_flag_takes_every_language_with_a_voice(
    home: Seq<char>,
    flag: Seq<char>,
    lang: Seq<char>,
    rest: Seq<Seq<char>>,
)
    requires
        is_lang_flag(flag),
        language_voice(home, lang) is Some,
        forall|j: int| 0 <= j < rest.len() ==> !is_lang_flag(#[trigger] rest[j]),
    ensures
        say_flags(seq![flag, lang] + rest) == match say_flags(rest) {
            Ok(m) => Ok::<FlagsModel, Seq<char>>((lang, m.1, m.2)),
            Err(e) => Err(e),
        },
        say_flags(seq![flag, lang]) == Ok::<FlagsModel, Seq<char>>((lang, None, None)),
{
    let pre = seq![flag, lang];
    let all = pre + rest;
    assert(all[0] == flag);
    assert(all[1] == lang);
    lemma_flags_after_lang(pre, rest, 0, lang, "en"@, None, None);
    assert(pre + Seq::<Seq<char>>::empty() =~= pre);
    lemma_flags_after_lang(pre, Seq::empty(), 0, lang, "en"@, None, None);
}

proof fn lemma_flags_read_from_i_on(a: Seq<Seq<char>>, b: Seq<Seq<char>>, i: int, read: FlagsModel)
    requires
        a.len() == b.len(),
        forall|j: int| i <= j < a.len() ==> a[j] == b[j],
    ensures
        flags_from(a, i, read) == flags_from(b, i, read),
    decreases a.len() - i,
{
    if 0 <= i < a.len() {
        let x = a[i];
        if i + 1 < a.len() {
            assert(a[i + 1] == b[i + 1]);
            let v = a[i + 1];
            lemma_flags_read_from_i_on(a, b, i + 2, (v, read.1, read.2));
            lemma_flags_read_from_i_on(a, b, i + 2, (read.0, Some(v), read.2));
        }
        lemma_flags_read_from_i_on(a, b, i + 1, (read.0, read.1, Some(x)));
    }
}

/// The long form of a `say` flag.
pub open spec fn long_say_flag(short: Seq<char>) -> Seq<char> {
    if short == "-l"@ {
        "--lang"@
    } else {
        "--voice"@
    }
}

/// `--lang` and `--voice` do what `-l` and `-v` do: wherever the arguments
/// are read as flags, writing the long form for the short one gives the
/// same result; in particular, as the first argument, the same flags.
pub proof fn law_long_say_flags_are_their_short_forms(
    args: Seq<Seq<char>>,
    i: int,
    read: FlagsModel,
    short: Seq<char>,
)
    requires
        short == "-l"@ || short == "-v"@,
        0 <= i < args.len(),
        args[i] == short,
    ensures
        flags_from(args.update(i, long_say_flag(short)), i, read) == flags_from(args, i, read),
        i == 0 ==> say_flags(args.update(0, long_say_flag(short))) == say_flags(args),
{
    reveal_strlit("-l");
    reveal_strlit("-v");
    reveal_strlit("--lang");
    reveal_strlit("--voice");
    assert("-l"@[1] != "-v"@[1]);
    assert("--lang"@[2] != "--voice"@[2]);
    let b = args.update(i, long_say_flag(short));
    assert(b[i] == long_say_flag(short));
    if i + 1 < args.len() {
        assert(b[i + 1] == args[i + 1]);
        let v = args[i + 1];
        lemma_flags_read_from_i_on(b, args, i + 2, (v, read.1, read.2));
        lemma_flags_read_from_i_on(b, args, i + 2, (read.0, Some(v), read.2));
        lemma_flags_read_from_i_on(b, args, i + 2, (v, None, None));
        lemma_flags_read_from_i_on(b, args, i + 2, ("en"@, Some(v), None));
    }
}

} // verus!
