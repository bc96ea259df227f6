//! Play, print, or render (to mp3) English/Russian sentence pairs: the
//! `play` command's arguments, its errors, and the choices it makes.
//!
//! Command line: `play <id> <delay> [clause] [--ru-voice irina|denis]
//! [-o OUTPUT | -t | -i]`.
use vstd::prelude::*;

use crate::db::sentence_pairs::{fault_message, id_list, parse_id_list, IdListError, IdListFault};
use crate::decimal::{decimal_seq, parse_int_seq, parse_u64, parse_usize, push_decimal};
use crate::say::{arg_texts, say_fault_message, SayError, SayFault};
use crate::text::{debug_quote, debug_text, ends_with, starts_with_char, str_eq};

pub mod lang;
pub mod wait;

verus! {

/// Error returned while playing, printing, or rendering sentence pairs.
#[derive(Debug)]
pub enum PlayError {
    PairNotFound(u64),
    ClauseOutOfRange { clause: usize, available: usize },
    Say(SayError),
    /// The terminal could not be configured; the system's reason.
    Termios(String),
    IdList(IdListError),
    InvalidOutputExtension(String),
    Ffmpeg(String),
}

/// What a [`PlayError`] says, with its texts as character sequences.
pub enum PlayFault {
    PairNotFound(u64),
    ClauseOutOfRange { clause: usize, available: usize },
    Say(SayFault),
    Termios(Seq<char>),
    IdList(IdListFault),
    InvalidOutputExtension(Seq<char>),
    Ffmpeg(Seq<char>),
}

impl View for PlayError {
    type V = PlayFault;

    open spec fn view(&self) -> PlayFault {
        match self {
            PlayError::PairNotFound(id) => PlayFault::PairNotFound(*id),
            PlayError::ClauseOutOfRange { clause, available } => PlayFault::ClauseOutOfRange {
                clause: *clause,
                available: *available,
            },
            PlayError::Say(e) => PlayFault::Say(e@),
            PlayError::Termios(m) => PlayFault::Termios(m@),
            PlayError::IdList(e) => PlayFault::IdList(e@),
            PlayError::InvalidOutputExtension(o) => PlayFault::InvalidOutputExtension(o@),
            PlayError::Ffmpeg(m) => PlayFault::Ffmpeg(m@),
        }
    }
}

/// The message of a play error.
pub open spec fn play_fault_message(f: PlayFault) -> Seq<char> {
    match f {
        PlayFault::PairNotFound(id) => "no sentence pair with id "@ + decimal_seq(id as nat),
        PlayFault::ClauseOutOfRange { clause, available } => "clause "@ + decimal_seq(
            clause as nat,
        ) + " out of range (sentence has "@ + decimal_seq(available as nat) + " clause(s))"@,
        PlayFault::Say(e) => say_fault_message(e),
        PlayFault::Termios(m) => "failed to configure the terminal: "@ + m,
        PlayFault::IdList(e) => fault_message(e),
        PlayFault::InvalidOutputExtension(o) => "output path must end with .mp3: "@ + o,
        PlayFault::Ffmpeg(m) => m,
    }
}

impl PlayError {
    /// The error's message, e.g. `no sentence pair with id 999`.
    #[allow(clippy::inherent_to_string)]
    pub fn to_string(&self) -> (r: String)
        ensures
            r@ == play_fault_message(self@),
    {
        match self {
            PlayError::PairNotFound(id) => {
                let mut m = "no sentence pair with id ".to_owned();
                push_decimal(&mut m, *id);
                m
            },
            PlayError::ClauseOutOfRange { clause, available } => {
                let mut m = "clause ".to_owned();
                push_decimal(&mut m, *clause as u64);
                m.append(" out of range (sentence has ");
                push_decimal(&mut m, *available as u64);
                m.append(" clause(s))");
                m
            },
            PlayError::Say(e) => e.to_string(),
            PlayError::Termios(msg) => {
                let mut m = "failed to configure the terminal: ".to_owned();
                m.append(msg.as_str());
                m
            },
            PlayError::IdList(e) => e.to_string(),
            PlayError::InvalidOutputExtension(output) => {
                let mut m = "output path must end with .mp3: ".to_owned();
                m.append(output.as_str());
                m
            },
            PlayError::Ffmpeg(msg) => msg.clone(),
        }
    }
}

/// Whether `output` names an mp3 file.
pub open spec fn is_mp3_name(output: Seq<char>) -> bool {
    4 <= output.len() && output.skip(output.len() - 4) == ".mp3"@
}

/// Accept `output` as the file to render to only if it ends with `.mp3`.
pub fn check_mp3_output(output: &str) -> (r: Result<(), PlayError>)
    ensures
        is_mp3_name(output@) ==> r is Ok,
        !is_mp3_name(output@) ==> (r matches Err(PlayError::InvalidOutputExtension(o)) && o@
            == output@),
{
    proof {
        reveal_strlit(".mp3");
    }
    if ends_with(output, ".mp3") {
        Ok(())
    } else {
        Err(PlayError::InvalidOutputExtension(output.to_owned()))
    }
}

/// Flags and positionals parsed from `play`'s command-line arguments.
#[derive(Debug)]
pub struct ParsedArgs {
    pub id: String,
    pub delay: u64,
    pub clause: Option<usize>,
    pub ru_voice: String,
    pub output: Option<String>,
    pub text_only: bool,
    pub interactive: bool,
}

/// What the arguments say, with texts as character sequences.
pub struct ArgsModel {
    pub id: Seq<char>,
    pub delay: u64,
    pub clause: Option<usize>,
    pub ru_voice: Seq<char>,
    pub output: Option<Seq<char>>,
    pub text_only: bool,
    pub interactive: bool,
}

impl View for ParsedArgs {
    type V = ArgsModel;

    open spec fn view(&self) -> ArgsModel {
        ArgsModel {
            id: self.id@,
            delay: self.delay,
            clause: self.clause,
            ru_voice: self.ru_voice@,
            output: crate::say::opt_view(self.output),
            text_only: self.text_only,
            interactive: self.interactive,
        }
    }
}

/// What has been read of the arguments so far.
pub struct ArgsScan {
    pub positionals: Seq<Seq<char>>,
    pub ru_voice: Seq<char>,
    pub output: Option<Seq<char>>,
    pub text_only: bool,
    pub interactive: bool,
}

/// Whether an argument looks like a flag: it starts with `-` and is not `-`.
pub open spec fn is_flag_like(a: Seq<char>) -> bool {
    a.len() > 0 && a[0] == '-' && a != "-"@
}

/// Reads the arguments from `i` on: `--ru-voice` takes "irina" or "denis",
/// `-o`/`--output` takes a path, `-t`/`--text-only` and `-i`/`--interactive`
/// are switches, any other flag is refused and the rest are positionals.
pub open spec fn scan_play_args(args: Seq<Seq<char>>, i: int, read: ArgsScan) -> Result<
    ArgsScan,
    Seq<char>,
>
    decreases args.len() - i,
{
    if i < 0 || i >= args.len() {
        Ok(read)
    } else {
        let a = args[i];
        if a == "--ru-voice"@ {
            if i + 1 >= args.len() {
                Err("--ru-voice requires a value"@)
            } else {
                let value = args[i + 1];
                if value != "irina"@ && value != "denis"@ {
                    Err(
                        "invalid choice for --ru-voice: "@ + debug_text(value)
                            + " (choose from \"irina\", \"denis\")"@,
                    )
                } else {
                    scan_play_args(args, i + 2, ArgsScan { ru_voice: value, ..read })
                }
            }
        } else if a == "-o"@ || a == "--output"@ {
            if i + 1 >= args.len() {
                Err("--output requires a value"@)
            } else {
                scan_play_args(args, i + 2, ArgsScan { output: Some(args[i + 1]), ..read })
            }
        } else if a == "-t"@ || a == "--text-only"@ {
            scan_play_args(args, i + 1, ArgsScan { text_only: true, ..read })
        } else if a == "-i"@ || a == "--interactive"@ {
            scan_play_args(args, i + 1, ArgsScan { interactive: true, ..read })
        } else if is_flag_like(a) {
            Err("unexpected argument: "@ + debug_text(a))
        } else {
            scan_play_args(
                args,
                i + 1,
                ArgsScan { positionals: read.positionals.push(a), ..read },
            )
        }
    }
}

/// How many of the output modes (`--output`, `--text-only`,
/// `--interactive`) are chosen.
pub open spec fn mode_count(s: ArgsScan) -> nat {
    (if s.output is Some {
        1nat
    } else {
        0nat
    }) + (if s.text_only {
        1nat
    } else {
        0nat
    }) + (if s.interactive {
        1nat
    } else {
        0nat
    })
}

/// Nothing read yet: the Russian voice defaults to "denis".
pub open spec fn initial_scan() -> ArgsScan {
    ArgsScan {
        positionals: Seq::empty(),
        ru_voice: "denis"@,
        output: None,
        text_only: false,
        interactive: false,
    }
}

/// The arguments from what was read: at most one output mode, then an id
/// list, a delay in seconds and an optional clause number.
pub open spec fn finish_play_args(scanned: Result<ArgsScan, Seq<char>>) -> Result<
    ArgsModel,
    Seq<char>,
> {
    match scanned {
        Err(m) => Err(m),
        Ok(s) => if mode_count(s) > 1 {
            Err("--output, --text-only, and --interactive are mutually exclusive"@)
        } else if s.positionals.len() < 2 || s.positionals.len() > 3 {
            Err(
                "expected 2 or 3 positional arguments (id, delay, [clause]), got "@ + decimal_seq(
                    s.positionals.len(),
                ),
            )
        } else {
            match parse_int_seq(s.positionals[1], u64::MAX as nat) {
                Err(_) => Err("invalid delay: "@ + debug_text(s.positionals[1])),
                Ok(delay) => if s.positionals.len() == 3 {
                    match parse_int_seq(s.positionals[2], usize::MAX as nat) {
                        Err(_) => Err("invalid clause: "@ + debug_text(s.positionals[2])),
                        Ok(clause) => Ok(
                            ArgsModel {
                                id: s.positionals[0],
                                delay: delay as u64,
                                clause: Some(clause as usize),
                                ru_voice: s.ru_voice,
                                output: s.output,
                                text_only: s.text_only,
                                interactive: s.interactive,
                            },
                        ),
                    }
                } else {
                    Ok(
                        ArgsModel {
                            id: s.positionals[0],
                            delay: delay as u64,
                            clause: None,
                            ru_voice: s.ru_voice,
                            output: s.output,
                            text_only: s.text_only,
                            interactive: s.interactive,
                        },
                    )
                },
            }
        },
    }
}

/// The arguments of `play` (see [`scan_play_args`] and [`finish_play_args`]).
pub open spec fn play_args(args: Seq<Seq<char>>) -> Result<ArgsModel, Seq<char>> {
    finish_play_args(scan_play_args(args, 0, initial_scan()))
}

/// Reads `play`'s arguments (see [`play_args`]).
pub fn parse_args(args: &[String]) -> (r: Result<ParsedArgs, String>)
    ensures
        match play_args(arg_texts(args@)) {
            Ok(m) => r matches Ok(p) && p@ == m,
            Err(msg) => r matches Err(e) && e@ == msg,
        },
{
    let ghost texts = arg_texts(args@);
    let mut positionals: Vec<String> = Vec::new();
    let mut ru_voice = "denis".to_owned();
    let mut output: Option<String> = None;
    let mut text_only = false;
    let mut interactive = false;
    let ghost init = initial_scan();
    let mut i: usize = 0;
    assert(arg_texts(positionals@) =~= Seq::<Seq<char>>::empty());
    while i < args.len()
        invariant
            texts == arg_texts(args@),
            texts.len() == args@.len(),
            i <= args@.len(),
            init == initial_scan(),
            scan_play_args(
                texts,
                i as int,
                ArgsScan {
                    positionals: arg_texts(positionals@),
                    ru_voice: ru_voice@,
                    output: crate::say::opt_view(output),
                    text_only,
                    interactive,
                },
            ) == scan_play_args(texts, 0, init),
        decreases args@.len() - i,
    {
        let arg = args[i].as_str();
        assert(texts[i as int] == arg@);
        if str_eq(arg, "--ru-voice") {
            if i + 1 >= args.len() {
                return Err("--ru-voice requires a value".to_owned());
            }
            let value = args[i + 1].as_str();
            assert(texts[i + 1] == value@);
            if !str_eq(value, "irina") && !str_eq(value, "denis") {
                let mut m = "invalid choice for --ru-voice: ".to_owned();
                m.append(debug_quote(value).as_str());
                m.append(" (choose from \"irina\", \"denis\")");
                return Err(m);
            }
            ru_voice = value.to_owned();
            i = i + 2;
        } else if str_eq(arg, "-o") || str_eq(arg, "--output") {
            if i + 1 >= args.len() {
                return Err("--output requires a value".to_owned());
            }
            let value = args[i + 1].as_str();
            assert(texts[i + 1] == value@);
            output = Some(value.to_owned());
            i = i + 2;
        } else if str_eq(arg, "-t") || str_eq(arg, "--text-only") {
            text_only = true;
            i = i + 1;
        } else if str_eq(arg, "-i") || str_eq(arg, "--interactive") {
            interactive = true;
            i = i + 1;
        } else if starts_with_char(arg, '-') && !str_eq(arg, "-") {
            let mut m = "unexpected argument: ".to_owned();
            m.append(debug_quote(arg).as_str());
            return Err(m);
        } else {
            let ghost before = positionals@;
            positionals.push(arg.to_owned());
            assert(arg_texts(positionals@) =~= arg_texts(before).push(arg@));
            i = i + 1;
        }
    }
    let ghost scan = ArgsScan {
        positionals: arg_texts(positionals@),
        ru_voice: ru_voice@,
        output: crate::say::opt_view(output),
        text_only,
        interactive,
    };
    let mut count: usize = 0;
    if output.is_some() {
        count = count + 1;
    }
    if text_only {
        count = count + 1;
    }
    if interactive {
        count = count + 1;
    }
    if count > 1 {
        return Err("--output, --text-only, and --interactive are mutually exclusive".to_owned());
    }
    if positionals.len() < 2 || positionals.len() > 3 {
        let mut m = "expected 2 or 3 positional arguments (id, delay, [clause]), got ".to_owned();
        push_decimal(&mut m, positionals.len() as u64);
        return Err(m);
    }
    assert(scan.positionals[1] == positionals@[1]@);
    let delay = match parse_u64(positionals[1].as_str()) {
        Ok(d) => d,
        Err(_) => {
            let mut m = "invalid delay: ".to_owned();
            m.append(debug_quote(positionals[1].as_str()).as_str());
            return Err(m);
        },
    };
    let clause = if positionals.len() == 3 {
        assert(scan.positionals[2] == positionals@[2]@);
        match parse_usize(positionals[2].as_str()) {
            Ok(c) => Some(c),
            Err(_) => {
                let mut m = "invalid clause: ".to_owned();
                m.append(debug_quote(positionals[2].as_str()).as_str());
                return Err(m);
            },
        }
    } else {
        None
    };
    assert(scan.positionals[0] == positionals@[0]@);
    let id = positionals[0].clone();
    Ok(ParsedArgs { id, delay, clause, ru_voice, output, text_only, interactive })
}

/// One step of playing a sentence pair.
#[derive(Debug, Clone, Copy, PartialEq, Eq, Structural)]
pub enum Step {
    /// Print the English text, and say it when `speak` is set.
    En { speak: bool },
    /// Print the Russian text, and say it in the chosen voice when `speak`
    /// is set.
    Ru { speak: bool },
    /// Wait this many seconds.
    Wait(u64),
    /// Wait for a key.
    WaitKey,
    /// Wait for a key; `r` says the Russian text again and waits anew.
    WaitKeyOrReplay,
}

/// What `play` does with the ids: render them to an mp3 file, or take
/// each id through the same steps.
#[derive(Debug)]
pub enum Mode {
    Render(String),
    Steps(Vec<Step>),
}

/// The steps for each id: text only prints both texts; interactive says
/// them with a key press after each (`r` replays the Russian); otherwise
/// each is said and followed by the delay.
pub open spec fn steps_for(text_only: bool, interactive: bool, delay: u64) -> Seq<Step> {
    if text_only {
        seq![Step::En { speak: false }, Step::Ru { speak: false }]
    } else if interactive {
        seq![Step::En { speak: true }, Step::WaitKey, Step::Ru { speak: true }, Step::WaitKeyOrReplay]
    } else {
        seq![Step::En { speak: true }, Step::Wait(delay), Step::Ru { speak: true }, Step::Wait(delay)]
    }
}

/// The ids to play and what to do with them: the id list must parse; an
/// output file means rendering, which takes precedence over the other
/// modes.
pub fn plan_run(parsed: &ParsedArgs) -> (r: Result<(Vec<u64>, Mode), PlayError>)
    ensures
        match id_list(parsed.id@) {
            Err(f) => r matches Err(PlayError::IdList(e)) && e@ == f,
            Ok(ids) => r matches Ok((v, m)) && v@ == ids && match parsed.output {
                Some(o) => m matches Mode::Render(x) && x@ == o@,
                None => m matches Mode::Steps(st) && st@ == steps_for(
                    parsed.text_only,
                    parsed.interactive,
                    parsed.delay,
                ),
            },
        },
{
    let ids = match parse_id_list(parsed.id.as_str()) {
        Ok(ids) => ids,
        Err(e) => {
            return Err(PlayError::IdList(e));
        },
    };
    if let Some(output) = &parsed.output {
        return Ok((ids, Mode::Render(output.clone())));
    }
    let mut steps: Vec<Step> = Vec::new();
    if parsed.text_only {
        steps.push(Step::En { speak: false });
        steps.push(Step::Ru { speak: false });
    } else if parsed.interactive {
        steps.push(Step::En { speak: true });
        steps.push(Step::WaitKey);
        steps.push(Step::Ru { speak: true });
        steps.push(Step::WaitKeyOrReplay);
    } else {
        steps.push(Step::En { speak: true });
        steps.push(Step::Wait(parsed.delay));
        steps.push(Step::Ru { speak: true });
        steps.push(Step::Wait(parsed.delay));
    }
    assert(steps@ =~= steps_for(parsed.text_only, parsed.interactive, parsed.delay));
    Ok((ids, Mode::Steps(steps)))
}

proof fn lemma_scan_reads_from_i_on(a: Seq<Seq<char>>, b: Seq<Seq<char>>, i: int, read: ArgsScan)
    requires
        a.len() == b.len(),
        forall|j: int| i <= j < a.len() ==> a[j] == b[j],
    ensures
        scan_play_args(a, i, read) == scan_play_args(b, i, read),
    decreases a.len() - i,
{
    if 0 <= i < a.len() {
        let x = a[i];
        if x == "--ru-voice"@ || x == "-o"@ || x == "--output"@ {
            if i + 1 < a.len() {
                assert(a[i + 1] == b[i + 1]);
                let v = a[i + 1];
                lemma_scan_reads_from_i_on(a, b, i + 2, ArgsScan { ru_voice: v, ..read });
                lemma_scan_reads_from_i_on(a, b, i + 2, ArgsScan { output: Some(v), ..read });
            }
        } else {
            lemma_scan_reads_from_i_on(a, b, i + 1, ArgsScan { text_only: true, ..read });
            lemma_scan_reads_from_i_on(a, b, i + 1, ArgsScan { interactive: true, ..read });
            lemma_scan_reads_from_i_on(
                a,
                b,
                i + 1,
                ArgsScan { positionals: read.positionals.push(x), ..read },
            );
        }
    }
}

/// The long form of a flag.
pub open spec fn long_flag(short: Seq<char>) -> Seq<char> {
    if short == "-t"@ {
        "--text-only"@
    } else if short == "-i"@ {
        "--interactive"@
    } else {
        "--output"@
    }
}

proof fn lemma_long_flag_scan(args: Seq<Seq<char>>, i: int, read: ArgsScan, short: Seq<char>)
    requires
        short == "-t"@ || short == "-i"@ || short == "-o"@,
        0 <= i < args.len(),
        args[i] == short,
    ensures
        scan_play_args(args.update(i, long_flag(short)), i, read) == scan_play_args(args, i, read),
{
    reveal_strlit("-t");
    reveal_strlit("-i");
    reveal_strlit("-o");
    reveal_strlit("--text-only");
    reveal_strlit("--interactive");
    reveal_strlit("--output");
    reveal_strlit("--ru-voice");
    let long = long_flag(short);
    let b = args.update(i, long);
    assert(b[i] == long);
    assert(short.len() == 2);
    assert(long.len() > 2);
    assert(long != "--ru-voice"@) by {
        if short == "-t"@ {
            assert(long[2] != "--ru-voice"@[2]);
        } else if short == "-i"@ {
            assert(long[2] != "--ru-voice"@[2]);
        } else {
            assert(long[2] != "--ru-voice"@[2]);
        }
    }
    assert(short != "--ru-voice"@);
    assert("-t"@[1] != "-o"@[1]);
    assert("-i"@[1] != "-o"@[1]);
    assert("-i"@[1] != "-t"@[1]);
    if short == "-t"@ {
        assert(short != "-o"@ && short != "--output"@);
        assert(long != "-o"@ && long != "--output"@) by {
            assert(long[2] != "--output"@[2]);
        }
        lemma_scan_reads_from_i_on(b, args, i + 1, ArgsScan { text_only: true, ..read });
    } else if short == "-i"@ {
        assert(short != "-o"@ && short != "--output"@ && short != "-t"@);
        assert(long != "-o"@ && long != "--output"@ && long != "--text-only"@) by {
            assert(long[2] != "--output"@[2]);
            assert(long[2] != "--text-only"@[2]);
        }
        lemma_scan_reads_from_i_on(b, args, i + 1, ArgsScan { interactive: true, ..read });
    } else {
        if i + 1 < args.len() {
            assert(b[i + 1] == args[i + 1]);
            lemma_scan_reads_from_i_on(
                b,
                args,
                i + 2,
                ArgsScan { output: Some(args[i + 1]), ..read },
            );
        }
    }
}

/// Each long flag does what its short form does: wherever the arguments
/// are read as flags, writing `--text-only` for `-t`, `--interactive` for
/// `-i` or `--output` for `-o` gives the same result; in particular, as
/// the first argument, the same parse.
pub proof fn law_long_flags_are_their_short_forms(
    args: Seq<Seq<char>>,
    i: int,
    read: ArgsScan,
    short: Seq<char>,
)
    requires
        short == "-t"@ || short == "-i"@ || short == "-o"@,
        0 <= i < args.len(),
        args[i] == short,
    ensures
        scan_play_args(args.update(i, long_flag(short)), i, read) == scan_play_args(args, i, read),
        i == 0 ==> play_args(args.update(0, long_flag(short))) == play_args(args),
{
    lemma_long_flag_scan(args, i, read, short);
    lemma_long_flag_scan(args, i, initial_scan(), short);
}

/// `--ru-voice` takes exactly the Russian voices the speaker has: where
/// the arguments are read as flags, `--ru-voice V` sets the Russian voice
/// to `V` and reading goes on after it when `V` is a Russian voice, and the
/// arguments are refused when it is not.
pub proof fn law_ru_voice_takes_every_russian_voice(
    home: Seq<char>,
    args: Seq<Seq<char>>,
    i: int,
    read: ArgsScan,
)
    requires
        0 <= i,
        i + 1 < args.len(),
        args[i] == "--ru-voice"@,
    ensures
        crate::say::named_voice(home, "ru"@, args[i + 1]) is Some ==> scan_play_args(args, i, read)
            == scan_play_args(args, i + 2, ArgsScan { ru_voice: args[i + 1], ..read }),
        crate::say::named_voice(home, "ru"@, args[i + 1]) is None ==> scan_play_args(args, i, read) is Err,
{
    reveal_strlit("ru");
    reveal_strlit("en");
    assert("ru"@[0] != "en"@[0]);
}

} // verus!
