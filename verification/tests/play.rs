use my_cli::db::sentence_pairs::SentencePair;
use my_cli::play::lang::{
    load_pair, nth_clause, render_en, render_ru, select_en_text, select_ru_text, split_clauses,
};
use my_cli::play::wait::{key_step, wait_prompt, KeyStep};
use my_cli::play::{check_mp3_output, parse_args, plan_run, Mode, PlayError, Step};

fn pair(id: u64, ru: &str, ipa: &str, en: &str, words: &str) -> SentencePair {
    SentencePair {
        id,
        ru: ru.to_string(),
        ipa: ipa.to_string(),
        en: en.to_string(),
        words: words.to_string(),
    }
}

/// A small stand-in for the bundled dataset, whose first record is id 1.
fn dataset() -> Vec<SentencePair> {
    vec![
        pair(
            1,
            "Я вижу кошку, и она спит.",
            "[ja ˈvʲiʐʊ ˈkoʂkʊ i ɐˈna spʲit]",
            "I see a cat, and it is sleeping.",
            "I - я, see - вижу, cat - кошку",
        ),
        pair(2, "мир", "[mʲir]", "world", "world"),
    ]
}

fn args(list: &[&str]) -> Vec<String> {
    list.iter().map(|s| s.to_string()).collect()
}

#[test]
fn split_clauses_collapses_consecutive_delimiters() {
    assert_eq!(split_clauses("a, b.. c"), vec!["a", " b", " c"]);
}

#[test]
fn split_clauses_keeps_leading_and_trailing_empty_pieces() {
    assert_eq!(split_clauses(",a-"), vec!["", "a", ""]);
}

#[test]
fn split_clauses_without_delimiters_is_one_piece() {
    assert_eq!(split_clauses(""), vec![""]);
    assert_eq!(split_clauses("no delimiters"), vec!["no delimiters"]);
    assert_eq!(split_clauses("a;-;b"), vec!["a", "b"]);
}

#[test]
fn nth_clause_trims_and_is_one_based() {
    assert_eq!(nth_clause("a, b, c", 2).unwrap(), "b");
}

#[test]
fn nth_clause_rejects_zero() {
    assert!(matches!(
        nth_clause("a, b", 0),
        Err(PlayError::ClauseOutOfRange { clause: 0, available: 2 })
    ));
}

#[test]
fn nth_clause_rejects_out_of_range() {
    assert!(matches!(
        nth_clause("a, b", 3),
        Err(PlayError::ClauseOutOfRange { clause: 3, available: 2 })
    ));
}

#[test]
fn clause_error_message_counts_clauses() {
    let err = nth_clause("a, b", 3).unwrap_err();
    assert_eq!(err.to_string(), "clause 3 out of range (sentence has 2 clause(s))");
}

#[test]
fn load_pair_errors_for_unknown_id() {
    let pairs = dataset();
    assert!(matches!(load_pair(&pairs, u64::MAX), Err(PlayError::PairNotFound(id)) if id == u64::MAX));
    assert_eq!(
        load_pair(&pairs, 999).unwrap_err().to_string(),
        "no sentence pair with id 999"
    );
}

#[test]
fn load_pair_finds_bundled_id_one() {
    let pairs = dataset();
    assert!(load_pair(&pairs, 1).is_ok());
}

#[test]
fn load_pair_takes_the_first_record_with_the_id() {
    let mut pairs = dataset();
    pairs.push(pair(1, "второй", "", "second", "second"));
    assert_eq!(load_pair(&pairs, 1).unwrap().en, "I see a cat, and it is sleeping.");
}

#[test]
fn select_en_text_without_clause_returns_full_sentence() {
    let pairs = dataset();
    let pair = load_pair(&pairs, 1).unwrap();
    assert_eq!(select_en_text(pair, None).unwrap(), pair.en);
}

#[test]
fn select_texts_take_clauses_from_words_and_from_ru() {
    let pairs = dataset();
    let pair = load_pair(&pairs, 1).unwrap();
    assert_eq!(select_en_text(pair, Some(2)).unwrap(), "я");
    assert_eq!(select_ru_text(pair, Some(2)).unwrap(), "и она спит");
    assert_eq!(select_ru_text(pair, None).unwrap(), pair.ru);
}

#[test]
fn render_en_prefixes_lead_in_silence() {
    let pairs = dataset();
    assert!(matches!(render_en(&pairs, u64::MAX, None), Err(PlayError::PairNotFound(_))));
}

#[test]
fn render_texts_follow_the_selected_pair() {
    let pairs = dataset();
    assert_eq!(render_en(&pairs, 2, None).unwrap(), "world");
    assert_eq!(render_ru(&pairs, 1, Some(1)).unwrap(), "Я вижу кошку");
    assert!(matches!(
        render_ru(&pairs, 2, Some(5)),
        Err(PlayError::ClauseOutOfRange { clause: 5, available: 1 })
    ));
}

#[test]
fn parse_args_defaults_ru_voice_to_denis_with_no_flags() {
    let parsed = parse_args(&args(&["1", "2"])).unwrap();
    assert_eq!(parsed.id, "1");
    assert_eq!(parsed.delay, 2);
    assert_eq!(parsed.clause, None);
    assert_eq!(parsed.ru_voice, "denis");
    assert_eq!(parsed.output, None);
    assert!(!parsed.text_only);
    assert!(!parsed.interactive);
}

#[test]
fn parse_args_accepts_optional_clause_positional() {
    let parsed = parse_args(&args(&["1", "2", "3"])).unwrap();
    assert_eq!(parsed.clause, Some(3));
}

#[test]
fn parse_args_rejects_invalid_ru_voice_choice() {
    let err = parse_args(&args(&["--ru-voice", "amy", "1", "2"])).unwrap_err();
    assert!(err.contains("amy"), "error message was: {err}");
}

#[test]
fn parse_args_rejects_multiple_output_modes() {
    let err = parse_args(&args(&["1", "2", "-t", "-i"])).unwrap_err();
    assert!(err.contains("mutually exclusive"), "error message was: {err}");
}

#[test]
fn parse_args_rejects_wrong_positional_count() {
    assert!(parse_args(&args(&["1"])).is_err());
    assert!(parse_args(&args(&["1", "2", "3", "4"])).is_err());
}

#[test]
fn parse_args_rejects_non_numeric_delay() {
    assert!(parse_args(&args(&["1", "soon"])).is_err());
}

#[test]
fn parse_args_messages_are_exact() {
    assert_eq!(
        parse_args(&args(&["1"])).unwrap_err(),
        "expected 2 or 3 positional arguments (id, delay, [clause]), got 1"
    );
    assert_eq!(parse_args(&args(&["1", "soon"])).unwrap_err(), "invalid delay: \"soon\"");
    assert_eq!(parse_args(&args(&["1", "2", "x"])).unwrap_err(), "invalid clause: \"x\"");
    assert_eq!(parse_args(&args(&["1", "2", "--x"])).unwrap_err(), "unexpected argument: \"--x\"");
    assert_eq!(parse_args(&args(&["1", "2", "-o"])).unwrap_err(), "--output requires a value");
    let parsed = parse_args(&args(&["--ru-voice", "irina", "1-3", "0", "-o", "a.mp3"])).unwrap();
    assert_eq!(parsed.ru_voice, "irina");
    assert_eq!(parsed.output.as_deref(), Some("a.mp3"));
}

#[test]
fn mod_render_to_mp3_rejects_output_not_ending_in_mp3() {
    let err = check_mp3_output("out.wav").unwrap_err();
    assert!(matches!(err, PlayError::InvalidOutputExtension(_)));
    assert_eq!(err.to_string(), "output path must end with .mp3: out.wav");
    assert!(check_mp3_output("out.mp3").is_ok());
}

#[test]
fn plan_run_picks_the_mode_and_steps() {
    let parsed = parse_args(&args(&["1,3", "2", "-t"])).unwrap();
    let (ids, mode) = plan_run(&parsed).unwrap();
    assert_eq!(ids, vec![1, 3]);
    assert!(matches!(mode, Mode::Steps(ref s)
        if s == &vec![Step::En { speak: false }, Step::Ru { speak: false }]));

    let parsed = parse_args(&args(&["2-3", "4"])).unwrap();
    let (ids, mode) = plan_run(&parsed).unwrap();
    assert_eq!(ids, vec![2, 3]);
    assert!(matches!(mode, Mode::Steps(ref s) if s == &vec![
        Step::En { speak: true },
        Step::Wait(4),
        Step::Ru { speak: true },
        Step::Wait(4)
    ]));

    let parsed = parse_args(&args(&["1", "0", "-i"])).unwrap();
    let (_, mode) = plan_run(&parsed).unwrap();
    assert!(matches!(mode, Mode::Steps(ref s) if s == &vec![
        Step::En { speak: true },
        Step::WaitKey,
        Step::Ru { speak: true },
        Step::WaitKeyOrReplay
    ]));

    let parsed = parse_args(&args(&["1", "0", "-o", "x.mp3"])).unwrap();
    let (_, mode) = plan_run(&parsed).unwrap();
    assert!(matches!(mode, Mode::Render(ref o) if o == "x.mp3"));

    let parsed = parse_args(&args(&["8-5", "0"])).unwrap();
    let err = plan_run(&parsed).unwrap_err();
    assert!(matches!(err, PlayError::IdList(_)));
    assert_eq!(err.to_string(), "invalid range \"8-5\": start 8 is greater than end 5");
}

#[test]
fn key_steps_and_prompts() {
    assert_eq!(key_step('r', Some('r'), true), KeyStep::Replay);
    assert_eq!(key_step(' ', Some('r'), true), KeyStep::Continue);
    assert_eq!(key_step('x', Some('r'), true), KeyStep::Ignore);
    assert_eq!(key_step('r', Some('r'), false), KeyStep::Ignore);
    assert_eq!(key_step('r', None, false), KeyStep::Ignore);
    assert_eq!(wait_prompt(Some('r')), "[space] continue, [r] replay");
    assert_eq!(wait_prompt(None), "[space] continue");
}

#[test]
fn clauses_and_delimiter_runs_rebuild_the_text() {
    let text = "-a, b.. c;";
    let pieces = split_clauses(text);
    assert_eq!(pieces, vec!["", "a", " b", " c", ""]);
    let runs = ["-", ",", "..", ";"];
    let mut rebuilt = pieces[0].to_string();
    for (run, piece) in runs.iter().zip(&pieces[1..]) {
        rebuilt.push_str(run);
        rebuilt.push_str(piece);
    }
    assert_eq!(rebuilt, text);
}

#[test]
fn a_key_sequence_replays_once_per_repeat_key() {
    let keys = ['x', 'r', 'q', 'r', ' ', 'r'];
    let mut replays = 0;
    for &k in &keys {
        match key_step(k, Some('r'), true) {
            KeyStep::Continue => break,
            KeyStep::Replay => replays += 1,
            KeyStep::Ignore => {}
        }
    }
    assert_eq!(replays, 2);
}
