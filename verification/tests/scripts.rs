use my_cli::scripts::json::{float_literal_ok, parse_json_value, Json};
use my_cli::scripts::make_ru_mp3::{
    check_output, find_voice_files, load_ru_sentences, parse_args as render_args,
    parse_id_list, sentence_ids, text_for_id, voice_model_paths,
};
use my_cli::scripts::setup_piper_voices::{
    all_present, check_voice_files, package_for, parse_args as setup_args, report_lines,
    system_tools, tools_to_install, voice_file_url, voice_files, voice_status, voices_root,
};

/// A small stand-in for the bundled dataset, whose first record is id 1.
const SAMPLE_DATASET: &str = r#"[
    {"id": 1, "ru": "Я вижу кошку.", "ipa": "[ja ˈvʲiʐʊ ˈkoʂkʊ]", "en": "I see a cat.", "words": "I - я"},
    {"id": 2, "ru": "мир", "ipa": "[mʲir]", "en": "world", "words": "world"}
]"#;

/// The id as the renderer uses it: the number literal read as a float,
/// then cut to an unsigned integer.
fn numeric_ids(records: Vec<(String, String)>) -> Vec<(u64, String)> {
    records
        .into_iter()
        .map(|(id, ru)| (id.parse::<f64>().unwrap() as u64, ru))
        .collect()
}

fn args(list: &[&str]) -> Vec<String> {
    list.iter().map(|s| s.to_string()).collect()
}

#[test]
fn parse_value_reads_flat_object_array() {
    let json = r#"[{"id": 1, "ru": "привет", "ipa": "x", "en": "hi", "words": "hi"}]"#;
    let sentences = numeric_ids(load_ru_sentences(json).unwrap());
    assert_eq!(sentences, vec![(1, "привет".to_string())]);
}

#[test]
fn load_ru_sentences_preserves_file_order() {
    let json = r#"[{"id": 5, "ru": "a"}, {"id": 2, "ru": "b"}]"#;
    let sentences = numeric_ids(load_ru_sentences(json).unwrap());
    assert_eq!(sentences, vec![(5, "a".to_string()), (2, "b".to_string())]);
}

#[test]
fn load_ru_sentences_handles_escaped_quotes_and_unicode_escapes() {
    let json = r#"[{"id": 1, "ru": "say \"hi\" A"}]"#;
    let sentences = load_ru_sentences(json).unwrap();
    assert_eq!(sentences[0].1, "say \"hi\" A");
}

#[test]
fn load_ru_sentences_errors_on_missing_field() {
    assert!(load_ru_sentences(r#"[{"id": 1}]"#).is_err());
}

#[test]
fn bundled_dataset_parses_and_is_non_empty() {
    let sentences = numeric_ids(load_ru_sentences(SAMPLE_DATASET).unwrap());
    assert!(!sentences.is_empty());
    assert!(sentences.iter().any(|(id, _)| *id == 1));
}

#[test]
fn load_ru_sentences_errors_are_worded_as_the_renderer_reports_them() {
    assert_eq!(
        load_ru_sentences(r#"{"id": 1}"#).unwrap_err(),
        "expected the dataset to be a JSON array"
    );
    assert_eq!(
        load_ru_sentences(r#"[1]"#).unwrap_err(),
        "expected each dataset record to be a JSON object"
    );
    assert_eq!(
        load_ru_sentences(r#"[{"id": "1", "ru": "a"}]"#).unwrap_err(),
        "dataset record missing \"id\" or \"ru\" field"
    );
    assert_eq!(load_ru_sentences("").unwrap_err(), "unexpected token: None");
    assert_eq!(load_ru_sentences("[1 2]").unwrap_err(), "expected ',' or ']', got Some((3, '2'))");
    assert_eq!(load_ru_sentences(r#"[{"id" 1}]"#).unwrap_err(), "expected ':', got Some((7, '1'))");
    assert_eq!(load_ru_sentences("[1.2.3]").unwrap_err(), "invalid float literal");
    assert_eq!(load_ru_sentences("[tru]").unwrap_err(), "expected 'e', got Some((4, ']'))");
    assert_eq!(load_ru_sentences("[\"a").unwrap_err(), "unterminated string");
    assert_eq!(load_ru_sentences("[\"\\q\"]").unwrap_err(), "invalid escape: Some((3, 'q'))");
    assert_eq!(
        load_ru_sentences("[\"\\u12g4\"]").unwrap_err(),
        "invalid hex digit in unicode escape"
    );
    assert_eq!(load_ru_sentences("[@]").unwrap_err(), "unexpected token: Some('@')");
}

#[test]
fn load_ru_sentences_takes_the_last_id_and_ru_members() {
    let json = r#"[{"id": 1, "ru": "a", "id": "x", "ru": 5, "id": 7}]"#;
    assert_eq!(load_ru_sentences(json).unwrap(), vec![("7".to_string(), "a".to_string())]);
}

#[test]
fn json_values_and_escapes() {
    let value = parse_json_value(r#" { "a" : [true, false, null, -1.5e3, "\u0041\n"] , "b": {} } trailing"#)
        .unwrap();
    match value {
        Json::Object(fields) => {
            assert_eq!(fields.len(), 2);
            assert_eq!(fields[0].0, "a");
            match &fields[0].1 {
                Json::Array(items) => {
                    assert_eq!(items.len(), 5);
                    assert!(matches!(items[0], Json::Bool));
                    assert!(matches!(items[2], Json::Null));
                    assert!(matches!(&items[3], Json::Number(t) if t == "-1.5e3"));
                    assert!(matches!(&items[4], Json::Str(t) if t == "A\n"));
                }
                other => panic!("unexpected value: {other:?}"),
            }
            assert!(matches!(&fields[1].1, Json::Object(f) if f.is_empty()));
        }
        other => panic!("unexpected value: {other:?}"),
    }
    assert!(matches!(parse_json_value("\"\\ud800\"").unwrap(), Json::Str(t) if t == "\u{FFFD}"));
}

#[test]
fn float_literals_follow_the_decimal_grammar() {
    for ok in ["1", "-1", "+1", "1.", ".5", "1.5e3", "1E-3", "007"] {
        assert!(float_literal_ok(ok), "{ok} should be accepted");
    }
    for bad in ["", "-", ".", "1e", "1e+", "1.2.3", "--1", "e5", "1-2"] {
        assert!(!float_literal_ok(bad), "{bad} should be refused");
        assert_eq!(bad.parse::<f64>().is_ok(), false, "{bad}");
    }
}

#[test]
fn make_ru_mp3_parse_id_list_mixed_ids_and_ranges() {
    assert_eq!(parse_id_list("1,3,5-8").unwrap(), vec![1, 3, 5, 6, 7, 8]);
}

#[test]
fn make_ru_mp3_parse_id_list_rejects_reversed_range() {
    assert!(parse_id_list("8-5").is_err());
}

#[test]
fn make_ru_mp3_parse_id_list_rejects_oversized_range() {
    assert!(parse_id_list("1-2000000").is_err());
}

#[test]
fn make_ru_mp3_parse_id_list_messages() {
    assert_eq!(
        parse_id_list("8-5").unwrap_err(),
        "invalid range \"8-5\": start 8 is greater than end 5"
    );
    assert_eq!(parse_id_list("x").unwrap_err(), "invalid id \"x\"");
    assert_eq!(parse_id_list("1- x").unwrap_err(), "invalid id \" x\"");
    assert_eq!(
        parse_id_list("1-2000000").unwrap_err(),
        "range \"1-2000000\" spans more than 1000000 ids"
    );
}

#[test]
fn voice_model_paths_denis_and_irina_differ() {
    let home = "/home/test";
    let denis = voice_model_paths(home, "denis").unwrap();
    let irina = voice_model_paths(home, "irina").unwrap();
    assert_ne!(denis, irina);
}

#[test]
fn voice_model_paths_rejects_unknown_voice() {
    assert!(voice_model_paths("/home/test", "amy").is_err());
    assert_eq!(
        voice_model_paths("/home/test", "amy").unwrap_err(),
        "invalid choice for --voice: \"amy\" (choose from \"irina\", \"denis\")"
    );
}

#[test]
fn parse_args_requires_output() {
    assert!(render_args(&[]).is_err());
}

#[test]
fn parse_args_accepts_ids_voice_and_output() {
    let args = render_args(&args(&["1,3", "--voice", "irina", "-o", "out.mp3"])).unwrap();
    assert_eq!(args.ids.as_deref(), Some("1,3"));
    assert_eq!(args.voice, "irina");
    assert_eq!(args.output, "out.mp3");
}

#[test]
fn render_args_defaults_and_refusals() {
    let parsed = render_args(&args(&["--output", "x.mp3"])).unwrap();
    assert_eq!(parsed.ids, None);
    assert_eq!(parsed.voice, "denis");
    assert_eq!(render_args(&args(&["1", "2", "-o", "x.mp3"])).unwrap_err(), "unexpected argument: \"2\"");
    assert_eq!(render_args(&args(&["-o"])).unwrap_err(), "--output requires a value");
    assert_eq!(render_args(&[]).unwrap_err(), "--output is required");
}

#[test]
fn make_ru_mp3_render_to_mp3_rejects_output_not_ending_in_mp3() {
    let err = check_output("out.wav").unwrap_err();
    assert!(err.contains(".mp3"), "error message was: {err}");
    assert!(check_output("out.mp3").is_ok());
}

#[test]
fn sentence_lookup_takes_the_last_record_with_the_id() {
    let sentences = vec![(1, "a".to_string()), (2, "b".to_string()), (1, "c".to_string())];
    assert_eq!(text_for_id(&sentences, 1).unwrap(), "c");
    assert_eq!(text_for_id(&sentences, 9).unwrap_err(), "no sentence pair with id 9");
    assert_eq!(sentence_ids(&sentences), vec![1, 2, 1]);
}

#[test]
fn voice_file_checks_name_the_first_missing_file() {
    assert_eq!(
        find_voice_files("/nonexistent/make-ru-mp3-test", "irina").unwrap_err(),
        "voice file not found: /nonexistent/make-ru-mp3-test/.local/share/piper-voices/ru/ru_RU/irina/medium/ru_RU-irina-medium.onnx (run setup_piper_voices --install)"
    );
    assert_eq!(
        find_voice_files("/nonexistent/make-ru-mp3-test", "amy").unwrap_err(),
        "invalid choice for --voice: \"amy\" (choose from \"irina\", \"denis\")"
    );
}

#[test]
fn parse_args_defaults_to_no_install() {
    assert_eq!(setup_args(&[]), Ok(false));
}

#[test]
fn parse_args_recognizes_install_flag() {
    assert_eq!(setup_args(&["--install".to_string()]), Ok(true));
}

#[test]
fn parse_args_rejects_unknown_argument() {
    assert!(setup_args(&["--bogus".to_string()]).is_err());
}

#[test]
fn package_for_maps_known_tools() {
    assert_eq!(package_for("ffmpeg"), "ffmpeg-free");
    assert_eq!(package_for("aplay"), "alsa-utils");
}

#[test]
fn check_voice_files_reports_all_missing_under_an_empty_root() {
    let root = "/nonexistent/setup-piper-voices-test-root";
    let answers = check_voice_files(root);
    assert_eq!(answers.len(), voice_files().len());
    assert!(answers.iter().all(|answer| !answer.present()));
    let status = voice_status(&answers);
    assert_eq!(
        status[0].0,
        "/nonexistent/setup-piper-voices-test-root/en/en_US/amy/medium/en_US-amy-medium.onnx"
    );
}

#[test]
fn setup_plans_and_reports() {
    assert_eq!(voices_root("/home/u"), "/home/u/.local/share/piper-voices");
    assert_eq!(system_tools(), vec!["ffmpeg", "aplay"]);
    let tools = vec![
        ("ffmpeg".to_string(), Some("/usr/bin/ffmpeg".to_string())),
        ("aplay".to_string(), None),
    ];
    let voices = vec![("/v/a.onnx".to_string(), true), ("/v/b.onnx".to_string(), false)];
    assert_eq!(tools_to_install(&tools), vec![("aplay".to_string(), "alsa-utils".to_string())]);
    assert!(!all_present(&voices, &tools));
    assert!(all_present(&voices[..1], &tools[..1]));
    assert_eq!(
        report_lines(&voices, &tools),
        args(&[
            "ok       ffmpeg -> /usr/bin/ffmpeg",
            "MISSING  aplay -> dnf install -y alsa-utils",
            "ok       /v/a.onnx",
            "MISSING  /v/b.onnx",
        ])
    );
    assert_eq!(
        voice_file_url("ru/ru_RU/denis/medium/ru_RU-denis-medium.onnx"),
        "https://huggingface.co/rhasspy/piper-voices/resolve/main/ru/ru_RU/denis/medium/ru_RU-denis-medium.onnx"
    );
    assert_eq!(voice_file_url("a\\b"), "https://huggingface.co/rhasspy/piper-voices/resolve/main/a/b");
}
