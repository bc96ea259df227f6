use my_cli::say::{
    aplay_args, ffmpeg_args, get_voice_spec, language_spec, parse_flags,
    piper_args, validate_paths, voice_spec, SayError, VoiceSpec,
};

fn args(list: &[&str]) -> Vec<String> {
    list.iter().map(|s| s.to_string()).collect()
}

#[test]
fn language_spec_supports_en_and_ru() {
    let home = "/home/test";
    assert!(language_spec(home, "en").is_some());
    assert!(language_spec(home, "ru").is_some());
    assert!(language_spec(home, "fr").is_none());
}

#[test]
fn voice_spec_ru_named_voices() {
    let home = "/home/test";
    assert!(voice_spec(home, "ru", "irina").is_some());
    assert_eq!(voice_spec(home, "ru", "denis"), language_spec(home, "ru"));
    assert!(voice_spec(home, "ru", "unknown").is_none());
    assert!(voice_spec(home, "en", "irina").is_none());
}

#[test]
fn voice_spec_irina_resolves_to_its_own_model_files() {
    let home = "/home/test";
    let spec = voice_spec(home, "ru", "irina").unwrap();
    assert_eq!(
        spec.model,
        "/home/test/.local/share/piper-voices/ru/ru_RU/irina/medium/ru_RU-irina-medium.onnx"
    );
    assert_eq!(
        spec.model_config,
        "/home/test/.local/share/piper-voices/ru/ru_RU/irina/medium/ru_RU-irina-medium.onnx.json"
    );
    assert_ne!(spec, language_spec(home, "ru").unwrap());
}

#[test]
fn language_defaults_are_amy_and_denis() {
    let en = language_spec("/home/test/", "en").unwrap();
    assert_eq!(
        en.model,
        "/home/test/.local/share/piper-voices/en/en_US/amy/medium/en_US-amy-medium.onnx"
    );
    let ru = language_spec("/home/test", "ru").unwrap();
    assert_eq!(
        ru.model_config,
        "/home/test/.local/share/piper-voices/ru/ru_RU/denis/medium/ru_RU-denis-medium.onnx.json"
    );
}

#[test]
fn get_voice_spec_falls_back_to_language_default() {
    let home = "/home/test";
    assert_eq!(get_voice_spec(home, "en", None).unwrap(), language_spec(home, "en").unwrap());
}

#[test]
fn get_voice_spec_rejects_unsupported_language() {
    let home = "/home/test";
    assert!(get_voice_spec(home, "fr", None).is_err());
}

#[test]
fn get_voice_spec_rejects_unsupported_voice_even_for_supported_language() {
    let home = "/home/test";
    let err = get_voice_spec(home, "en", Some("irina")).unwrap_err().to_string();
    assert!(err.contains("en"), "error message was: {err}");
    assert!(err.contains("irina"), "error message was: {err}");
}

#[test]
fn get_voice_spec_uses_named_voice_when_given() {
    let home = "/home/test";
    assert_eq!(
        get_voice_spec(home, "ru", Some("irina")).unwrap(),
        voice_spec(home, "ru", "irina").unwrap()
    );
}

#[test]
fn get_voice_spec_error_variants_and_messages() {
    let home = "/home/test";
    let err = get_voice_spec(home, "fr", None).unwrap_err();
    assert!(matches!(err, SayError::UnsupportedLanguage(ref l) if l == "fr"));
    assert_eq!(err.to_string(), "Unsupported language: fr");
    let err = get_voice_spec(home, "en", Some("irina")).unwrap_err();
    assert_eq!(err.to_string(), "Unsupported voice for en: irina");
    let err = get_voice_spec(home, "fr", Some("denis")).unwrap_err();
    assert!(matches!(err, SayError::UnsupportedVoice { .. }));
}

#[test]
fn validate_paths_ok_when_files_exist() {
    // The root directory exists on every host this runs on.
    let spec = VoiceSpec { model: "/".to_string(), model_config: "/".to_string() };
    assert_eq!(validate_paths(spec.clone()).unwrap(), spec);
}

#[test]
fn validate_paths_errors_on_missing_model() {
    let spec = VoiceSpec {
        model: "/nonexistent/say-test/model.onnx".to_string(),
        model_config: "/nonexistent/say-test/model.onnx.json".to_string(),
    };
    let err = validate_paths(spec).unwrap_err().to_string();
    assert!(err.starts_with("Model not found"), "error message was: {err}");
}

#[test]
fn validate_paths_errors_on_missing_config_even_if_model_exists() {
    let spec = VoiceSpec {
        model: "/".to_string(),
        model_config: "/nonexistent/say-test/model2.onnx.json".to_string(),
    };
    let err = validate_paths(spec).unwrap_err().to_string();
    assert!(err.starts_with("Model config not found"), "error message was: {err}");
}

#[test]
fn program_arguments_are_exact() {
    let spec = VoiceSpec { model: "m.onnx".to_string(), model_config: "m.onnx.json".to_string() };
    assert_eq!(piper_args(&spec), args(&["-m", "m.onnx", "-c", "m.onnx.json", "--output-raw"]));
    assert_eq!(aplay_args(), args(&["-q", "-c", "1", "-r", "22050", "-f", "S16_LE", "-t", "raw"]));
    assert_eq!(
        ffmpeg_args("out.mp3"),
        args(&[
            "-y", "-hide_banner", "-loglevel", "error", "-f", "s16le", "-ar", "22050", "-ac", "1",
            "-i", "-", "out.mp3"
        ])
    );
}

#[test]
fn parse_flags_defaults_to_en_with_no_lang_flag() {
    let flags = parse_flags(&args(&["hello"])).unwrap();
    assert_eq!(flags.lang, "en");
    assert_eq!(flags.voice, None);
    assert_eq!(flags.text_arg.as_deref(), Some("hello"));
}

#[test]
fn parse_flags_accepts_short_and_long_lang_flag() {
    let flags = parse_flags(&args(&["-l", "ru", "привет"])).unwrap();
    assert_eq!(flags.lang, "ru");
    assert_eq!(flags.text_arg.as_deref(), Some("привет"));

    let flags = parse_flags(&args(&["--lang", "ru"])).unwrap();
    assert_eq!(flags.lang, "ru");
    assert_eq!(flags.text_arg, None);
}

#[test]
fn parse_flags_rejects_invalid_lang_choice() {
    assert!(parse_flags(&args(&["-l", "fr"])).is_err());
}

#[test]
fn parse_flags_rejects_missing_lang_value() {
    assert!(parse_flags(&args(&["-l"])).is_err());
}

#[test]
fn parse_flags_accepts_short_and_long_voice_flag() {
    let flags = parse_flags(&args(&["-v", "irina", "hi"])).unwrap();
    assert_eq!(flags.voice.as_deref(), Some("irina"));
    assert_eq!(flags.text_arg.as_deref(), Some("hi"));

    let flags = parse_flags(&args(&["--voice", "irina"])).unwrap();
    assert_eq!(flags.voice.as_deref(), Some("irina"));
}

#[test]
fn parse_flags_combines_lang_and_voice_flags() {
    let flags = parse_flags(&args(&["-l", "ru", "-v", "irina", "привет"])).unwrap();
    assert_eq!(flags.lang, "ru");
    assert_eq!(flags.voice.as_deref(), Some("irina"));
    assert_eq!(flags.text_arg.as_deref(), Some("привет"));
}

#[test]
fn parse_flags_rejects_missing_voice_value() {
    assert!(parse_flags(&args(&["-v"])).is_err());
}

#[test]
fn parse_flags_rejects_second_positional_argument() {
    assert!(parse_flags(&args(&["one", "two"])).is_err());
}

#[test]
fn parse_flags_allows_missing_text_argument() {
    let flags = parse_flags(&[]).unwrap();
    assert_eq!(flags.lang, "en");
    assert_eq!(flags.voice, None);
    assert_eq!(flags.text_arg, None);
}

#[test]
fn every_voice_is_an_onnx_model_with_a_json_config_beside_it() {
    for (lang, voice) in [("en", None), ("ru", None), ("ru", Some("irina")), ("ru", Some("denis"))] {
        let spec = get_voice_spec("/h", lang, voice).unwrap();
        assert!(spec.model.starts_with("/h/.local/share/piper-voices/"));
        assert!(spec.model.ends_with(".onnx"));
        assert_eq!(spec.model_config, format!("{}.json", spec.model));
    }
}
