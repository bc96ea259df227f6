use my_cli::db::sentence_pairs::{
    cli_args, id_spec_error, missing_ids, missing_warning, parse_id_list, select_pairs,
    IdListError, SentencePair,
};
use my_cli::decimal::IntErrorKind;

fn pair(id: u64, ru: &str, ipa: &str, en: &str, words: &str) -> SentencePair {
    SentencePair {
        id,
        ru: ru.to_string(),
        ipa: ipa.to_string(),
        en: en.to_string(),
        words: words.to_string(),
    }
}

fn sample_pairs() -> Vec<SentencePair> {
    vec![
        pair(1, "привет", "[prʲɪˈvʲet]", "hello", "hello"),
        pair(2, "мир", "[mʲir]", "world", "world"),
    ]
}

#[test]
fn parse_id_list_single_ids() {
    assert_eq!(parse_id_list("1,3,5").unwrap(), vec![1, 3, 5]);
}

#[test]
fn parse_id_list_range() {
    assert_eq!(parse_id_list("5-8").unwrap(), vec![5, 6, 7, 8]);
}

#[test]
fn sentence_pairs_parse_id_list_mixed_ids_and_ranges() {
    assert_eq!(parse_id_list("1,3,5-8").unwrap(), vec![1, 3, 5, 6, 7, 8]);
}

#[test]
fn parse_id_list_single_element_range() {
    assert_eq!(parse_id_list("4-4").unwrap(), vec![4]);
}

#[test]
fn parse_id_list_ignores_whitespace() {
    assert_eq!(parse_id_list(" 1, 3 , 5 - 8 ").unwrap(), vec![1, 3, 5, 6, 7, 8]);
}

#[test]
fn parse_id_list_rejects_non_numeric_input() {
    assert!(parse_id_list("abc").is_err());
    assert!(parse_id_list("1,abc-3").is_err());
}

#[test]
fn parse_id_list_error_names_bad_token() {
    let err = parse_id_list("1,abc,3").unwrap_err().to_string();
    assert!(err.contains("abc"), "error message was: {err}");

    let err = parse_id_list("1,3-xyz").unwrap_err().to_string();
    assert!(err.contains("xyz"), "error message was: {err}");
}

#[test]
fn parse_id_list_rejects_negative_ids() {
    assert!(parse_id_list("-3").is_err());
    assert!(parse_id_list("1,-3").is_err());
    assert!(parse_id_list("3--1").is_err());
}

#[test]
fn sentence_pairs_parse_id_list_rejects_reversed_range() {
    assert!(parse_id_list("8-5").is_err());
    assert!(parse_id_list("1,8-5").is_err());
}

#[test]
fn parse_id_list_reversed_range_error_names_values() {
    let err = parse_id_list("8-5").unwrap_err().to_string();
    assert!(err.contains("8-5"), "error message was: {err}");
    assert!(err.contains('8'), "error message was: {err}");
    assert!(err.contains('5'), "error message was: {err}");
}

#[test]
fn sentence_pairs_parse_id_list_rejects_oversized_range() {
    assert!(parse_id_list("1-2000000").is_err());
}

#[test]
fn parse_id_list_rejects_huge_range_without_hanging() {
    assert!(parse_id_list("0-18446744073709551615").is_err());
}

#[test]
fn parse_id_list_accepts_range_at_the_limit() {
    let ids = parse_id_list("1-1000000").unwrap();
    assert_eq!(ids.len(), 1_000_000);
}

#[test]
fn main_reports_usage_error_on_wrong_arg_count() {
    assert!(cli_args("prog", &[]).is_err());
    assert!(cli_args("prog", &["only-one".to_string()]).is_err());
}

#[test]
fn cli_args_usage_line_and_accepted_pair() {
    assert_eq!(cli_args("prog", &[]).unwrap_err(), "usage: prog <path> <id-spec>");
    assert_eq!(
        cli_args("prog", &["data.json".to_string(), "1,3".to_string()]).unwrap(),
        ("data.json".to_string(), "1,3".to_string())
    );
}

#[test]
fn parse_id_list_error_variants_and_messages() {
    match parse_id_list("1,abc") {
        Err(IdListError::ParseInt { token, source }) => {
            assert_eq!(token, "abc");
            assert_eq!(source, IntErrorKind::InvalidDigit);
        }
        other => panic!("unexpected result: {other:?}"),
    }
    assert_eq!(
        parse_id_list("1,abc").unwrap_err().to_string(),
        "invalid id \"abc\": invalid digit found in string"
    );
    match parse_id_list("8-5") {
        Err(IdListError::InvalidRange { token, start, end }) => {
            assert_eq!(token, "8-5");
            assert_eq!((start, end), (8, 5));
        }
        other => panic!("unexpected result: {other:?}"),
    }
    assert_eq!(
        parse_id_list("8-5").unwrap_err().to_string(),
        "invalid range \"8-5\": start 8 is greater than end 5"
    );
    assert!(matches!(
        parse_id_list("1-2000000"),
        Err(IdListError::RangeTooLarge { ref token }) if token == "1-2000000"
    ));
    assert_eq!(
        parse_id_list("1-2000000").unwrap_err().to_string(),
        "range \"1-2000000\" spans more than 1000000 ids"
    );
    assert_eq!(
        parse_id_list("").unwrap_err().to_string(),
        "invalid id \"\": cannot parse integer from empty string"
    );
    assert_eq!(
        parse_id_list("99999999999999999999").unwrap_err().to_string(),
        "invalid id \"99999999999999999999\": number too large to fit in target type"
    );
}

#[test]
fn parse_id_list_concatenates_parts_in_order() {
    let a = parse_id_list("3,1").unwrap();
    let b = parse_id_list("7-9").unwrap();
    let mut joined = a.clone();
    joined.extend(b);
    assert_eq!(parse_id_list("3,1,7-9").unwrap(), joined);
    assert_eq!(parse_id_list("  2 ").unwrap(), parse_id_list("2").unwrap());
}

#[test]
fn select_pairs_keeps_file_order_and_reports_missing() {
    let pairs = sample_pairs();
    let wanted = vec![999, 2, 1, 2];
    let selected = select_pairs(&pairs, &wanted);
    let ids: Vec<u64> = selected.iter().map(|p| p.id).collect();
    assert_eq!(ids, vec![1, 2]);
    assert_eq!(missing_ids(&wanted, &pairs), vec![999]);
    assert_eq!(missing_ids(&[1, 2], &pairs), Vec::<u64>::new());
    assert_eq!(missing_ids(&[30, 5, 30, 7], &pairs), vec![5, 7, 30]);
}

#[test]
fn warnings_and_spec_errors_are_worded_as_printed() {
    assert_eq!(missing_warning(&[5, 999]), "warning: id(s) not found: [5, 999]");
    assert_eq!(missing_warning(&[]), "warning: id(s) not found: []");
    let err = parse_id_list("x").unwrap_err();
    assert_eq!(
        id_spec_error("x", &err),
        "invalid id spec \"x\": invalid id \"x\": invalid digit found in string"
    );
}

#[test]
fn selection_ignores_order_and_repeats_of_wanted_ids() {
    let pairs = sample_pairs();
    let a: Vec<u64> = select_pairs(&pairs, &[2, 1]).iter().map(|p| p.id).collect();
    let b: Vec<u64> = select_pairs(&pairs, &[1, 1, 2, 2]).iter().map(|p| p.id).collect();
    assert_eq!(a, b);
    assert_eq!(missing_ids(&[9, 3, 9], &pairs), missing_ids(&[3, 9], &pairs));
}

#[test]
fn leading_minus_is_an_invalid_digit() {
    match parse_id_list("-3") {
        Err(IdListError::ParseInt { token, source }) => {
            assert_eq!(token, "-3");
            assert_eq!(source, IntErrorKind::InvalidDigit);
        }
        other => panic!("unexpected result: {other:?}"),
    }
    assert_eq!(
        parse_id_list("1, -3").unwrap_err().to_string(),
        "invalid id \"-3\": invalid digit found in string"
    );
    assert!(matches!(
        parse_id_list("-"),
        Err(IdListError::ParseInt { source: IntErrorKind::InvalidDigit, .. })
    ));
}
