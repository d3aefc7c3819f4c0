use ytx::args::{collect_language_values, has_later_non_option, parse_args, split_language_values};
use ytx::errors::CliError;

fn words(list: &[&str]) -> Vec<String> {
    list.iter().map(|w| w.to_string()).collect()
}

#[test]
fn parse_args_accepts_copy_after_video() {
    let config = parse_args(vec!["https://youtu.be/dQw4w9WgXcQ".into(), "--c".into()]).unwrap();
    assert_eq!(config.video, "https://youtu.be/dQw4w9WgXcQ");
    assert!(config.copy);
}

#[test]
fn parse_args_accepts_copy_before_video() {
    let config = parse_args(vec!["--c".into(), "https://youtu.be/dQw4w9WgXcQ".into()]).unwrap();
    assert_eq!(config.video, "https://youtu.be/dQw4w9WgXcQ");
    assert!(config.copy);
}

#[test]
fn parse_args_accepts_multiple_languages_before_video() {
    let config = parse_args(vec![
        "--lang".into(),
        "en".into(),
        "es".into(),
        "https://youtu.be/dQw4w9WgXcQ".into(),
    ])
    .unwrap();
    assert_eq!(config.languages, ["en", "es"]);
}

#[test]
fn parse_args_accepts_multiple_languages_after_video() {
    let config = parse_args(vec![
        "https://youtu.be/dQw4w9WgXcQ".into(),
        "--lang".into(),
        "en".into(),
        "es".into(),
    ])
    .unwrap();
    assert_eq!(config.languages, ["en", "es"]);
}

#[test]
fn parse_args_accepts_comma_separated_languages() {
    let config =
        parse_args(vec!["--lang=en,es".into(), "https://youtu.be/dQw4w9WgXcQ".into()]).unwrap();
    assert_eq!(config.languages, ["en", "es"]);
}

#[test]
fn parse_args_defaults_to_english() {
    let config = parse_args(words(&["dQw4w9WgXcQ"])).unwrap();
    assert_eq!(config.languages, ["en"]);
    assert!(!config.copy && !config.timestamps && !config.list && !config.preserve_formatting);
}

#[test]
fn parse_args_reads_every_switch() {
    let config = parse_args(words(&[
        "--timestamps",
        "-c",
        "abc",
        "--list",
        "--preserve-formatting",
    ]))
    .unwrap();
    assert_eq!(config.video, "abc");
    assert!(config.copy && config.timestamps && config.list && config.preserve_formatting);
    let config = parse_args(words(&["--copy", "abc"])).unwrap();
    assert!(config.copy);
}

#[test]
fn parse_args_help_wins() {
    assert!(matches!(parse_args(words(&["-h"])), Err(CliError::Help)));
    assert!(matches!(parse_args(words(&["abc", "--help"])), Err(CliError::Help)));
}

#[test]
fn parse_args_reports_missing_video() {
    match parse_args(words(&["--c"])) {
        Err(CliError::Usage(m)) => assert_eq!(m, "missing required argument: video"),
        other => panic!("unexpected {other:?}"),
    }
    match parse_args(Vec::new()) {
        Err(CliError::Usage(m)) => assert_eq!(m, "missing required argument: video"),
        other => panic!("unexpected {other:?}"),
    }
}

#[test]
fn parse_args_reports_unknown_option() {
    match parse_args(words(&["--nope", "abc"])) {
        Err(CliError::Usage(m)) => assert_eq!(m, "unknown option: --nope"),
        other => panic!("unexpected {other:?}"),
    }
}

#[test]
fn parse_args_reports_second_video() {
    match parse_args(words(&["abc", "def"])) {
        Err(CliError::Usage(m)) => assert_eq!(m, "unexpected argument: def"),
        other => panic!("unexpected {other:?}"),
    }
}

#[test]
fn parse_args_reports_empty_language_lists() {
    match parse_args(words(&["abc", "--lang"])) {
        Err(CliError::Usage(m)) => assert_eq!(m, "expected at least one language after --lang"),
        other => panic!("unexpected {other:?}"),
    }
    match parse_args(words(&["abc", "-l", " , "])) {
        Err(CliError::Usage(m)) => assert_eq!(m, "expected at least one language after  , "),
        other => panic!("unexpected {other:?}"),
    }
    match parse_args(words(&["--lang=,", "abc"])) {
        Err(CliError::Usage(m)) => assert_eq!(m, "expected at least one language after --lang="),
        other => panic!("unexpected {other:?}"),
    }
}

#[test]
fn parse_args_last_free_word_is_the_video() {
    let config = parse_args(words(&["-l", "de", "fr,it", "vid", "--c"])).unwrap();
    assert_eq!(config.languages, ["de", "fr", "it"]);
    assert_eq!(config.video, "vid");
    let config = parse_args(words(&["-l", "de", "--c", "vid"])).unwrap();
    assert_eq!(config.languages, ["de"]);
    assert_eq!(config.video, "vid");
}

#[test]
fn parse_args_repeated_lang_prefix_is_stripped() {
    let config = parse_args(words(&["--lang=--lang=pt", "v"])).unwrap();
    assert_eq!(config.languages, ["pt"]);
}

#[test]
fn split_language_values_trims_and_drops_empty() {
    assert_eq!(split_language_values(" en , ,es,\tpt-BR "), ["en", "es", "pt-BR"]);
    assert!(split_language_values("").is_empty());
    assert!(split_language_values(",, ,").is_empty());
    assert_eq!(split_language_values("ja"), ["ja"]);
}

#[test]
fn has_later_non_option_looks_from_start() {
    let args = words(&["-a", "x", "-b"]);
    assert!(has_later_non_option(&args, 0));
    assert!(has_later_non_option(&args, 1));
    assert!(!has_later_non_option(&args, 2));
    assert!(!has_later_non_option(&args, 3));
}

#[test]
fn collect_language_values_stops_before_video() {
    let args = words(&["--lang", "en", "es", "video"]);
    let mut i = 1;
    let values = collect_language_values(&args, &mut i, false);
    assert_eq!(values, ["en", "es"]);
    assert_eq!(i, 3);
    let mut i = 1;
    let values = collect_language_values(&args, &mut i, true);
    assert_eq!(values, ["en", "es", "video"]);
    assert_eq!(i, 4);
}

#[test]
fn parse_args_lang_forms_agree() {
    let a = parse_args(words(&["--lang=en, es", "vid"])).unwrap();
    let b = parse_args(words(&["--lang", "en, es", "vid"])).unwrap();
    assert_eq!(a.languages, b.languages);
    assert_eq!(a.video, b.video);
    assert_eq!(a.languages, ["en", "es"]);
}

#[test]
fn parse_args_languages_are_clean() {
    let config = parse_args(words(&["v", "-l", " de ,, fr\u{3000}", "it"])).unwrap();
    assert_eq!(config.languages, ["de", "fr", "it"]);
}

#[test]
fn split_language_values_round_trips_through_join() {
    for raw in [" en , ,es,\tpt-BR ", "", ",,", "ja", "a,b , c"] {
        let values = split_language_values(raw);
        assert_eq!(split_language_values(&values.join(",")), values);
    }
}

#[test]
fn collect_language_values_past_the_end() {
    let args = words(&["--lang"]);
    let mut i = 5;
    assert!(collect_language_values(&args, &mut i, false).is_empty());
    assert_eq!(i, 5);
}
