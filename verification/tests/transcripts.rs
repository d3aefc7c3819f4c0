use ytx::errors::CliError;
use ytx::fetch::{fetch_transcript_step, retry_language_code, FetchAction, FetchEvent, FetchStage};
use ytx::listing::{available_transcript_lines, listing_order, transcript_line};
use ytx::transcripts::{fallback_language_code, find_language, requested_language_code, TranscriptInfo};

fn info(code: &str, language: &str, generated: bool, translatable: bool) -> TranscriptInfo {
    TranscriptInfo {
        language_code: code.to_string(),
        language: language.to_string(),
        is_generated: generated,
        is_translatable: translatable,
    }
}

fn langs(list: &[&str]) -> Vec<String> {
    list.iter().map(|l| l.to_string()).collect()
}

#[test]
fn find_language_prefers_manual_then_first() {
    let ts = vec![info("en", "English (auto)", true, true), info("en", "English", false, true)];
    assert_eq!(find_language(&ts, "en", false).unwrap().language, "English");
    let ts = vec![info("en", "A", true, true), info("en", "B", true, false)];
    assert_eq!(find_language(&ts, "en", false).unwrap().language, "A");
    assert!(find_language(&ts, "de", true).is_none());
}

#[test]
fn find_language_regional_only_with_prefix() {
    let ts = vec![info("en-GB", "British", false, true), info("english", "x", false, true)];
    assert!(find_language(&ts, "en", false).is_none());
    assert_eq!(find_language(&ts, "en", true).unwrap().language_code, "en-GB");
}

#[test]
fn requested_language_code_walks_languages_in_order() {
    let ts = vec![info("fr", "French", false, true), info("de-AT", "Austrian", true, true)];
    assert_eq!(requested_language_code(&ts, &langs(&["es", "de", "fr"])), Some("de-AT".to_string()));
    assert_eq!(requested_language_code(&ts, &langs(&["fr", "de"])), Some("fr".to_string()));
    assert_eq!(requested_language_code(&ts, &langs(&["it"])), None);
}

#[test]
fn fallback_language_code_prefers_manual() {
    let ts = vec![info("ja", "Japanese", true, true), info("ko", "Korean", false, true)];
    assert_eq!(fallback_language_code(&ts), Some("ko".to_string()));
    let ts = vec![info("ja", "Japanese", true, true), info("ko", "Korean", true, true)];
    assert_eq!(fallback_language_code(&ts), Some("ja".to_string()));
    assert_eq!(fallback_language_code(&[]), None);
}

#[test]
fn retry_language_code_english_only_falls_back() {
    let ts = vec![info("ja", "Japanese", true, true), info("ko", "Korean", false, true)];
    assert_eq!(retry_language_code(&ts, &langs(&["en"])), Some("ko".to_string()));
    assert_eq!(retry_language_code(&ts, &langs(&["en", "ja"])), Some("ja".to_string()));
    assert_eq!(retry_language_code(&ts, &langs(&["de"])), None);
}

#[test]
fn listing_sorts_manual_first_then_code_stably() {
    let ts = vec![
        info("fr", "French (auto)", true, true),
        info("en", "English", false, true),
        info("de", "German", false, false),
        info("en", "English again", false, false),
        info("de", "German (auto)", true, false),
    ];
    assert_eq!(listing_order(&ts), vec![2, 1, 3, 4, 0]);
    let lines = available_transcript_lines(&ts).unwrap();
    assert_eq!(
        lines,
        [
            "de\tmanual\tnot translatable\tGerman",
            "en\tmanual\ttranslatable\tEnglish",
            "en\tmanual\tnot translatable\tEnglish again",
            "de\tauto\tnot translatable\tGerman (auto)",
            "fr\tauto\ttranslatable\tFrench (auto)",
        ]
    );
}

#[test]
fn listing_orders_codes_by_characters() {
    let ts = vec![info("zh", "a", false, true), info("en-GB", "b", false, true), info("en", "c", false, true)];
    assert_eq!(listing_order(&ts), vec![2, 1, 0]);
}

#[test]
fn listing_without_transcripts_is_an_error() {
    match available_transcript_lines(&[]) {
        Err(CliError::Usage(m)) => assert_eq!(m, "No transcripts are available for this video."),
        other => panic!("unexpected {other:?}"),
    }
}

#[test]
fn transcript_line_fields() {
    assert_eq!(transcript_line(&info("pt", "Portuguese", true, false)), "pt\tauto\tnot translatable\tPortuguese");
}

#[test]
fn fetch_steps_through_retry() {
    let languages = langs(&["en"]);
    let (stage, action) = fetch_transcript_step(FetchStage::Start, &languages, FetchEvent::Begin);
    assert_eq!(stage, FetchStage::FirstFetch);
    assert!(matches!(action, FetchAction::Fetch(ref l) if l == &languages));
    let (stage, action) = fetch_transcript_step(stage, &languages, FetchEvent::FetchFailed { no_transcript_found: true });
    assert_eq!(stage, FetchStage::Listing);
    assert!(matches!(action, FetchAction::List));
    let listed = vec![info("es", "Spanish", true, true), info("fr", "French", false, true)];
    let (stage, action) = fetch_transcript_step(stage, &languages, FetchEvent::Listed(listed));
    assert_eq!(stage, FetchStage::Retry);
    assert!(matches!(action, FetchAction::Fetch(ref l) if l == &["fr".to_string()]));
    let (stage, action) = fetch_transcript_step(stage, &languages, FetchEvent::Fetched);
    assert_eq!(stage, FetchStage::Done);
    assert!(matches!(action, FetchAction::ReturnTranscript));
}

#[test]
fn fetch_step_outcomes() {
    let languages = langs(&["de"]);
    let (s, a) = fetch_transcript_step(FetchStage::FirstFetch, &languages, FetchEvent::Fetched);
    assert!(s == FetchStage::Done && matches!(a, FetchAction::ReturnTranscript));
    let (s, a) = fetch_transcript_step(FetchStage::FirstFetch, &languages, FetchEvent::FetchFailed { no_transcript_found: false });
    assert!(s == FetchStage::Done && matches!(a, FetchAction::ReturnError));
    let (s, a) = fetch_transcript_step(FetchStage::Listing, &languages, FetchEvent::ListFailed);
    assert!(s == FetchStage::Done && matches!(a, FetchAction::ReturnError));
    let (s, a) = fetch_transcript_step(FetchStage::Listing, &languages, FetchEvent::Listed(vec![info("en", "English", false, true)]));
    assert!(s == FetchStage::Done && matches!(a, FetchAction::ReturnNoTranscriptFound));
    let (s, a) = fetch_transcript_step(FetchStage::Retry, &languages, FetchEvent::FetchFailed { no_transcript_found: true });
    assert!(s == FetchStage::Done && matches!(a, FetchAction::ReturnError));
}
