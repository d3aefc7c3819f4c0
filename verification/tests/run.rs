use ytx::args::parse_args;
use ytx::errors::{CliError, TranscriptErrorKind};
use ytx::output::Snippet;
use ytx::run::{run_step, RunAction, RunEvent, RunStage};
use ytx::transcripts::TranscriptInfo;

fn config(words: &[&str]) -> ytx::args::Config {
    parse_args(words.iter().map(|w| w.to_string()).collect()).unwrap()
}

fn snippet(text: &str, start: u64) -> Snippet {
    Snippet { text: text.to_string(), start_seconds: start }
}

#[test]
fn run_without_video_id_ends_before_any_request() {
    let c = config(&["https://example.com/nope", "--c"]);
    match run_step(&c, RunStage::Start, RunEvent::Begin) {
        (RunStage::Done, RunAction::Finish(Err(CliError::Usage(m)))) => {
            assert_eq!(m, "Could not find a YouTube video ID in: https://example.com/nope")
        }
        other => panic!("unexpected {other:?}"),
    }
}

#[test]
fn run_list_mode_lists_and_never_copies() {
    let c = config(&["--list", "--c", "https://youtu.be/dQw4w9WgXcQ"]);
    let (stage, action) = run_step(&c, RunStage::Start, RunEvent::Begin);
    assert!(matches!(action, RunAction::List(ref id) if id == "dQw4w9WgXcQ"));
    let listed = vec![
        TranscriptInfo { language_code: "en".into(), language: "English".into(), is_generated: true, is_translatable: true },
        TranscriptInfo { language_code: "de".into(), language: "German".into(), is_generated: false, is_translatable: false },
    ];
    let (stage, action) = run_step(&c, stage, RunEvent::Listed(listed));
    match action {
        RunAction::PrintLines(lines) => assert_eq!(
            lines,
            ["de\tmanual\tnot translatable\tGerman", "en\tauto\ttranslatable\tEnglish"]
        ),
        other => panic!("unexpected {other:?}"),
    }
    let (stage, action) = run_step(&c, stage, RunEvent::Printed);
    assert!(matches!(stage, RunStage::Done));
    assert!(matches!(action, RunAction::Finish(Ok(()))));
}

#[test]
fn run_list_mode_errors() {
    let c = config(&["--list", "dQw4w9WgXcQ"]);
    let (stage, _) = run_step(&c, RunStage::Start, RunEvent::Begin);
    assert!(matches!(
        run_step(&c, stage, RunEvent::Listed(Vec::new())).1,
        RunAction::Finish(Err(CliError::Usage(_)))
    ));
    assert!(matches!(
        run_step(&c, RunStage::Listing, RunEvent::ListFailed(TranscriptErrorKind::IpBlocked)).1,
        RunAction::Finish(Err(CliError::Transcript(TranscriptErrorKind::IpBlocked)))
    ));
}

#[test]
fn run_prints_then_copies_the_same_text() {
    let c = config(&["dQw4w9WgXcQ", "--c", "--timestamps", "-l", "de", "fr"]);
    let (stage, action) = run_step(&c, RunStage::Start, RunEvent::Begin);
    match action {
        RunAction::Fetch(id, languages) => {
            assert_eq!(id, "dQw4w9WgXcQ");
            assert_eq!(languages, ["de", "fr"]);
        }
        other => panic!("unexpected {other:?}"),
    }
    let (stage, action) = run_step(&c, stage, RunEvent::Fetched(vec![snippet(" hi ", 61), snippet("", 62)]));
    let printed = match action {
        RunAction::Print(text) => text,
        other => panic!("unexpected {other:?}"),
    };
    assert_eq!(printed, "[1:01] hi");
    let (stage, action) = run_step(&c, stage, RunEvent::Printed);
    assert!(matches!(action, RunAction::Copy(ref text) if *text == printed));
    let (stage, action) = run_step(&c, stage, RunEvent::CopyDone(Err(CliError::Clipboard("x".into()))));
    assert!(matches!(stage, RunStage::Done));
    assert!(matches!(action, RunAction::Finish(Err(CliError::Clipboard(ref m))) if m == "x"));
}

#[test]
fn run_without_copy_ends_after_printing() {
    let c = config(&["dQw4w9WgXcQ"]);
    let (stage, _) = run_step(&c, RunStage::Start, RunEvent::Begin);
    let (stage, _) = run_step(&c, stage, RunEvent::Fetched(vec![snippet("a", 0)]));
    let (stage, action) = run_step(&c, stage, RunEvent::Printed);
    assert!(matches!(stage, RunStage::Done));
    assert!(matches!(action, RunAction::Finish(Ok(()))));
}

#[test]
fn run_blank_transcript_is_neither_printed_nor_copied() {
    let c = config(&["dQw4w9WgXcQ", "--c"]);
    let (stage, _) = run_step(&c, RunStage::Start, RunEvent::Begin);
    let (stage, action) = run_step(&c, stage, RunEvent::Fetched(vec![snippet("  ", 0)]));
    assert!(matches!(stage, RunStage::Done));
    assert!(matches!(action, RunAction::Finish(Err(CliError::Usage(_)))));
    let c = config(&["dQw4w9WgXcQ"]);
    let (_, action) = run_step(&c, RunStage::Fetching, RunEvent::FetchFailed(CliError::Transcript(TranscriptErrorKind::AgeRestricted)));
    assert!(matches!(action, RunAction::Finish(Err(CliError::Transcript(TranscriptErrorKind::AgeRestricted)))));
}
