use ytx::errors::{describe_transcript_error, CliError, TranscriptErrorKind, HELP};

#[test]
fn exit_codes() {
    assert_eq!(CliError::Help.exit_code(), 0);
    assert_eq!(CliError::Usage("x".into()).exit_code(), 2);
    assert_eq!(CliError::Clipboard("x".into()).exit_code(), 3);
    assert_eq!(CliError::Transcript(TranscriptErrorKind::IpBlocked).exit_code(), 1);
}

#[test]
fn messages() {
    assert_eq!(CliError::Help.message(), HELP);
    assert!(HELP.starts_with("usage: ytx [-h]"));
    assert_eq!(CliError::Usage("bad".into()).message(), "bad");
    assert_eq!(CliError::Clipboard("nope".into()).message(), "nope");
    assert_eq!(
        CliError::Transcript(TranscriptErrorKind::NoTranscriptFound).message(),
        "No transcript was found for the requested language. Try `ytx --list <url>` or pass another `--lang`."
    );
}

#[test]
fn transcript_error_descriptions() {
    assert_eq!(
        describe_transcript_error(&TranscriptErrorKind::InvalidVideoId),
        "That does not look like a valid YouTube video ID."
    );
    assert_eq!(describe_transcript_error(&TranscriptErrorKind::VideoUnavailable), "YouTube says this video is unavailable.");
    assert_eq!(describe_transcript_error(&TranscriptErrorKind::AgeRestricted), "This video is age-restricted.");
    assert_eq!(describe_transcript_error(&TranscriptErrorKind::TranscriptsDisabled), "Transcripts are disabled for this video.");
    assert_eq!(
        describe_transcript_error(&TranscriptErrorKind::RequestBlocked),
        describe_transcript_error(&TranscriptErrorKind::IpBlocked)
    );
    assert_eq!(
        describe_transcript_error(&TranscriptErrorKind::PoTokenRequired),
        "This protected video requires a YouTube token that ytx cannot fetch."
    );
    assert_eq!(describe_transcript_error(&TranscriptErrorKind::Other("HTTP request failed: x".into())), "HTTP request failed: x");
}
