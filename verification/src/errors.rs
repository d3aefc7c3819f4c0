//! The errors the command can end with, their exit codes and the text
//! shown for them.
use vstd::prelude::*;

verus! {

/// The usage text printed for `-h` / `--help`.
pub const HELP: &'static str = "usage: ytx [-h] [-c] [-l LANG [LANG ...]] [--timestamps] [--preserve-formatting] [--list] video

Print a YouTube video's transcript.

positional arguments:
  video                 YouTube URL or 11-character video ID

options:
  -h, --help            show this help message and exit
  -c, --c, --copy       copy the printed transcript to the clipboard
  -l, --lang LANG [LANG ...]
                        preferred transcript languages, in order (default: en)
  --timestamps          prefix each transcript line with its start time
  --preserve-formatting
                        accepted for compatibility with the Python version
  --list                list available transcripts instead of printing one
";

/// What went wrong while talking to YouTube, as far as the command tells
/// the kinds apart; every other kind carries the text the transcript
/// service gave for it.
#[derive(Debug, PartialEq, Eq)]
pub enum TranscriptErrorKind {
    InvalidVideoId,
    VideoUnavailable,
    AgeRestricted,
    TranscriptsDisabled,
    NoTranscriptFound,
    RequestBlocked,
    IpBlocked,
    PoTokenRequired,
    Other(String),
}

/// The view of a [`TranscriptErrorKind`].
pub enum TranscriptErrorKindView {
    InvalidVideoId,
    VideoUnavailable,
    AgeRestricted,
    TranscriptsDisabled,
    NoTranscriptFound,
    RequestBlocked,
    IpBlocked,
    PoTokenRequired,
    Other(Seq<char>),
}

impl View for TranscriptErrorKind {
    type V = TranscriptErrorKindView;

    open spec fn view(&self) -> TranscriptErrorKindView {
        match self {
            TranscriptErrorKind::InvalidVideoId => TranscriptErrorKindView::InvalidVideoId,
            TranscriptErrorKind::VideoUnavailable => TranscriptErrorKindView::VideoUnavailable,
            TranscriptErrorKind::AgeRestricted => TranscriptErrorKindView::AgeRestricted,
            TranscriptErrorKind::TranscriptsDisabled => TranscriptErrorKindView::TranscriptsDisabled,
            TranscriptErrorKind::NoTranscriptFound => TranscriptErrorKindView::NoTranscriptFound,
            TranscriptErrorKind::RequestBlocked => TranscriptErrorKindView::RequestBlocked,
            TranscriptErrorKind::IpBlocked => TranscriptErrorKindView::IpBlocked,
            TranscriptErrorKind::PoTokenRequired => TranscriptErrorKindView::PoTokenRequired,
            TranscriptErrorKind::Other(text) => TranscriptErrorKindView::Other(text@),
        }
    }
}

/// Why the command did not print a transcript.
#[derive(Debug)]
pub enum CliError {
    /// Help was asked for.
    Help,
    /// The command line or the transcript found was not usable.
    Usage(String),
    /// The transcript could not be put on the clipboard.
    Clipboard(String),
    /// The transcript service failed.
    Transcript(TranscriptErrorKind),
}

/// The view of a [`CliError`].
pub enum CliErrorView {
    Help,
    Usage(Seq<char>),
    Clipboard(Seq<char>),
    Transcript(TranscriptErrorKindView),
}

impl View for CliError {
    type V = CliErrorView;

    open spec fn view(&self) -> CliErrorView {
        match self {
            CliError::Help => CliErrorView::Help,
            CliError::Usage(m) => CliErrorView::Usage(m@),
            CliError::Clipboard(m) => CliErrorView::Clipboard(m@),
            CliError::Transcript(k) => CliErrorView::Transcript(k@),
        }
    }
}

/// The process exit code for each kind of error.
pub open spec fn exit_code_of(e: CliErrorView) -> i32 {
    match e {
        CliErrorView::Help => 0,
        CliErrorView::Usage(_) => 2,
        CliErrorView::Clipboard(_) => 3,
        CliErrorView::Transcript(_) => 1,
    }
}

/// The sentence shown for a transcript service failure.
pub open spec fn transcript_error_text(k: TranscriptErrorKindView) -> Seq<char> {
    match k {
        TranscriptErrorKindView::InvalidVideoId =>
            "That does not look like a valid YouTube video ID."@,
        TranscriptErrorKindView::VideoUnavailable => "YouTube says this video is unavailable."@,
        TranscriptErrorKindView::AgeRestricted => "This video is age-restricted."@,
        TranscriptErrorKindView::TranscriptsDisabled => "Transcripts are disabled for this video."@,
        TranscriptErrorKindView::NoTranscriptFound =>
            "No transcript was found for the requested language. Try `ytx --list <url>` or pass another `--lang`."@,
        TranscriptErrorKindView::RequestBlocked =>
            "YouTube blocked this request from the current IP. Try again later."@,
        TranscriptErrorKindView::IpBlocked =>
            "YouTube blocked this request from the current IP. Try again later."@,
        TranscriptErrorKindView::PoTokenRequired =>
            "This protected video requires a YouTube token that ytx cannot fetch."@,
        TranscriptErrorKindView::Other(text) => text,
    }
}

/// The text shown for an error.
pub open spec fn error_text(e: CliErrorView) -> Seq<char> {
    match e {
        CliErrorView::Help => HELP@,
        CliErrorView::Usage(m) => m,
        CliErrorView::Clipboard(m) => m,
        CliErrorView::Transcript(k) => transcript_error_text(k),
    }
}

impl CliError {
    /// The process exit code for this error.
    pub fn exit_code(&self) -> (code: i32)
        ensures
            code == exit_code_of(self@),
    {
        match self {
            CliError::Help => 0,
            CliError::Usage(_) => 2,
            CliError::Clipboard(_) => 3,
            CliError::Transcript(_) => 1,
        }
    }

    /// The text shown for this error.
    pub fn message(&self) -> (text: String)
        ensures
            text@ == error_text(self@),
    {
        match self {
            CliError::Help => String::from_str(HELP),
            CliError::Usage(m) => m.clone(),
            CliError::Clipboard(m) => m.clone(),
            CliError::Transcript(k) => describe_transcript_error(k),
        }
    }
}

/// The sentence shown for a transcript service failure.
pub fn describe_transcript_error(error: &TranscriptErrorKind) -> (text: String)
    ensures
        text@ == transcript_error_text(error@),
{
    match error {
        TranscriptErrorKind::InvalidVideoId => String::from_str(
            "That does not look like a valid YouTube video ID.",
        ),
        TranscriptErrorKind::VideoUnavailable => String::from_str(
            "YouTube says this video is unavailable.",
        ),
        TranscriptErrorKind::AgeRestricted => String::from_str("This video is age-restricted."),
        TranscriptErrorKind::TranscriptsDisabled => String::from_str(
            "Transcripts are disabled for this video.",
        ),
        TranscriptErrorKind::NoTranscriptFound => String::from_str(
            "No transcript was found for the requested language. Try `ytx --list <url>` or pass another `--lang`.",
        ),
        TranscriptErrorKind::RequestBlocked | TranscriptErrorKind::IpBlocked => String::from_str(
            "YouTube blocked this request from the current IP. Try again later.",
        ),
        TranscriptErrorKind::PoTokenRequired => String::from_str(
            "This protected video requires a YouTube token that ytx cannot fetch.",
        ),
        TranscriptErrorKind::Other(text) => text.clone(),
    }
}

} // verus!
