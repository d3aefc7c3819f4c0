//! One run of the command: find the video, then either list its
//! transcripts or fetch one, print it and, when asked, copy the printed
//! text to the clipboard. The caller performs each request and reports
//! what happened.
use vstd::prelude::*;
use crate::args::{Config, ConfigView};
use crate::errors::{CliError, CliErrorView, TranscriptErrorKind, TranscriptErrorKindView};
use crate::listing::{available_transcript_lines, listing_lines, no_transcripts_error};
use crate::output::{
    has_printable_text, join_lines, no_printable_text_error, snippets_view, transcript_lines,
    transcript_output, Snippet, SnippetView,
};
use crate::text::clone_strings;
use crate::transcripts::{infos_view, TranscriptInfo, TranscriptInfoView};
use crate::video::{no_video_id_error, parse_video_id, video_id_of};

verus! {

/// How far the run has got.
#[derive(Debug)]
pub enum RunStage {
    /// Nothing done yet.
    Start,
    /// The list of transcripts was asked for.
    Listing,
    /// The listing lines are being printed.
    PrintingListing,
    /// A transcript was asked for.
    Fetching,
    /// This transcript text is being printed.
    PrintingTranscript(String),
    /// The printed text is being copied to the clipboard.
    Copying,
    /// The run is over.
    Done,
}

/// What happened to the last request.
#[derive(Debug)]
pub enum RunEvent {
    /// The run begins.
    Begin,
    /// The list of transcripts arrived.
    Listed(Vec<TranscriptInfo>),
    /// Listing the transcripts failed.
    ListFailed(TranscriptErrorKind),
    /// The transcript arrived.
    Fetched(Vec<Snippet>),
    /// Fetching the transcript failed.
    FetchFailed(CliError),
    /// What was to be printed has been printed.
    Printed,
    /// Copying to the clipboard ended thus.
    CopyDone(Result<(), CliError>),
}

/// What to do next.
#[derive(Debug)]
pub enum RunAction {
    /// Ask for the list of transcripts of this video.
    List(String),
    /// Print these lines, one per line.
    PrintLines(Vec<String>),
    /// Fetch the transcript of this video in these languages.
    Fetch(String, Vec<String>),
    /// Print this transcript text.
    Print(String),
    /// Copy this text to the clipboard.
    Copy(String),
    /// The run ends with this result.
    Finish(Result<(), CliError>),
}

/// The view of a [`RunStage`].
pub enum RunStageView {
    Start,
    Listing,
    PrintingListing,
    Fetching,
    PrintingTranscript(Seq<char>),
    Copying,
    Done,
}

/// The view of a [`RunEvent`].
pub enum RunEventView {
    Begin,
    Listed(Seq<TranscriptInfoView>),
    ListFailed(TranscriptErrorKindView),
    Fetched(Seq<SnippetView>),
    FetchFailed(CliErrorView),
    Printed,
    CopyDone(Result<(), CliErrorView>),
}

/// The view of a [`RunAction`].
pub enum RunActionView {
    List(Seq<char>),
    PrintLines(Seq<Seq<char>>),
    Fetch(Seq<char>, Seq<Seq<char>>),
    Print(Seq<char>),
    Copy(Seq<char>),
    Finish(Result<(), CliErrorView>),
}

/// The view of a run result.
pub open spec fn outcome_view(r: Result<(), CliError>) -> Result<(), CliErrorView> {
    match r {
        Ok(()) => Ok(()),
        Err(e) => Err(e@),
    }
}

impl View for RunStage {
    type V = RunStageView;

    open spec fn view(&self) -> RunStageView {
        match self {
            RunStage::Start => RunStageView::Start,
            RunStage::Listing => RunStageView::Listing,
            RunStage::PrintingListing => RunStageView::PrintingListing,
            RunStage::Fetching => RunStageView::Fetching,
            RunStage::PrintingTranscript(text) => RunStageView::PrintingTranscript(text@),
            RunStage::Copying => RunStageView::Copying,
            RunStage::Done => RunStageView::Done,
        }
    }
}

impl View for RunEvent {
    type V = RunEventView;

    open spec fn view(&self) -> RunEventView {
        match self {
            RunEvent::Begin => RunEventView::Begin,
            RunEvent::Listed(ts) => RunEventView::Listed(infos_view(ts@)),
            RunEvent::ListFailed(k) => RunEventView::ListFailed(k@),
            RunEvent::Fetched(s) => RunEventView::Fetched(snippets_view(s@)),
            RunEvent::FetchFailed(e) => RunEventView::FetchFailed(e@),
            RunEvent::Printed => RunEventView::Printed,
            RunEvent::CopyDone(r) => RunEventView::CopyDone(outcome_view(*r)),
        }
    }
}

impl View for RunAction {
    type V = RunActionView;

    open spec fn view(&self) -> RunActionView {
        match self {
            RunAction::List(id) => RunActionView::List(id@),
            RunAction::PrintLines(lines) => RunActionView::PrintLines(lines.deep_view()),
            RunAction::Fetch(id, languages) => RunActionView::Fetch(id@, languages.deep_view()),
            RunAction::Print(text) => RunActionView::Print(text@),
            RunAction::Copy(text) => RunActionView::Copy(text@),
            RunAction::Finish(r) => RunActionView::Finish(outcome_view(*r)),
        }
    }
}

/// Whether `event` answers the request made at `stage`.
pub open spec fn run_event_expected(stage: RunStageView, event: RunEventView) -> bool {
    match stage {
        RunStageView::Start => event is Begin,
        RunStageView::Listing => event is Listed || event is ListFailed,
        RunStageView::PrintingListing => event is Printed,
        RunStageView::Fetching => event is Fetched || event is FetchFailed,
        RunStageView::PrintingTranscript(_) => event is Printed,
        RunStageView::Copying => event is CopyDone,
        RunStageView::Done => false,
    }
}

/// The next stage and action of a run for `config` after `event` at
/// `stage`:
/// - at the start, without a video ID the run ends with that error; with
///   `--list` the transcripts are listed, else the transcript is fetched in
///   the requested languages;
/// - listed transcripts are printed in listing order (an empty list is an
///   error), and the run then ends successfully;
/// - a fetched transcript without printable text ends the run with that
///   error, else its text is printed;
/// - once the transcript is printed, the same text is copied when `--c`
///   was given, and the copy's result ends the run; else the run ends
///   successfully;
/// - a failed request ends the run with its error.
pub open spec fn run_transition(config: ConfigView, stage: RunStageView, event: RunEventView) -> (
    RunStageView,
    RunActionView,
) {
    match (stage, event) {
        (RunStageView::Start, RunEventView::Begin) => match video_id_of(config.video) {
            None => (
                RunStageView::Done,
                RunActionView::Finish(Err(no_video_id_error(config.video))),
            ),
            Some(id) => if config.list {
                (RunStageView::Listing, RunActionView::List(id))
            } else {
                (RunStageView::Fetching, RunActionView::Fetch(id, config.languages))
            },
        },
        (RunStageView::Listing, RunEventView::Listed(ts)) => if ts.len() == 0 {
            (RunStageView::Done, RunActionView::Finish(Err(no_transcripts_error())))
        } else {
            (RunStageView::PrintingListing, RunActionView::PrintLines(listing_lines(ts)))
        },
        (RunStageView::Listing, RunEventView::ListFailed(k)) => (
            RunStageView::Done,
            RunActionView::Finish(Err(CliErrorView::Transcript(k))),
        ),
        (RunStageView::PrintingListing, RunEventView::Printed) => (
            RunStageView::Done,
            RunActionView::Finish(Ok(())),
        ),
        (RunStageView::Fetching, RunEventView::Fetched(snippets)) => if has_printable_text(
            snippets,
        ) {
            let text = join_lines(transcript_lines(snippets, config.timestamps));
            (RunStageView::PrintingTranscript(text), RunActionView::Print(text))
        } else {
            (RunStageView::Done, RunActionView::Finish(Err(no_printable_text_error())))
        },
        (RunStageView::Fetching, RunEventView::FetchFailed(e)) => (
            RunStageView::Done,
            RunActionView::Finish(Err(e)),
        ),
        (RunStageView::PrintingTranscript(text), RunEventView::Printed) => if config.copy {
            (RunStageView::Copying, RunActionView::Copy(text))
        } else {
            (RunStageView::Done, RunActionView::Finish(Ok(())))
        },
        (RunStageView::Copying, RunEventView::CopyDone(r)) => (
            RunStageView::Done,
            RunActionView::Finish(r),
        ),
        _ => (stage, RunActionView::Finish(Ok(()))),
    }
}

/// Decides the next step of a run from what the last request gave; the
/// caller reports only answers to the request it was asked to make.
pub fn run_step(config: &Config, stage: RunStage, event: RunEvent) -> (r: (RunStage, RunAction))
    requires
        run_event_expected(stage@, event@),
    ensures
        (r.0@, r.1@) == run_transition(config@, stage@, event@),
{
    match stage {
        RunStage::Start => match parse_video_id(config.video.as_str()) {
            Err(e) => (RunStage::Done, RunAction::Finish(Err(e))),
            Ok(id) => if config.list {
                (RunStage::Listing, RunAction::List(id))
            } else {
                (RunStage::Fetching, RunAction::Fetch(id, clone_strings(config.languages.as_slice())))
            },
        },
        RunStage::Listing => match event {
            RunEvent::Listed(ts) => match available_transcript_lines(ts.as_slice()) {
                Ok(lines) => (RunStage::PrintingListing, RunAction::PrintLines(lines)),
                Err(e) => (RunStage::Done, RunAction::Finish(Err(e))),
            },
            RunEvent::ListFailed(k) => (
                RunStage::Done,
                RunAction::Finish(Err(CliError::Transcript(k))),
            ),
            _ => (RunStage::Done, RunAction::Finish(Ok(()))),
        },
        RunStage::PrintingListing => (RunStage::Done, RunAction::Finish(Ok(()))),
        RunStage::Fetching => match event {
            RunEvent::Fetched(snippets) => match transcript_output(
                snippets.as_slice(),
                config.timestamps,
            ) {
                Ok(text) => {
                    let printed = text.clone();
                    (RunStage::PrintingTranscript(text), RunAction::Print(printed))
                },
                Err(e) => (RunStage::Done, RunAction::Finish(Err(e))),
            },
            RunEvent::FetchFailed(e) => (RunStage::Done, RunAction::Finish(Err(e))),
            _ => (RunStage::Done, RunAction::Finish(Ok(()))),
        },
        RunStage::PrintingTranscript(text) => if config.copy {
            (RunStage::Copying, RunAction::Copy(text))
        } else {
            (RunStage::Done, RunAction::Finish(Ok(())))
        },
        RunStage::Copying => match event {
            RunEvent::CopyDone(r) => (RunStage::Done, RunAction::Finish(r)),
            _ => (RunStage::Done, RunAction::Finish(Ok(()))),
        },
        RunStage::Done => (RunStage::Done, RunAction::Finish(Ok(()))),
    }
}

/// The stages a run with `--list` passes through.
pub open spec fn is_listing_stage(stage: RunStageView) -> bool {
    stage is Start || stage is Listing || stage is PrintingListing || stage is Done
}

/// With `--list`, a run only lists and prints the listing: it never
/// fetches a transcript, prints one or copies anything, and never leaves
/// the listing stages.
pub proof fn lemma_list_mode_only_lists(config: ConfigView, stage: RunStageView, event: RunEventView)
    requires
        config.list,
        is_listing_stage(stage),
        run_event_expected(stage, event),
    ensures
        is_listing_stage(run_transition(config, stage, event).0),
        !(run_transition(config, stage, event).1 is Fetch),
        !(run_transition(config, stage, event).1 is Print),
        !(run_transition(config, stage, event).1 is Copy),
{
}

/// Without `--list`, a run never lists.
pub proof fn lemma_transcript_mode_never_lists(config: ConfigView, stage: RunStageView, event: RunEventView)
    requires
        !config.list,
        !(stage is Listing || stage is PrintingListing),
        run_event_expected(stage, event),
    ensures
        !(run_transition(config, stage, event).0 is Listing),
        !(run_transition(config, stage, event).0 is PrintingListing),
        !(run_transition(config, stage, event).1 is List),
        !(run_transition(config, stage, event).1 is PrintLines),
{
}

/// What is printed is the non-empty transcript text, and the run then
/// remembers exactly that text.
pub proof fn lemma_print_is_transcript_text(config: ConfigView, stage: RunStageView, event: RunEventView)
    requires
        run_event_expected(stage, event),
        run_transition(config, stage, event).1 is Print,
    ensures
        stage is Fetching,
        event matches RunEventView::Fetched(snippets) && has_printable_text(snippets) && ({
            let text = join_lines(transcript_lines(snippets, config.timestamps));
            run_transition(config, stage, event) == (
                RunStageView::PrintingTranscript(text),
                RunActionView::Print(text),
            )
        }),
{
}

/// The clipboard receives the very text that was printed, only after it
/// was printed, only with `--c`, and the copy's result ends the run.
pub proof fn lemma_copy_after_print_same_text(config: ConfigView, text: Seq<char>, event: RunEventView, r: Result<(), CliErrorView>)
    requires
        run_event_expected(RunStageView::PrintingTranscript(text), event),
    ensures
        run_transition(config, RunStageView::PrintingTranscript(text), event).1 == (if config.copy {
            RunActionView::Copy(text)
        } else {
            RunActionView::Finish(Ok(()))
        }),
        run_transition(config, RunStageView::Copying, RunEventView::CopyDone(r)) == (
            RunStageView::Done,
            RunActionView::Finish(r),
        ),
{
}

/// Copying is asked for only in the stage that follows printing, and
/// only for the text printed there.
pub proof fn lemma_copy_only_after_print(config: ConfigView, stage: RunStageView, event: RunEventView)
    requires
        run_event_expected(stage, event),
        run_transition(config, stage, event).1 is Copy,
    ensures
        config.copy,
        stage matches RunStageView::PrintingTranscript(text) && run_transition(
            config,
            stage,
            event,
        ).1 == RunActionView::Copy(text),
{
}

/// The order of the stages.
pub open spec fn run_stage_rank(stage: RunStageView) -> nat {
    match stage {
        RunStageView::Start => 0,
        RunStageView::Listing => 1,
        RunStageView::Fetching => 1,
        RunStageView::PrintingListing => 2,
        RunStageView::PrintingTranscript(_) => 2,
        RunStageView::Copying => 3,
        RunStageView::Done => 4,
    }
}

/// Every step moves the run to a later stage: a run ends after at most
/// four steps, and copies at most once.
pub proof fn lemma_run_progresses(config: ConfigView, stage: RunStageView, event: RunEventView)
    requires
        run_event_expected(stage, event),
    ensures
        run_stage_rank(run_transition(config, stage, event).0) > run_stage_rank(stage),
{
}

/// Without a video ID the run ends with that error before any request.
pub proof fn lemma_no_video_no_request(config: ConfigView)
    requires
        video_id_of(config.video) is None,
    ensures
        run_transition(config, RunStageView::Start, RunEventView::Begin) == (
            RunStageView::Done,
            RunActionView::Finish(Err(no_video_id_error(config.video))),
        ),
{
}

} // verus!
