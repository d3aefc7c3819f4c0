//! The decisions taken while fetching a transcript: which languages to ask
//! for, when to look at the list of transcripts instead, and what to give
//! back. The caller performs each request and reports what happened.
use vstd::prelude::*;
use crate::text::{chars_equal, chars_of, clone_strings};
use crate::transcripts::{
    chosen_in_language, fallback_code, fallback_language_code, infos_view, is_first_in_language,
    is_first_of, is_form_of, lemma_requested_code_is_requested_form, requested_code,
    requested_language_code, TranscriptInfo, TranscriptInfoView,
};

verus! {

/// How far fetching has got.
#[derive(Debug, Clone, Copy, PartialEq, Eq)]
pub enum FetchStage {
    /// Nothing asked yet.
    Start,
    /// The transcript in the requested languages was asked for.
    FirstFetch,
    /// The list of transcripts was asked for.
    Listing,
    /// The transcript in one listed language was asked for.
    Retry,
    /// A result was given back.
    Done,
}

/// What happened to the last request.
#[derive(Debug)]
pub enum FetchEvent {
    /// Fetching begins.
    Begin,
    /// The transcript arrived.
    Fetched,
    /// Fetching the transcript failed, because no transcript was found in
    /// the languages asked for or for another reason.
    FetchFailed { no_transcript_found: bool },
    /// The list of transcripts arrived.
    Listed(Vec<TranscriptInfo>),
    /// Listing the transcripts failed.
    ListFailed,
}

/// What to do next.
#[derive(Debug)]
pub enum FetchAction {
    /// Ask for the transcript in these languages, in order of preference.
    Fetch(Vec<String>),
    /// Ask for the list of transcripts.
    List,
    /// Give back the transcript that arrived.
    ReturnTranscript,
    /// Give back the error of the last request.
    ReturnError,
    /// Give back that no transcript was found in the requested languages.
    ReturnNoTranscriptFound,
}

/// The view of a [`FetchEvent`].
pub enum FetchEventView {
    Begin,
    Fetched,
    FetchFailed { no_transcript_found: bool },
    Listed(Seq<TranscriptInfoView>),
    ListFailed,
}

/// The view of a [`FetchAction`].
pub enum FetchActionView {
    Fetch(Seq<Seq<char>>),
    List,
    ReturnTranscript,
    ReturnError,
    ReturnNoTranscriptFound,
}

impl View for FetchEvent {
    type V = FetchEventView;

    open spec fn view(&self) -> FetchEventView {
        match self {
            FetchEvent::Begin => FetchEventView::Begin,
            FetchEvent::Fetched => FetchEventView::Fetched,
            FetchEvent::FetchFailed { no_transcript_found } => FetchEventView::FetchFailed {
                no_transcript_found: *no_transcript_found,
            },
            FetchEvent::Listed(ts) => FetchEventView::Listed(infos_view(ts@)),
            FetchEvent::ListFailed => FetchEventView::ListFailed,
        }
    }
}

impl View for FetchAction {
    type V = FetchActionView;

    open spec fn view(&self) -> FetchActionView {
        match self {
            FetchAction::Fetch(l) => FetchActionView::Fetch(l.deep_view()),
            FetchAction::List => FetchActionView::List,
            FetchAction::ReturnTranscript => FetchActionView::ReturnTranscript,
            FetchAction::ReturnError => FetchActionView::ReturnError,
            FetchAction::ReturnNoTranscriptFound => FetchActionView::ReturnNoTranscriptFound,
        }
    }
}

/// The language code to try once the transcript was not found in the
/// requested languages: when only English was asked for, the code of the
/// first manual transcript (else the first transcript); otherwise the code
/// chosen for the requested languages, regional forms included.
pub open spec fn retry_code(ts: Seq<TranscriptInfoView>, languages: Seq<Seq<char>>) -> Option<
    Seq<char>,
> {
    if languages == seq!["en"@] {
        fallback_code(ts)
    } else {
        requested_code(ts, languages)
    }
}

/// The language code to try after a failed first attempt, if any.
pub fn retry_language_code(transcripts: &[TranscriptInfo], languages: &[String]) -> (r: Option<String>)
    ensures
        match r {
            Some(code) => retry_code(infos_view(transcripts@), languages.deep_view()) == Some(code@),
            None => retry_code(infos_view(transcripts@), languages.deep_view()) is None,
        },
{
    let only_english = languages.len() == 1 && chars_equal(chars_of(languages[0].as_str()).as_slice(), "en");
    assert(only_english <==> languages.deep_view() == seq!["en"@]) by {
        if languages.len() == 1 {
            assert(languages.deep_view()[0] == languages@[0]@);
            if languages.deep_view() == seq!["en"@] {
                assert(languages.deep_view()[0] == "en"@);
            }
            if languages@[0]@ == "en"@ {
                assert(languages.deep_view() =~= seq!["en"@]);
            }
        }
    }
    if only_english {
        fallback_language_code(transcripts)
    } else {
        requested_language_code(transcripts, languages)
    }
}

/// Whether `event` can follow a request made at `stage`.
pub open spec fn event_expected(stage: FetchStage, event: FetchEventView) -> bool {
    match stage {
        FetchStage::Start => event is Begin,
        FetchStage::FirstFetch | FetchStage::Retry => event is Fetched || event is FetchFailed,
        FetchStage::Listing => event is Listed || event is ListFailed,
        FetchStage::Done => false,
    }
}

/// The next stage and action after `event` at `stage`.
pub open spec fn fetch_transition(
    stage: FetchStage,
    languages: Seq<Seq<char>>,
    event: FetchEventView,
) -> (FetchStage, FetchActionView) {
    match (stage, event) {
        (FetchStage::Start, _) => (FetchStage::FirstFetch, FetchActionView::Fetch(languages)),
        (FetchStage::FirstFetch, FetchEventView::Fetched) => (
            FetchStage::Done,
            FetchActionView::ReturnTranscript,
        ),
        (FetchStage::FirstFetch, FetchEventView::FetchFailed { no_transcript_found }) => if no_transcript_found {
            (FetchStage::Listing, FetchActionView::List)
        } else {
            (FetchStage::Done, FetchActionView::ReturnError)
        },
        (FetchStage::Listing, FetchEventView::Listed(ts)) => match retry_code(ts, languages) {
            Some(code) => (FetchStage::Retry, FetchActionView::Fetch(seq![code])),
            None => (FetchStage::Done, FetchActionView::ReturnNoTranscriptFound),
        },
        (FetchStage::Retry, FetchEventView::Fetched) => (
            FetchStage::Done,
            FetchActionView::ReturnTranscript,
        ),
        _ => (FetchStage::Done, FetchActionView::ReturnError),
    }
}

/// Decides the next request, or the result, from what the last request
/// gave. An event that does not answer the request of `stage` ends
/// fetching with the error of the last request.
pub fn fetch_transcript_step(stage: FetchStage, languages: &[String], event: FetchEvent) -> (r: (
    FetchStage,
    FetchAction,
))
    ensures
        (r.0, r.1@) == fetch_transition(stage, languages.deep_view(), event@),
{
    match stage {
        FetchStage::Start => {
            let all = clone_strings(languages);
            (FetchStage::FirstFetch, FetchAction::Fetch(all))
        },
        FetchStage::FirstFetch => match event {
            FetchEvent::Fetched => (FetchStage::Done, FetchAction::ReturnTranscript),
            FetchEvent::FetchFailed { no_transcript_found } => if no_transcript_found {
                (FetchStage::Listing, FetchAction::List)
            } else {
                (FetchStage::Done, FetchAction::ReturnError)
            },
            _ => (FetchStage::Done, FetchAction::ReturnError),
        },
        FetchStage::Listing => match event {
            FetchEvent::Listed(ts) => match retry_language_code(ts.as_slice(), languages) {
                Some(code) => {
                    let ghost c = code@;
                    let one = vec![code];
                    assert(one.deep_view() =~= seq![c]);
                    (FetchStage::Retry, FetchAction::Fetch(one))
                },
                None => (FetchStage::Done, FetchAction::ReturnNoTranscriptFound),
            },
            _ => (FetchStage::Done, FetchAction::ReturnError),
        },
        FetchStage::Retry => match event {
            FetchEvent::Fetched => (FetchStage::Done, FetchAction::ReturnTranscript),
            _ => (FetchStage::Done, FetchAction::ReturnError),
        },
        FetchStage::Done => (FetchStage::Done, FetchAction::ReturnError),
    }
}

/// The transcript chosen for a language is one of those listed.
proof fn lemma_chosen_in_range(ts: Seq<TranscriptInfoView>, language: Seq<char>, allow_prefix: bool)
    ensures
        chosen_in_language(ts, language, allow_prefix) matches Some(i) ==> 0 <= i < ts.len(),
{
    if exists|i: int| is_first_in_language(ts, language, allow_prefix, true, i) {
        let i = choose|i: int| is_first_in_language(ts, language, allow_prefix, true, i);
    } else if exists|i: int| is_first_in_language(ts, language, allow_prefix, false, i) {
        let i = choose|i: int| is_first_in_language(ts, language, allow_prefix, false, i);
    }
}

/// A code chosen for requested languages is the code of a listed
/// transcript.
proof fn lemma_requested_code_listed(ts: Seq<TranscriptInfoView>, languages: Seq<Seq<char>>)
    ensures
        requested_code(ts, languages) matches Some(code) ==> exists|k: int|
            0 <= k < ts.len() && (#[trigger] ts[k]).language_code == code,
    decreases languages.len(),
{
    if languages.len() > 0 {
        lemma_chosen_in_range(ts, languages[0], false);
        lemma_chosen_in_range(ts, languages[0], true);
        lemma_requested_code_listed(ts, languages.drop_first());
    }
}

/// Retrying only ever asks for a language code that the listing offers.
pub proof fn lemma_retry_asks_for_listed_code(
    ts: Seq<TranscriptInfoView>,
    languages: Seq<Seq<char>>,
)
    ensures
        fetch_transition(FetchStage::Listing, languages, FetchEventView::Listed(ts)).1 matches FetchActionView::Fetch(
            codes,
        ) ==> codes.len() == 1 && exists|k: int|
            0 <= k < ts.len() && (#[trigger] ts[k]).language_code == codes[0],
{
    lemma_requested_code_listed(ts, languages);
    if exists|i: int| is_first_of(ts, true, i) {
        let i = choose|i: int| is_first_of(ts, true, i);
        assert(ts[i].language_code == ts[i].language_code);
    }
    if ts.len() > 0 {
        assert(ts[0].language_code == ts[0].language_code);
    }
}

/// Fetching ends within four steps: every step moves to a later stage.
pub open spec fn stage_rank(stage: FetchStage) -> nat {
    match stage {
        FetchStage::Start => 0,
        FetchStage::FirstFetch => 1,
        FetchStage::Listing => 2,
        FetchStage::Retry => 3,
        FetchStage::Done => 4,
    }
}

/// Every expected event moves fetching to a later stage, so at most two
/// transcript requests and one listing are made.
pub proof fn lemma_fetch_progresses(stage: FetchStage, languages: Seq<Seq<char>>, event: FetchEventView)
    requires
        event_expected(stage, event),
    ensures
        stage_rank(fetch_transition(stage, languages, event).0) > stage_rank(stage),
{
}


/// Whatever languages were requested, a first fetch that finds no
/// transcript in them leads to looking at the list of transcripts.
pub proof fn lemma_not_found_leads_to_listing(languages: Seq<Seq<char>>)
    ensures
        fetch_transition(
            FetchStage::FirstFetch,
            languages,
            FetchEventView::FetchFailed { no_transcript_found: true },
        ) == (FetchStage::Listing, FetchActionView::List),
{
}

/// Unless only English was requested, when the listing holds a transcript
/// in the first requested language or a regional form of it, the retry
/// fetches a listed code that is that language or a regional form of it.
pub proof fn lemma_retry_fetches_regional_form(ts: Seq<TranscriptInfoView>, languages: Seq<Seq<char>>, k: int)
    requires
        languages != seq!["en"@],
        languages.len() > 0,
        0 <= k < ts.len(),
        is_form_of(ts[k].language_code, languages[0], true),
    ensures
        fetch_transition(FetchStage::Listing, languages, FetchEventView::Listed(ts)) matches (
            FetchStage::Retry,
            FetchActionView::Fetch(codes),
        ) && codes.len() == 1 && is_form_of(codes[0], languages[0], true) && exists|i: int|
            0 <= i < ts.len() && (#[trigger] ts[i]).language_code == codes[0],
{
    lemma_requested_code_is_requested_form(ts, languages);
    let c = requested_code(ts, languages)->Some_0;
    assert(seq![c][0] == c);
}

} // verus!
