//! The transcripts a video offers, and which one the command asks for.
use vstd::prelude::*;
use crate::text::{chars_equal, chars_of, has_prefix, starts_with_chars, sub_chars};

verus! {

/// One transcript a video offers.
#[derive(Debug)]
pub struct TranscriptInfo {
    /// Its language code, such as `en` or `en-GB`.
    pub language_code: String,
    /// The language's name.
    pub language: String,
    /// Whether YouTube generated it.
    pub is_generated: bool,
    /// Whether YouTube can translate it.
    pub is_translatable: bool,
}

/// The view of a [`TranscriptInfo`].
pub struct TranscriptInfoView {
    pub language_code: Seq<char>,
    pub language: Seq<char>,
    pub is_generated: bool,
    pub is_translatable: bool,
}

impl View for TranscriptInfo {
    type V = TranscriptInfoView;

    open spec fn view(&self) -> TranscriptInfoView {
        TranscriptInfoView {
            language_code: self.language_code@,
            language: self.language@,
            is_generated: self.is_generated,
            is_translatable: self.is_translatable,
        }
    }
}

/// The views of a list of transcripts.
pub open spec fn infos_view(ts: Seq<TranscriptInfo>) -> Seq<TranscriptInfoView> {
    Seq::new(ts.len(), |i: int| ts[i]@)
}

/// Whether a transcript is in `language`: its code is `language`, or, when
/// `allow_prefix` holds, `language` followed by a dash and a region.
pub open spec fn is_in_language(t: TranscriptInfoView, language: Seq<char>, allow_prefix: bool) -> bool {
    ||| t.language_code == language
    ||| (allow_prefix && has_prefix(t.language_code, language) && has_prefix(
        t.language_code.skip(language.len() as int),
        "-"@,
    ))
}

/// Whether `i` is the first index in `ts` whose transcript is in
/// `language` and, when `only_manual` holds, was not generated.
pub open spec fn is_first_in_language(
    ts: Seq<TranscriptInfoView>,
    language: Seq<char>,
    allow_prefix: bool,
    only_manual: bool,
    i: int,
) -> bool {
    &&& 0 <= i < ts.len()
    &&& is_in_language(ts[i], language, allow_prefix)
    &&& (only_manual ==> !ts[i].is_generated)
    &&& forall|j: int|
        0 <= j < i ==> !(is_in_language(#[trigger] ts[j], language, allow_prefix) && (only_manual
            ==> !ts[j].is_generated))
}

/// The transcript chosen for `language`: the first one in that language
/// that was not generated, else the first one in that language.
pub open spec fn chosen_in_language(
    ts: Seq<TranscriptInfoView>,
    language: Seq<char>,
    allow_prefix: bool,
) -> Option<int> {
    if exists|i: int| is_first_in_language(ts, language, allow_prefix, true, i) {
        Some(choose|i: int| is_first_in_language(ts, language, allow_prefix, true, i))
    } else if exists|i: int| is_first_in_language(ts, language, allow_prefix, false, i) {
        Some(choose|i: int| is_first_in_language(ts, language, allow_prefix, false, i))
    } else {
        None
    }
}

/// There is at most one first index.
proof fn lemma_first_unique(
    ts: Seq<TranscriptInfoView>,
    language: Seq<char>,
    allow_prefix: bool,
    only_manual: bool,
    i: int,
    k: int,
)
    requires
        is_first_in_language(ts, language, allow_prefix, only_manual, i),
        is_first_in_language(ts, language, allow_prefix, only_manual, k),
    ensures
        i == k,
{
    if i < k {
        assert(is_in_language(ts[i], language, allow_prefix));
    } else if k < i {
        assert(is_in_language(ts[k], language, allow_prefix));
    }
}

/// Whether `code` is `language`, or `language` followed by a dash.
fn code_in_language(code: &String, language: &str, allow_prefix: bool) -> (r: bool)
    ensures
        r == (code@ == language@ || (allow_prefix && has_prefix(code@, language@) && has_prefix(
            code@.skip(language@.len() as int),
            "-"@,
        ))),
{
    let c = chars_of(code.as_str());
    if chars_equal(c.as_slice(), language) {
        return true;
    }
    if !allow_prefix || !starts_with_chars(c.as_slice(), language) {
        return false;
    }
    let l = chars_of(language);
    let rest = sub_chars(c.as_slice(), l.len(), c.len());
    assert(rest@ == c@.skip(language@.len() as int));
    starts_with_chars(rest.as_slice(), "-")
}

/// The transcript in `language`, preferring one that was not generated;
/// among equals, the first listed.
pub fn find_language<'a>(transcripts: &'a [TranscriptInfo], language: &str, allow_prefix: bool) -> (r: Option<&'a TranscriptInfo>)
    ensures
        match chosen_in_language(infos_view(transcripts@), language@, allow_prefix) {
            Some(i) => r matches Some(t) && t@ == transcripts@[i]@,
            None => r is None,
        },
{
    let ghost ts = infos_view(transcripts@);
    let mut first_any: Option<usize> = None;
    let mut i: usize = 0;
    while i < transcripts.len()
        invariant
            i <= transcripts.len(),
            ts == infos_view(transcripts@),
            forall|j: int|
                0 <= j < i ==> !(is_in_language(#[trigger] ts[j], language@, allow_prefix)
                    && !ts[j].is_generated),
            match first_any {
                Some(k) => is_first_in_language(ts, language@, allow_prefix, false, k as int) && k
                    < i,
                None => forall|j: int|
                    0 <= j < i ==> !is_in_language(#[trigger] ts[j], language@, allow_prefix),
            },
        decreases transcripts.len() - i,
    {
        let t = &transcripts[i];
        assert(ts[i as int] == t@);
        if code_in_language(&t.language_code, language, allow_prefix) {
            if !t.is_generated {
                proof {
                    assert(is_first_in_language(ts, language@, allow_prefix, true, i as int));
                    let c = choose|c: int| is_first_in_language(ts, language@, allow_prefix, true, c);
                    lemma_first_unique(ts, language@, allow_prefix, true, c, i as int);
                }
                return Some(t);
            }
            if first_any.is_none() {
                first_any = Some(i);
            }
        }
        i = i + 1;
    }
    proof {
        if exists|c: int| is_first_in_language(ts, language@, allow_prefix, true, c) {
            let c = choose|c: int| is_first_in_language(ts, language@, allow_prefix, true, c);
            assert(is_in_language(ts[c], language@, allow_prefix) && !ts[c].is_generated);
        }
    }
    match first_any {
        Some(k) => {
            proof {
                let c = choose|c: int| is_first_in_language(ts, language@, allow_prefix, false, c);
                lemma_first_unique(ts, language@, allow_prefix, false, c, k as int);
            }
            Some(&transcripts[k])
        },
        None => {
            proof {
                if exists|c: int| is_first_in_language(ts, language@, allow_prefix, false, c) {
                    let c = choose|c: int|
                        is_first_in_language(ts, language@, allow_prefix, false, c);
                    assert(is_in_language(ts[c], language@, allow_prefix));
                }
            }
            None
        },
    }
}

/// Whether `code` is `language`, or, when `regional` holds, `language`
/// followed by a dash and more.
pub open spec fn is_form_of(code: Seq<char>, language: Seq<char>, regional: bool) -> bool {
    code == language || (regional && has_prefix(code, language + seq!['-']))
}

/// When some listed transcript satisfies the test, there is a first one.
proof fn lemma_first_exists(
    ts: Seq<TranscriptInfoView>,
    language: Seq<char>,
    allow_prefix: bool,
    only_manual: bool,
    k: int,
)
    requires
        0 <= k < ts.len(),
        is_in_language(ts[k], language, allow_prefix),
        only_manual ==> !ts[k].is_generated,
    ensures
        exists|i: int| is_first_in_language(ts, language, allow_prefix, only_manual, i),
    decreases k,
{
    if exists|j: int|
        0 <= j < k && (is_in_language(#[trigger] ts[j], language, allow_prefix) && (only_manual
            ==> !ts[j].is_generated)) {
        let j = choose|j: int|
            0 <= j < k && (is_in_language(#[trigger] ts[j], language, allow_prefix) && (only_manual
                ==> !ts[j].is_generated));
        lemma_first_exists(ts, language, allow_prefix, only_manual, j);
    } else {
        assert(is_first_in_language(ts, language, allow_prefix, only_manual, k));
    }
}

/// A transcript chosen for a language is listed and is in that language:
/// its code is the language itself, or, when regional forms are allowed,
/// the language followed by a dash and more. A manual one is chosen
/// whenever one in the language is listed. So `fil` is never chosen for
/// `fi`.
pub proof fn lemma_chosen_is_in_language(ts: Seq<TranscriptInfoView>, language: Seq<char>, allow_prefix: bool)
    ensures
        chosen_in_language(ts, language, allow_prefix) matches Some(i) ==> {
            &&& 0 <= i < ts.len()
            &&& is_form_of(ts[i].language_code, language, allow_prefix)
            &&& (ts[i].is_generated ==> forall|j: int|
                0 <= j < ts.len() && !(#[trigger] ts[j]).is_generated ==> !is_form_of(
                    ts[j].language_code,
                    language,
                    allow_prefix,
                ))
        },
        (exists|k: int|
            0 <= k < ts.len() && is_form_of((#[trigger] ts[k]).language_code, language, allow_prefix))
            ==> chosen_in_language(ts, language, allow_prefix) is Some,
{
    reveal_strlit("-");
    assert("-"@ =~= seq!['-']);
    assert forall|t: TranscriptInfoView| is_in_language(t, language, allow_prefix) <==> is_form_of(
        t.language_code,
        language,
        allow_prefix,
    ) by {
        let c = t.language_code;
        let n = language.len() as int;
        if allow_prefix && has_prefix(c, language) && has_prefix(c.skip(n), "-"@) {
            assert(c.subrange(0, n + 1) =~= language + seq!['-']) by {
                assert(c.skip(n).subrange(0, 1)[0] == c[n]);
            }
        }
        if allow_prefix && has_prefix(c, language + seq!['-']) {
            assert(c.subrange(0, n) =~= language) by {
                assert forall|m: int| 0 <= m < n implies c.subrange(0, n)[m] == language[m] by {
                    assert(c.subrange(0, n + 1)[m] == (language + seq!['-'])[m]);
                }
            }
            assert(c.skip(n).subrange(0, 1) =~= seq!['-']) by {
                assert(c.subrange(0, n + 1)[n] == (language + seq!['-'])[n]);
            }
        }
    }
    if exists|i: int| is_first_in_language(ts, language, allow_prefix, true, i) {
        let i = choose|i: int| is_first_in_language(ts, language, allow_prefix, true, i);
    } else if exists|i: int| is_first_in_language(ts, language, allow_prefix, false, i) {
        let i = choose|i: int| is_first_in_language(ts, language, allow_prefix, false, i);
        assert forall|j: int|
            0 <= j < ts.len() && !(#[trigger] ts[j]).is_generated implies !is_in_language(
            ts[j],
            language,
            allow_prefix,
        ) by {
            if is_in_language(ts[j], language, allow_prefix) {
                lemma_first_exists(ts, language, allow_prefix, true, j);
            }
        }
    }
    if exists|k: int|
        0 <= k < ts.len() && is_form_of((#[trigger] ts[k]).language_code, language, allow_prefix) {
        let k = choose|k: int|
            0 <= k < ts.len() && is_form_of((#[trigger] ts[k]).language_code, language, allow_prefix);
        lemma_first_exists(ts, language, allow_prefix, false, k);
    }
}

/// The language code chosen for the requested languages: for each one in
/// turn, a transcript in exactly that language, else one in a regional
/// form of it; the first language that has one decides.
pub open spec fn requested_code(ts: Seq<TranscriptInfoView>, languages: Seq<Seq<char>>) -> Option<
    Seq<char>,
>
    decreases languages.len(),
{
    if languages.len() == 0 {
        None
    } else {
        match chosen_in_language(ts, languages[0], false) {
            Some(i) => Some(ts[i].language_code),
            None => match chosen_in_language(ts, languages[0], true) {
                Some(i) => Some(ts[i].language_code),
                None => requested_code(ts, languages.drop_first()),
            },
        }
    }
}

/// The language code of the transcript chosen for the requested languages.
pub fn requested_language_code(transcripts: &[TranscriptInfo], languages: &[String]) -> (r: Option<String>)
    ensures
        match r {
            Some(code) => requested_code(infos_view(transcripts@), languages.deep_view()) == Some(
                code@,
            ),
            None => requested_code(infos_view(transcripts@), languages.deep_view()) is None,
        },
{
    let ghost ts = infos_view(transcripts@);
    let ghost all = languages.deep_view();
    let mut i: usize = 0;
    assert(all.skip(0) =~= all);
    while i < languages.len()
        invariant
            i <= languages.len(),
            ts == infos_view(transcripts@),
            all == languages.deep_view(),
            requested_code(ts, all) == requested_code(ts, all.skip(i as int)),
        decreases languages.len() - i,
    {
        let ghost rest = all.skip(i as int);
        assert(rest[0] == languages@[i as int]@);
        assert(rest.drop_first() =~= all.skip(i + 1));
        if let Some(t) = find_language(transcripts, languages[i].as_str(), false) {
            return Some(t.language_code.clone());
        }
        if let Some(t) = find_language(transcripts, languages[i].as_str(), true) {
            return Some(t.language_code.clone());
        }
        i = i + 1;
    }
    None
}

/// Whether `i` is the first index in `ts` that, when `only_manual` holds,
/// was not generated.
pub open spec fn is_first_of(ts: Seq<TranscriptInfoView>, only_manual: bool, i: int) -> bool {
    &&& 0 <= i < ts.len()
    &&& (only_manual ==> !ts[i].is_generated)
    &&& forall|j: int| 0 <= j < i ==> !(only_manual ==> !(#[trigger] ts[j]).is_generated)
}

/// The language code used when English was asked for and is missing: that
/// of the first transcript that was not generated, else that of the first
/// transcript.
pub open spec fn fallback_code(ts: Seq<TranscriptInfoView>) -> Option<Seq<char>> {
    if exists|i: int| is_first_of(ts, true, i) {
        Some(ts[choose|i: int| is_first_of(ts, true, i)].language_code)
    } else if ts.len() > 0 {
        Some(ts[0].language_code)
    } else {
        None
    }
}

/// The language code of the first transcript that was not generated, else
/// of the first transcript.
pub fn fallback_language_code(transcripts: &[TranscriptInfo]) -> (r: Option<String>)
    ensures
        match r {
            Some(code) => fallback_code(infos_view(transcripts@)) == Some(code@),
            None => fallback_code(infos_view(transcripts@)) is None,
        },
{
    let ghost ts = infos_view(transcripts@);
    let mut i: usize = 0;
    while i < transcripts.len()
        invariant
            i <= transcripts.len(),
            ts == infos_view(transcripts@),
            forall|j: int| 0 <= j < i ==> (#[trigger] ts[j]).is_generated,
        decreases transcripts.len() - i,
    {
        assert(ts[i as int] == transcripts@[i as int]@);
        if !transcripts[i].is_generated {
            proof {
                assert(is_first_of(ts, true, i as int));
                let c = choose|c: int| is_first_of(ts, true, c);
                if c < i {
                    assert(ts[c].is_generated);
                } else if i < c {
                    assert(!ts[i as int].is_generated);
                }
            }
            return Some(transcripts[i].language_code.clone());
        }
        i = i + 1;
    }
    proof {
        if exists|c: int| is_first_of(ts, true, c) {
            let c = choose|c: int| is_first_of(ts, true, c);
            assert(ts[c].is_generated);
        }
    }
    if transcripts.len() > 0 {
        assert(ts[0] == transcripts@[0]@);
        Some(transcripts[0].language_code.clone())
    } else {
        None
    }
}


/// The code chosen for requested languages is the code of a listed
/// transcript that is in one of the requested languages or a regional form
/// of it; when no listed transcript is, none is chosen. The first requested
/// language with such a transcript decides.
pub proof fn lemma_requested_code_is_requested_form(ts: Seq<TranscriptInfoView>, languages: Seq<Seq<char>>)
    ensures
        requested_code(ts, languages) matches Some(c) ==> exists|k: int, i: int|
            0 <= k < languages.len() && 0 <= i < ts.len() && (#[trigger] ts[i]).language_code == c
                && is_form_of(c, #[trigger] languages[k], true),
        (forall|k: int, i: int|
            0 <= k < languages.len() && 0 <= i < ts.len() ==> !is_form_of(
                (#[trigger] ts[i]).language_code,
                #[trigger] languages[k],
                true,
            )) ==> requested_code(ts, languages) is None,
        languages.len() > 0 && (exists|i: int|
            0 <= i < ts.len() && is_form_of((#[trigger] ts[i]).language_code, languages[0], true))
            ==> (requested_code(ts, languages) matches Some(c) && is_form_of(c, languages[0], true)
            && exists|i: int| 0 <= i < ts.len() && (#[trigger] ts[i]).language_code == c),
    decreases languages.len(),
{
    if languages.len() > 0 {
        let l = languages[0];
        let rest = languages.drop_first();
        lemma_chosen_is_in_language(ts, l, false);
        lemma_chosen_is_in_language(ts, l, true);
        lemma_requested_code_is_requested_form(ts, rest);
        match chosen_in_language(ts, l, false) {
            Some(i) => {
                assert(ts[i].language_code == l);
                assert(is_form_of(ts[i].language_code, languages[0], true));
            },
            None => match chosen_in_language(ts, l, true) {
                Some(i) => {
                    assert(is_form_of(ts[i].language_code, languages[0], true));
                },
                None => {
                    if requested_code(ts, rest) is Some {
                        let c = requested_code(ts, rest)->Some_0;
                        let (k, i) = choose|k: int, i: int|
                            0 <= k < rest.len() && 0 <= i < ts.len() && (#[trigger] ts[i]).language_code
                                == c && is_form_of(c, #[trigger] rest[k], true);
                        assert(languages[k + 1] == rest[k]);
                        assert(ts[i].language_code == c && is_form_of(c, languages[k + 1], true));
                    }
                    if forall|k: int, i: int|
                        0 <= k < languages.len() && 0 <= i < ts.len() ==> !is_form_of(
                            (#[trigger] ts[i]).language_code,
                            #[trigger] languages[k],
                            true,
                        ) {
                        assert forall|k: int, i: int|
                            0 <= k < rest.len() && 0 <= i < ts.len() implies !is_form_of(
                            (#[trigger] ts[i]).language_code,
                            #[trigger] rest[k],
                            true,
                        ) by {
                            assert(rest[k] == languages[k + 1]);
                        }
                    }
                },
            },
        }
    }
}

} // verus!
