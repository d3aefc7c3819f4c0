//! The command line: which words are options, which are language codes and
//! which is the video.
use vstd::prelude::*;
use crate::errors::{CliError, CliErrorView};
use crate::text::{
    chars_equal, chars_of, has_prefix, is_option_like, is_white_space, join_with, lemma_split_join, lemma_split_pieces_lack_sep, trim_end, trim_start,
    lemma_trim_clean, option_like, split_chars, split_on, starts_with_chars, string_of,
    strip_repeated_prefix, strip_repeated_prefix_chars, trim, trim_chars,
};

verus! {

/// What the command line asks for.
#[derive(Debug)]
pub struct Config {
    /// The video, as written: a URL or an ID.
    pub video: String,
    /// Whether the transcript also goes to the clipboard.
    pub copy: bool,
    /// Preferred transcript languages, in order.
    pub languages: Vec<String>,
    /// Whether each line is prefixed with its start time.
    pub timestamps: bool,
    /// Accepted and ignored.
    pub preserve_formatting: bool,
    /// Whether to list the available transcripts instead.
    pub list: bool,
}

/// The view of a [`Config`].
pub struct ConfigView {
    pub video: Seq<char>,
    pub copy: bool,
    pub languages: Seq<Seq<char>>,
    pub timestamps: bool,
    pub preserve_formatting: bool,
    pub list: bool,
}

impl View for Config {
    type V = ConfigView;

    open spec fn view(&self) -> ConfigView {
        ConfigView {
            video: self.video@,
            copy: self.copy,
            languages: self.languages.deep_view(),
            timestamps: self.timestamps,
            preserve_formatting: self.preserve_formatting,
            list: self.list,
        }
    }
}

/// The trimmed, non-empty pieces of `pieces`, in order.
pub open spec fn nonempty_trimmed(pieces: Seq<Seq<char>>) -> Seq<Seq<char>>
    decreases pieces.len(),
{
    if pieces.len() == 0 {
        Seq::empty()
    } else {
        let rest = nonempty_trimmed(pieces.drop_last());
        let t = trim(pieces.last());
        if t.len() > 0 {
            rest.push(t)
        } else {
            rest
        }
    }
}

/// The language codes in one comma separated word: the pieces between
/// commas, trimmed, the empty ones left out.
pub open spec fn language_values(raw: Seq<char>) -> Seq<Seq<char>> {
    nonempty_trimmed(split_on(raw, ','))
}

/// Whether some word at `start` or later is not an option.
pub open spec fn later_non_option(args: Seq<Seq<char>>, start: int) -> bool {
    exists|k: int| start <= k < args.len() && !is_option_like(#[trigger] args[k])
}

/// Whether the word at `idx` is taken as language codes, given whether the
/// video was already seen and the codes gathered so far: it must not be an
/// option, and it must not be the last word that could still be the video.
pub open spec fn takes_as_languages(
    args: Seq<Seq<char>>,
    idx: int,
    video_seen: bool,
    acc: Seq<Seq<char>>,
) -> bool {
    &&& 0 <= idx < args.len()
    &&& !is_option_like(args[idx])
    &&& (video_seen || later_non_option(args, idx + 1) || acc.len() == 0)
}

/// Where the words after `-l` / `--lang` that hold language codes end, and
/// the codes they hold, starting at `idx` with `acc` already gathered.
pub open spec fn collected(
    args: Seq<Seq<char>>,
    idx: int,
    video_seen: bool,
    acc: Seq<Seq<char>>,
) -> (int, Seq<Seq<char>>)
    decreases args.len() - idx,
{
    if takes_as_languages(args, idx, video_seen, acc) {
        collected(args, idx + 1, video_seen, acc + language_values(args[idx]))
    } else {
        (idx, acc)
    }
}

/// The options and video seen so far while reading the command line.
pub struct ParseState {
    pub video: Option<Seq<char>>,
    pub copy: bool,
    pub languages: Option<Seq<Seq<char>>>,
    pub timestamps: bool,
    pub preserve_formatting: bool,
    pub list: bool,
}

/// Nothing seen yet.
pub open spec fn initial_state() -> ParseState {
    ParseState {
        video: None,
        copy: false,
        languages: None,
        timestamps: false,
        preserve_formatting: false,
        list: false,
    }
}

/// The languages used when none are given.
pub open spec fn default_languages() -> Seq<Seq<char>> {
    seq!["en"@]
}

/// The outcome once every word has been read.
pub open spec fn finish(st: ParseState) -> Result<ConfigView, CliErrorView> {
    match st.video {
        None => Err(CliErrorView::Usage("missing required argument: video"@)),
        Some(video) => Ok(
            ConfigView {
                video,
                copy: st.copy,
                languages: match st.languages {
                    Some(l) => l,
                    None => default_languages(),
                },
                timestamps: st.timestamps,
                preserve_formatting: st.preserve_formatting,
                list: st.list,
            },
        ),
    }
}

pub proof fn lemma_collected_bounds(
    args: Seq<Seq<char>>,
    idx: int,
    video_seen: bool,
    acc: Seq<Seq<char>>,
)
    requires
        0 <= idx <= args.len(),
    ensures
        idx <= collected(args, idx, video_seen, acc).0 <= args.len(),
    decreases args.len() - idx,
{
    if takes_as_languages(args, idx, video_seen, acc) {
        lemma_collected_bounds(args, idx + 1, video_seen, acc + language_values(args[idx]));
    }
}

/// The outcome of reading the words from `i` on, in state `st`.
pub open spec fn parse_from(args: Seq<Seq<char>>, i: int, st: ParseState) -> Result<
    ConfigView,
    CliErrorView,
>
    decreases args.len() - i,
{
    if i < 0 || i >= args.len() {
        finish(st)
    } else {
        let a = args[i];
        if a == "-h"@ || a == "--help"@ {
            Err(CliErrorView::Help)
        } else if a == "-c"@ || a == "--c"@ || a == "--copy"@ {
            parse_from(args, i + 1, ParseState { copy: true, ..st })
        } else if a == "--timestamps"@ {
            parse_from(args, i + 1, ParseState { timestamps: true, ..st })
        } else if a == "--preserve-formatting"@ {
            parse_from(args, i + 1, ParseState { preserve_formatting: true, ..st })
        } else if a == "--list"@ {
            parse_from(args, i + 1, ParseState { list: true, ..st })
        } else if a == "-l"@ || a == "--lang"@ {
            let (j, values) = collected(args, i + 1, st.video is Some, Seq::empty());
            proof {
                lemma_collected_bounds(args, i + 1, st.video is Some, Seq::empty());
            }
            if values.len() == 0 {
                Err(CliErrorView::Usage("expected at least one language after "@ + args[j - 1]))
            } else {
                parse_from(args, j, ParseState { languages: Some(values), ..st })
            }
        } else if has_prefix(a, "--lang="@) {
            let values = language_values(strip_repeated_prefix(a, "--lang="@));
            if values.len() == 0 {
                Err(CliErrorView::Usage("expected at least one language after --lang="@))
            } else {
                parse_from(args, i + 1, ParseState { languages: Some(values), ..st })
            }
        } else if is_option_like(a) {
            Err(CliErrorView::Usage("unknown option: "@ + a))
        } else if st.video is Some {
            Err(CliErrorView::Usage("unexpected argument: "@ + a))
        } else {
            parse_from(args, i + 1, ParseState { video: Some(a), ..st })
        }
    }
}

/// The outcome of reading a whole command line.
pub open spec fn parse_outcome(args: Seq<Seq<char>>) -> Result<ConfigView, CliErrorView> {
    parse_from(args, 0, initial_state())
}

/// The view of a parse result.
pub open spec fn result_view(r: Result<Config, CliError>) -> Result<ConfigView, CliErrorView> {
    match r {
        Ok(c) => Ok(c@),
        Err(e) => Err(e@),
    }
}

/// Splits one word into language codes: the pieces between commas,
/// trimmed, the empty ones left out.
pub fn split_language_values(raw: &str) -> (values: Vec<String>)
    ensures
        values.deep_view() == language_values(raw@),
{
    let chars = chars_of(raw);
    let pieces = split_chars(chars.as_slice(), ',');
    let mut values: Vec<String> = Vec::new();
    let mut i: usize = 0;
    assert(pieces.deep_view().take(0) =~= Seq::<Seq<char>>::empty());
    while i < pieces.len()
        invariant
            i <= pieces.len(),
            pieces.deep_view() == split_on(raw@, ','),
            values.deep_view() == nonempty_trimmed(pieces.deep_view().take(i as int)),
        decreases pieces.len() - i,
    {
        let t = trim_chars(pieces[i].as_slice());
        assert(pieces.deep_view().take(i + 1).drop_last() =~= pieces.deep_view().take(i as int));
        assert(pieces[i as int].deep_view() =~= pieces[i as int]@);
        assert(pieces.deep_view().take(i + 1).last() == pieces[i as int]@);
        if t.len() > 0 {
            let s = string_of(t.as_slice());
            let ghost old_values = values.deep_view();
            values.push(s);
            assert(values.deep_view() =~= old_values.push(s@));
        }
        i = i + 1;
    }
    assert(pieces.deep_view().take(pieces.len() as int) =~= pieces.deep_view());
    values
}

/// Whether some argument at `start` or later does not begin with a dash.
pub fn has_later_non_option(args: &[String], start: usize) -> (r: bool)
    ensures
        r == later_non_option(args.deep_view(), start as int),
{
    let mut k: usize = start;
    while k < args.len()
        invariant
            start <= k,
            forall|m: int|
                start <= m < k && m < args.len() ==> is_option_like(#[trigger] args.deep_view()[m]),
        decreases args.len() - k,
    {
        let a = chars_of(args[k].as_str());
        if !option_like(a.as_slice()) {
            assert(args.deep_view()[k as int] == a@);
            return true;
        }
        assert(args.deep_view()[k as int] == a@);
        k = k + 1;
    }
    false
}

/// Gathers the language codes that follow `-l` / `--lang`, starting at
/// `*index` and leaving `*index` at the first word not taken.
pub fn collect_language_values(args: &[String], index: &mut usize, video_already_seen: bool) -> (values: Vec<String>)
    ensures
        (*final(index) as int, values.deep_view()) == collected(
            args.deep_view(),
            *old(index) as int,
            video_already_seen,
            Seq::empty(),
        ),
{
    let ghost all = args.deep_view();
    let ghost start = *index as int;
    let mut values: Vec<String> = Vec::new();
    if *index >= args.len() {
        return values;
    }
    loop
        invariant
            all == args.deep_view(),
            *index <= args.len(),
            collected(all, start, video_already_seen, Seq::empty()) == collected(
                all,
                *index as int,
                video_already_seen,
                values.deep_view(),
            ),
        ensures
            collected(all, start, video_already_seen, Seq::empty()) == (
                *index as int,
                values.deep_view(),
            ),
        decreases args.len() - *index,
    {
        if *index >= args.len() {
            break;
        }
        let value = chars_of(args[*index].as_str());
        assert(all[*index as int] == value@);
        if option_like(value.as_slice()) {
            break;
        }
        let should_treat_as_language = video_already_seen || has_later_non_option(args, *index + 1)
            || values.len() == 0;
        if !should_treat_as_language {
            break;
        }
        let more = split_language_values(args[*index].as_str());
        let ghost before = values.deep_view();
        let mut k: usize = 0;
        while k < more.len()
            invariant
                k <= more.len(),
                values.deep_view() == before + more.deep_view().take(k as int),
            decreases more.len() - k,
        {
            let ghost prev = values.deep_view();
            values.push(more[k].clone());
            assert(values.deep_view() =~= prev.push(more.deep_view()[k as int]));
            assert(more.deep_view().take(k + 1) =~= more.deep_view().take(k as int).push(
                more.deep_view()[k as int],
            ));
            k = k + 1;
        }
        assert(more.deep_view().take(more.len() as int) =~= more.deep_view());
        *index = *index + 1;
    }
    values
}

/// A language code as the command keeps it: not empty, without white
/// space at either end, without a comma.
pub open spec fn is_clean_language(l: Seq<char>) -> bool {
    &&& l.len() > 0
    &&& !is_white_space(l[0])
    &&& !is_white_space(l.last())
    &&& !l.contains(',')
}

/// Whether every code in `ls` is clean.
pub open spec fn all_clean(ls: Seq<Seq<char>>) -> bool {
    forall|k: int| 0 <= k < ls.len() ==> is_clean_language(#[trigger] ls[k])
}

/// Whether a word satisfying `f` occurs at `i` or later.
pub open spec fn given_from(args: Seq<Seq<char>>, i: int, f: spec_fn(Seq<char>) -> bool) -> bool {
    exists|k: int| i <= k < args.len() && f(#[trigger] args[k])
}

/// The words that ask for the clipboard.
pub open spec fn is_copy_flag(w: Seq<char>) -> bool {
    w == "-c"@ || w == "--c"@ || w == "--copy"@
}

/// The words that set the languages.
pub open spec fn is_lang_option(w: Seq<char>) -> bool {
    w == "-l"@ || w == "--lang"@ || has_prefix(w, "--lang="@)
}

proof fn lemma_nonempty_trimmed_clean(pieces: Seq<Seq<char>>)
    requires
        forall|p: int| 0 <= p < pieces.len() ==> !(#[trigger] pieces[p]).contains(','),
    ensures
        all_clean(nonempty_trimmed(pieces)),
    decreases pieces.len(),
{
    if pieces.len() > 0 {
        let rest = pieces.drop_last();
        assert forall|p: int| 0 <= p < rest.len() implies !(#[trigger] rest[p]).contains(',') by {
            assert(rest[p] == pieces[p]);
        }
        lemma_nonempty_trimmed_clean(rest);
        let t = trim(pieces.last());
        lemma_trim_clean(pieces.last());
        assert(!pieces[pieces.len() - 1].contains(','));
        let r = nonempty_trimmed(pieces);
        let rr = nonempty_trimmed(rest);
        assert forall|k: int| 0 <= k < r.len() implies is_clean_language(#[trigger] r[k]) by {
            if k < rr.len() {
                assert(r[k] == rr[k]);
            } else {
                assert(r[k] == t);
            }
        }
    }
}

proof fn lemma_language_values_clean(raw: Seq<char>)
    ensures
        all_clean(language_values(raw)),
{
    lemma_split_pieces_lack_sep(raw, ',');
    lemma_nonempty_trimmed_clean(split_on(raw, ','));
}

proof fn lemma_collected_facts(args: Seq<Seq<char>>, idx: int, video_seen: bool, acc: Seq<Seq<char>>)
    requires
        0 <= idx <= args.len(),
        all_clean(acc),
    ensures
        idx <= collected(args, idx, video_seen, acc).0 <= args.len(),
        all_clean(collected(args, idx, video_seen, acc).1),
        acc.len() <= collected(args, idx, video_seen, acc).1.len(),
        forall|k: int|
            idx <= k < collected(args, idx, video_seen, acc).0 ==> !is_option_like(#[trigger] args[k]),
    decreases args.len() - idx,
{
    if takes_as_languages(args, idx, video_seen, acc) {
        let more = language_values(args[idx]);
        lemma_language_values_clean(args[idx]);
        let next = acc + more;
        assert forall|k: int| 0 <= k < next.len() implies is_clean_language(#[trigger] next[k]) by {
            if k < acc.len() {
                assert(next[k] == acc[k]);
            } else {
                assert(next[k] == more[k - acc.len()]);
            }
        }
        lemma_collected_facts(args, idx + 1, video_seen, next);
    }
}

proof fn lemma_given_step(args: Seq<Seq<char>>, i: int, f: spec_fn(Seq<char>) -> bool)
    requires
        0 <= i < args.len(),
    ensures
        given_from(args, i, f) == (f(args[i]) || given_from(args, i + 1, f)),
{
    if given_from(args, i, f) && !f(args[i]) {
        let k = choose|k: int| i <= k < args.len() && f(#[trigger] args[k]);
        assert(i + 1 <= k);
    }
}

proof fn lemma_given_skip(args: Seq<Seq<char>>, i: int, j: int, f: spec_fn(Seq<char>) -> bool)
    requires
        0 <= i <= j <= args.len(),
        forall|k: int| i <= k < j ==> !f(#[trigger] args[k]),
    ensures
        given_from(args, i, f) == given_from(args, j, f),
{
    if given_from(args, i, f) {
        let k = choose|k: int| i <= k < args.len() && f(#[trigger] args[k]);
        assert(j <= k);
    }
}

/// Trimming leaves a clean code as it is.
proof fn lemma_clean_trimmed(l: Seq<char>)
    requires
        is_clean_language(l),
    ensures
        trim(l) == l,
{
    assert(trim_start(l) == l);
    assert(trim_end(l) == l);
}

/// Clean codes pass the trimming and filtering of language lists
/// unchanged.
proof fn lemma_nonempty_trimmed_keeps_clean(ls: Seq<Seq<char>>)
    requires
        all_clean(ls),
    ensures
        nonempty_trimmed(ls) == ls,
    decreases ls.len(),
{
    if ls.len() > 0 {
        let rest = ls.drop_last();
        assert forall|k: int| 0 <= k < rest.len() implies is_clean_language(#[trigger] rest[k]) by {
            assert(rest[k] == ls[k]);
        }
        lemma_nonempty_trimmed_keeps_clean(rest);
        lemma_clean_trimmed(ls[ls.len() - 1]);
        assert(rest.push(ls.last()) =~= ls);
    }
}

/// Clean language codes joined with commas read back as the same codes.
pub proof fn lemma_clean_languages_round_trip(ls: Seq<Seq<char>>)
    requires
        all_clean(ls),
    ensures
        language_values(join_with(ls, ',')) == ls,
{
    if ls.len() == 0 {
        let pieces = split_on(join_with(ls, ','), ',');
        assert(pieces =~= seq![Seq::<char>::empty()]);
        assert(pieces.drop_last() =~= Seq::<Seq<char>>::empty());
        assert(pieces.last() =~= Seq::<char>::empty());
        assert(trim_start(Seq::<char>::empty()) =~= Seq::<char>::empty());
        assert(trim(pieces.last()).len() == 0);
        assert(nonempty_trimmed(pieces.drop_last()).len() == 0);
        assert(nonempty_trimmed(pieces).len() == 0);
        assert(language_values(join_with(ls, ',')) =~= ls);
    } else {
        assert forall|k: int| 0 <= k < ls.len() implies !(#[trigger] ls[k]).contains(',') by {
            assert(is_clean_language(ls[k]));
        }
        lemma_split_join(ls, ',');
        lemma_nonempty_trimmed_keeps_clean(ls);
    }
}

/// The language codes read from a word, joined again with commas, read
/// back as the same codes.
pub proof fn lemma_language_values_round_trip(raw: Seq<char>)
    ensures
        language_values(join_with(language_values(raw), ',')) == language_values(raw),
{
    lemma_language_values_clean(raw);
    lemma_clean_languages_round_trip(language_values(raw));
}

/// What the state holds is well formed.
pub open spec fn state_ok(st: ParseState) -> bool {
    &&& (st.languages matches Some(ls) ==> ls.len() > 0 && all_clean(ls))
    &&& (st.video matches Some(v) ==> !is_option_like(v))
}

/// What a successful parse from `i` in state `st` gives.
pub open spec fn parse_facts(args: Seq<Seq<char>>, i: int, st: ParseState, c: ConfigView) -> bool {
    &&& c.copy == (st.copy || given_from(args, i, |w: Seq<char>| is_copy_flag(w)))
    &&& c.timestamps == (st.timestamps || given_from(args, i, |w: Seq<char>| w == "--timestamps"@))
    &&& c.list == (st.list || given_from(args, i, |w: Seq<char>| w == "--list"@))
    &&& c.preserve_formatting == (st.preserve_formatting || given_from(
        args,
        i,
        |w: Seq<char>| w == "--preserve-formatting"@,
    ))
    &&& c.languages.len() > 0
    &&& all_clean(c.languages)
    &&& ((st.languages is None && !given_from(args, i, |w: Seq<char>| is_lang_option(w)))
        ==> c.languages == default_languages())
    &&& !is_option_like(c.video)
    &&& (st.video matches Some(v) ==> c.video == v)
    &&& (st.video is None ==> given_from(args, i, |w: Seq<char>| w == c.video))
}

/// The characters of the option words and of the default language.
proof fn lemma_option_words()
    ensures
        "-h"@ == seq!['-', 'h'],
        "--help"@ == seq!['-', '-', 'h', 'e', 'l', 'p'],
        "-c"@ == seq!['-', 'c'],
        "--c"@ == seq!['-', '-', 'c'],
        "--copy"@ == seq!['-', '-', 'c', 'o', 'p', 'y'],
        "--timestamps"@ == seq!['-', '-', 't', 'i', 'm', 'e', 's', 't', 'a', 'm', 'p', 's'],
        "--preserve-formatting"@ == seq![
            '-', '-', 'p', 'r', 'e', 's', 'e', 'r', 'v', 'e', '-', 'f', 'o', 'r', 'm', 'a', 't',
            't', 'i', 'n', 'g',
        ],
        "--list"@ == seq!['-', '-', 'l', 'i', 's', 't'],
        "-l"@ == seq!['-', 'l'],
        "--lang"@ == seq!['-', '-', 'l', 'a', 'n', 'g'],
        "--lang="@ == seq!['-', '-', 'l', 'a', 'n', 'g', '='],
        "en"@ == seq!['e', 'n'],
{
    reveal_strlit("-h");
    reveal_strlit("--help");
    reveal_strlit("-c");
    reveal_strlit("--c");
    reveal_strlit("--copy");
    reveal_strlit("--timestamps");
    reveal_strlit("--preserve-formatting");
    reveal_strlit("--list");
    reveal_strlit("-l");
    reveal_strlit("--lang");
    reveal_strlit("--lang=");
    reveal_strlit("en");
    assert("-h"@ =~= seq!['-', 'h']);
    assert("--help"@ =~= seq!['-', '-', 'h', 'e', 'l', 'p']);
    assert("-c"@ =~= seq!['-', 'c']);
    assert("--c"@ =~= seq!['-', '-', 'c']);
    assert("--copy"@ =~= seq!['-', '-', 'c', 'o', 'p', 'y']);
    assert("--timestamps"@ =~= seq!['-', '-', 't', 'i', 'm', 'e', 's', 't', 'a', 'm', 'p', 's']);
    assert("--preserve-formatting"@ =~= seq![
        '-', '-', 'p', 'r', 'e', 's', 'e', 'r', 'v', 'e', '-', 'f', 'o', 'r', 'm', 'a', 't',
        't', 'i', 'n', 'g',
    ]);
    assert("--list"@ =~= seq!['-', '-', 'l', 'i', 's', 't']);
    assert("-l"@ =~= seq!['-', 'l']);
    assert("--lang"@ =~= seq!['-', '-', 'l', 'a', 'n', 'g']);
    assert("--lang="@ =~= seq!['-', '-', 'l', 'a', 'n', 'g', '=']);
    assert("en"@ =~= seq!['e', 'n']);
}

proof fn lemma_parse_from_facts(args: Seq<Seq<char>>, i: int, st: ParseState)
    requires
        0 <= i <= args.len(),
        state_ok(st),
    ensures
        parse_from(args, i, st) matches Ok(c) ==> parse_facts(args, i, st, c),
    decreases args.len() - i,
{
    lemma_option_words();
    let copy = |w: Seq<char>| is_copy_flag(w);
    let ts = |w: Seq<char>| w == "--timestamps"@;
    let list = |w: Seq<char>| w == "--list"@;
    let pf = |w: Seq<char>| w == "--preserve-formatting"@;
    let lang = |w: Seq<char>| is_lang_option(w);
    if i >= args.len() {
        if parse_from(args, i, st) is Ok {
            let c = parse_from(args, i, st)->Ok_0;
            assert(is_clean_language("en"@));
            assert(all_clean(default_languages()));
            assert(parse_facts(args, i, st, c));
        }
    } else {
        let a = args[i];
        lemma_given_step(args, i, copy);
        lemma_given_step(args, i, ts);
        lemma_given_step(args, i, list);
        lemma_given_step(args, i, pf);
        lemma_given_step(args, i, lang);
        if a == "-h"@ || a == "--help"@ {
        } else if a == "-c"@ || a == "--c"@ || a == "--copy"@ {
            lemma_parse_from_facts(args, i + 1, ParseState { copy: true, ..st });
        } else if a == "--timestamps"@ {
            lemma_parse_from_facts(args, i + 1, ParseState { timestamps: true, ..st });
        } else if a == "--preserve-formatting"@ {
            lemma_parse_from_facts(args, i + 1, ParseState { preserve_formatting: true, ..st });
        } else if a == "--list"@ {
            lemma_parse_from_facts(args, i + 1, ParseState { list: true, ..st });
        } else if a == "-l"@ || a == "--lang"@ {
            let (j, values) = collected(args, i + 1, st.video is Some, Seq::empty());
            lemma_collected_facts(args, i + 1, st.video is Some, Seq::empty());
            if values.len() > 0 {
                let st2 = ParseState { languages: Some(values), ..st };
                lemma_parse_from_facts(args, j, st2);
                lemma_given_skip(args, i + 1, j, copy);
                lemma_given_skip(args, i + 1, j, ts);
                lemma_given_skip(args, i + 1, j, list);
                lemma_given_skip(args, i + 1, j, pf);
                if parse_from(args, i, st) is Ok && st.video is None {
                    let c = parse_from(args, i, st)->Ok_0;
                    let v = |w: Seq<char>| w == c.video;
                    if given_from(args, j, v) {
                        let k = choose|k: int| j <= k < args.len() && v(#[trigger] args[k]);
                        assert(i <= k);
                    }
                }
            }
        } else if has_prefix(a, "--lang="@) {
            let values = language_values(strip_repeated_prefix(a, "--lang="@));
            lemma_language_values_clean(strip_repeated_prefix(a, "--lang="@));
            if values.len() > 0 {
                lemma_parse_from_facts(args, i + 1, ParseState { languages: Some(values), ..st });
            }
        } else if is_option_like(a) {
        } else if st.video is Some {
        } else {
            lemma_parse_from_facts(args, i + 1, ParseState { video: Some(a), ..st });
            if parse_from(args, i, st) is Ok {
                let c = parse_from(args, i, st)->Ok_0;
                let v = |w: Seq<char>| w == c.video;
                lemma_given_step(args, i, v);
            }
        }
    }
}

/// The clipboard is asked for exactly when `-c`, `--c` or `--copy` occurs
/// among the words, before or after the video.
pub proof fn lemma_copy_flag_anywhere(args: Seq<Seq<char>>)
    ensures
        parse_outcome(args) matches Ok(c) ==> c.copy == given_from(
            args,
            0,
            |w: Seq<char>| is_copy_flag(w),
        ),
{
    lemma_parse_from_facts(args, 0, initial_state());
}

/// `--timestamps`, `--list` and `--preserve-formatting` take effect exactly
/// when they occur among the words.
pub proof fn lemma_switches_anywhere(args: Seq<Seq<char>>)
    ensures
        parse_outcome(args) matches Ok(c) ==> {
            &&& c.timestamps == given_from(args, 0, |w: Seq<char>| w == "--timestamps"@)
            &&& c.list == given_from(args, 0, |w: Seq<char>| w == "--list"@)
            &&& c.preserve_formatting == given_from(
                args,
                0,
                |w: Seq<char>| w == "--preserve-formatting"@,
            )
        },
{
    lemma_parse_from_facts(args, 0, initial_state());
}

/// Every accepted command line yields at least one language, and every
/// language is a clean code: not empty, no white space at its ends, no
/// comma.
pub proof fn lemma_languages_clean(args: Seq<Seq<char>>)
    ensures
        parse_outcome(args) matches Ok(c) ==> c.languages.len() > 0 && all_clean(c.languages),
{
    lemma_parse_from_facts(args, 0, initial_state());
}

/// Without `-l`, `--lang` or `--lang=…`, the language is English.
pub proof fn lemma_default_language(args: Seq<Seq<char>>)
    ensures
        parse_outcome(args) matches Ok(c) ==> (!given_from(args, 0, |w: Seq<char>| is_lang_option(w))
            ==> c.languages == default_languages()),
{
    lemma_parse_from_facts(args, 0, initial_state());
}

/// The video of an accepted command line is one of its words, and not an
/// option.
pub proof fn lemma_video_is_given_word(args: Seq<Seq<char>>)
    ensures
        parse_outcome(args) matches Ok(c) ==> !is_option_like(c.video) && exists|k: int|
            0 <= k < args.len() && args[k] == c.video,
{
    lemma_parse_from_facts(args, 0, initial_state());
    if parse_outcome(args) is Ok {
        let c = parse_outcome(args)->Ok_0;
        let v = |w: Seq<char>| w == c.video;
        assert(given_from(args, 0, v));
        let k = choose|k: int| 0 <= k < args.len() && v(#[trigger] args[k]);
        assert(args[k] == c.video);
    }
}

/// A word that does not begin with a dash is none of the option words.
proof fn lemma_free_word(w: Seq<char>)
    requires
        !is_option_like(w),
    ensures
        w != "-h"@ && w != "--help"@ && w != "-c"@ && w != "--c"@ && w != "--copy"@ && w
            != "--timestamps"@ && w != "--preserve-formatting"@ && w != "--list"@ && w != "-l"@
            && w != "--lang"@,
        !has_prefix(w, "--lang="@),
{
    lemma_option_words();
    if w.len() > 0 {
        assert(w[0] != '-');
    }
    if has_prefix(w, "--lang="@) {
        assert(w.subrange(0, 7)[0] == w[0]);
    }
}

/// When the words left are `-l`/`--lang`, a word of codes and the video,
/// the languages are the codes of that word, whatever languages were set
/// before: the last language option wins.
pub proof fn lemma_last_lang_option_wins(args: Seq<Seq<char>>, i: int, st: ParseState)
    requires
        0 <= i,
        args.len() == i + 3,
        args[i] == "-l"@ || args[i] == "--lang"@,
        !is_option_like(args[i + 1]),
        !is_option_like(args[i + 2]),
        language_values(args[i + 1]).len() > 0,
        st.video is None,
    ensures
        parse_from(args, i, st) == Ok::<ConfigView, CliErrorView>(
            ConfigView {
                video: args[i + 2],
                copy: st.copy,
                languages: language_values(args[i + 1]),
                timestamps: st.timestamps,
                preserve_formatting: st.preserve_formatting,
                list: st.list,
            },
        ),
{
    lemma_option_words();
    let values = language_values(args[i + 1]);
    let video = args[i + 2];
    lemma_free_word(video);
    let with_lang = ParseState { languages: Some(values), ..st };
    let with_video = ParseState { video: Some(video), ..with_lang };
    assert(parse_from(args, i + 3, with_video) == finish(with_video));
    assert(parse_from(args, i + 2, with_lang) == parse_from(args, i + 3, with_video));
    assert(!later_non_option(args, i + 3));
    assert(takes_as_languages(args, i + 1, false, Seq::empty()));
    assert(Seq::<Seq<char>>::empty() + values =~= values);
    assert(!takes_as_languages(args, i + 2, false, values));
    assert(collected(args, i + 2, false, values) == (i + 2, values));
    assert(collected(args, i + 1, false, Seq::empty()) == (i + 2, values));
}

/// When the words left are `--lang=CODES` and the video, the languages are
/// those codes, whatever languages were set before.
pub proof fn lemma_last_lang_equals_option_wins(args: Seq<Seq<char>>, i: int, st: ParseState, codes: Seq<char>)
    requires
        0 <= i,
        args.len() == i + 2,
        args[i] == "--lang="@ + codes,
        !is_option_like(codes),
        !is_option_like(args[i + 1]),
        language_values(codes).len() > 0,
        st.video is None,
    ensures
        parse_from(args, i, st) == Ok::<ConfigView, CliErrorView>(
            ConfigView {
                video: args[i + 1],
                copy: st.copy,
                languages: language_values(codes),
                timestamps: st.timestamps,
                preserve_formatting: st.preserve_formatting,
                list: st.list,
            },
        ),
{
    lemma_option_words();
    let values = language_values(codes);
    let video = args[i + 1];
    lemma_free_word(video);
    lemma_free_word(codes);
    let joined = args[i];
    let with_lang = ParseState { languages: Some(values), ..st };
    let with_video = ParseState { video: Some(video), ..with_lang };
    assert(parse_from(args, i + 2, with_video) == finish(with_video));
    assert(parse_from(args, i + 1, with_lang) == parse_from(args, i + 2, with_video));
    assert(has_prefix(joined, "--lang="@)) by {
        assert(joined.subrange(0, 7) =~= "--lang="@);
    }
    assert(joined.subrange(7, joined.len() as int) =~= codes);
    assert(strip_repeated_prefix(codes, "--lang="@) == codes);
    assert(strip_repeated_prefix(joined, "--lang="@) == codes);
    assert(codes.len() > 0) by {
        if codes.len() == 0 {
            let pieces = split_on(codes, ',');
            assert(pieces =~= seq![Seq::<char>::empty()]);
            assert(pieces.drop_last() =~= Seq::<Seq<char>>::empty());
            assert(pieces.last() =~= Seq::<char>::empty());
            assert(trim_start(Seq::<char>::empty()) =~= Seq::<char>::empty());
            assert(trim(pieces.last()).len() == 0);
            assert(nonempty_trimmed(pieces.drop_last()).len() == 0);
            assert(nonempty_trimmed(pieces).len() == 0);
        }
    }
    assert(joined[2] == 'l' && joined[3] == 'a' && joined.len() > 7);
    assert(joined != "--timestamps"@) by {
        if joined == "--timestamps"@ {
            assert(joined[2] == "--timestamps"@[2]);
        }
    }
    assert(joined != "--preserve-formatting"@) by {
        if joined == "--preserve-formatting"@ {
            assert(joined[2] == "--preserve-formatting"@[2]);
        }
    }
}

/// A later `--lang` replaces an earlier one: `--lang A --lang B VIDEO`
/// asks for the codes of B.
pub proof fn lemma_later_lang_replaces_earlier(a: Seq<char>, b: Seq<char>, video: Seq<char>)
    requires
        !is_option_like(a),
        !is_option_like(b),
        !is_option_like(video),
        language_values(a).len() > 0,
        language_values(b).len() > 0,
    ensures
        parse_outcome(seq!["--lang"@, a, "--lang"@, b, video]) == Ok::<ConfigView, CliErrorView>(
            ConfigView {
                video,
                copy: false,
                languages: language_values(b),
                timestamps: false,
                preserve_formatting: false,
                list: false,
            },
        ),
{
    lemma_option_words();
    let args = seq!["--lang"@, a, "--lang"@, b, video];
    let st = ParseState { languages: Some(language_values(a)), ..initial_state() };
    lemma_last_lang_option_wins(args, 2, st);
    assert(is_option_like(args[2]));
    assert(takes_as_languages(args, 1, false, Seq::empty()));
    assert(Seq::<Seq<char>>::empty() + language_values(a) =~= language_values(a));
    assert(!takes_as_languages(args, 2, false, language_values(a)));
    assert(collected(args, 2, false, language_values(a)) == (2int, language_values(a)));
    assert(collected(args, 1, false, Seq::empty()) == (2int, language_values(a)));
}

/// `--lang=CODES VIDEO` means the same as `--lang CODES VIDEO`: both ask for
/// the codes in the comma separated word and that video, and nothing else.
pub proof fn lemma_lang_forms_agree(codes: Seq<char>, video: Seq<char>)
    requires
        !is_option_like(codes),
        !is_option_like(video),
        language_values(codes).len() > 0,
    ensures
        parse_outcome(seq!["--lang="@ + codes, video]) == parse_outcome(
            seq!["--lang"@, codes, video],
        ),
        parse_outcome(seq!["--lang"@, codes, video]) == Ok::<ConfigView, CliErrorView>(
            ConfigView {
                video,
                copy: false,
                languages: language_values(codes),
                timestamps: false,
                preserve_formatting: false,
                list: false,
            },
        ),
{
    lemma_option_words();
    let values = language_values(codes);
    let expected = Ok::<ConfigView, CliErrorView>(
        ConfigView {
            video,
            copy: false,
            languages: values,
            timestamps: false,
            preserve_formatting: false,
            list: false,
        },
    );
    let with_lang = ParseState { languages: Some(values), ..initial_state() };
    let with_video = ParseState { video: Some(video), ..with_lang };
    // The video word is no option: it reads as the video.
    let tail_args = seq!["--lang"@, codes, video];
    assert(video != "-h"@ && video != "--help"@ && video != "-c"@ && video != "--c"@ && video
        != "--copy"@ && video != "--timestamps"@ && video != "--preserve-formatting"@ && video
        != "--list"@ && video != "-l"@ && video != "--lang"@) by {
        if video.len() > 0 {
            assert(video[0] != '-');
        }
    }
    assert(!has_prefix(video, "--lang="@)) by {
        if has_prefix(video, "--lang="@) {
            assert(video.subrange(0, 7)[0] == video[0]);
        }
    }
    assert(parse_from(tail_args, 3, with_video) == expected);
    assert(parse_from(tail_args, 2, with_lang) == expected);
    // After `--lang`, the codes word is taken and the video word is not.
    assert(!later_non_option(tail_args, 3));
    assert(takes_as_languages(tail_args, 1, false, Seq::empty()));
    assert(Seq::<Seq<char>>::empty() + values =~= values);
    assert(!takes_as_languages(tail_args, 2, false, values));
    assert(collected(tail_args, 2, false, values) == (2int, values));
    assert(collected(tail_args, 1, false, Seq::empty()) == (2int, values));
    assert(tail_args[0] == "--lang"@);
    assert(parse_from(tail_args, 0, initial_state()) == expected);
    // `--lang=codes` is none of the exact words, and strips to the codes.
    let joined = "--lang="@ + codes;
    let head_args = seq![joined, video];
    assert(has_prefix(joined, "--lang="@)) by {
        assert(joined.subrange(0, 7) =~= "--lang="@);
    }
    assert(joined.subrange(7, joined.len() as int) =~= codes);
    assert(!has_prefix(codes, "--lang="@)) by {
        if has_prefix(codes, "--lang="@) {
            assert(codes.subrange(0, 7)[0] == codes[0]);
        }
    }
    assert(strip_repeated_prefix(codes, "--lang="@) == codes);
    assert(strip_repeated_prefix(joined, "--lang="@) == codes);
    assert(joined[2] == 'l' && joined[3] == 'a');
    assert(codes.len() > 0) by {
        if codes.len() == 0 {
            let pieces = split_on(codes, ',');
            assert(pieces =~= seq![Seq::<char>::empty()]);
            assert(pieces.drop_last() =~= Seq::<Seq<char>>::empty());
            assert(pieces.last() =~= Seq::<char>::empty());
            assert(trim_start(Seq::<char>::empty()) =~= Seq::<char>::empty());
            assert(trim(pieces.last()).len() == 0);
            assert(nonempty_trimmed(pieces.drop_last()).len() == 0);
            assert(nonempty_trimmed(pieces).len() == 0);
        }
    }
    assert(joined.len() > 7);
    assert(joined != "-h"@ && joined != "--help"@ && joined != "-c"@ && joined != "--c"@
        && joined != "--copy"@ && joined != "--list"@ && joined != "-l"@ && joined
        != "--lang"@);
    assert(joined != "--timestamps"@) by {
        if joined == "--timestamps"@ {
            assert(joined[2] == "--timestamps"@[2]);
        }
    }
    assert(joined != "--preserve-formatting"@) by {
        if joined == "--preserve-formatting"@ {
            assert(joined[2] == "--preserve-formatting"@[2]);
        }
    }
    assert(parse_from(head_args, 2, with_video) == expected);
    assert(parse_from(head_args, 1, with_lang) == expected);
    assert(parse_from(head_args, 0, initial_state()) == expected);
}

/// A command line that begins with `-h` or `--help` is answered with the
/// help text, whatever follows.
pub proof fn lemma_help_first(args: Seq<Seq<char>>)
    requires
        args.len() > 0,
        args[0] == "-h"@ || args[0] == "--help"@,
    ensures
        parse_outcome(args) == Err::<ConfigView, CliErrorView>(CliErrorView::Help),
{
}

/// The state after the words read so far.
struct ArgState {
    video: Option<String>,
    copy: bool,
    languages: Option<Vec<String>>,
    timestamps: bool,
    preserve_formatting: bool,
    list: bool,
}

impl ArgState {
    spec fn view_state(&self) -> ParseState {
        ParseState {
            video: match self.video {
                Some(v) => Some(v@),
                None => None,
            },
            copy: self.copy,
            languages: match self.languages {
                Some(l) => Some(l.deep_view()),
                None => None,
            },
            timestamps: self.timestamps,
            preserve_formatting: self.preserve_formatting,
            list: self.list,
        }
    }
}

/// A usage error whose text is `prefix` followed by `word`.
fn usage_with(prefix: &str, word: &str) -> (e: CliError)
    ensures
        e@ == CliErrorView::Usage(prefix@ + word@),
{
    let mut m = String::from_str(prefix);
    m.append(word);
    CliError::Usage(m)
}

/// Reads the command line (without the program name).
pub fn parse_args(args: Vec<String>) -> (r: Result<Config, CliError>)
    ensures
        result_view(r) == parse_outcome(args.deep_view()),
{
    let ghost all = args.deep_view();
    let mut st = ArgState {
        video: None,
        copy: false,
        languages: None,
        timestamps: false,
        preserve_formatting: false,
        list: false,
    };
    let mut i: usize = 0;
    while i < args.len()
        invariant
            all == args.deep_view(),
            i <= args.len(),
            parse_outcome(all) == parse_from(all, i as int, st.view_state()),
        decreases args.len() - i,
    {
        let a = chars_of(args[i].as_str());
        assert(all[i as int] == a@);
        let ghost s0 = st.view_state();
        if chars_equal(a.as_slice(), "-h") || chars_equal(a.as_slice(), "--help") {
            return Err(CliError::Help);
        } else if chars_equal(a.as_slice(), "-c") || chars_equal(a.as_slice(), "--c")
            || chars_equal(a.as_slice(), "--copy") {
            st.copy = true;
            i = i + 1;
        } else if chars_equal(a.as_slice(), "--timestamps") {
            st.timestamps = true;
            i = i + 1;
        } else if chars_equal(a.as_slice(), "--preserve-formatting") {
            st.preserve_formatting = true;
            i = i + 1;
        } else if chars_equal(a.as_slice(), "--list") {
            st.list = true;
            i = i + 1;
        } else if chars_equal(a.as_slice(), "-l") || chars_equal(a.as_slice(), "--lang") {
            i = i + 1;
            proof {
                lemma_collected_bounds(all, i as int, s0.video is Some, Seq::empty());
            }
            let values = collect_language_values(args.as_slice(), &mut i, st.video.is_some());
            if values.len() == 0 {
                return Err(usage_with("expected at least one language after ", args[i - 1].as_str()));
            }
            st.languages = Some(values);
        } else if starts_with_chars(a.as_slice(), "--lang=") {
            let raw = strip_repeated_prefix_chars(a.as_slice(), "--lang=");
            let raw_text = string_of(raw.as_slice());
            let values = split_language_values(raw_text.as_str());
            if values.len() == 0 {
                return Err(CliError::Usage(String::from_str("expected at least one language after --lang=")));
            }
            st.languages = Some(values);
            i = i + 1;
        } else if option_like(a.as_slice()) {
            return Err(usage_with("unknown option: ", args[i].as_str()));
        } else if st.video.is_some() {
            return Err(usage_with("unexpected argument: ", args[i].as_str()));
        } else {
            st.video = Some(args[i].clone());
            i = i + 1;
        }
    }
    match st.video {
        None => Err(CliError::Usage(String::from_str("missing required argument: video"))),
        Some(video) => {
            let languages = match st.languages {
                Some(l) => l,
                None => {
                    let l = vec![String::from_str("en")];
                    assert(l.deep_view() =~= default_languages());
                    l
                },
            };
            Ok(
                Config {
                    video,
                    copy: st.copy,
                    languages,
                    timestamps: st.timestamps,
                    preserve_formatting: st.preserve_formatting,
                    list: st.list,
                },
            )
        },
    }
}

} // verus!
