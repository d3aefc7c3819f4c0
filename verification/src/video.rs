//! Finding the video ID in what the user typed: a bare ID, or a YouTube
//! URL in one of its usual shapes.
use vstd::prelude::*;
use crate::errors::{CliError, CliErrorView};
use crate::text::{
    ascii_alphanumeric, ascii_lowercase, ascii_lowercase_chars, chars_equal, chars_of,
    has_prefix, is_ascii_alphanumeric, keep_nonempty, nonempty_pieces, split_on, string_of, strip_repeated_prefix,
    strip_repeated_prefix_chars, trim, trim_chars,
};

verus! {

/// A character that may stand in a video ID.
pub open spec fn is_id_char(c: char) -> bool {
    is_ascii_alphanumeric(c) || c == '_' || c == '-'
}

/// Whether `s` has the shape of a video ID: eleven ASCII letters, digits,
/// underscores or dashes.
pub open spec fn is_video_id_text(s: Seq<char>) -> bool {
    s.len() == 11 && forall|i: int| 0 <= i < s.len() ==> is_id_char(#[trigger] s[i])
}

/// Whether `value` has the shape of a video ID.
pub fn is_video_id(value: &str) -> (r: bool)
    ensures
        r == is_video_id_text(value@),
{
    let v = chars_of(value);
    if v.len() != 11 {
        return false;
    }
    let mut i: usize = 0;
    while i < v.len()
        invariant
            i <= v.len() == 11,
            v@ == value@,
            forall|j: int| 0 <= j < i ==> is_id_char(#[trigger] v@[j]),
        decreases v.len() - i,
    {
        let c = v[i];
        if !(ascii_alphanumeric(c) || c == '_' || c == '-') {
            return false;
        }
        i = i + 1;
    }
    true
}

/// What the logic reads of a parsed URL.
#[derive(Debug)]
pub struct UrlParts {
    /// The host, if the URL has one.
    pub host: Option<String>,
    /// The path, percent-encoded.
    pub path: String,
    /// The `/`-separated path segments, unless the URL cannot be a base.
    pub segments: Option<Vec<String>>,
    /// The decoded `key=value` pairs of the query, in order.
    pub query: Vec<(String, String)>,
}

/// The view of a [`UrlParts`].
pub struct UrlPartsView {
    pub host: Option<Seq<char>>,
    pub path: Seq<char>,
    pub segments: Option<Seq<Seq<char>>>,
    pub query: Seq<(Seq<char>, Seq<char>)>,
}

/// The view of query pairs.
pub open spec fn pairs_view(q: Seq<(String, String)>) -> Seq<(Seq<char>, Seq<char>)> {
    Seq::new(q.len(), |i: int| (q[i].0@, q[i].1@))
}

impl View for UrlParts {
    type V = UrlPartsView;

    open spec fn view(&self) -> UrlPartsView {
        UrlPartsView {
            host: match self.host {
                Some(h) => Some(h@),
                None => None,
            },
            path: self.path@,
            segments: match self.segments {
                Some(s) => Some(s.deep_view()),
                None => None,
            },
            query: pairs_view(self.query@),
        }
    }
}

/// Whether `url::Url::parse` accepts `input`.
pub uninterp spec fn url_parses(input: Seq<char>) -> bool;

/// The host `url::Url::host_str` gives for the URL parsed from `input`.
pub uninterp spec fn url_host(input: Seq<char>) -> Option<Seq<char>>;

/// The path `url::Url::path` gives for the URL parsed from `input`.
pub uninterp spec fn url_path(input: Seq<char>) -> Seq<char>;

/// The pairs `url::Url::query_pairs` gives for the URL parsed from `input`.
pub uninterp spec fn url_query_pairs(input: Seq<char>) -> Seq<(Seq<char>, Seq<char>)>;

/// The path segments as `url::Url::path_segments` derives them from the
/// path: the pieces between slashes after a leading slash, or none when the
/// path has no leading slash.
pub open spec fn segments_of_path(path: Seq<char>) -> Option<Seq<Seq<char>>> {
    if has_prefix(path, "/"@) {
        Some(split_on(path.drop_first(), '/'))
    } else {
        None
    }
}

/// The parts of the URL parsed from `input`.
pub open spec fn url_parts_of(input: Seq<char>) -> UrlPartsView {
    UrlPartsView {
        host: url_host(input),
        path: url_path(input),
        segments: segments_of_path(url_path(input)),
        query: url_query_pairs(input),
    }
}

/// Parses `input` as an absolute URL with `url::Url::parse` and reads its
/// host (`host_str`), path (`path`), path segments (`path_segments`) and
/// query pairs (`query_pairs`). The contract names each result, and states
/// what the url crate's source shows of the segments: they are the path
/// after its leading slash, split at every slash.
#[verifier::external_body]
fn parse_url(input: &str) -> (r: Option<UrlParts>)
    ensures
        r is Some <==> url_parses(input@),
        r matches Some(p) ==> {
            &&& p@.host == url_host(input@)
            &&& p@.path == url_path(input@)
            &&& p@.segments == segments_of_path(url_path(input@))
            &&& p@.query == url_query_pairs(input@)
        },
{
    let url = url::Url::parse(input).ok()?;
    Some(
        UrlParts {
            host: url.host_str().map(|h| h.to_string()),
            path: url.path().to_string(),
            segments: url.path_segments().map(|parts| parts.map(|p| p.to_string()).collect()),
            query: url.query_pairs().map(|(k, v)| (k.into_owned(), v.into_owned())).collect(),
        },
    )
}

/// The value of the first pair whose key is `key`.
pub open spec fn first_value_for(pairs: Seq<(Seq<char>, Seq<char>)>, key: Seq<char>) -> Option<
    Seq<char>,
>
    decreases pairs.len(),
{
    if pairs.len() == 0 {
        None
    } else if pairs[0].0 == key {
        Some(pairs[0].1)
    } else {
        first_value_for(pairs.drop_first(), key)
    }
}

/// The host as the logic compares it: leading `www.` labels dropped, then
/// lower-cased.
pub open spec fn normalized_host(host: Option<Seq<char>>) -> Seq<char> {
    ascii_lowercase(
        strip_repeated_prefix(
            match host {
                Some(h) => h,
                None => Seq::empty(),
            },
            "www."@,
        ),
    )
}

/// The non-empty path segments.
pub open spec fn nonempty_segments(parts: UrlPartsView) -> Seq<Seq<char>> {
    match parts.segments {
        Some(s) => nonempty_pieces(s),
        None => Seq::empty(),
    }
}

/// The second segment, if any.
pub open spec fn second(segs: Seq<Seq<char>>) -> Option<Seq<char>> {
    if segs.len() > 1 {
        Some(segs[1])
    } else {
        None
    }
}

/// Where each kind of YouTube URL keeps the video ID: the `v` query value
/// of a `/watch` page; the segment after `shorts`, `embed`, `v` or `live`;
/// the first segment of a `youtu.be` link; the segment after `embed` on
/// `youtube-nocookie.com`.
pub open spec fn url_id_candidate(parts: UrlPartsView) -> Option<Seq<char>> {
    let host = normalized_host(parts.host);
    let segs = nonempty_segments(parts);
    if host == "youtube.com"@ || host == "m.youtube.com"@ || host == "music.youtube.com"@ {
        if parts.path == "/watch"@ {
            first_value_for(parts.query, "v"@)
        } else if segs.len() > 0 && (segs[0] == "shorts"@ || segs[0] == "embed"@ || segs[0]
            == "v"@ || segs[0] == "live"@) {
            second(segs)
        } else {
            None
        }
    } else if host == "youtu.be"@ {
        if segs.len() > 0 {
            Some(segs[0])
        } else {
            None
        }
    } else if host == "youtube-nocookie.com"@ {
        if segs.len() > 0 && segs[0] == "embed"@ {
            second(segs)
        } else {
            None
        }
    } else {
        None
    }
}

/// The video ID a URL holds: its candidate, if that has the shape of an ID.
pub open spec fn url_video_id(parts: UrlPartsView) -> Option<Seq<char>> {
    match url_id_candidate(parts) {
        Some(id) => if is_video_id_text(id) {
            Some(id)
        } else {
            None
        },
        None => None,
    }
}

/// The video ID in what the user typed: the trimmed text itself if it has
/// the shape of an ID, else the ID of the URL it parses as.
pub open spec fn video_id_of(value: Seq<char>) -> Option<Seq<char>> {
    let c = trim(value);
    if is_video_id_text(c) {
        Some(c)
    } else if url_parses(c) {
        url_video_id(url_parts_of(c))
    } else {
        None
    }
}

/// The error for text that holds no video ID.
pub open spec fn no_video_id_error(value: Seq<char>) -> CliErrorView {
    CliErrorView::Usage("Could not find a YouTube video ID in: "@ + value)
}

/// The value of the first query pair whose key is `key`.
fn find_query_value(pairs: &Vec<(String, String)>, key: &str) -> (r: Option<String>)
    ensures
        match r {
            Some(v) => first_value_for(pairs_view(pairs@), key@) == Some(v@),
            None => first_value_for(pairs_view(pairs@), key@) is None,
        },
{
    let mut i: usize = 0;
    assert(pairs_view(pairs@).skip(0) =~= pairs_view(pairs@));
    while i < pairs.len()
        invariant
            i <= pairs.len(),
            first_value_for(pairs_view(pairs@), key@) == first_value_for(
                pairs_view(pairs@).skip(i as int),
                key@,
            ),
        decreases pairs.len() - i,
    {
        let ghost rest = pairs_view(pairs@).skip(i as int);
        assert(rest[0] == (pairs@[i as int].0@, pairs@[i as int].1@));
        assert(rest.drop_first() =~= pairs_view(pairs@).skip(i + 1));
        let k = chars_of(pairs[i].0.as_str());
        if chars_equal(k.as_slice(), key) {
            return Some(pairs[i].1.clone());
        }
        i = i + 1;
    }
    None
}

/// Whether segment `i` is exactly `lit`.
fn segment_is(segs: &Vec<String>, i: usize, lit: &str) -> (r: bool)
    requires
        i < segs.len(),
    ensures
        r == (segs.deep_view()[i as int] == lit@),
{
    let c = chars_of(segs[i].as_str());
    chars_equal(c.as_slice(), lit)
}

/// The video ID the parts of a URL hold, if any.
pub fn video_id_from_url_parts(parts: &UrlParts) -> (r: Option<String>)
    ensures
        match r {
            Some(id) => url_video_id(parts@) == Some(id@),
            None => url_video_id(parts@) is None,
        },
{
    let raw_host = match &parts.host {
        Some(h) => chars_of(h.as_str()),
        None => Vec::new(),
    };
    let stripped = strip_repeated_prefix_chars(raw_host.as_slice(), "www.");
    let host = ascii_lowercase_chars(stripped.as_slice());
    assert(host@ == normalized_host(parts@.host));
    let segs: Vec<String> = match &parts.segments {
        Some(s) => keep_nonempty(s),
        None => Vec::new(),
    };
    assert(segs.deep_view() == nonempty_segments(parts@));
    let path = chars_of(parts.path.as_str());
    let h = host.as_slice();
    let candidate: Option<String> = if chars_equal(h, "youtube.com") || chars_equal(
        h,
        "m.youtube.com",
    ) || chars_equal(h, "music.youtube.com") {
        if chars_equal(path.as_slice(), "/watch") {
            find_query_value(&parts.query, "v")
        } else if segs.len() > 0 && (segment_is(&segs, 0, "shorts") || segment_is(&segs, 0, "embed")
            || segment_is(&segs, 0, "v") || segment_is(&segs, 0, "live")) {
            if segs.len() > 1 {
                Some(segs[1].clone())
            } else {
                None
            }
        } else {
            None
        }
    } else if chars_equal(h, "youtu.be") {
        if segs.len() > 0 {
            Some(segs[0].clone())
        } else {
            None
        }
    } else if chars_equal(h, "youtube-nocookie.com") {
        if segs.len() > 0 && segment_is(&segs, 0, "embed") {
            if segs.len() > 1 {
                Some(segs[1].clone())
            } else {
                None
            }
        } else {
            None
        }
    } else {
        None
    };
    assert(match candidate {
        Some(c) => url_id_candidate(parts@) == Some(c@),
        None => url_id_candidate(parts@) is None,
    });
    match candidate {
        Some(id) => if is_video_id(id.as_str()) {
            Some(id)
        } else {
            None
        },
        None => None,
    }
}

/// Finds the video ID in `value`: a bare ID, or a YouTube URL holding one.
pub fn parse_video_id(value: &str) -> (r: Result<String, CliError>)
    ensures
        match r {
            Ok(id) => video_id_of(value@) == Some(id@),
            Err(e) => video_id_of(value@) is None && e@ == no_video_id_error(value@),
        },
{
    let trimmed = trim_chars(chars_of(value).as_slice());
    let candidate = string_of(trimmed.as_slice());
    if is_video_id(candidate.as_str()) {
        return Ok(candidate);
    }
    let found = match parse_url(candidate.as_str()) {
        Some(parts) => video_id_from_url_parts(&parts),
        None => None,
    };
    match found {
        Some(id) => Ok(id),
        None => {
            let mut m = String::from_str("Could not find a YouTube video ID in: ");
            m.append(value);
            Err(CliError::Usage(m))
        },
    }
}

/// The value of the first pair with key `key` is what `first_value_for`
/// gives.
proof fn lemma_first_value_found(pairs: Seq<(Seq<char>, Seq<char>)>, key: Seq<char>, k: int)
    requires
        0 <= k < pairs.len(),
        pairs[k].0 == key,
        forall|j: int| 0 <= j < k ==> (#[trigger] pairs[j]).0 != key,
    ensures
        first_value_for(pairs, key) == Some(pairs[k].1),
    decreases k,
{
    if k > 0 {
        let rest = pairs.drop_first();
        assert forall|j: int| 0 <= j < k - 1 implies (#[trigger] rest[j]).0 != key by {
            assert(rest[j] == pairs[j + 1]);
        }
        assert(pairs[0].0 != key);
        lemma_first_value_found(rest, key, k - 1);
        assert(rest[k - 1] == pairs[k]);
    }
}

/// A watch page link on youtube.com, m.youtube.com or music.youtube.com
/// (after leading `www.` labels are dropped and the host is lower-cased)
/// gives the first `v` value of its query, when that has the shape of an
/// ID.
pub proof fn lemma_watch_link_gives_v_value(value: Seq<char>, k: int)
    requires
        !is_video_id_text(trim(value)),
        url_parses(trim(value)),
        ascii_lowercase(
            strip_repeated_prefix(
                match url_host(trim(value)) {
                    Some(h) => h,
                    None => Seq::empty(),
                },
                "www."@,
            ),
        ) == "youtube.com"@ || ascii_lowercase(
            strip_repeated_prefix(
                match url_host(trim(value)) {
                    Some(h) => h,
                    None => Seq::empty(),
                },
                "www."@,
            ),
        ) == "m.youtube.com"@ || ascii_lowercase(
            strip_repeated_prefix(
                match url_host(trim(value)) {
                    Some(h) => h,
                    None => Seq::empty(),
                },
                "www."@,
            ),
        ) == "music.youtube.com"@,
        url_path(trim(value)) == "/watch"@,
        0 <= k < url_query_pairs(trim(value)).len(),
        url_query_pairs(trim(value))[k].0 == "v"@,
        forall|j: int| 0 <= j < k ==> (#[trigger] url_query_pairs(trim(value))[j]).0 != "v"@,
        is_video_id_text(url_query_pairs(trim(value))[k].1),
    ensures
        video_id_of(value) == Some(url_query_pairs(trim(value))[k].1),
{
    lemma_first_value_found(url_query_pairs(trim(value)), "v"@, k);
}

/// A text that has the shape of a video ID, with or without white space
/// around it, is taken as the ID itself.
pub proof fn lemma_bare_id_accepted(value: Seq<char>)
    requires
        is_video_id_text(trim(value)),
    ensures
        video_id_of(value) == Some(trim(value)),
{
}

/// Every video ID found has the shape of one.
pub proof fn lemma_found_id_is_well_formed(value: Seq<char>)
    ensures
        video_id_of(value) matches Some(id) ==> is_video_id_text(id),
{
}

} // verus!
