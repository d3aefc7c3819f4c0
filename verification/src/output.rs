//! The printed transcript: one line per snippet with text, optionally
//! prefixed with its start time.
use vstd::prelude::*;
use crate::errors::{CliError, CliErrorView};
use crate::text::{chars_of, decimal, decimal_two, digit_char, string_of, trim, trim_chars};

verus! {

/// One timed piece of a transcript.
#[derive(Debug)]
pub struct Snippet {
    /// What is said.
    pub text: String,
    /// When it starts, in whole seconds.
    pub start_seconds: u64,
}

/// The view of a [`Snippet`].
pub struct SnippetView {
    pub text: Seq<char>,
    pub start_seconds: nat,
}

impl View for Snippet {
    type V = SnippetView;

    open spec fn view(&self) -> SnippetView {
        SnippetView { text: self.text@, start_seconds: self.start_seconds as nat }
    }
}

/// The views of a list of snippets.
pub open spec fn snippets_view(s: Seq<Snippet>) -> Seq<SnippetView> {
    Seq::new(s.len(), |i: int| s[i]@)
}

/// A time as `M:SS`, or `H:MM:SS` from one hour on.
pub open spec fn timestamp_text(total: nat) -> Seq<char> {
    let hours = total / 3600;
    let minutes = (total % 3600) / 60;
    let seconds = total % 60;
    if hours > 0 {
        decimal(hours) + ":"@ + decimal_two(minutes) + ":"@ + decimal_two(seconds)
    } else {
        decimal(minutes) + ":"@ + decimal_two(seconds)
    }
}

/// The printed line of a snippet.
pub open spec fn snippet_line(s: SnippetView, timestamps: bool) -> Seq<char> {
    if timestamps {
        "["@ + timestamp_text(s.start_seconds) + "] "@ + trim(s.text)
    } else {
        trim(s.text)
    }
}

/// The printed lines: one per snippet whose trimmed text is not empty.
pub open spec fn transcript_lines(snippets: Seq<SnippetView>, timestamps: bool) -> Seq<Seq<char>>
    decreases snippets.len(),
{
    if snippets.len() == 0 {
        Seq::empty()
    } else {
        let rest = transcript_lines(snippets.drop_last(), timestamps);
        if trim(snippets.last().text).len() > 0 {
            rest.push(snippet_line(snippets.last(), timestamps))
        } else {
            rest
        }
    }
}

/// Lines joined with newlines.
pub open spec fn join_lines(lines: Seq<Seq<char>>) -> Seq<char>
    decreases lines.len(),
{
    if lines.len() == 0 {
        Seq::empty()
    } else if lines.len() == 1 {
        lines[0]
    } else {
        join_lines(lines.drop_last()) + "\n"@ + lines.last()
    }
}

/// The decimal digits of `n`.
fn decimal_chars(n: u64) -> (r: Vec<char>)
    ensures
        r@ == decimal(n as nat),
    decreases n,
{
    let d = ((n % 10) as u8 + 48u8) as char;
    assert(d == digit_char(n as nat));
    if n < 10 {
        let mut r: Vec<char> = Vec::new();
        r.push(d);
        assert(r@ =~= seq![d]);
        r
    } else {
        let mut r = decimal_chars(n / 10);
        r.push(d);
        r
    }
}

/// The decimal digits of `n`, at least two of them.
fn decimal_two_chars(n: u64) -> (r: Vec<char>)
    ensures
        r@ == decimal_two(n as nat),
{
    let digits = decimal_chars(n);
    if n < 10 {
        let mut r: Vec<char> = Vec::new();
        r.push('0');
        r.push(digits[0]);
        assert(r@ =~= seq!['0'] + decimal(n as nat));
        r
    } else {
        digits
    }
}

/// A time in whole seconds as `M:SS`, or `H:MM:SS` from one hour on.
pub fn format_timestamp(total_seconds: u64) -> (text: String)
    ensures
        text@ == timestamp_text(total_seconds as nat),
{
    let hours = total_seconds / 3600;
    let minutes = (total_seconds % 3600) / 60;
    let seconds = total_seconds % 60;
    let mut out: String;
    if hours > 0 {
        out = string_of(decimal_chars(hours).as_slice());
        out.append(":");
        out.append(string_of(decimal_two_chars(minutes).as_slice()).as_str());
    } else {
        out = string_of(decimal_chars(minutes).as_slice());
    }
    out.append(":");
    out.append(string_of(decimal_two_chars(seconds).as_slice()).as_str());
    out
}

/// A number below one hundred, written with two digits: tens, then units.
proof fn lemma_two_digit_field(n: nat)
    requires
        n < 100,
    ensures
        decimal_two(n) == seq![digit_char(n / 10), digit_char(n % 10)],
{
    if n < 10 {
        assert(digit_char(0) == '0');
        assert(seq!['0'] + seq![digit_char(n)] =~= seq![digit_char(n / 10), digit_char(n % 10)]);
    } else {
        assert(decimal(n / 10) == seq![digit_char(n / 10)]);
        assert(decimal(n) =~= seq![digit_char(n / 10), digit_char(n % 10)]);
    }
}

/// Time stamps: below an hour, the minutes in decimal, a colon and the
/// seconds as exactly two digits; from an hour on, the hours in decimal,
/// then the minutes and the seconds each as exactly two digits.
pub proof fn lemma_timestamp_fields(t: nat)
    ensures
        t < 3600 ==> timestamp_text(t) == decimal(t / 60) + seq![':'] + seq![
            digit_char((t % 60) / 10),
            digit_char(t % 10),
        ],
        t >= 3600 ==> timestamp_text(t) == decimal(t / 3600) + seq![':'] + seq![
            digit_char(((t % 3600) / 60) / 10),
            digit_char(((t % 3600) / 60) % 10),
        ] + seq![':'] + seq![digit_char((t % 60) / 10), digit_char(t % 10)],
{
    reveal_strlit(":");
    assert(":"@ =~= seq![':']);
    lemma_two_digit_field(t % 60);
    lemma_two_digit_field((t % 3600) / 60);
    assert((t % 60) % 10 == t % 10);
    if t < 3600 {
        assert(t % 3600 == t);
    }
}

/// The printed transcript: the trimmed text of each snippet that has any,
/// prefixed with `[time] ` when asked, one per line.
pub fn format_transcript(snippets: &[Snippet], timestamps: bool) -> (text: String)
    ensures
        text@ == join_lines(transcript_lines(snippets_view(snippets@), timestamps)),
{
    let ghost all = snippets_view(snippets@);
    let mut out = String::new();
    let mut count: usize = 0;
    let mut i: usize = 0;
    assert(all.take(0) =~= Seq::<SnippetView>::empty());
    while i < snippets.len()
        invariant
            i <= snippets.len(),
            all == snippets_view(snippets@),
            count <= i,
            count == transcript_lines(all.take(i as int), timestamps).len(),
            out@ == join_lines(transcript_lines(all.take(i as int), timestamps)),
        decreases snippets.len() - i,
    {
        assert(all.take(i + 1).drop_last() =~= all.take(i as int));
        assert(all.take(i + 1).last() == snippets@[i as int]@);
        let text = trim_chars(chars_of(snippets[i].text.as_str()).as_slice());
        let ghost before = transcript_lines(all.take(i as int), timestamps);
        let ghost after = transcript_lines(all.take(i + 1), timestamps);
        if text.len() > 0 {
            assert(after == before.push(snippet_line(all[i as int], timestamps)));
            assert(after.drop_last() =~= before);
            let ghost start = out@;
            if count > 0 {
                out.append("\n");
            }
            if timestamps {
                out.append("[");
                out.append(format_timestamp(snippets[i].start_seconds).as_str());
                out.append("] ");
            }
            out.append(string_of(text.as_slice()).as_str());
            assert(out@ =~= start + (if count > 0 { "\n"@ } else { Seq::empty() }) + snippet_line(all[i as int], timestamps));
            count = count + 1;
        }
        i = i + 1;
    }
    assert(all.take(snippets.len() as int) =~= all);
    out
}

/// Whether some snippet has text left after trimming.
pub open spec fn has_printable_text(snippets: Seq<SnippetView>) -> bool {
    exists|k: int| 0 <= k < snippets.len() && trim((#[trigger] snippets[k]).text).len() > 0
}

/// The error when a transcript holds no printable text.
pub open spec fn no_printable_text_error() -> CliErrorView {
    CliErrorView::Usage("Transcript was found, but it did not contain printable text."@)
}

/// The printed lines are never empty.
proof fn lemma_lines_nonempty(snippets: Seq<SnippetView>, timestamps: bool)
    ensures
        forall|k: int|
            0 <= k < transcript_lines(snippets, timestamps).len() ==> (#[trigger] transcript_lines(
                snippets,
                timestamps,
            )[k]).len() > 0,
    decreases snippets.len(),
{
    if snippets.len() > 0 {
        let rest = transcript_lines(snippets.drop_last(), timestamps);
        let lines = transcript_lines(snippets, timestamps);
        lemma_lines_nonempty(snippets.drop_last(), timestamps);
        assert forall|k: int| 0 <= k < lines.len() implies (#[trigger] lines[k]).len() > 0 by {
            if k < rest.len() {
                assert(lines[k] == rest[k]);
            }
        }
    }
}

/// There are lines exactly when some snippet has printable text.
proof fn lemma_lines_exist(snippets: Seq<SnippetView>, timestamps: bool)
    ensures
        transcript_lines(snippets, timestamps).len() > 0 <==> has_printable_text(snippets),
    decreases snippets.len(),
{
    if snippets.len() > 0 {
        let rest = snippets.drop_last();
        lemma_lines_exist(rest, timestamps);
        if has_printable_text(rest) {
            let k = choose|k: int| 0 <= k < rest.len() && trim((#[trigger] rest[k]).text).len() > 0;
            assert(snippets[k] == rest[k]);
        }
        if has_printable_text(snippets) && !has_printable_text(rest) {
            let k = choose|k: int|
                0 <= k < snippets.len() && trim((#[trigger] snippets[k]).text).len() > 0;
            if k < snippets.len() - 1 {
                assert(rest[k] == snippets[k]);
            }
        }
    }
}

/// Joined non-empty lines are empty exactly when there are none.
proof fn lemma_join_empty(lines: Seq<Seq<char>>)
    requires
        forall|k: int| 0 <= k < lines.len() ==> (#[trigger] lines[k]).len() > 0,
    ensures
        join_lines(lines).len() == 0 <==> lines.len() == 0,
    decreases lines.len(),
{
    if lines.len() > 1 {
        assert(lines.last() == lines[lines.len() - 1]);
    }
}

/// The transcript text to print, or an error when it would be empty.
pub fn transcript_output(snippets: &[Snippet], timestamps: bool) -> (r: Result<String, CliError>)
    ensures
        match r {
            Ok(text) => has_printable_text(snippets_view(snippets@)) && text@ == join_lines(
                transcript_lines(snippets_view(snippets@), timestamps),
            ),
            Err(e) => !has_printable_text(snippets_view(snippets@)) && e@
                == no_printable_text_error(),
        },
{
    let text = format_transcript(snippets, timestamps);
    proof {
        let ghost lines = transcript_lines(snippets_view(snippets@), timestamps);
        lemma_lines_nonempty(snippets_view(snippets@), timestamps);
        lemma_lines_exist(snippets_view(snippets@), timestamps);
        lemma_join_empty(lines);
    }
    let chars = chars_of(text.as_str());
    if chars.len() == 0 {
        Err(CliError::Usage(String::from_str("Transcript was found, but it did not contain printable text.")))
    } else {
        Ok(text)
    }
}

} // verus!
