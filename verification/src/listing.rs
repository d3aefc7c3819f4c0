//! The `--list` output: every transcript a video offers, manual ones
//! first, each group ordered by language code.
use vstd::prelude::*;
use crate::errors::{CliError, CliErrorView};
use crate::transcripts::{infos_view, TranscriptInfo, TranscriptInfoView};
use crate::text::chars_of;

verus! {

/// The order of texts: by code point, a proper prefix first.
pub open spec fn text_lt(a: Seq<char>, b: Seq<char>) -> bool
    decreases a.len(),
{
    if a.len() == 0 {
        b.len() > 0
    } else if b.len() == 0 {
        false
    } else if a[0] != b[0] {
        (a[0] as int) < (b[0] as int)
    } else {
        text_lt(a.drop_first(), b.drop_first())
    }
}

pub proof fn lemma_text_lt_irreflexive(a: Seq<char>)
    ensures
        !text_lt(a, a),
    decreases a.len(),
{
    if a.len() > 0 {
        lemma_text_lt_irreflexive(a.drop_first());
    }
}

pub proof fn lemma_text_lt_transitive(a: Seq<char>, b: Seq<char>, c: Seq<char>)
    requires
        text_lt(a, b),
        text_lt(b, c),
    ensures
        text_lt(a, c),
    decreases a.len(),
{
    if a.len() > 0 && b.len() > 0 && c.len() > 0 && a[0] == b[0] && b[0] == c[0] {
        lemma_text_lt_transitive(a.drop_first(), b.drop_first(), c.drop_first());
    }
}

pub proof fn lemma_text_lt_total(a: Seq<char>, b: Seq<char>)
    requires
        a != b,
    ensures
        text_lt(a, b) || text_lt(b, a),
    decreases a.len(),
{
    if a.len() > 0 && b.len() > 0 {
        if a[0] == b[0] {
            if a.drop_first() == b.drop_first() {
                assert(a =~= seq![a[0]] + a.drop_first());
                assert(b =~= seq![b[0]] + b.drop_first());
            }
            lemma_text_lt_total(a.drop_first(), b.drop_first());
        } else {
            assert((a[0] as int) != (b[0] as int));
        }
    } else if a.len() == 0 && b.len() == 0 {
        assert(a =~= b);
    }
}

/// Whether the transcript at index `i` is listed before the one at `j`:
/// manual before generated, then by language code, then in the order
/// given.
pub open spec fn listed_before(ts: Seq<TranscriptInfoView>, i: int, j: int) -> bool {
    let a = ts[i];
    let b = ts[j];
    ||| (!a.is_generated && b.is_generated)
    ||| (a.is_generated == b.is_generated && text_lt(a.language_code, b.language_code))
    ||| (a.is_generated == b.is_generated && a.language_code == b.language_code && i < j)
}

pub proof fn lemma_listed_before_transitive(ts: Seq<TranscriptInfoView>, i: int, j: int, k: int)
    requires
        listed_before(ts, i, j),
        listed_before(ts, j, k),
    ensures
        listed_before(ts, i, k),
{
    let a = ts[i];
    let b = ts[j];
    let c = ts[k];
    if a.is_generated == b.is_generated && b.is_generated == c.is_generated {
        if text_lt(a.language_code, b.language_code) && text_lt(b.language_code, c.language_code) {
            lemma_text_lt_transitive(a.language_code, b.language_code, c.language_code);
        }
    }
}

pub proof fn lemma_listed_before_total(ts: Seq<TranscriptInfoView>, i: int, j: int)
    requires
        i != j,
    ensures
        listed_before(ts, i, j) || listed_before(ts, j, i),
{
    if ts[i].language_code != ts[j].language_code {
        lemma_text_lt_total(ts[i].language_code, ts[j].language_code);
    }
}

pub proof fn lemma_listed_before_irreflexive(ts: Seq<TranscriptInfoView>, i: int)
    ensures
        !listed_before(ts, i, i),
{
    lemma_text_lt_irreflexive(ts[i].language_code);
}

/// Whether `order` is strictly increasing in listing order.
pub open spec fn listed_in_order(ts: Seq<TranscriptInfoView>, order: Seq<usize>) -> bool {
    forall|a: int, b: int|
        0 <= a < b < order.len() ==> listed_before(ts, #[trigger] order[a] as int, #[trigger] order[b] as int)
}

/// Whether `order` lists every index of `ts` once, in listing order.
pub open spec fn is_listing_order(ts: Seq<TranscriptInfoView>, order: Seq<usize>) -> bool {
    &&& order.len() == ts.len()
    &&& forall|k: int| 0 <= k < order.len() ==> #[trigger] order[k] < ts.len()
    &&& forall|x: int| 0 <= x < ts.len() ==> #[trigger] order.contains(x as usize)
    &&& listed_in_order(ts, order)
}

/// Whether text `a` comes before text `b`.
fn text_less(a: &Vec<char>, b: &Vec<char>) -> (r: bool)
    ensures
        r == text_lt(a@, b@),
{
    let mut i: usize = 0;
    assert(a@.skip(0) =~= a@);
    assert(b@.skip(0) =~= b@);
    while i < a.len() && i < b.len()
        invariant
            i <= a.len(),
            i <= b.len(),
            text_lt(a@, b@) == text_lt(a@.skip(i as int), b@.skip(i as int)),
        decreases a.len() - i,
    {
        assert(a@.skip(i as int).drop_first() =~= a@.skip(i + 1));
        assert(b@.skip(i as int).drop_first() =~= b@.skip(i + 1));
        if a[i] != b[i] {
            return a[i] < b[i];
        }
        i = i + 1;
    }
    i < b.len()
}

/// Whether the transcript at `i` is listed before the one at `j`.
fn before(ts: &[TranscriptInfo], codes: &Vec<Vec<char>>, i: usize, j: usize) -> (r: bool)
    requires
        i < ts.len(),
        j < ts.len(),
        codes.len() == ts.len(),
        forall|k: int| 0 <= k < ts.len() ==> #[trigger] codes@[k]@ == ts@[k].language_code@,
    ensures
        r == listed_before(infos_view(ts@), i as int, j as int),
{
    let a = &ts[i];
    let b = &ts[j];
    if a.is_generated != b.is_generated {
        return !a.is_generated;
    }
    if text_less(&codes[i], &codes[j]) {
        return true;
    }
    if text_less(&codes[j], &codes[i]) {
        proof {
            lemma_text_lt_irreflexive(codes@[i as int]@);
            if codes@[i as int]@ == codes@[j as int]@ {
                assert(text_lt(codes@[i as int]@, codes@[i as int]@));
            }
        }
        return false;
    }
    proof {
        if codes@[i as int]@ != codes@[j as int]@ {
            lemma_text_lt_total(codes@[i as int]@, codes@[j as int]@);
        }
    }
    i < j
}

/// The order in which the transcripts are listed: manual ones first, each
/// group by language code, equal ones in the order given.
pub fn listing_order(transcripts: &[TranscriptInfo]) -> (order: Vec<usize>)
    ensures
        is_listing_order(infos_view(transcripts@), order@),
{
    let ghost ts = infos_view(transcripts@);
    let mut codes: Vec<Vec<char>> = Vec::new();
    let mut c: usize = 0;
    while c < transcripts.len()
        invariant
            c <= transcripts.len(),
            codes.len() == c,
            forall|k: int| 0 <= k < c ==> #[trigger] codes@[k]@ == transcripts@[k].language_code@,
        decreases transcripts.len() - c,
    {
        codes.push(chars_of(transcripts[c].language_code.as_str()));
        c = c + 1;
    }
    let mut order: Vec<usize> = Vec::new();
    let mut i: usize = 0;
    while i < transcripts.len()
        invariant
            i <= transcripts.len(),
            ts == infos_view(transcripts@),
            codes.len() == transcripts.len(),
            forall|k: int| 0 <= k < transcripts.len() ==> #[trigger] codes@[k]@ == transcripts@[k].language_code@,
            order.len() == i,
            forall|k: int| 0 <= k < order.len() ==> #[trigger] order@[k] < i,
            forall|x: int| 0 <= x < i ==> #[trigger] order@.contains(x as usize),
            forall|a: int, b: int|
                0 <= a < b < order.len() ==> listed_before(ts, #[trigger] order@[a] as int, #[trigger] order@[b] as int),
        decreases transcripts.len() - i,
    {
        let mut j: usize = order.len();
        while j > 0 && before(transcripts, &codes, i, order[j - 1])
            invariant
                j <= order.len() == i < transcripts.len(),
                ts == infos_view(transcripts@),
                codes.len() == transcripts.len(),
                forall|k: int| 0 <= k < transcripts.len() ==> #[trigger] codes@[k]@ == transcripts@[k].language_code@,
                forall|k: int| 0 <= k < order.len() ==> #[trigger] order@[k] < i,
                forall|k: int| j <= k < order.len() ==> listed_before(ts, i as int, #[trigger] order@[k] as int),
            decreases j,
        {
            j = j - 1;
        }
        proof {
            if j > 0 {
                let p = order@[j - 1] as int;
                lemma_listed_before_total(ts, i as int, p);
                assert forall|k: int| 0 <= k < j implies listed_before(ts, #[trigger] order@[k] as int, i as int) by {
                    if k < j - 1 {
                        lemma_listed_before_transitive(ts, order@[k] as int, p, i as int);
                    }
                }
            }
        }
        let ghost old_order = order@;
        order.insert(j, i);
        assert forall|a: int, b: int|
            0 <= a < b < order.len() implies listed_before(ts, #[trigger] order@[a] as int, #[trigger] order@[b] as int) by {
            if b < j {
                assert(order@[a] == old_order[a] && order@[b] == old_order[b]);
            } else if b == j {
                assert(order@[a] == old_order[a]);
            } else if a < j {
                assert(order@[a] == old_order[a] && order@[b] == old_order[b - 1]);
                if j < old_order.len() {
                    assert(listed_before(ts, i as int, old_order[j as int] as int));
                }
                assert(listed_before(ts, old_order[a] as int, i as int) || a == j);
                lemma_listed_before_transitive(ts, old_order[a] as int, i as int, old_order[b - 1] as int);
            } else if a == j {
                assert(order@[b] == old_order[b - 1]);
            } else {
                assert(order@[a] == old_order[a - 1] && order@[b] == old_order[b - 1]);
            }
        }
        assert forall|x: int| 0 <= x < i + 1 implies #[trigger] order@.contains(x as usize) by {
            if x == i {
                assert(order@[j as int] == i);
            } else {
                assert(old_order.contains(x as usize));
                let k = choose|k: int| 0 <= k < old_order.len() && old_order[k] == x as usize;
                if k < j {
                    assert(order@[k] == x as usize);
                } else {
                    assert(order@[k + 1] == x as usize);
                }
            }
        }
        i = i + 1;
    }
    order
}

/// One line of the listing: code, `auto` or `manual`, `translatable` or
/// `not translatable`, and the language's name, separated by tabs.
pub open spec fn listing_line(t: TranscriptInfoView) -> Seq<char> {
    t.language_code + "\t"@ + (if t.is_generated {
        "auto"@
    } else {
        "manual"@
    }) + "\t"@ + (if t.is_translatable {
        "translatable"@
    } else {
        "not translatable"@
    }) + "\t"@ + t.language
}

/// The lines `--list` prints: one per transcript, in listing order.
pub open spec fn listing_lines(ts: Seq<TranscriptInfoView>) -> Seq<Seq<char>> {
    let order = choose|order: Seq<usize>| is_listing_order(ts, order);
    Seq::new(order.len(), |k: int| listing_line(ts[order[k] as int]))
}

/// The error when a video offers no transcript at all.
pub open spec fn no_transcripts_error() -> CliErrorView {
    CliErrorView::Usage("No transcripts are available for this video."@)
}

/// The listing line of one transcript.
pub fn transcript_line(t: &TranscriptInfo) -> (line: String)
    ensures
        line@ == listing_line(t@),
{
    let mut line = t.language_code.clone();
    line.append("\t");
    if t.is_generated {
        line.append("auto");
    } else {
        line.append("manual");
    }
    line.append("\t");
    if t.is_translatable {
        line.append("translatable");
    } else {
        line.append("not translatable");
    }
    line.append("\t");
    line.append(t.language.as_str());
    line
}

/// The lines `--list` prints: one per transcript, in listing order; an
/// error when there is none.
pub fn available_transcript_lines(transcripts: &[TranscriptInfo]) -> (r: Result<Vec<String>, CliError>)
    ensures
        match r {
            Err(e) => transcripts.len() == 0 && e@ == no_transcripts_error(),
            Ok(lines) => transcripts.len() > 0 && lines.deep_view() == listing_lines(
                infos_view(transcripts@),
            ),
        },
{
    if transcripts.len() == 0 {
        return Err(CliError::Usage(String::from_str("No transcripts are available for this video.")));
    }
    let order = listing_order(transcripts);
    let mut lines: Vec<String> = Vec::new();
    let mut k: usize = 0;
    while k < order.len()
        invariant
            k <= order.len() == transcripts.len(),
            is_listing_order(infos_view(transcripts@), order@),
            lines.deep_view() == Seq::new(
                k as nat,
                |m: int| listing_line(transcripts@[order@[m] as int]@),
            ),
        decreases order.len() - k,
    {
        assert(order@[k as int] < transcripts.len());
        let line = transcript_line(&transcripts[order[k]]);
        let ghost prev = lines.deep_view();
        let ghost lv = line@;
        lines.push(line);
        assert(lines.deep_view() =~= prev.push(lv));
        assert(lines.deep_view() =~= Seq::new(
            (k + 1) as nat,
            |m: int| listing_line(transcripts@[order@[m] as int]@),
        ));
        k = k + 1;
    }
    proof {
        let ts = infos_view(transcripts@);
        let chosen = choose|o: Seq<usize>| is_listing_order(ts, o);
        lemma_listing_order_unique(ts, order@, chosen);
        assert(lines.deep_view() =~= listing_lines(ts));
    }
    Ok(lines)
}

/// Two orders strictly increasing in listing order over the same indices
/// are the same.
proof fn lemma_same_indices_same_order(ts: Seq<TranscriptInfoView>, p: Seq<usize>, q: Seq<usize>)
    requires
        listed_in_order(ts, p),
        listed_in_order(ts, q),
        forall|x: usize| p.contains(x) <==> q.contains(x),
    ensures
        p == q,
    decreases p.len(),
{
    if p.len() == 0 {
        if q.len() > 0 {
            assert(q.contains(q[0]));
        }
        assert(p =~= q);
    } else {
        if q.len() == 0 {
            assert(p.contains(p[0]));
        }
        let p0 = p[0];
        let q0 = q[0];
        assert(q.contains(q0));
        assert(p.contains(p0));
        let k = choose|k: int| 0 <= k < p.len() && p[k] == q0;
        let m = choose|m: int| 0 <= m < q.len() && q[m] == p0;
        if p0 != q0 {
            assert(listed_before(ts, p[0] as int, p[k] as int));
            assert(listed_before(ts, q[0] as int, q[m] as int));
            lemma_listed_before_transitive(ts, p0 as int, q0 as int, p0 as int);
            lemma_listed_before_irreflexive(ts, p0 as int);
        }
        let pt = p.drop_first();
        let qt = q.drop_first();
        assert(listed_in_order(ts, pt)) by {
            assert forall|a: int, b: int| 0 <= a < b < pt.len() implies listed_before(ts, #[trigger] pt[a] as int, #[trigger] pt[b] as int) by {
                assert(pt[a] == p[a + 1] && pt[b] == p[b + 1]);
            }
        }
        assert(listed_in_order(ts, qt)) by {
            assert forall|a: int, b: int| 0 <= a < b < qt.len() implies listed_before(ts, #[trigger] qt[a] as int, #[trigger] qt[b] as int) by {
                assert(qt[a] == q[a + 1] && qt[b] == q[b + 1]);
            }
        }
        assert forall|x: usize| pt.contains(x) <==> qt.contains(x) by {
            if pt.contains(x) {
                let a = choose|a: int| 0 <= a < pt.len() && pt[a] == x;
                assert(p[a + 1] == x);
                assert(listed_before(ts, p[0] as int, p[a + 1] as int));
                lemma_listed_before_irreflexive(ts, p0 as int);
                assert(q.contains(x));
                let b = choose|b: int| 0 <= b < q.len() && q[b] == x;
                assert(b != 0);
                assert(qt[b - 1] == x);
            }
            if qt.contains(x) {
                let a = choose|a: int| 0 <= a < qt.len() && qt[a] == x;
                assert(q[a + 1] == x);
                assert(listed_before(ts, q[0] as int, q[a + 1] as int));
                lemma_listed_before_irreflexive(ts, q0 as int);
                assert(p.contains(x));
                let b = choose|b: int| 0 <= b < p.len() && p[b] == x;
                assert(b != 0);
                assert(pt[b - 1] == x);
            }
        }
        lemma_same_indices_same_order(ts, pt, qt);
        assert(p =~= seq![p0] + pt);
        assert(q =~= seq![q0] + qt);
    }
}

/// The listing order is fully determined: any two orders that list every
/// transcript once, in listing order, are the same.
pub proof fn lemma_listing_order_unique(ts: Seq<TranscriptInfoView>, p: Seq<usize>, q: Seq<usize>)
    requires
        is_listing_order(ts, p),
        is_listing_order(ts, q),
    ensures
        p == q,
{
    assert forall|x: usize| p.contains(x) <==> q.contains(x) by {
        if p.contains(x) {
            let k = choose|k: int| 0 <= k < p.len() && p[k] == x;
            assert(q.contains(x as int as usize));
        }
        if q.contains(x) {
            let k = choose|k: int| 0 <= k < q.len() && q[k] == x;
            assert(p.contains(x as int as usize));
        }
    }
    lemma_same_indices_same_order(ts, p, q);
}

} // verus!
