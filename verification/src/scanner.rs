//! The scanner: feed each line-read outcome through the matcher and collect,
//! in input order, one event per read failure and one per matching line.

use vstd::prelude::*;
use crate::casefold::{folded, lower_of, to_folded};
use crate::search::{
    find_first, first_at, has_match, lemma_first_at_is, lemma_first_occurrence,
};

verus! {

/// One outcome handed over by the line source: the text of a line, or a
/// failure to read it.
#[derive(Debug, PartialEq, Eq)]
pub enum LineOutcome {
    Text(Vec<u8>),
    Failed,
}

/// A matching line, split at the first occurrence of the pattern, with its
/// one-based line number when numbering is on.
#[derive(Debug, PartialEq, Eq)]
pub struct MatchedLine {
    pub number: Option<usize>,
    pub before: Vec<u8>,
    pub matched: Vec<u8>,
    pub after: Vec<u8>,
}

/// One event of a scan, in input order: a matching line, or the position of a
/// line that could not be read.
#[derive(Debug, PartialEq, Eq)]
pub enum ScanEvent {
    Matched(MatchedLine),
    ReadFailure(usize),
}

/// The mathematical form of a line-read outcome.
pub enum OutcomeView {
    Text(Seq<u8>),
    Failed,
}

/// The mathematical form of a matching line.
#[verifier::ext_equal]
pub struct MatchedLineView {
    pub number: Option<usize>,
    pub before: Seq<u8>,
    pub matched: Seq<u8>,
    pub after: Seq<u8>,
}

/// The mathematical form of a scan event.
#[verifier::ext_equal]
pub enum EventView {
    Matched(MatchedLineView),
    ReadFailure(int),
}

impl View for LineOutcome {
    type V = OutcomeView;

    open spec fn view(&self) -> OutcomeView {
        match self {
            LineOutcome::Text(t) => OutcomeView::Text(t@),
            LineOutcome::Failed => OutcomeView::Failed,
        }
    }
}

impl View for MatchedLine {
    type V = MatchedLineView;

    open spec fn view(&self) -> MatchedLineView {
        MatchedLineView {
            number: self.number,
            before: self.before@,
            matched: self.matched@,
            after: self.after@,
        }
    }
}

impl View for ScanEvent {
    type V = EventView;

    open spec fn view(&self) -> EventView {
        match self {
            ScanEvent::Matched(m) => EventView::Matched(m@),
            ScanEvent::ReadFailure(k) => EventView::ReadFailure(*k as int),
        }
    }
}

/// The views of a sequence of outcomes.
pub open spec fn outcomes_view(s: Seq<LineOutcome>) -> Seq<OutcomeView> {
    s.map_values(|l: LineOutcome| l@)
}

/// The views of a sequence of events.
pub open spec fn events_view(s: Seq<ScanEvent>) -> Seq<EventView> {
    s.map_values(|e: ScanEvent| e@)
}

/// The matching line produced for line `text` at position `index`, meaningful
/// only when the folded pattern occurs in the folded text. The match is
/// located in the folded text, and the segments are cut from the original
/// text; only when the folded offsets do not fit the original (a folding that
/// changed the byte length) are they cut from the folded text itself.
pub open spec fn match_view(
    text: Seq<u8>,
    index: int,
    pattern: Seq<u8>,
    show: bool,
    fold: bool,
) -> MatchedLineView {
    let nt = folded(text, fold);
    let np = folded(pattern, fold);
    let idx = first_at(nt, np);
    let base = if idx + np.len() <= text.len() {
        text
    } else {
        nt
    };
    MatchedLineView {
        number: if show {
            Some((index + 1) as usize)
        } else {
            None
        },
        before: base.subrange(0, idx),
        matched: base.subrange(idx, idx + np.len() as int),
        after: base.subrange(idx + np.len() as int, base.len() as int),
    }
}

/// The events (none or one) produced for the outcome at position `index`.
pub open spec fn event_view(
    line: OutcomeView,
    index: int,
    pattern: Seq<u8>,
    show: bool,
    fold: bool,
) -> Seq<EventView> {
    match line {
        OutcomeView::Failed => seq![EventView::ReadFailure(index)],
        OutcomeView::Text(t) => {
            if has_match(folded(t, fold), folded(pattern, fold)) {
                seq![EventView::Matched(match_view(t, index, pattern, show, fold))]
            } else {
                Seq::<EventView>::empty()
            }
        },
    }
}

/// The events produced for the outcomes at positions `lo <= i < hi`, in order.
pub open spec fn scan_view_range(
    lines: Seq<OutcomeView>,
    pattern: Seq<u8>,
    show: bool,
    fold: bool,
    lo: int,
    hi: int,
) -> Seq<EventView>
    decreases hi - lo,
{
    if lo >= hi {
        Seq::<EventView>::empty()
    } else {
        event_view(lines[lo], lo, pattern, show, fold) + scan_view_range(
            lines,
            pattern,
            show,
            fold,
            lo + 1,
            hi,
        )
    }
}

/// The events of a whole scan, in input order.
pub open spec fn scan_view(
    lines: Seq<OutcomeView>,
    pattern: Seq<u8>,
    show: bool,
    fold: bool,
) -> Seq<EventView> {
    scan_view_range(lines, pattern, show, fold, 0, lines.len() as int)
}

/// Copy the bytes of `v` at positions `lo <= i < hi`.
fn subvec(v: &Vec<u8>, lo: usize, hi: usize) -> (r: Vec<u8>)
    requires
        lo <= hi <= v@.len(),
    ensures
        r@ == v@.subrange(lo as int, hi as int),
{
    let mut r: Vec<u8> = Vec::new();
    let mut k: usize = lo;
    while k < hi
        invariant
            lo <= k <= hi <= v@.len(),
            r@ == v@.subrange(lo as int, k as int),
        decreases hi - k,
    {
        r.push(v[k]);
        assert(v@.subrange(lo as int, k + 1 as int) =~= v@.subrange(lo as int, k as int).push(
            v@[k as int],
        ));
        k += 1;
    }
    r
}

/// Scan one line: when the folded pattern occurs in the folded text, split the
/// line at the first occurrence, numbering it when `show_line_numbers` is set;
/// otherwise report nothing.
pub fn process_line(
    index: usize,
    text: &Vec<u8>,
    pattern: &Vec<u8>,
    show_line_numbers: bool,
    fold_case: bool,
) -> (r: Option<MatchedLine>)
    requires
        index < usize::MAX,
    ensures
        match r {
            Some(m) => has_match(folded(text@, fold_case), folded(pattern@, fold_case)) && m@
                == match_view(text@, index as int, pattern@, show_line_numbers, fold_case),
            None => !has_match(folded(text@, fold_case), folded(pattern@, fold_case)),
        },
{
    let folded_text: Vec<u8>;
    let folded_pattern: Vec<u8>;
    let search_text: &Vec<u8>;
    let search_pattern: &Vec<u8>;
    if fold_case {
        folded_text = to_folded(text);
        folded_pattern = to_folded(pattern);
        search_text = &folded_text;
        search_pattern = &folded_pattern;
    } else {
        search_text = text;
        search_pattern = pattern;
    }
    assert(search_text@ == folded(text@, fold_case));
    assert(search_pattern@ == folded(pattern@, fold_case));
    match find_first(search_text, search_pattern) {
        None => None,
        Some(idx) => {
            proof {
                lemma_first_at_is(search_text@, search_pattern@, idx as int);
            }
            let search_len = search_text.len();
            let plen = search_pattern.len();
            assert(idx + plen <= search_len);
            let hi = idx + plen;
            let base: &Vec<u8> = if hi <= text.len() {
                text
            } else {
                search_text
            };
            let before = subvec(base, 0, idx);
            let matched = subvec(base, idx, hi);
            let after = subvec(base, hi, base.len());
            let number = if show_line_numbers {
                Some(index + 1)
            } else {
                None
            };
            let m = MatchedLine { number, before, matched, after };
            assert(m@ =~= match_view(
                text@,
                index as int,
                pattern@,
                show_line_numbers,
                fold_case,
            ));
            Some(m)
        },
    }
}

/// Scan a whole source: every outcome is looked at, a failed read only adds
/// its diagnostic event, and the events come in input order.
pub fn scan(
    lines: &Vec<LineOutcome>,
    pattern: &Vec<u8>,
    show_line_numbers: bool,
    fold_case: bool,
) -> (events: Vec<ScanEvent>)
    ensures
        events_view(events@) == scan_view(
            outcomes_view(lines@),
            pattern@,
            show_line_numbers,
            fold_case,
        ),
{
    let ghost lviews = outcomes_view(lines@);
    let mut events: Vec<ScanEvent> = Vec::new();
    let mut i: usize = 0;
    while i < lines.len()
        invariant
            i <= lines@.len(),
            lviews == outcomes_view(lines@),
            events_view(events@) == scan_view_range(
                lviews,
                pattern@,
                show_line_numbers,
                fold_case,
                0,
                i as int,
            ),
        decreases lines@.len() - i,
    {
        assert(lviews[i as int] == lines@[i as int]@);
        match &lines[i] {
            LineOutcome::Failed => {
                events.push(ScanEvent::ReadFailure(i));
            },
            LineOutcome::Text(t) => {
                match process_line(i, t, pattern, show_line_numbers, fold_case) {
                    Some(m) => {
                        events.push(ScanEvent::Matched(m));
                    },
                    None => {},
                }
            },
        }
        proof {
            lemma_range_snoc(
                lviews,
                pattern@,
                show_line_numbers,
                fold_case,
                0,
                i as int,
            );
            assert(events_view(events@) =~= scan_view_range(
                lviews,
                pattern@,
                show_line_numbers,
                fold_case,
                0,
                i + 1,
            ));
        }
        i += 1;
    }
    events
}

/// Appending one more position to a range of the scan appends that position's
/// events.
pub proof fn lemma_range_snoc(
    lines: Seq<OutcomeView>,
    pattern: Seq<u8>,
    show: bool,
    fold: bool,
    lo: int,
    hi: int,
)
    requires
        lo <= hi,
    ensures
        scan_view_range(lines, pattern, show, fold, lo, hi + 1) == scan_view_range(
            lines,
            pattern,
            show,
            fold,
            lo,
            hi,
        ) + event_view(lines[hi], hi, pattern, show, fold),
    decreases hi - lo,
{
    if lo == hi {
        assert(scan_view_range(lines, pattern, show, fold, hi + 1, hi + 1)
            =~= Seq::<EventView>::empty());
        assert(scan_view_range(lines, pattern, show, fold, lo, hi + 1) =~= scan_view_range(
            lines,
            pattern,
            show,
            fold,
            lo,
            hi,
        ) + event_view(lines[hi], hi, pattern, show, fold));
    } else {
        lemma_range_snoc(lines, pattern, show, fold, lo + 1, hi);
        assert(scan_view_range(lines, pattern, show, fold, lo, hi + 1) =~= scan_view_range(
            lines,
            pattern,
            show,
            fold,
            lo,
            hi,
        ) + event_view(lines[hi], hi, pattern, show, fold));
    }
}

/// A range of the scan splits at any middle position.
pub proof fn lemma_range_split(
    lines: Seq<OutcomeView>,
    pattern: Seq<u8>,
    show: bool,
    fold: bool,
    lo: int,
    mid: int,
    hi: int,
)
    requires
        lo <= mid <= hi,
    ensures
        scan_view_range(lines, pattern, show, fold, lo, hi) == scan_view_range(
            lines,
            pattern,
            show,
            fold,
            lo,
            mid,
        ) + scan_view_range(lines, pattern, show, fold, mid, hi),
    decreases mid - lo,
{
    if lo == mid {
        assert(scan_view_range(lines, pattern, show, fold, lo, mid)
            + scan_view_range(lines, pattern, show, fold, mid, hi)
            =~= scan_view_range(lines, pattern, show, fold, lo, hi));
    } else {
        lemma_range_split(lines, pattern, show, fold, lo + 1, mid, hi);
        assert(scan_view_range(lines, pattern, show, fold, lo, mid)
            + scan_view_range(lines, pattern, show, fold, mid, hi)
            =~= scan_view_range(lines, pattern, show, fold, lo, hi));
    }
}

/// A range of the scan reads only the outcomes at its own positions.
pub proof fn lemma_range_agree(
    l1: Seq<OutcomeView>,
    l2: Seq<OutcomeView>,
    pattern: Seq<u8>,
    show: bool,
    fold: bool,
    lo: int,
    hi: int,
)
    requires
        forall|j: int| lo <= j < hi ==> l1[j] == l2[j],
    ensures
        scan_view_range(l1, pattern, show, fold, lo, hi) == scan_view_range(
            l2,
            pattern,
            show,
            fold,
            lo,
            hi,
        ),
    decreases hi - lo,
{
    if lo < hi {
        lemma_range_agree(l1, l2, pattern, show, fold, lo + 1, hi);
    }
}

/// A line that does not contain the (folded) pattern produces no event.
pub proof fn lemma_no_match_no_output(
    text: Seq<u8>,
    index: int,
    pattern: Seq<u8>,
    show: bool,
    fold: bool,
)
    requires
        !has_match(folded(text, fold), folded(pattern, fold)),
    ensures
        event_view(OutcomeView::Text(text), index, pattern, show, fold) == Seq::<
            EventView,
        >::empty(),
{
}

/// Round trip: the three segments of a matching line, concatenated, give back
/// the original line text exactly, whenever the folded offsets fit the
/// original text (they always do when no folding is asked for, and under
/// foldings that keep the byte length).
pub proof fn lemma_match_reconstructs(
    text: Seq<u8>,
    index: int,
    pattern: Seq<u8>,
    show: bool,
    fold: bool,
)
    requires
        has_match(folded(text, fold), folded(pattern, fold)),
        first_at(folded(text, fold), folded(pattern, fold)) + folded(pattern, fold).len()
            <= text.len(),
    ensures
        ({
            let m = match_view(text, index, pattern, show, fold);
            m.before + m.matched + m.after == text
        }),
{
    let nt = folded(text, fold);
    let np = folded(pattern, fold);
    let idx = first_at(nt, np);
    lemma_first_occurrence(nt, np);
    assert(text.subrange(0, idx) + text.subrange(idx, idx + np.len() as int) + text.subrange(
        idx + np.len() as int,
        text.len() as int,
    ) =~= text);
}

/// Round trip without folding, unconditionally: the segments of a match found
/// with no case folding reassemble the original line.
pub proof fn lemma_match_reconstructs_exact(
    text: Seq<u8>,
    index: int,
    pattern: Seq<u8>,
    show: bool,
)
    requires
        has_match(text, pattern),
    ensures
        ({
            let m = match_view(text, index, pattern, show, false);
            m.before + m.matched + m.after == text
        }),
{
    lemma_first_occurrence(text, pattern);
    lemma_match_reconstructs(text, index, pattern, show, false);
}

/// With line numbering off, a match carries no line number.
pub proof fn lemma_no_number_without_flag(
    text: Seq<u8>,
    index: int,
    pattern: Seq<u8>,
    fold: bool,
)
    ensures
        match_view(text, index, pattern, false, fold).number == None::<usize>,
{
}

/// Without folding, matching is exact: a line matches if and only if the
/// pattern occurs in it byte for byte.
pub proof fn lemma_exact_match_when_unfolded(text: Seq<u8>, pattern: Seq<u8>)
    ensures
        has_match(folded(text, false), folded(pattern, false)) <==> has_match(text, pattern),
{
}

/// With folding, matching sees only the folded forms: lines and patterns with
/// the same lowercase folding — in particular, ones differing only in letter
/// case — match alike.
pub proof fn lemma_folded_match_alike(
    t1: Seq<u8>,
    t2: Seq<u8>,
    p1: Seq<u8>,
    p2: Seq<u8>,
)
    requires
        lower_of(t1) == lower_of(t2),
        lower_of(p1) == lower_of(p2),
    ensures
        has_match(folded(t1, true), folded(p1, true)) <==> has_match(
            folded(t2, true),
            folded(p2, true),
        ),
{
}

/// A read failure at one position contributes exactly its one diagnostic
/// event: the events of every position before it and after it are those the
/// same outcomes produce in any scan, unchanged.
pub proof fn lemma_failure_isolated(
    lines: Seq<OutcomeView>,
    k: int,
    pattern: Seq<u8>,
    show: bool,
    fold: bool,
)
    requires
        0 <= k < lines.len(),
    ensures
        scan_view(lines.update(k, OutcomeView::Failed), pattern, show, fold)
            == scan_view_range(lines, pattern, show, fold, 0, k) + seq![
            EventView::ReadFailure(k),
        ] + scan_view_range(lines, pattern, show, fold, k + 1, lines.len() as int),
{
    let failed = lines.update(k, OutcomeView::Failed);
    let n = lines.len() as int;
    lemma_range_split(failed, pattern, show, fold, 0, k, n);
    lemma_range_split(failed, pattern, show, fold, k, k + 1, n);
    lemma_range_agree(failed, lines, pattern, show, fold, 0, k);
    lemma_range_agree(failed, lines, pattern, show, fold, k + 1, n);
    assert(scan_view_range(failed, pattern, show, fold, k, k + 1) =~= seq![
        EventView::ReadFailure(k),
    ]);
    assert(scan_view(failed, pattern, show, fold) =~= scan_view_range(
        lines,
        pattern,
        show,
        fold,
        0,
        k,
    ) + seq![EventView::ReadFailure(k)] + scan_view_range(
        lines,
        pattern,
        show,
        fold,
        k + 1,
        n,
    ));
}

} // verus!
