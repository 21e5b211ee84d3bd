//! First-occurrence substring search over byte sequences.

use vstd::prelude::*;

verus! {

/// The pattern `pat` occurs in `text` starting at byte offset `i`.
pub open spec fn match_at(text: Seq<u8>, pat: Seq<u8>, i: int) -> bool {
    0 <= i && i + pat.len() <= text.len() && text.subrange(i, i + pat.len() as int) == pat
}

/// The pattern occurs somewhere in the text.
pub open spec fn has_match(text: Seq<u8>, pat: Seq<u8>) -> bool {
    exists|i: int| match_at(text, pat, i)
}

/// `i` is the first byte offset at which the pattern occurs.
pub open spec fn is_first_match(text: Seq<u8>, pat: Seq<u8>, i: int) -> bool {
    &&& match_at(text, pat, i)
    &&& forall|j: int| 0 <= j < i ==> !match_at(text, pat, j)
}

/// The first byte offset at which the pattern occurs, meaningful only when
/// `has_match(text, pat)` holds.
pub open spec fn first_at(text: Seq<u8>, pat: Seq<u8>) -> int {
    choose|i: int| is_first_match(text, pat, i)
}

/// Whenever the pattern occurs anywhere below position `n`, some occurrence
/// is the first one.
proof fn lemma_first_exists_below(text: Seq<u8>, pat: Seq<u8>, n: int)
    requires
        exists|i: int| i < n && match_at(text, pat, i),
    ensures
        exists|i: int| is_first_match(text, pat, i),
    decreases n,
{
    let w = choose|i: int| i < n && match_at(text, pat, i);
    if exists|i: int| i < n - 1 && match_at(text, pat, i) {
        lemma_first_exists_below(text, pat, n - 1);
    } else {
        assert(is_first_match(text, pat, w));
    }
}

/// A text that contains the pattern contains a first occurrence of it.
pub proof fn lemma_first_exists(text: Seq<u8>, pat: Seq<u8>)
    requires
        has_match(text, pat),
    ensures
        exists|i: int| is_first_match(text, pat, i),
{
    let w = choose|i: int| match_at(text, pat, i);
    assert(w < text.len() as int + 1 && match_at(text, pat, w));
    lemma_first_exists_below(text, pat, text.len() as int + 1);
}

/// The first occurrence is unique.
pub proof fn lemma_first_unique(text: Seq<u8>, pat: Seq<u8>, i1: int, i2: int)
    requires
        is_first_match(text, pat, i1),
        is_first_match(text, pat, i2),
    ensures
        i1 == i2,
{
}

/// `first_at` picks exactly the first occurrence.
pub proof fn lemma_first_at_is(text: Seq<u8>, pat: Seq<u8>, i: int)
    requires
        is_first_match(text, pat, i),
    ensures
        first_at(text, pat) == i,
{
    lemma_first_unique(text, pat, i, first_at(text, pat));
}

/// Only the first occurrence is ever reported: the offset `first_at` names
/// admits no earlier occurrence of the pattern.
pub proof fn lemma_first_occurrence(text: Seq<u8>, pat: Seq<u8>)
    requires
        has_match(text, pat),
    ensures
        match_at(text, pat, first_at(text, pat)),
        forall|j: int| 0 <= j < first_at(text, pat) ==> !match_at(text, pat, j),
{
    lemma_first_exists(text, pat);
}

/// Does the pattern occur in `text` exactly at offset `i`?
fn matches_here(text: &Vec<u8>, pat: &Vec<u8>, i: usize) -> (r: bool)
    requires
        i + pat@.len() <= text@.len(),
    ensures
        r == match_at(text@, pat@, i as int),
{
    let tlen = text.len();
    let plen = pat.len();
    let mut k: usize = 0;
    while k < plen
        invariant
            i + pat@.len() <= text@.len(),
            tlen == text@.len(),
            plen == pat@.len(),
            k <= plen,
            forall|j: int| 0 <= j < k ==> text@[i + j] == pat@[j],
        decreases plen - k,
    {
        if text[i + k] != pat[k] {
            assert(!match_at(text@, pat@, i as int)) by {
                if match_at(text@, pat@, i as int) {
                    assert(text@.subrange(i as int, i + pat@.len() as int)[k as int]
                        == text@[i + k]);
                }
            }
            return false;
        }
        k += 1;
    }
    assert(text@.subrange(i as int, i + pat@.len() as int) =~= pat@);
    true
}

/// Find the first byte offset at which `pat` occurs in `text`, if any.
pub fn find_first(text: &Vec<u8>, pat: &Vec<u8>) -> (r: Option<usize>)
    ensures
        match r {
            Some(i) => is_first_match(text@, pat@, i as int),
            None => !has_match(text@, pat@),
        },
{
    if pat.len() > text.len() {
        return None;
    }
    let last = text.len() - pat.len();
    let mut i: usize = 0;
    while i < last
        invariant
            pat@.len() <= text@.len(),
            last == text@.len() - pat@.len(),
            i <= last,
            forall|j: int| 0 <= j < i ==> !match_at(text@, pat@, j),
        decreases last - i,
    {
        if matches_here(text, pat, i) {
            return Some(i);
        }
        i += 1;
    }
    if matches_here(text, pat, last) {
        return Some(last);
    }
    None
}

} // verus!
