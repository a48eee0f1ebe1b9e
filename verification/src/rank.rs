//! Ranking the window snapshot against a query: fuzzy scores, the threshold
//! filter, descending sort and truncation.
//!
//! Each window gets two fuzzy-similarity scores against the query, one for
//! its class and one for its title; the combined score weights the class ten
//! times the title.  Windows with a whitespace-only title, or whose combined
//! score does not strictly exceed the threshold, are dropped; the rest are
//! sorted by descending score and cut to the configured maximum.

use crate::text::{blank, is_blank};
use crate::window::WindowRecord;
use vstd::prelude::*;
use vstd::seq_lib::group_to_multiset_ensures;

verus! {

/// The score fuzzy_matcher's skim scorer (smart case) gives `pattern`
/// against `choice`; `None` when the pattern does not match.  The scorer is
/// a deterministic dynamic program: the result depends on the two strings
/// alone.
pub uninterp spec fn fuzzy_score_of(choice: Seq<char>, pattern: Seq<char>) -> Option<i64>;

/// Relies on fuzzy_matcher's `SkimMatcherV2` (default configuration, smart
/// case): a deterministic scorer whose result is a function of the choice
/// and pattern strings alone.
#[verifier::external_body]
fn fuzzy_score(choice: &str, pattern: &str) -> (r: Option<i64>)
    ensures
        r == fuzzy_score_of(choice@, pattern@),
{
    let matcher = fuzzy_matcher::skim::SkimMatcherV2::default().smart_case();
    fuzzy_matcher::FuzzyMatcher::fuzzy_match(&matcher, choice, pattern)
}

/// A fuzzy score as an integer: a non-match counts as zero.
pub open spec fn score_or_zero(o: Option<i64>) -> int {
    match o {
        Some(s) => s as int,
        None => 0,
    }
}

/// The combined score of a window: class similarity weighted ten times the
/// title similarity.
pub open spec fn combined_score(class: Seq<char>, title: Seq<char>, query: Seq<char>) -> int {
    score_or_zero(fuzzy_score_of(class, query)) * 10 + score_or_zero(fuzzy_score_of(title, query))
}

/// Whether a window survives the filter: its title is not whitespace-only
/// and its combined score strictly exceeds the threshold.
pub open spec fn passes(w: WindowRecord, query: Seq<char>, threshold: int) -> bool {
    !blank(w.title@) && combined_score(w.class@, w.title@, query) > threshold
}

/// One window that survived the filter: its position in the snapshot and its
/// combined score.
#[derive(Clone, Copy, Debug)]
pub struct ScoredCandidate {
    /// Position of the window in the snapshot.
    pub idx: usize,
    /// Combined score; wide enough that no weighting can overflow it.
    pub score: i128,
}

/// The candidates the filter emits, in snapshot order.
pub open spec fn candidates(ws: Seq<WindowRecord>, query: Seq<char>, threshold: int) -> Seq<
    ScoredCandidate,
>
    decreases ws.len(),
{
    if ws.len() == 0 {
        Seq::empty()
    } else {
        let pre = candidates(ws.drop_last(), query, threshold);
        let i = ws.len() - 1;
        if passes(ws[i], query, threshold) {
            pre.push(
                ScoredCandidate {
                    idx: i as usize,
                    score: combined_score(ws[i].class@, ws[i].title@, query) as i128,
                },
            )
        } else {
            pre
        }
    }
}

/// Scores every window and keeps those passing the filter, in snapshot
/// order.
pub fn score_and_filter(query: &str, ws: &Vec<WindowRecord>, threshold: i64) -> (r: Vec<
    ScoredCandidate,
>)
    ensures
        r@ == candidates(ws@, query@, threshold as int),
{
    let mut r: Vec<ScoredCandidate> = Vec::new();
    let mut i: usize = 0;
    proof {
        assert(ws@.take(0) =~= Seq::<WindowRecord>::empty());
    }
    while i < ws.len()
        invariant
            i <= ws@.len(),
            r@ == candidates(ws@.take(i as int), query@, threshold as int),
        decreases ws@.len() - i,
    {
        proof {
            assert(ws@.take(i + 1).drop_last() =~= ws@.take(i as int));
            assert(ws@.take(i + 1).last() == ws@[i as int]);
        }
        let w = &ws[i];
        if !is_blank(w.title.as_str()) {
            let cs: i64 = match fuzzy_score(w.class.as_str(), query) {
                Some(s) => s,
                None => 0,
            };
            let ts: i64 = match fuzzy_score(w.title.as_str(), query) {
                Some(s) => s,
                None => 0,
            };
            let score: i128 = (cs as i128) * 10 + (ts as i128);
            proof {
                assert(score == combined_score(w.class@, w.title@, query@));
            }
            if score > threshold as i128 {
                r.push(ScoredCandidate { idx: i, score });
            }
        }
        i = i + 1;
    }
    proof {
        assert(ws@.take(ws@.len() as int) =~= ws@);
    }
    r
}

/// Whether the scores run in non-increasing order.
pub open spec fn sorted_desc(s: Seq<ScoredCandidate>) -> bool {
    forall|i: int, j: int| 0 <= i < j < s.len() ==> s[i].score >= s[j].score
}

/// Sorts candidates by descending combined score.  The order of equal
/// scores is left open; the contents are preserved exactly.
pub fn sort_candidates(v: Vec<ScoredCandidate>) -> (r: Vec<ScoredCandidate>)
    ensures
        sorted_desc(r@),
        r@.to_multiset() == v@.to_multiset(),
{
    broadcast use group_to_multiset_ensures;

    let mut out: Vec<ScoredCandidate> = Vec::new();
    let mut i: usize = 0;
    proof {
        assert(v@.take(0) =~= Seq::<ScoredCandidate>::empty());
        assert(out@.to_multiset() =~= v@.take(0).to_multiset());
    }
    while i < v.len()
        invariant
            i <= v@.len(),
            sorted_desc(out@),
            out@.to_multiset() == v@.take(i as int).to_multiset(),
        decreases v@.len() - i,
    {
        let e = v[i];
        let mut j: usize = 0;
        while j < out.len() && out[j].score >= e.score
            invariant
                j <= out@.len(),
                forall|k: int| 0 <= k < j ==> out@[k].score >= e.score,
            decreases out@.len() - j,
        {
            j = j + 1;
        }
        let ghost old_out = out@;
        out.insert(j, e);
        proof {
            assert(out@.len() == old_out.len() + 1);
            assert(forall|x: int| 0 <= x < j ==> out@[x] == old_out[x]);
            assert(out@[j as int] == e);
            assert(forall|x: int| j < x < out@.len() ==> out@[x] == old_out[x - 1]);
            assert forall|p: int, q: int|
                0 <= p < q < out@.len() implies out@[p].score >= out@[q].score by {
                if q < j {
                } else if q == j {
                    assert(out@[p] == old_out[p]);
                } else if p == j {
                    assert(out@[q] == old_out[q - 1]);
                    assert(old_out[q - 1].score <= old_out[j as int].score);
                } else if p < j {
                    assert(out@[p] == old_out[p]);
                    assert(out@[q] == old_out[q - 1]);
                } else {
                    assert(out@[p] == old_out[p - 1]);
                    assert(out@[q] == old_out[q - 1]);
                }
            }
            vstd::seq_lib::to_multiset_insert(old_out, j as int, e);
            vstd::seq_lib::to_multiset_build(v@.take(i as int), v@[i as int]);
            assert(out@.to_multiset() == old_out.to_multiset().insert(e));
            assert(v@.take(i + 1).drop_last() =~= v@.take(i as int));
            assert(v@.take(i + 1) =~= v@.take(i as int).push(v@[i as int]));
            assert(out@.to_multiset() =~= v@.take(i + 1).to_multiset());
        }
        i = i + 1;
    }
    proof {
        assert(v@.take(v@.len() as int) =~= v@);
    }
    out
}

/// The smaller of two integers.
pub open spec fn min_int(a: int, b: int) -> int {
    if a <= b {
        a
    } else {
        b
    }
}

/// Filters, scores, sorts and truncates: the full ranking of a snapshot
/// against a query.  The result is the first `max_entries` elements of some
/// descending ordering of exactly the passing windows.
pub fn rank_windows(query: &str, ws: &Vec<WindowRecord>, threshold: i64, max_entries: usize) -> (r:
    Vec<ScoredCandidate>)
    ensures
        ({
            let cs = candidates(ws@, query@, threshold as int);
            &&& r@.len() == min_int(max_entries as int, cs.len() as int)
            &&& sorted_desc(r@)
            &&& exists|s: Seq<ScoredCandidate>|
                #![auto]
                s.to_multiset() == cs.to_multiset() && sorted_desc(s) && r@ == s.take(
                    min_int(max_entries as int, s.len() as int),
                )
            &&& forall|k: int| 0 <= k < r@.len() ==> cs.to_multiset().contains(#[trigger] r@[k])
        }),
{
    broadcast use group_to_multiset_ensures;

    let ghost cs = candidates(ws@, query@, threshold as int);
    let scored = score_and_filter(query, ws, threshold);
    let sorted = sort_candidates(scored);
    let ghost s = sorted@;
    let mut out = sorted;
    out.truncate(max_entries);
    proof {
        assert(s.to_multiset().len() == cs.to_multiset().len());
        assert(s.len() == cs.len());
        if max_entries as int <= s.len() {
            assert(out@ == s.subrange(0, max_entries as int));
            assert(out@ =~= s.take(min_int(max_entries as int, s.len() as int)));
        } else {
            assert(out@ == s);
            assert(out@ =~= s.take(min_int(max_entries as int, s.len() as int)));
        }
        assert forall|k: int| 0 <= k < out@.len() implies cs.to_multiset().contains(
            #[trigger] out@[k],
        ) by {
            assert(out@[k] == s[k]);
            assert(s.contains(s[k]));
        }
    }
    out
}

/// Every candidate stems from a passing window: its index is in range, the
/// window passes the filter, and the score is that window's combined score.
pub proof fn lemma_candidates_elems(ws: Seq<WindowRecord>, query: Seq<char>, threshold: int)
    requires
        ws.len() <= usize::MAX,
    ensures
        forall|e: ScoredCandidate|
            candidates(ws, query, threshold).to_multiset().contains(e) ==> {
                &&& 0 <= e.idx < ws.len()
                &&& passes(ws[e.idx as int], query, threshold)
                &&& e.score == combined_score(
                    ws[e.idx as int].class@,
                    ws[e.idx as int].title@,
                    query,
                ) as i128
            },
    decreases ws.len(),
{
    broadcast use group_to_multiset_ensures;

    if ws.len() > 0 {
        lemma_candidates_elems(ws.drop_last(), query, threshold);
        let pre = candidates(ws.drop_last(), query, threshold);
        assert forall|e: ScoredCandidate|
            candidates(ws, query, threshold).to_multiset().contains(e) implies {
            &&& 0 <= e.idx < ws.len()
            &&& passes(ws[e.idx as int], query, threshold)
            &&& e.score == combined_score(
                ws[e.idx as int].class@,
                ws[e.idx as int].title@,
                query,
            ) as i128
        } by {
            let i = ws.len() - 1;
            if passes(ws[i], query, threshold) {
                let c = ScoredCandidate {
                    idx: i as usize,
                    score: combined_score(ws[i].class@, ws[i].title@, query) as i128,
                };
                assert(candidates(ws, query, threshold) == pre.push(c));
                assert(pre.push(c).to_multiset() == pre.to_multiset().insert(c));
                if e == c {
                } else {
                    assert(pre.to_multiset().contains(e));
                    assert(ws.drop_last()[e.idx as int] == ws[e.idx as int]);
                }
            } else {
                assert(candidates(ws, query, threshold) == pre);
                assert(ws.drop_last()[e.idx as int] == ws[e.idx as int]);
            }
        }
    }
}

/// Ranking is monotone: for one query, a strictly higher combined score
/// stands strictly earlier in any descending ordering.
pub proof fn lemma_ranking_monotonic(s: Seq<ScoredCandidate>, i: int, j: int)
    requires
        sorted_desc(s),
        0 <= i < s.len(),
        0 <= j < s.len(),
        s[i].score > s[j].score,
    ensures
        i < j,
{
    if i > j {
        assert(s[j].score >= s[i].score);
    }
}

/// A window whose combined score equals the threshold exactly is excluded:
/// only a strictly greater score passes.
pub proof fn lemma_threshold_exclusion(
    ws: Seq<WindowRecord>,
    query: Seq<char>,
    threshold: int,
    k: int,
)
    requires
        ws.len() <= usize::MAX,
        0 <= k < ws.len(),
        combined_score(ws[k].class@, ws[k].title@, query) == threshold,
    ensures
        forall|e: ScoredCandidate|
            candidates(ws, query, threshold).to_multiset().contains(e) ==> e.idx != k,
{
    lemma_candidates_elems(ws, query, threshold);
}

/// A window with a whitespace-only title never appears among the
/// candidates, whatever its score.
pub proof fn lemma_blank_title_excluded(
    ws: Seq<WindowRecord>,
    query: Seq<char>,
    threshold: int,
    k: int,
)
    requires
        ws.len() <= usize::MAX,
        0 <= k < ws.len(),
        blank(ws[k].title@),
    ensures
        forall|e: ScoredCandidate|
            candidates(ws, query, threshold).to_multiset().contains(e) ==> e.idx != k,
{
    lemma_candidates_elems(ws, query, threshold);
}

} // verus!
