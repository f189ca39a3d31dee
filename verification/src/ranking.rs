use vstd::prelude::*;
use vstd::seq_lib::*;
use vstd::utf8::{encode_utf8, is_ascii_chars};

use crate::parser::parser::{views, Asset, AssetView};
use crate::sorting::{
    lemma_insertion_point_found, lemma_sort_ascends, lemma_sort_keeps_ties, lemma_sort_permutes,
    lemma_sort_push, stable_sort,
};

verus! {

/// The least score with which an asset stays in the working view.
pub const THRESHOLD: u8 = 18;

/// How similar two texts are, as the fuzzy matcher scores them.
pub uninterp spec fn fuzzy_ratio(first: Seq<char>, second: Seq<char>) -> u8;

/// The text with the shorter encoding; the first where the two are as long.
pub open spec fn shorter_of(first: Seq<char>, second: Seq<char>) -> Seq<char> {
    if encode_utf8(first).len() <= encode_utf8(second).len() {
        first
    } else {
        second
    }
}

/// Whether the fuzzy matcher can score the two texts: it cuts the shorter
/// one at every byte, so the shorter one has to be ASCII.
pub open spec fn can_score(first: Seq<char>, second: Seq<char>) -> bool {
    is_ascii_chars(shorter_of(first, second))
}

/// Calls `fuzzywuzzy::fuzz::ratio`. The score is a function of the two
/// texts alone. The crate slices the text of fewer bytes at arbitrary byte
/// offsets and panics inside a character of several bytes, which the
/// precondition rules out.
#[verifier::external_body]
pub(crate) fn ratio(first: &str, second: &str) -> (score: u8)
    requires
        can_score(first@, second@),
    ensures
        score == fuzzy_ratio(first@, second@),
{
    fuzzywuzzy::fuzz::ratio(first, second)
}

/// Whether the two texts can be scored.
pub fn scorable(first: &str, second: &str) -> (possible: bool)
    ensures
        possible == can_score(first@, second@),
{
    if first.as_bytes().len() <= second.as_bytes().len() {
        first.is_ascii()
    } else {
        second.is_ascii()
    }
}

/// The similarity of two texts, where they can be scored.
pub fn similarity(first: &str, second: &str) -> (score: Option<u8>)
    ensures
        match score {
            Some(value) => can_score(first@, second@) && value == fuzzy_ratio(first@, second@),
            None => !can_score(first@, second@),
        },
{
    if scorable(first, second) {
        Some(ratio(first, second))
    } else {
        None
    }
}

/// Candidates come in the order of their scores, the higher score first.
pub open spec fn by_score() -> spec_fn((u8, AssetView), (u8, AssetView)) -> bool {
    |a: (u8, AssetView), b: (u8, AssetView)| a.0 >= b.0
}

/// A candidate stays where its score reaches the threshold.
pub open spec fn retained() -> spec_fn((u8, AssetView)) -> bool {
    |candidate: (u8, AssetView)| candidate.0 >= THRESHOLD
}

/// The candidates that stay, the higher score first; candidates of one score
/// in the order in which they came.
pub open spec fn ranking(candidates: Seq<(u8, AssetView)>) -> Seq<(u8, AssetView)> {
    stable_sort(candidates.filter(retained()), by_score())
}

/// The assets of the ranking.
pub open spec fn ranked(candidates: Seq<(u8, AssetView)>) -> Seq<AssetView> {
    ranking(candidates).map_values(|candidate: (u8, AssetView)| candidate.1)
}

/// Assets paired with scores, position by position.
pub open spec fn paired(scores: Seq<u8>, assets: Seq<AssetView>) -> Seq<(u8, AssetView)> {
    Seq::new(assets.len(), |i: int| (scores[i], assets[i]))
}

/// The views of candidates.
pub open spec fn candidate_views(candidates: Seq<(u8, Asset)>) -> Seq<(u8, AssetView)> {
    Seq::new(candidates.len(), |i: int| (candidates[i].0, candidates[i].1@))
}

/// Ranks candidates: those below the threshold leave, the others come out by
/// score, the higher first, ties in the order of `candidates`.
pub fn rank(candidates: &Vec<(u8, Asset)>) -> (assets: Vec<Asset>)
    ensures
        views(assets@) == ranked(candidate_views(candidates@)),
{
    let ghost all = candidate_views(candidates@);
    let mut scores: Vec<u8> = Vec::new();
    let mut assets: Vec<Asset> = Vec::new();
    let mut i: usize = 0;
    proof {
        assert(all.take(0) =~= Seq::empty());
        Seq::<(u8, AssetView)>::empty().lemma_filter_len(retained());
        assert(paired(scores@, views(assets@)) =~= ranking(all.take(0)));
    }
    while i < candidates.len()
        invariant
            i <= candidates.len(),
            all == candidate_views(candidates@),
            scores@.len() == assets@.len(),
            paired(scores@, views(assets@)) == ranking(all.take(i as int)),
        decreases candidates.len() - i,
    {
        let score = candidates[i].0;
        proof {
            assert(all.take(i + 1) =~= all.take(i as int).push(all[i as int]));
            all.take(i as int).lemma_filter_push(all[i as int], retained());
        }
        if score >= THRESHOLD {
            let asset = candidates[i].1.clone();
            let ghost before = paired(scores@, views(assets@));
            let ghost candidate = (score, asset@);
            let mut k: usize = scores.len();
            while k > 0 && scores[k - 1] < score
                invariant
                    k <= scores.len() == assets.len(),
                    before == paired(scores@, views(assets@)),
                    candidate == (score, asset@),
                    forall|j: int| k <= j < before.len() ==> !by_score()(#[trigger] before[j], candidate),
                decreases k,
            {
                k = k - 1;
            }
            proof {
                if k > 0 {
                    assert(by_score()(before[k - 1], candidate));
                }
                lemma_insertion_point_found(before, candidate, by_score(), k as int);
                lemma_sort_push(all.take(i as int).filter(retained()), candidate, by_score());
            }
            scores.insert(k, score);
            assets.insert(k, asset);
            assert(paired(scores@, views(assets@)) =~= before.insert(k as int, candidate));
        }
        i = i + 1;
    }
    proof {
        assert(all.take(i as int) =~= all);
        assert(views(assets@) =~= ranked(all));
    }
    assets
}

/// Candidates of one score.
pub open spec fn scored_as(score: u8) -> spec_fn((u8, AssetView)) -> bool {
    |candidate: (u8, AssetView)| candidate.0 == score
}

/// What ranking does to candidates: every candidate of the ranking is one of
/// the candidates and reaches the threshold; the scores never rise along the
/// ranking; and the candidates of any one score stand in the ranking as they
/// stood among the candidates that stay.
pub proof fn lemma_ranking(candidates: Seq<(u8, AssetView)>, score: u8)
    ensures
        forall|i: int|
            0 <= i < ranking(candidates).len() ==> candidates.contains(
                #[trigger] ranking(candidates)[i],
            ) && ranking(candidates)[i].0 >= THRESHOLD,
        forall|i: int, j: int|
            0 <= i < j < ranking(candidates).len() ==> (#[trigger] ranking(candidates)[i]).0 >= (
            #[trigger] ranking(candidates)[j]).0,
        ranking(candidates).filter(scored_as(score)) == candidates.filter(retained()).filter(
            scored_as(score),
        ),
        ranking(candidates).to_multiset() == candidates.filter(retained()).to_multiset(),
{
    let kept = candidates.filter(retained());
    let result = ranking(candidates);
    lemma_sort_permutes(kept, by_score());
    lemma_sort_ascends(kept, by_score());
    lemma_sort_keeps_ties(kept, by_score(), scored_as(score));
    assert forall|i: int| 0 <= i < result.len() implies candidates.contains(#[trigger] result[i])
        && result[i].0 >= THRESHOLD by {
        let x = result[i];
        assert(result.contains(x));
        to_multiset_contains(result, x);
        to_multiset_contains(kept, x);
        assert(kept.contains(x));
        candidates.lemma_filter_contains_rev(retained(), x);
    }
    assert forall|i: int, j: int| 0 <= i < j < result.len() implies (#[trigger] result[i]).0 >= (
    #[trigger] result[j]).0 by {
        assert(by_score()(result[i], result[j]));
    }
}

} // verus!
