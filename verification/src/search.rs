//! The pipeline: every candidate is scored, one by one or in parallel, and
//! the scored paths are ranked.

use rayon::iter::{IntoParallelRefIterator, ParallelIterator};
use vstd::prelude::*;
use vstd::multiset::{group_multiset_axioms, Multiset};
use vstd::seq_lib::group_to_multiset_ensures;
use crate::align::smaller;
use crate::candidate::{
    evaluate, filter_and_score, Candidate, CandidateView, CaseSensitivity, Query, ScoredPath,
    ScoredView, TypeFilter,
};
use crate::order::{ranked, views};
use crate::rank::{is_ranking, key_of, keys, lemma_ranking_unique, rank};

verus! {

/// The views of a sequence of candidates.
pub open spec fn candidate_views(candidates: Seq<Candidate>) -> Seq<CandidateView> {
    candidates.map_values(|c: Candidate| c@)
}

/// The scored paths that the candidates give for a needle, in the order of
/// the candidates: each candidate that the filter keeps, with its score.
pub open spec fn scored_all(
    candidates: Seq<CandidateView>,
    needle: Seq<char>,
    case: CaseSensitivity,
    filter: TypeFilter,
) -> Seq<ScoredView>
    decreases candidates.len(),
{
    if candidates.len() == 0 {
        Seq::empty()
    } else {
        let earlier = scored_all(candidates.drop_last(), needle, case, filter);
        match evaluate(candidates.last(), needle, case, filter) {
            Some(scored) => earlier.push(scored),
            None => earlier,
        }
    }
}

/// Every scored path comes from one of the candidates, by `evaluate`.
pub proof fn lemma_scored_all_origin(
    candidates: Seq<CandidateView>,
    needle: Seq<char>,
    case: CaseSensitivity,
    filter: TypeFilter,
    i: int,
) -> (at: int)
    requires
        0 <= i < scored_all(candidates, needle, case, filter).len(),
    ensures
        0 <= at < candidates.len(),
        evaluate(candidates[at], needle, case, filter) == Some(
            scored_all(candidates, needle, case, filter)[i],
        ),
    decreases candidates.len(),
{
    let earlier = scored_all(candidates.drop_last(), needle, case, filter);
    if i < earlier.len() {
        lemma_scored_all_origin(candidates.drop_last(), needle, case, filter, i)
    } else {
        candidates.len() - 1
    }
}

/// Every scored path has a positive score.
pub proof fn lemma_scored_all_positive(
    candidates: Seq<CandidateView>,
    needle: Seq<char>,
    case: CaseSensitivity,
    filter: TypeFilter,
)
    ensures
        forall|i: int|
            0 <= i < scored_all(candidates, needle, case, filter).len() ==> (#[trigger] scored_all(
                candidates,
                needle,
                case,
                filter,
            )[i]).score > 0,
{
    assert forall|i: int|
        0 <= i < scored_all(candidates, needle, case, filter).len() implies (#[trigger] scored_all(
        candidates,
        needle,
        case,
        filter,
    )[i]).score > 0 by {
        lemma_scored_all_origin(candidates, needle, case, filter, i);
    }
}

/// Scores the candidates one after the other.
pub fn score_sequential(candidates: &Vec<Candidate>, query: &Query, filter: TypeFilter) -> (scored:
    Vec<ScoredPath>)
    ensures
        views(scored@) == scored_all(
            candidate_views(candidates@),
            query.needle(),
            query.case(),
            filter,
        ),
{
    let mut scored: Vec<ScoredPath> = Vec::new();
    let mut i: usize = 0;
    while i < candidates.len()
        invariant
            i <= candidates@.len(),
            views(scored@) == scored_all(
                candidate_views(candidates@.take(i as int)),
                query.needle(),
                query.case(),
                filter,
            ),
        decreases candidates@.len() - i,
    {
        let ghost seen = candidate_views(candidates@.take(i as int));
        let ghost next = candidate_views(candidates@.take(i + 1));
        assert(next.drop_last() =~= seen);
        if let Some(path) = filter_and_score(&candidates[i], query, filter) {
            scored.push(path);
        }
        i += 1;
    }
    assert(candidates@.take(i as int) =~= candidates@);
    scored
}

/// Hands the candidates to rayon's `par_iter`, `filter_map` and `collect`,
/// with `filter_and_score` as the operation applied to each. Collecting into
/// a vector keeps the order of the items, so the contract claims the result
/// of scoring the candidates one after the other.
#[verifier::external_body]
fn score_parallel(candidates: &Vec<Candidate>, query: &Query, filter: TypeFilter) -> (scored: Vec<
    ScoredPath,
>)
    ensures
        views(scored@) == scored_all(
            candidate_views(candidates@),
            query.needle(),
            query.case(),
            filter,
        ),
{
    candidates
        .par_iter()
        .filter_map(|candidate| filter_and_score(candidate, query, filter))
        .collect()
}

/// Scores the candidates, in parallel where `parallel` is set. The result is
/// the same either way.
pub fn score_candidates(
    candidates: &Vec<Candidate>,
    query: &Query,
    filter: TypeFilter,
    parallel: bool,
) -> (scored: Vec<ScoredPath>)
    ensures
        views(scored@) == scored_all(
            candidate_views(candidates@),
            query.needle(),
            query.case(),
            filter,
        ),
        forall|i: int| 0 <= i < scored@.len() ==> (#[trigger] views(scored@)[i]).score > 0,
{
    proof {
        lemma_scored_all_positive(
            candidate_views(candidates@),
            query.needle(),
            query.case(),
            filter,
        );
    }
    if parallel {
        score_parallel(candidates, query, filter)
    } else {
        score_sequential(candidates, query, filter)
    }
}

/// Scores the candidates for `query` and returns the `limit` best of those
/// that `filter` keeps, best first.
pub fn search(
    candidates: &Vec<Candidate>,
    query: &Query,
    filter: TypeFilter,
    limit: usize,
    parallel: bool,
) -> (results: Vec<ScoredPath>)
    ensures
        is_ranking(
            views(results@),
            scored_all(candidate_views(candidates@), query.needle(), query.case(), filter),
            limit as nat,
        ),
        ranked(views(results@)),
        results@.len() == smaller(
            limit as int,
            scored_all(
                candidate_views(candidates@),
                query.needle(),
                query.case(),
                filter,
            ).len() as int,
        ),
        results@.len() <= candidates@.len(),
        forall|i: int| 0 <= i < results@.len() ==> (#[trigger] views(results@)[i]).score > 0,
{
    let scored: Vec<ScoredPath> = score_candidates(candidates, query, filter, parallel);
    proof {
        lemma_scored_all_len(candidate_views(candidates@), query.needle(), query.case(), filter);
    }
    rank(scored, limit)
}

/// No more paths are scored than there are candidates.
pub proof fn lemma_scored_all_len(
    candidates: Seq<CandidateView>,
    needle: Seq<char>,
    case: CaseSensitivity,
    filter: TypeFilter,
)
    ensures
        scored_all(candidates, needle, case, filter).len() <= candidates.len(),
    decreases candidates.len(),
{
    if candidates.len() > 0 {
        lemma_scored_all_len(candidates.drop_last(), needle, case, filter);
    }
}

/// The elements `m` with the scored path `s`, if there is one.
spec fn with_scored(m: Multiset<ScoredView>, s: Option<ScoredView>) -> Multiset<ScoredView> {
    match s {
        Some(scored) => m.insert(scored),
        None => m,
    }
}

/// Without candidate `i` the scored paths are the same but for the one that
/// this candidate gives, if it gives one.
proof fn lemma_scored_all_remove(
    candidates: Seq<CandidateView>,
    needle: Seq<char>,
    case: CaseSensitivity,
    filter: TypeFilter,
    i: int,
)
    requires
        0 <= i < candidates.len(),
    ensures
        scored_all(candidates, needle, case, filter).to_multiset() == with_scored(
            scored_all(candidates.remove(i), needle, case, filter).to_multiset(),
            evaluate(candidates[i], needle, case, filter),
        ),
    decreases candidates.len(),
{
    broadcast use {group_to_multiset_ensures, group_multiset_axioms};

    if i < candidates.len() - 1 {
        lemma_scored_all_remove(candidates.drop_last(), needle, case, filter, i);
        assert(candidates.remove(i).drop_last() =~= candidates.drop_last().remove(i));
    }
}

/// Candidates in another order give the same scored paths, in another order.
pub proof fn lemma_scored_all_multiset(
    a: Seq<CandidateView>,
    b: Seq<CandidateView>,
    needle: Seq<char>,
    case: CaseSensitivity,
    filter: TypeFilter,
)
    requires
        a.to_multiset() == b.to_multiset(),
    ensures
        scored_all(a, needle, case, filter).to_multiset() == scored_all(
            b,
            needle,
            case,
            filter,
        ).to_multiset(),
    decreases a.len(),
{
    broadcast use {group_to_multiset_ensures, group_multiset_axioms};

    b.to_multiset_ensures();
    if a.len() > 0 {
        let x = a.last();
        assert(b.to_multiset().count(x) > 0);
        let i = choose|i: int| 0 <= i < b.len() && b[i] == x;
        assert(a.drop_last() =~= a.remove(a.len() - 1));
        lemma_scored_all_multiset(a.drop_last(), b.remove(i), needle, case, filter);
        lemma_scored_all_remove(b, needle, case, filter, i);
    }
}

/// The results of a search do not depend on the order of the candidates: for
/// the same candidates in two orders, two rankings of their scored paths
/// show the same scores and paths at every place. Where no two different
/// candidates share a path, the rankings are equal.
pub proof fn lemma_search_order_independent(
    candidates1: Seq<CandidateView>,
    candidates2: Seq<CandidateView>,
    needle: Seq<char>,
    case: CaseSensitivity,
    filter: TypeFilter,
    k: nat,
    top1: Seq<ScoredView>,
    top2: Seq<ScoredView>,
)
    requires
        candidates1.to_multiset() == candidates2.to_multiset(),
        is_ranking(top1, scored_all(candidates1, needle, case, filter), k),
        is_ranking(top2, scored_all(candidates2, needle, case, filter), k),
    ensures
        keys(top1) == keys(top2),
        (forall|i: int, j: int|
            0 <= i < candidates1.len() && 0 <= j < candidates1.len() && candidates1[i].path
                == candidates1[j].path ==> candidates1[i] == candidates1[j]) ==> top1 == top2,
{
    let scored1 = scored_all(candidates1, needle, case, filter);
    let scored2 = scored_all(candidates2, needle, case, filter);
    lemma_scored_all_multiset(candidates1, candidates2, needle, case, filter);
    lemma_ranking_unique(top1, scored1, top2, scored2, k);
    if forall|i: int, j: int|
        0 <= i < candidates1.len() && 0 <= j < candidates1.len() && candidates1[i].path
            == candidates1[j].path ==> candidates1[i] == candidates1[j] {
        assert forall|i: int, j: int|
            0 <= i < scored1.len() && 0 <= j < scored1.len() && key_of(scored1[i]) == key_of(
                scored1[j],
            ) implies scored1[i] == scored1[j] by {
            let a = lemma_scored_all_origin(candidates1, needle, case, filter, i);
            let b = lemma_scored_all_origin(candidates1, needle, case, filter, j);
        }
    }
}

} // verus!
