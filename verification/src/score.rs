//! The relevance score of a candidate name for a query: the alignment score
//! and the boosts for names that equal the query or begin with it.

use vstd::prelude::*;
use crate::align::{
    alignment, alignment_score, capped, lemma_alignment_bounds, lemma_alignment_with_extension,
    smaller, SCORE_CAP,
};
use crate::text::{begins_with, chars_of, same_chars};

verus! {

/// Added to the score of a name that equals the query.
pub const EXACT_BOOST: i32 = 10000;

/// Added to the score of a name that begins with the query and is longer.
pub const PREFIX_BOOST: i32 = 5000;

/// The boost that candidate `c` earns for query `q`.
pub open spec fn boost(q: Seq<char>, c: Seq<char>) -> int {
    if q == c {
        EXACT_BOOST as int
    } else if q.is_prefix_of(c) {
        PREFIX_BOOST as int
    } else {
        0
    }
}

/// The score of candidate `c` for query `q`: zero where either is empty,
/// else the alignment score and the boost.
pub open spec fn score_of(q: Seq<char>, c: Seq<char>) -> int {
    if q.len() == 0 || c.len() == 0 {
        0
    } else {
        alignment(q, c) + boost(q, c)
    }
}

/// Whether every score of a query against a candidate, where the shorter of
/// them has `len` characters, is below `SCORE_CAP`.
pub open spec fn fits(len: int) -> bool {
    2 * len + EXACT_BOOST <= SCORE_CAP
}

/// Scores `candidate` for `query`, both given as characters. A score above
/// `SCORE_CAP` is reported as `SCORE_CAP`.
pub fn score_chars(query: &Vec<char>, candidate: &Vec<char>) -> (score: i32)
    ensures
        score == capped(score_of(query@, candidate@)),
        fits(smaller(query@.len() as int, candidate@.len() as int)) ==> score == score_of(
            query@,
            candidate@,
        ),
        query@.len() == 0 || candidate@.len() == 0 ==> score == 0,
        score >= 0,
{
    if query.len() == 0 || candidate.len() == 0 {
        return 0;
    }
    proof {
        lemma_alignment_bounds(query@, candidate@);
    }
    let aligned: i32 = alignment_score(query, candidate);
    let boost: i32 = if same_chars(query, candidate) {
        EXACT_BOOST
    } else if begins_with(candidate, query) {
        PREFIX_BOOST
    } else {
        0
    };
    if aligned > SCORE_CAP - boost {
        SCORE_CAP
    } else {
        aligned + boost
    }
}

/// Scores the name `candidate` for `query` by local alignment, with the
/// boosts for an exact and for a prefix match. A score above `SCORE_CAP` is
/// reported as `SCORE_CAP`.
pub fn fuzzy_score(query: &str, candidate: &str) -> (score: i32)
    ensures
        score == capped(score_of(query@, candidate@)),
        fits(smaller(query@.len() as int, candidate@.len() as int)) ==> score == score_of(
            query@,
            candidate@,
        ),
        query@.len() == 0 || candidate@.len() == 0 ==> score == 0,
        score >= 0,
{
    let q: Vec<char> = chars_of(query);
    let c: Vec<char> = chars_of(candidate);
    score_chars(&q, &c)
}

/// A query or a candidate without characters scores zero, whatever the
/// other is.
pub proof fn lemma_empty_scores_zero(q: Seq<char>, c: Seq<char>)
    ensures
        score_of(Seq::<char>::empty(), c) == 0,
        score_of(q, Seq::<char>::empty()) == 0,
{
}

/// Where the shorter of query and candidate is short enough, their score is
/// below the cap and is reported as it is.
pub proof fn lemma_score_fits(q: Seq<char>, c: Seq<char>)
    requires
        fits(smaller(q.len() as int, c.len() as int)),
    ensures
        capped(score_of(q, c)) == score_of(q, c),
{
    lemma_alignment_bounds(q, c);
}

/// A score is never negative, and without a boost it is at most twice the
/// length of the shorter of query and candidate.
pub proof fn lemma_score_bounds(q: Seq<char>, c: Seq<char>)
    ensures
        0 <= score_of(q, c),
        score_of(q, c) <= 2 * smaller(q.len() as int, c.len() as int) + boost(q, c),
        boost(q, c) == 0 ==> score_of(q, c) <= 2 * smaller(q.len() as int, c.len() as int),
{
    lemma_alignment_bounds(q, c);
}

/// A candidate that equals the query scores the exact boost and two for each
/// character. That is more than every other candidate scores for the query,
/// and at least the exact boost above any alignment score that the query
/// reaches, strictly so unless that alignment matches the whole query.
pub proof fn lemma_exact_match_dominates(q: Seq<char>, c: Seq<char>)
    requires
        q.len() > 0,
    ensures
        score_of(q, q) == EXACT_BOOST + 2 * q.len(),
        score_of(q, q) > EXACT_BOOST,
        c != q ==> score_of(q, c) < score_of(q, q),
        score_of(q, q) >= EXACT_BOOST + alignment(q, c),
        alignment(q, c) < 2 * q.len() ==> score_of(q, q) > EXACT_BOOST + alignment(q, c),
{
    lemma_alignment_with_extension(q, q);
    lemma_alignment_bounds(q, c);
}

/// A candidate that begins with the query and is longer scores the prefix
/// boost above its alignment score, and less than a candidate that equals
/// the query.
pub proof fn lemma_prefix_match_dominated(q: Seq<char>, c: Seq<char>)
    requires
        q.len() > 0,
        q.is_prefix_of(c),
        q != c,
    ensures
        score_of(q, c) == alignment(q, c) + PREFIX_BOOST,
        score_of(q, c) >= alignment(q, c) + 5000,
        score_of(q, c) < score_of(q, q),
{
    lemma_exact_match_dominates(q, c);
}

} // verus!
