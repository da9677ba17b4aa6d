//! Ranking: the best of a collection of scored paths, best first.

use vstd::prelude::*;
use vstd::multiset::group_multiset_axioms;
use vstd::relations::{sorted_by, total_ordering};
use vstd::seq_lib::{group_to_multiset_ensures, lemma_multiset_commutative, lemma_sorted_unique};
use crate::align::smaller;
use crate::candidate::{ScoredPath, ScoredView};
use crate::order::{
    lemma_path_before_asymmetric, lemma_path_before_total, lemma_path_before_transitive,
    none_outranks, path_before, ranked, views,
};
use crate::select::select_best;
use crate::sort::sort_ranked;

verus! {

/// Whether `top` and `rest` split `input` into its `k` best elements in rank
/// order, or all of them where there are fewer, and the others.
pub open spec fn splits_at_rank(
    top: Seq<ScoredView>,
    rest: Seq<ScoredView>,
    input: Seq<ScoredView>,
    k: nat,
) -> bool {
    &&& top.len() == smaller(k as int, input.len() as int)
    &&& ranked(top)
    &&& none_outranks(rest, top)
    &&& (top + rest).to_multiset() == input.to_multiset()
}

/// Whether `top` holds the `k` best elements of `input` in rank order, or
/// all of them where there are fewer.
pub open spec fn is_ranking(top: Seq<ScoredView>, input: Seq<ScoredView>, k: nat) -> bool {
    exists|rest: Seq<ScoredView>| splits_at_rank(top, rest, input, k)
}

/// The limit from which the whole input is sorted. Below it the best paths
/// are selected in one pass.
pub const SORT_FROM: usize = 32;

/// Selects the `k` best of `scored`, or all of them where there are fewer,
/// and returns them best first. Paths of equal score come in the order of
/// their paths.
pub fn rank(scored: Vec<ScoredPath>, k: usize) -> (top: Vec<ScoredPath>)
    ensures
        top@.len() == smaller(k as int, scored@.len() as int),
        ranked(views(top@)),
        is_ranking(views(top@), views(scored@), k as nat),
        forall|i: int| 0 <= i < top@.len() ==> views(scored@).contains(#[trigger] views(top@)[i]),
        k >= scored@.len() ==> views(top@).to_multiset() == views(scored@).to_multiset(),
{
    let ghost input = views(scored@);
    let top: Vec<ScoredPath> = if k < SORT_FROM {
        select_best(scored, k)
    } else {
        let mut all: Vec<ScoredPath> = sort_ranked(scored);
        let ghost sorted = views(all@);
        all.truncate(k);
        proof {
            let kept = views(all@);
            let rest = sorted.skip(kept.len() as int);
            sorted.to_multiset_ensures();
            input.to_multiset_ensures();
            assert(kept =~= sorted.take(kept.len() as int));
            assert(kept + rest =~= sorted);
            assert(splits_at_rank(kept, rest, input, k as nat));
        }
        all
    };
    proof {
        lemma_ranking_members(views(top@), input, k as nat);
        if k >= input.len() {
            lemma_ranking_of_all(views(top@), input, k as nat);
        }
    }
    top
}

/// Every element of a ranking is an element of its input.
pub proof fn lemma_ranking_members(top: Seq<ScoredView>, input: Seq<ScoredView>, k: nat)
    requires
        is_ranking(top, input, k),
    ensures
        forall|i: int| 0 <= i < top.len() ==> input.contains(#[trigger] top[i]),
{
    broadcast use {group_to_multiset_ensures, group_multiset_axioms};

    let rest = choose|rest: Seq<ScoredView>| splits_at_rank(top, rest, input, k);
    assert forall|i: int| 0 <= i < top.len() implies input.contains(#[trigger] top[i]) by {
        assert((top + rest)[i] == top[i]);
        assert((top + rest).to_multiset().count(top[i]) > 0);
    }
}

/// A ranking with room for the whole input holds every element of the
/// input, as often as the input does.
pub proof fn lemma_ranking_of_all(top: Seq<ScoredView>, input: Seq<ScoredView>, k: nat)
    requires
        is_ranking(top, input, k),
        k >= input.len(),
    ensures
        top.to_multiset() == input.to_multiset(),
{
    let rest = choose|rest: Seq<ScoredView>| splits_at_rank(top, rest, input, k);
    (top + rest).to_multiset_ensures();
    input.to_multiset_ensures();
}

/// What decides the rank of a scored path: its score and its path.
pub open spec fn key_of(v: ScoredView) -> (int, Seq<char>) {
    (v.score, v.candidate.path)
}

/// The rank keys of a sequence of scored paths.
pub open spec fn keys(s: Seq<ScoredView>) -> Seq<(int, Seq<char>)> {
    s.map_values(|v: ScoredView| key_of(v))
}

/// Whether key `a` ranks at least as high as key `b`.
pub open spec fn key_geq(a: (int, Seq<char>), b: (int, Seq<char>)) -> bool {
    a.0 > b.0 || (a.0 == b.0 && !path_before(b.1, a.1))
}

/// The order of rank keys as a relation: `key_geq`.
pub open spec fn key_order() -> spec_fn((int, Seq<char>), (int, Seq<char>)) -> bool {
    |a: (int, Seq<char>), b: (int, Seq<char>)| key_geq(a, b)
}

/// Rank keys are totally ordered.
pub proof fn lemma_key_order_total()
    ensures
        total_ordering(key_order()),
{
    let geq = key_order();
    assert forall|x: (int, Seq<char>), y: (int, Seq<char>)| #[trigger]
        geq(x, y) && #[trigger] geq(y, x) implies x == y by {
        lemma_path_before_total(x.1, y.1);
    }
    assert forall|x: (int, Seq<char>), y: (int, Seq<char>), z: (int, Seq<char>)| #[trigger]
        geq(x, y) && #[trigger] geq(y, z) implies geq(x, z) by {
        if x.0 == y.0 && y.0 == z.0 && path_before(z.1, x.1) {
            lemma_path_before_total(x.1, y.1);
            lemma_path_before_total(y.1, z.1);
            if x.1 != y.1 && y.1 != z.1 {
                lemma_path_before_transitive(z.1, x.1, y.1);
                lemma_path_before_asymmetric(z.1, y.1);
            }
        }
    }
    assert forall|x: (int, Seq<char>), y: (int, Seq<char>)| #[trigger]
        geq(x, y) || #[trigger] geq(y, x) by {
        if x.0 == y.0 && path_before(y.1, x.1) {
            lemma_path_before_asymmetric(y.1, x.1);
        }
    }
}

/// Sequences with the same elements have the same elements after a map.
proof fn lemma_map_values_multiset<A, B>(a: Seq<A>, b: Seq<A>, f: spec_fn(A) -> B)
    requires
        a.to_multiset() == b.to_multiset(),
    ensures
        a.map_values(f).to_multiset() == b.map_values(f).to_multiset(),
    decreases a.len(),
{
    broadcast use {group_to_multiset_ensures, group_multiset_axioms};

    b.to_multiset_ensures();
    if a.len() > 0 {
        let x = a.last();
        assert(b.to_multiset().count(x) > 0);
        let i = choose|i: int| 0 <= i < b.len() && b[i] == x;
        let shorter_a = a.drop_last();
        let shorter_b = b.remove(i);
        assert(shorter_a =~= a.remove(a.len() - 1));
        lemma_map_values_multiset(shorter_a, shorter_b, f);
        let mapped_a = a.map_values(f);
        let mapped_b = b.map_values(f);
        assert(shorter_a.map_values(f) =~= mapped_a.remove(a.len() - 1));
        assert(shorter_b.map_values(f) =~= mapped_b.remove(i));
        assert(mapped_b.to_multiset() =~= mapped_b.to_multiset().remove(f(x)).insert(f(x)));
    }
}

/// The keys of the best paths, followed by the keys of the others in rank
/// order, are the keys of the whole input in rank order.
proof fn lemma_split_completes(
    top: Seq<ScoredView>,
    rest: Seq<ScoredView>,
    input: Seq<ScoredView>,
    k: nat,
)
    requires
        splits_at_rank(top, rest, input, k),
    ensures
        sorted_by(keys(top) + keys(rest).sort_by(key_order()), key_order()),
        (keys(top) + keys(rest).sort_by(key_order())).to_multiset() == keys(input).to_multiset(),
{
    let geq = key_order();
    lemma_key_order_total();
    let high = keys(top);
    let low = keys(rest).sort_by(geq);
    keys(rest).lemma_sort_by_ensures(geq);
    let full = high + low;
    assert forall|i: int, j: int| 0 <= i < j < full.len() implies #[trigger] geq(
        full[i],
        full[j],
    ) by {
        if i < high.len() && j >= high.len() {
            let y = low[j - high.len()];
            assert(low.contains(y));
            let r = choose|r: int| 0 <= r < rest.len() && keys(rest)[r] == y;
            assert(key_geq(key_of(top[i]), key_of(rest[r])));
        }
    }
    lemma_multiset_commutative(high, low);
    lemma_multiset_commutative(high, keys(rest));
    assert(keys(top + rest) =~= high + keys(rest));
    lemma_map_values_multiset(top + rest, input, |v: ScoredView| key_of(v));
}

/// The ranking of an input does not depend on the order in which the input
/// holds its elements: two rankings of inputs that hold the same elements
/// show the same scores and paths at every place. Where no two different
/// elements of the input share their score and path, the rankings are equal.
pub proof fn lemma_ranking_unique(
    top1: Seq<ScoredView>,
    input1: Seq<ScoredView>,
    top2: Seq<ScoredView>,
    input2: Seq<ScoredView>,
    k: nat,
)
    requires
        is_ranking(top1, input1, k),
        is_ranking(top2, input2, k),
        input1.to_multiset() == input2.to_multiset(),
    ensures
        keys(top1) == keys(top2),
        (forall|i: int, j: int|
            0 <= i < input1.len() && 0 <= j < input1.len() && key_of(input1[i]) == key_of(
                input1[j],
            ) ==> input1[i] == input1[j]) ==> top1 == top2,
{
    broadcast use {group_to_multiset_ensures, group_multiset_axioms};

    let rest1 = choose|rest: Seq<ScoredView>| splits_at_rank(top1, rest, input1, k);
    let rest2 = choose|rest: Seq<ScoredView>| splits_at_rank(top2, rest, input2, k);
    let geq = key_order();
    lemma_key_order_total();
    lemma_split_completes(top1, rest1, input1, k);
    lemma_split_completes(top2, rest2, input2, k);
    lemma_map_values_multiset(input1, input2, |v: ScoredView| key_of(v));
    let full1 = keys(top1) + keys(rest1).sort_by(geq);
    let full2 = keys(top2) + keys(rest2).sort_by(geq);
    lemma_sorted_unique(full1, full2, geq);
    input1.to_multiset_ensures();
    input2.to_multiset_ensures();
    assert(keys(top1) =~= full1.take(top1.len() as int));
    assert(keys(top2) =~= full2.take(top2.len() as int));
    if forall|i: int, j: int|
        0 <= i < input1.len() && 0 <= j < input1.len() && key_of(input1[i]) == key_of(input1[j])
            ==> input1[i] == input1[j] {
        assert forall|n: int| 0 <= n < top1.len() implies top1[n] == top2[n] by {
            lemma_multiset_commutative(top1, rest1);
            lemma_multiset_commutative(top2, rest2);
            assert(input1.to_multiset().count(top1[n]) > 0);
            assert(input1.to_multiset().count(top2[n]) > 0);
            let a = choose|a: int| 0 <= a < input1.len() && input1[a] == top1[n];
            let b = choose|b: int| 0 <= b < input1.len() && input1[b] == top2[n];
            assert(keys(top1)[n] == keys(top2)[n]);
        }
    }
}

} // verus!
