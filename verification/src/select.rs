//! Selection of the best paths in one pass, with a bounded store.

use vstd::prelude::*;
use vstd::multiset::group_multiset_axioms;
use vstd::seq_lib::{group_to_multiset_ensures, lemma_multiset_commutative};
use crate::align::smaller;
use crate::candidate::{ScoredPath, ScoredView};
use crate::order::{
    lemma_not_outranks_transitive, lemma_outranks_asymmetric, lemma_outranks_transitive,
    none_outranks, outranks, outranks_none, ranked, ranks_above, views,
};
use crate::rank::{is_ranking, splits_at_rank};

verus! {

/// Puts `item` at its rank among `top`, which holds at most `limit` paths in
/// rank order, behind the paths that it does not outrank. Where `top` is
/// full, the path of lowest rank leaves and is returned: the last of `top`,
/// or `item` itself where it outranks none. What outranked no path of a full
/// `top` before outranks none after.
fn insert_ranked(top: &mut Vec<ScoredPath>, item: ScoredPath, limit: usize) -> (dropped: Option<
    ScoredPath,
>)
    requires
        ranked(views(old(top)@)),
        old(top)@.len() <= limit,
    ensures
        ranked(views(final(top)@)),
        final(top)@.len() == smaller(limit as int, old(top)@.len() as int + 1),
        dropped is Some <==> old(top)@.len() == limit,
        dropped is None ==> views(final(top)@).to_multiset() == views(
            old(top)@,
        ).to_multiset().insert(item@),
        dropped matches Some(d) ==> views(final(top)@).to_multiset().insert(d@) == views(
            old(top)@,
        ).to_multiset().insert(item@),
        dropped matches Some(d) ==> outranks_none(d@, views(final(top)@)),
        forall|r: ScoredView|
            old(top)@.len() == limit && outranks_none(r, views(old(top)@))
                ==> #[trigger] outranks_none(r, views(final(top)@)),
{
    broadcast use group_to_multiset_ensures;

    let ghost before = views(top@);
    let ghost new = item@;
    let mut at: usize = top.len();
    while at > 0 && ranks_above(&item, &top[at - 1])
        invariant
            at <= top@.len(),
            top@ == old(top)@,
            forall|j: int| at <= j < top@.len() ==> outranks(item@, #[trigger] views(top@)[j]),
        decreases at,
    {
        at -= 1;
    }
    assert forall|j: int| 0 <= j < at implies !outranks(new, #[trigger] before[j]) by {
        if j < at - 1 {
            lemma_not_outranks_transitive(new, before[at - 1], before[j]);
        }
    }
    assert forall|j: int| at <= j < before.len() implies !outranks(#[trigger] before[j], new) by {
        lemma_outranks_asymmetric(new, before[j]);
    }
    if at >= limit {
        return Some(item);
    }
    top.insert(at, item);
    let ghost grown = views(top@);
    assert(grown =~= before.insert(at as int, new));
    if top.len() <= limit {
        return None;
    }
    let last: Option<ScoredPath> = top.pop();
    let ghost kept = views(top@);
    assert(kept =~= grown.drop_last());
    assert(grown =~= kept.push(grown.last()));
    assert(kept.push(grown.last()).to_multiset() == kept.to_multiset().insert(grown.last()));
    assert forall|r: ScoredView| outranks_none(r, before) implies #[trigger] outranks_none(
        r,
        kept,
    ) by {
        assert forall|j: int| 0 <= j < kept.len() implies !outranks(r, #[trigger] kept[j]) by {
            if j == at {
                assert(!outranks(r, before[at as int]));
                if outranks(r, new) {
                    lemma_outranks_transitive(r, new, before[at as int]);
                }
            } else if j < at {
                assert(kept[j] == before[j]);
            } else {
                assert(kept[j] == before[j - 1]);
            }
        }
    }
    last
}

/// Selects the `k` best of `scored` by keeping no more than `k` paths at a
/// time: each path in turn takes its rank among the best so far, and what
/// falls behind the `k`-th leaves. The time is in proportion to `k` for each
/// path.
pub fn select_best(scored: Vec<ScoredPath>, k: usize) -> (top: Vec<ScoredPath>)
    ensures
        top@.len() == smaller(k as int, scored@.len() as int),
        ranked(views(top@)),
        is_ranking(views(top@), views(scored@), k as nat),
{
    let ghost input = views(scored@);
    let ghost all = scored@;
    let mut top: Vec<ScoredPath> = Vec::new();
    let ghost mut rest: Seq<ScoredView> = Seq::empty();
    assert(input.take(0) =~= Seq::<ScoredView>::empty());
    for item in it: scored.into_iter()
        invariant
            it.seq() == all,
            input == views(all),
            top@.len() <= k,
            rest.len() > 0 ==> top@.len() == k,
            splits_at_rank(views(top@), rest, input.take(it.index()), k as nat),
    {
        let ghost out = views(top@);
        let ghost seen = input.take(it.index());
        let ghost new = item@;
        assert(input.take(it.index() + 1) =~= seen.push(new));
        let dropped: Option<ScoredPath> = insert_ranked(&mut top, item, k);
        proof {
            broadcast use {group_to_multiset_ensures, group_multiset_axioms};

            let out2 = views(top@);
            lemma_multiset_commutative(out, rest);
            lemma_multiset_commutative(out2, rest);
            if let Some(d) = dropped {
                let rest2 = rest.push(d@);
                lemma_multiset_commutative(out2, rest2);
                assert(out2.to_multiset().add(rest2.to_multiset()) =~= out2.to_multiset().insert(
                    d@,
                ).add(rest.to_multiset()));
                assert(out.to_multiset().insert(new).add(rest.to_multiset())
                    =~= out.to_multiset().add(rest.to_multiset()).insert(new));
                assert forall|i: int| 0 <= i < rest2.len() implies outranks_none(
                    #[trigger] rest2[i],
                    out2,
                ) by {
                    if i < rest.len() {
                        assert(outranks_none(rest[i], out));
                    }
                }
                rest = rest2;
            }
        }
    }
    assert(input.take(all.len() as int) =~= input);
    top
}

} // verus!
