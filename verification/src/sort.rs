//! Sorting of scored paths into rank order, by merging.

use vstd::prelude::*;
use vstd::multiset::group_multiset_axioms;
use vstd::seq_lib::{group_to_multiset_ensures, lemma_multiset_commutative};
use crate::candidate::ScoredPath;
use crate::order::{
    lemma_not_outranks_transitive, lemma_outranks_asymmetric, none_outranks, outranks, ranked,
    ranked_upwards, ranks_above, views,
};

verus! {

/// Merges `a` and `b`, each in rank order, into one sequence in rising rank
/// order: again and again the path of lowest rank leaves its sequence.
fn merge_upwards(a: Vec<ScoredPath>, b: Vec<ScoredPath>) -> (low: Vec<ScoredPath>)
    requires
        ranked(views(a@)),
        ranked(views(b@)),
    ensures
        ranked_upwards(views(low@)),
        views(low@).to_multiset() == views(a@).to_multiset().add(views(b@).to_multiset()),
{
    broadcast use {group_to_multiset_ensures, group_multiset_axioms};

    let ghost total = views(a@).to_multiset().add(views(b@).to_multiset());
    let mut a = a;
    let mut b = b;
    let mut low: Vec<ScoredPath> = Vec::new();
    while a.len() > 0 || b.len() > 0
        invariant
            ranked(views(a@)),
            ranked(views(b@)),
            ranked_upwards(views(low@)),
            none_outranks(views(low@), views(a@)),
            none_outranks(views(low@), views(b@)),
            views(low@).to_multiset().add(views(a@).to_multiset()).add(views(b@).to_multiset())
                == total,
        decreases a@.len() + b@.len(),
    {
        broadcast use {group_to_multiset_ensures, group_multiset_axioms};

        let ghost va = views(a@);
        let ghost vb = views(b@);
        let ghost vl = views(low@);
        let from_b: bool = if a.len() == 0 {
            true
        } else if b.len() == 0 {
            false
        } else {
            ranks_above(&a[a.len() - 1], &b[b.len() - 1])
        };
        if from_b {
            if let Some(path) = b.pop() {
                low.push(path);
                proof {
                    let m = path@;
                    assert(views(b@) =~= vb.drop_last());
                    assert(vb =~= views(b@).push(m));
                    assert(views(low@) =~= vl.push(m));
                    assert forall|i: int| 0 <= i < va.len() implies !outranks(
                        m,
                        #[trigger] va[i],
                    ) by {
                        lemma_outranks_asymmetric(va[va.len() - 1], m);
                        if i < va.len() - 1 {
                            lemma_not_outranks_transitive(m, va[va.len() - 1], va[i]);
                        }
                    }
                }
            }
        } else {
            if let Some(path) = a.pop() {
                low.push(path);
                proof {
                    let m = path@;
                    assert(views(a@) =~= va.drop_last());
                    assert(va =~= views(a@).push(m));
                    assert(views(low@) =~= vl.push(m));
                    assert forall|i: int| 0 <= i < vb.len() implies !outranks(
                        m,
                        #[trigger] vb[i],
                    ) by {
                        if i < vb.len() - 1 {
                            lemma_not_outranks_transitive(m, vb[vb.len() - 1], vb[i]);
                        }
                    }
                }
            }
        }
    }
    low
}

/// The paths of `items`, last first.
fn reversed(items: Vec<ScoredPath>) -> (out: Vec<ScoredPath>)
    ensures
        out@ == items@.reverse(),
{
    let ghost all = items@;
    let mut items = items;
    let mut out: Vec<ScoredPath> = Vec::new();
    while items.len() > 0
        invariant
            items@.len() + out@.len() == all.len(),
            items@ == all.take(items@.len() as int),
            forall|i: int| 0 <= i < out@.len() ==> out@[i] == all[all.len() - 1 - i],
        decreases items@.len(),
    {
        if let Some(path) = items.pop() {
            out.push(path);
        }
    }
    out
}

/// Sorts `items` into rank order.
pub fn sort_ranked(items: Vec<ScoredPath>) -> (sorted: Vec<ScoredPath>)
    ensures
        ranked(views(sorted@)),
        views(sorted@).to_multiset() == views(items@).to_multiset(),
    decreases items@.len(),
{
    if items.len() <= 1 {
        return items;
    }
    let ghost all = views(items@);
    let mut left: Vec<ScoredPath> = items;
    let half: usize = left.len() / 2;
    let right: Vec<ScoredPath> = left.split_off(half);
    proof {
        assert(all =~= views(left@) + views(right@));
        lemma_multiset_commutative(views(left@), views(right@));
    }
    let left: Vec<ScoredPath> = sort_ranked(left);
    let right: Vec<ScoredPath> = sort_ranked(right);
    let low: Vec<ScoredPath> = merge_upwards(left, right);
    let sorted: Vec<ScoredPath> = reversed(low);
    proof {
        let up = views(low@);
        let down = views(sorted@);
        assert(down =~= up.reverse());
        up.lemma_reverse_to_multiset();
    }
    sorted
}

} // verus!
