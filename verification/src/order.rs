//! The order of scored paths.
//!
//! A scored path outranks another where its score is higher, or where the
//! scores are equal and its path comes first. Paths are ordered component by
//! component: `a/k` comes before `a-b/k`, because `a` comes before `a-b`.

use vstd::prelude::*;
use vstd::std_specs::iter::IteratorSpec;
use crate::candidate::{ScoredPath, ScoredView};

verus! {

/// The character that separates the components of a path.
pub const SEPARATOR: char = '/';

/// Whether the character `x` comes before the different character `y` where
/// two paths first differ: the separator comes before every other
/// character, and two other characters come in the order of their code
/// points.
pub open spec fn char_before(x: char, y: char) -> bool {
    if x == SEPARATOR {
        y != SEPARATOR
    } else if y == SEPARATOR {
        false
    } else {
        x < y
    }
}

/// Whether path `a` comes before path `b`: `a` ends where they first
/// differ and `b` does not, or `a` has there the character that comes
/// first. With the separator before every other character this is the
/// lexicographic order of the paths' components, each component in the
/// lexicographic order of its characters, for paths whose components are
/// separated by one `/` each. It is not the order of the paths' texts
/// character by character: there `a-b/k` would come before `a/k`.
pub open spec fn path_before(a: Seq<char>, b: Seq<char>) -> bool
    decreases a.len(),
{
    if b.len() == 0 {
        false
    } else if a.len() == 0 {
        true
    } else if a[0] == b[0] {
        path_before(a.drop_first(), b.drop_first())
    } else {
        char_before(a[0], b[0])
    }
}

/// No path comes before itself.
pub proof fn lemma_path_before_irreflexive(a: Seq<char>)
    ensures
        !path_before(a, a),
    decreases a.len(),
{
    if a.len() > 0 {
        lemma_path_before_irreflexive(a.drop_first());
    }
}

/// Of two paths at most one comes before the other.
pub proof fn lemma_path_before_asymmetric(a: Seq<char>, b: Seq<char>)
    requires
        path_before(a, b),
    ensures
        !path_before(b, a),
    decreases a.len(),
{
    if a.len() > 0 && b.len() > 0 && a[0] == b[0] {
        lemma_path_before_asymmetric(a.drop_first(), b.drop_first());
    }
}

/// A path that comes before a second comes before all that the second comes
/// before.
pub proof fn lemma_path_before_transitive(a: Seq<char>, b: Seq<char>, c: Seq<char>)
    requires
        path_before(a, b),
        path_before(b, c),
    ensures
        path_before(a, c),
    decreases a.len(),
{
    if a.len() > 0 && b.len() > 0 && c.len() > 0 && a[0] == b[0] && b[0] == c[0] {
        lemma_path_before_transitive(a.drop_first(), b.drop_first(), c.drop_first());
    }
}

/// Of two different paths one comes before the other.
pub proof fn lemma_path_before_total(a: Seq<char>, b: Seq<char>)
    ensures
        a == b || path_before(a, b) || path_before(b, a),
    decreases a.len(),
{
    if a.len() == 0 || b.len() == 0 {
        if a.len() == 0 && b.len() == 0 {
        }
    } else if a[0] == b[0] {
        lemma_path_before_total(a.drop_first(), b.drop_first());
        if a.drop_first() == b.drop_first() {
            assert(b =~= seq![b[0]] + b.drop_first());
        }
    }
}

/// Whether the character `x` comes before the character `y` where two paths
/// first differ.
pub fn precedes(x: char, y: char) -> (before: bool)
    ensures
        before == char_before(x, y),
{
    if x == SEPARATOR {
        y != SEPARATOR
    } else if y == SEPARATOR {
        false
    } else {
        x < y
    }
}

/// Whether the path `a` comes before the path `b`.
pub fn comes_before(a: &str, b: &str) -> (before: bool)
    ensures
        before == path_before(a@, b@),
{
    let mut others = b.chars();
    assert(a@.skip(0) =~= a@);
    for x in it: a.chars()
        invariant
            it.seq() == a@,
            others.obeys_prophetic_iter_laws(),
            path_before(a@, b@) == path_before(it.seq().skip(it.index()), others.remaining()),
    {
        let ghost tail = it.seq().skip(it.index());
        assert(tail.drop_first() == it.seq().skip(it.index() + 1));
        match others.next() {
            None => {
                return false;
            },
            Some(y) => {
                if x != y {
                    return precedes(x, y);
                }
            },
        }
    }
    match others.next() {
        Some(_) => true,
        None => false,
    }
}

/// Whether `a` outranks `b`: by the higher score, and between equal scores
/// by the path that comes first.
pub open spec fn outranks(a: ScoredView, b: ScoredView) -> bool {
    a.score > b.score || (a.score == b.score && path_before(a.candidate.path, b.candidate.path))
}

/// Whether `a` outranks `b`.
pub fn ranks_above(a: &ScoredPath, b: &ScoredPath) -> (above: bool)
    ensures
        above == outranks(a@, b@),
{
    let score_a: i32 = a.score();
    let score_b: i32 = b.score();
    if score_a != score_b {
        score_a > score_b
    } else {
        comes_before(a.path(), b.path())
    }
}

/// Of two scored paths at most one outranks the other.
pub proof fn lemma_outranks_asymmetric(a: ScoredView, b: ScoredView)
    requires
        outranks(a, b),
    ensures
        !outranks(b, a),
{
    if a.score == b.score {
        lemma_path_before_asymmetric(a.candidate.path, b.candidate.path);
    }
}

/// A scored path that outranks a second outranks all that the second
/// outranks.
pub proof fn lemma_outranks_transitive(a: ScoredView, b: ScoredView, c: ScoredView)
    requires
        outranks(a, b),
        outranks(b, c),
    ensures
        outranks(a, c),
{
    if a.score == b.score && b.score == c.score {
        lemma_path_before_transitive(a.candidate.path, b.candidate.path, c.candidate.path);
    }
}

/// Where `a` does not outrank `b` and `b` does not outrank `c`, `a` does not
/// outrank `c`.
pub proof fn lemma_not_outranks_transitive(a: ScoredView, b: ScoredView, c: ScoredView)
    requires
        !outranks(a, b),
        !outranks(b, c),
    ensures
        !outranks(a, c),
{
    if a.score == b.score && b.score == c.score {
        lemma_path_before_total(a.candidate.path, b.candidate.path);
        if path_before(a.candidate.path, c.candidate.path) {
            if a.candidate.path == b.candidate.path {
            } else if b.candidate.path == c.candidate.path {
            } else {
                lemma_path_before_transitive(
                    b.candidate.path,
                    a.candidate.path,
                    c.candidate.path,
                );
            }
        }
    }
}

/// The views of a sequence of scored paths.
pub open spec fn views(paths: Seq<ScoredPath>) -> Seq<ScoredView> {
    paths.map_values(|p: ScoredPath| p@)
}

/// Whether `s` is in rank order: no element is outranked by a later one.
pub open spec fn ranked(s: Seq<ScoredView>) -> bool {
    forall|i: int, j: int| 0 <= i < j < s.len() ==> !outranks(#[trigger] s[j], #[trigger] s[i])
}

/// In rank order scores do not rise, and between equal scores paths do not
/// fall back: of two paths with the same score the one that comes first in
/// the order of paths stands first.
pub proof fn lemma_ranked_order(s: Seq<ScoredView>, i: int, j: int)
    requires
        ranked(s),
        0 <= i < j < s.len(),
    ensures
        s[i].score >= s[j].score,
        s[i].score == s[j].score ==> s[i].candidate.path == s[j].candidate.path || path_before(
            s[i].candidate.path,
            s[j].candidate.path,
        ),
{
    lemma_path_before_total(s[i].candidate.path, s[j].candidate.path);
}

/// Whether `x` outranks no element of `s`.
pub open spec fn outranks_none(x: ScoredView, s: Seq<ScoredView>) -> bool {
    forall|j: int| 0 <= j < s.len() ==> !outranks(x, #[trigger] s[j])
}

/// Whether no element of `low` outranks an element of `high`.
pub open spec fn none_outranks(low: Seq<ScoredView>, high: Seq<ScoredView>) -> bool {
    forall|i: int| 0 <= i < low.len() ==> outranks_none(#[trigger] low[i], high)
}

/// Whether `s` is in rising rank order: no element outranks a later one.
pub open spec fn ranked_upwards(s: Seq<ScoredView>) -> bool {
    forall|i: int, j: int| 0 <= i < j < s.len() ==> !outranks(#[trigger] s[i], #[trigger] s[j])
}

} // verus!
