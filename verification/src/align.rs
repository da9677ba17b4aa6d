//! Local alignment of a query with a candidate name.
//!
//! The score of the best local alignment is the greatest entry of a table
//! whose entry `(i, j)` is the best score of an alignment that ends with the
//! first `i` characters of the query and the first `j` of the candidate.

use vstd::prelude::*;

verus! {

/// Added for a pair of equal characters.
pub const MATCH_SCORE: i32 = 2;

/// Added for a pair of different characters.
pub const MISMATCH_PENALTY: i32 = -1;

/// Added for a character that is aligned with nothing.
pub const GAP_PENALTY: i32 = -2;

/// The greater of `a` and `b`.
pub open spec fn larger(a: int, b: int) -> int {
    if a >= b {
        a
    } else {
        b
    }
}

/// The lesser of `a` and `b`.
pub open spec fn smaller(a: int, b: int) -> int {
    if a <= b {
        a
    } else {
        b
    }
}

/// What aligning character `a` with character `b` adds to a score.
pub open spec fn pair_score(a: char, b: char) -> int {
    if a == b {
        MATCH_SCORE as int
    } else {
        MISMATCH_PENALTY as int
    }
}

/// Entry `(i, j)` of the alignment table of `q` and `c`: zero on the border,
/// and elsewhere the best of starting afresh, extending the diagonal
/// neighbour by the pair `(q[i - 1], c[j - 1])`, and extending the upper or
/// the left neighbour by a gap.
pub open spec fn cell(q: Seq<char>, c: Seq<char>, i: int, j: int) -> int
    decreases i + j,
{
    if i <= 0 || j <= 0 {
        0
    } else {
        larger(
            larger(0, cell(q, c, i - 1, j - 1) + pair_score(q[i - 1], c[j - 1])),
            larger(cell(q, c, i - 1, j) + GAP_PENALTY, cell(q, c, i, j - 1) + GAP_PENALTY),
        )
    }
}

/// The greatest entry among rows `0..=i` of column `j`.
pub open spec fn column_best(q: Seq<char>, c: Seq<char>, i: int, j: int) -> int
    decreases i,
{
    if i <= 0 {
        0
    } else {
        larger(column_best(q, c, i - 1, j), cell(q, c, i, j))
    }
}

/// The greatest entry among columns `0..=j`, all rows taken.
pub open spec fn table_best(q: Seq<char>, c: Seq<char>, j: int) -> int
    decreases j,
{
    if j <= 0 {
        0
    } else {
        larger(table_best(q, c, j - 1), column_best(q, c, q.len() as int, j))
    }
}

/// The score of the best local alignment of `q` with `c`: the greatest entry
/// of their table.
pub open spec fn alignment(q: Seq<char>, c: Seq<char>) -> int {
    table_best(q, c, c.len() as int)
}

/// Every entry lies between zero and twice the shorter of its two prefixes.
pub proof fn lemma_cell_bounds(q: Seq<char>, c: Seq<char>, i: int, j: int)
    ensures
        0 <= cell(q, c, i, j),
        cell(q, c, i, j) <= 2 * larger(0, smaller(i, j)),
    decreases i + j,
{
    if i > 0 && j > 0 {
        lemma_cell_bounds(q, c, i - 1, j - 1);
        lemma_cell_bounds(q, c, i - 1, j);
        lemma_cell_bounds(q, c, i, j - 1);
    }
}

/// The best of a column lies within the bounds of its entries.
proof fn lemma_column_best_bounds(q: Seq<char>, c: Seq<char>, i: int, j: int)
    ensures
        0 <= column_best(q, c, i, j),
        column_best(q, c, i, j) <= 2 * larger(0, smaller(i, j)),
    decreases i,
{
    if i > 0 {
        lemma_column_best_bounds(q, c, i - 1, j);
        lemma_cell_bounds(q, c, i, j);
    }
}

/// The best of the columns lies within the bounds of their entries.
proof fn lemma_table_best_bounds(q: Seq<char>, c: Seq<char>, j: int)
    ensures
        0 <= table_best(q, c, j),
        table_best(q, c, j) <= 2 * larger(0, smaller(q.len() as int, j)),
    decreases j,
{
    if j > 0 {
        lemma_table_best_bounds(q, c, j - 1);
        lemma_column_best_bounds(q, c, q.len() as int, j);
    }
}

/// The alignment score is never negative and at most twice the length of the
/// shorter sequence.
pub proof fn lemma_alignment_bounds(q: Seq<char>, c: Seq<char>)
    ensures
        0 <= alignment(q, c),
        alignment(q, c) <= 2 * smaller(q.len() as int, c.len() as int),
{
    lemma_table_best_bounds(q, c, c.len() as int);
}

/// No entry of a column exceeds the best of the column.
proof fn lemma_column_best_covers(q: Seq<char>, c: Seq<char>, i: int, j: int, r: int)
    requires
        0 <= r <= i,
    ensures
        cell(q, c, r, j) <= column_best(q, c, i, j),
    decreases i,
{
    if r < i {
        lemma_column_best_covers(q, c, i - 1, j, r);
    }
}

/// No entry of the first `j` columns exceeds their best.
proof fn lemma_table_best_covers(q: Seq<char>, c: Seq<char>, j: int, r: int, s: int)
    requires
        0 <= r <= q.len(),
        0 <= s <= j,
    ensures
        cell(q, c, r, s) <= table_best(q, c, j),
    decreases j,
{
    if s < j {
        lemma_table_best_covers(q, c, j - 1, r, s);
    } else if j > 0 {
        lemma_column_best_covers(q, c, q.len() as int, j, r);
    }
}

/// Some entry of a column equals the best of the column.
proof fn lemma_column_best_attained(q: Seq<char>, c: Seq<char>, i: int, j: int) -> (r: int)
    requires
        0 <= i,
    ensures
        0 <= r <= i,
        cell(q, c, r, j) == column_best(q, c, i, j),
    decreases i,
{
    if i == 0 {
        0
    } else if column_best(q, c, i, j) == cell(q, c, i, j) {
        i
    } else {
        lemma_column_best_attained(q, c, i - 1, j)
    }
}

/// Some entry of the first `j` columns equals their best.
proof fn lemma_table_best_attained(q: Seq<char>, c: Seq<char>, j: int) -> (at: (int, int))
    requires
        0 <= j,
    ensures
        0 <= at.0 <= q.len(),
        0 <= at.1 <= j,
        cell(q, c, at.0, at.1) == table_best(q, c, j),
    decreases j,
{
    if j == 0 {
        (0, 0)
    } else if table_best(q, c, j) == table_best(q, c, j - 1) {
        lemma_table_best_attained(q, c, j - 1)
    } else {
        (lemma_column_best_attained(q, c, q.len() as int, j), j)
    }
}

/// The alignment score is the greatest entry of the table: no entry exceeds
/// it, and some entry equals it.
pub proof fn lemma_alignment_is_greatest_cell(q: Seq<char>, c: Seq<char>)
    ensures
        forall|i: int, j: int|
            0 <= i <= q.len() && 0 <= j <= c.len() ==> #[trigger] cell(q, c, i, j) <= alignment(
                q,
                c,
            ),
        exists|i: int, j: int|
            0 <= i <= q.len() && 0 <= j <= c.len() && #[trigger] cell(q, c, i, j) == alignment(
                q,
                c,
            ),
{
    assert forall|i: int, j: int| 0 <= i <= q.len() && 0 <= j <= c.len() implies #[trigger] cell(
        q,
        c,
        i,
        j,
    ) <= alignment(q, c) by {
        lemma_table_best_covers(q, c, c.len() as int, i, j);
    }
    let at = lemma_table_best_attained(q, c, c.len() as int);
}

/// Where the first `i` characters of `c` are those of `q`, the diagonal entry
/// `(i, i)` holds the full score of `i` matches.
pub proof fn lemma_diagonal_of_common_prefix(q: Seq<char>, c: Seq<char>, i: int)
    requires
        0 <= i <= q.len(),
        i <= c.len(),
        forall|k: int| 0 <= k < i ==> q[k] == c[k],
    ensures
        cell(q, c, i, i) == 2 * i,
    decreases i,
{
    lemma_cell_bounds(q, c, i, i);
    if i > 0 {
        lemma_diagonal_of_common_prefix(q, c, i - 1);
    }
}

/// A sequence aligned with one that begins with it scores two for each of
/// its characters.
pub proof fn lemma_alignment_with_extension(q: Seq<char>, c: Seq<char>)
    requires
        q.is_prefix_of(c),
    ensures
        alignment(q, c) == 2 * q.len(),
{
    let m = q.len() as int;
    lemma_diagonal_of_common_prefix(q, c, m);
    lemma_table_best_covers(q, c, c.len() as int, m, m);
    lemma_alignment_bounds(q, c);
}

/// The greatest score that is reported: a score above it is reported as
/// this.
pub const SCORE_CAP: i32 = i32::MAX;

/// The score that is reported for the score `score`.
pub open spec fn capped(score: int) -> int {
    if score <= SCORE_CAP {
        score
    } else {
        SCORE_CAP as int
    }
}

/// Computes the score of the best local alignment of `query` with
/// `candidate`, column by column of their table. A score above `SCORE_CAP`
/// is reported as `SCORE_CAP`; no text of under a thousand million
/// characters reaches it.
pub fn alignment_score(query: &Vec<char>, candidate: &Vec<char>) -> (best: i32)
    ensures
        best == capped(alignment(query@, candidate@)),
        2 * smaller(query@.len() as int, candidate@.len() as int) <= SCORE_CAP
            ==> best == alignment(query@, candidate@),
{
    let m: usize = query.len();
    let n: usize = candidate.len();
    let mut prev: Vec<i32> = Vec::new();
    prev.push(0);
    let mut i: usize = 0;
    while i < m
        invariant
            i <= m,
            prev@.len() == i + 1,
            forall|k: int| 0 <= k <= i ==> prev@[k] == 0,
        decreases m - i,
    {
        prev.push(0);
        i += 1;
    }
    let mut best: i32 = 0;
    let mut j: usize = 0;
    while j < n
        invariant
            j <= n,
            m == query@.len(),
            n == candidate@.len(),
            prev@.len() == m + 1,
            forall|k: int| 0 <= k <= m ==> prev@[k] == cell(query@, candidate@, k, j as int),
            best == table_best(query@, candidate@, j as int),
        decreases n - j,
    {
        let mut cur: Vec<i32> = Vec::new();
        cur.push(0);
        let mut i: usize = 0;
        while i < m
            invariant
                i <= m,
                j < n,
                m == query@.len(),
                n == candidate@.len(),
                prev@.len() == m + 1,
                cur@.len() == i + 1,
                forall|k: int| 0 <= k <= m ==> prev@[k] == cell(query@, candidate@, k, j as int),
                forall|k: int| 0 <= k <= i ==> cur@[k] == cell(query@, candidate@, k, j + 1),
                best == larger(
                    table_best(query@, candidate@, j as int),
                    column_best(query@, candidate@, i as int, j + 1),
                ),
            decreases m - i,
        {
            proof {
                lemma_cell_bounds(query@, candidate@, i as int, j as int);
            }
            let diag: i64 = if query[i] == candidate[j] {
                prev[i] as i64 + MATCH_SCORE as i64
            } else {
                prev[i] as i64 + MISMATCH_PENALTY as i64
            };
            let up: i64 = cur[i] as i64 + GAP_PENALTY as i64;
            let left: i64 = prev[i + 1] as i64 + GAP_PENALTY as i64;
            let mut wide: i64 = 0;
            if diag > wide {
                wide = diag;
            }
            if up > wide {
                wide = up;
            }
            if left > wide {
                wide = left;
            }
            if wide >= SCORE_CAP as i64 {
                proof {
                    lemma_table_best_covers(query@, candidate@, n as int, i + 1, j + 1);
                }
                return SCORE_CAP;
            }
            let entry: i32 = wide as i32;
            cur.push(entry);
            if entry > best {
                best = entry;
            }
            i += 1;
        }
        prev = cur;
        j += 1;
    }
    best
}

} // verus!
