use shodh::candidate::{Candidate, EntryKind, ScoredPath};
use shodh::order::{comes_before, precedes, ranks_above};
use shodh::rank::{rank, SORT_FROM};
use shodh::select::select_best;
use shodh::sort::sort_ranked;

fn scored(path: &str, score: i32) -> ScoredPath {
    let candidate = Candidate { path: path.to_string(), name: None, kind: EntryKind::File };
    ScoredPath::new(candidate, score).unwrap()
}

fn shown(ranked: &Vec<ScoredPath>) -> Vec<(i32, String)> {
    ranked.iter().map(|s| (s.score(), s.path().to_string())).collect()
}

fn pairs(expected: &[(i32, &str)]) -> Vec<(i32, String)> {
    expected.iter().map(|(score, path)| (*score, path.to_string())).collect()
}

#[test]
fn comes_before_orders_paths() {
    assert!(comes_before("a/y", "b/x"));
    assert!(!comes_before("b/x", "a/y"));
    assert!(comes_before("a", "ab"));
    assert!(!comes_before("ab", "a"));
    assert!(!comes_before("a", "a"));
    assert!(comes_before("", "a"));
    assert!(!comes_before("", ""));
    assert!(comes_before("root/kilo.md", "root/kilogram.txt"));
    assert!(comes_before("B", "a"));
}

#[test]
fn comes_before_orders_by_components() {
    assert!(comes_before("a/k", "a-b/k"));
    assert!(!comes_before("a-b/k", "a/k"));
    assert!(comes_before("foo/main.rs", "foo-bar/main.rs"));
    assert!(comes_before("foo/z", "foo.d/a"));
    assert!(comes_before("foo/z", "foo bar/a"));
    assert!(comes_before("foo", "foo/a"));
    assert!(comes_before("foo/a", "foo-"));
    assert!(comes_before("a/b/c", "a/b-/c"));
    assert!(comes_before("a/b", "a/c"));
    assert!(!comes_before("a/k", "a/k"));
}

#[test]
fn comes_before_agrees_with_the_order_of_paths() {
    let paths = [
        "a/k", "a-b/k", "a", "a-b", "a/b/c", "a/b-c", "a.b/k", "a b/k", "b/x", "a/y", "root/z",
        "root/sub/a", "root/sub-1/a", "root/sub.d/a", "root/sub", "root/sub0", "./a", "./a-b/c",
        "./a/c", "é/x", "é-/x", "",
    ];
    for a in paths.iter() {
        for b in paths.iter() {
            let expected = std::path::Path::new(a) < std::path::Path::new(b);
            assert_eq!(comes_before(a, b), expected);
        }
    }
}

#[test]
fn precedes_puts_the_separator_first() {
    assert!(precedes('/', '-'));
    assert!(precedes('/', ' '));
    assert!(precedes('/', 'a'));
    assert!(!precedes('-', '/'));
    assert!(!precedes('/', '/'));
    assert!(precedes('-', 'a'));
    assert!(!precedes('a', '-'));
}

#[test]
fn rank_breaks_ties_by_components() {
    let ranked = rank(vec![scored("a-b/k", 7), scored("a/k", 7)], 2);
    assert_eq!(shown(&ranked), pairs(&[(7, "a/k"), (7, "a-b/k")]));
    let ranked = rank(vec![scored("a/k", 7), scored("a-b/k", 7)], 2);
    assert_eq!(shown(&ranked), pairs(&[(7, "a/k"), (7, "a-b/k")]));
}

#[test]
fn ranks_above_prefers_score_then_path() {
    assert!(ranks_above(&scored("z", 5), &scored("a", 4)));
    assert!(!ranks_above(&scored("a", 4), &scored("z", 5)));
    assert!(ranks_above(&scored("a/y", 5), &scored("b/x", 5)));
    assert!(!ranks_above(&scored("b/x", 5), &scored("a/y", 5)));
    assert!(!ranks_above(&scored("a", 5), &scored("a", 5)));
}

#[test]
fn rank_orders_by_descending_score() {
    let ranked = rank(vec![scored("a", 2), scored("b", 9), scored("c", 5)], 10);
    assert_eq!(shown(&ranked), pairs(&[(9, "b"), (5, "c"), (2, "a")]));
}

#[test]
fn rank_breaks_ties_by_ascending_path() {
    let ranked = rank(vec![scored("b/x", 7), scored("a/y", 7)], 2);
    assert_eq!(shown(&ranked), pairs(&[(7, "a/y"), (7, "b/x")]));
    let ranked = rank(vec![scored("a/y", 7), scored("b/x", 7)], 2);
    assert_eq!(shown(&ranked), pairs(&[(7, "a/y"), (7, "b/x")]));
}

#[test]
fn rank_returns_at_most_k() {
    let input = || vec![scored("a", 1), scored("b", 2), scored("c", 3), scored("d", 4)];
    assert_eq!(rank(input(), 0).len(), 0);
    assert_eq!(rank(input(), 1).len(), 1);
    assert_eq!(rank(input(), 3).len(), 3);
    assert_eq!(rank(input(), 4).len(), 4);
    assert_eq!(rank(input(), 5).len(), 4);
    assert_eq!(rank(input(), usize::MAX).len(), 4);
}

#[test]
fn rank_keeps_the_best_k() {
    let input = vec![scored("a", 1), scored("b", 4), scored("c", 3), scored("d", 4), scored("e", 2)];
    assert_eq!(shown(&rank(input, 3)), pairs(&[(4, "b"), (4, "d"), (3, "c")]));
}

#[test]
fn rank_of_nothing_is_empty() {
    assert!(rank(Vec::new(), 10).is_empty());
    assert!(rank(Vec::new(), 0).is_empty());
}

#[test]
fn rank_with_zero_k_is_empty() {
    assert!(rank(vec![scored("a", 1)], 0).is_empty());
}

#[test]
fn rank_retains_duplicates() {
    let ranked = rank(vec![scored("a", 3), scored("b", 5), scored("a", 3)], 10);
    assert_eq!(shown(&ranked), pairs(&[(5, "b"), (3, "a"), (3, "a")]));
}

#[test]
fn rank_does_not_depend_on_input_order() {
    let items: [(i32, &str); 5] = [(3, "c"), (7, "b/x"), (7, "a/y"), (1, "z"), (3, "a")];
    let orders: [[usize; 5]; 6] = [
        [0, 1, 2, 3, 4],
        [4, 3, 2, 1, 0],
        [2, 0, 4, 1, 3],
        [1, 2, 3, 4, 0],
        [3, 1, 4, 0, 2],
        [2, 1, 0, 4, 3],
    ];
    for k in 0..7 {
        let mut expected = pairs(&[(7, "a/y"), (7, "b/x"), (3, "a"), (3, "c"), (1, "z")]);
        expected.truncate(k);
        for order in orders.iter() {
            let input: Vec<ScoredPath> =
                order.iter().map(|&i| scored(items[i].1, items[i].0)).collect();
            assert_eq!(shown(&rank(input, k)), expected);
        }
    }
}

#[test]
fn rank_handles_many_items() {
    let input: Vec<ScoredPath> =
        (0..2000).map(|i| scored(&format!("p{:04}", i), (i * 7919 % 1000) + 1)).collect();
    let ranked = rank(input, 25);
    assert_eq!(ranked.len(), 25);
    for pair in ranked.windows(2) {
        assert!(!ranks_above(&pair[1], &pair[0]));
    }
    assert_eq!(ranked[0].score(), 1000);
}

fn mixed(count: i32) -> Vec<ScoredPath> {
    (0..count).map(|i| scored(&format!("dir{}/p{:04}", i % 7, i), (i * 7919 % 50) + 1)).collect()
}

#[test]
fn sort_ranked_orders_by_score_then_path() {
    let sorted = sort_ranked(vec![
        scored("c", 3),
        scored("b/x", 7),
        scored("a/y", 7),
        scored("z", 1),
        scored("a", 3),
    ]);
    assert_eq!(shown(&sorted), pairs(&[(7, "a/y"), (7, "b/x"), (3, "a"), (3, "c"), (1, "z")]));
    assert!(sort_ranked(Vec::new()).is_empty());
    assert_eq!(shown(&sort_ranked(vec![scored("a", 1)])), pairs(&[(1, "a")]));
}

#[test]
fn sort_ranked_retains_duplicates() {
    let sorted = sort_ranked(vec![scored("a", 3), scored("b", 5), scored("a", 3), scored("a", 3)]);
    assert_eq!(shown(&sorted), pairs(&[(5, "b"), (3, "a"), (3, "a"), (3, "a")]));
}

#[test]
fn select_best_agrees_with_sorting() {
    let mut expected = shown(&sort_ranked(mixed(500)));
    assert_eq!(expected.len(), 500);
    for k in [600usize, 500, 499, 100, 33, 32, 31, 10, 1, 0] {
        expected.truncate(k);
        assert_eq!(shown(&select_best(mixed(500), k)), expected);
        assert_eq!(shown(&rank(mixed(500), k)), expected);
    }
}

#[test]
fn rank_is_the_same_on_either_side_of_the_sorting_limit() {
    let below = rank(mixed(300), SORT_FROM - 1);
    let mut at = shown(&rank(mixed(300), SORT_FROM));
    assert_eq!(at.len(), SORT_FROM);
    at.truncate(SORT_FROM - 1);
    assert_eq!(shown(&below), at);
}

#[test]
fn rank_with_a_large_limit_returns_everything_in_order() {
    let ranked = rank(mixed(1000), usize::MAX);
    assert_eq!(ranked.len(), 1000);
    for pair in ranked.windows(2) {
        assert!(!ranks_above(&pair[1], &pair[0]));
        assert!(pair[0].score() >= pair[1].score());
        if pair[0].score() == pair[1].score() {
            assert!(comes_before(pair[0].path(), pair[1].path()));
        }
    }
}

#[test]
fn rank_sorts_a_large_input_quickly() {
    let ranked = rank(mixed(200_000), 100_000);
    assert_eq!(ranked.len(), 100_000);
    assert_eq!(ranked[0].score(), 50);
}
