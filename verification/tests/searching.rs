use shodh::candidate::{Candidate, CaseSensitivity, EntryKind, Query, ScoredPath, TypeFilter};
use shodh::config::Config;
use shodh::search::{score_candidates, score_sequential, search};

fn file(path: &str, name: &str) -> Candidate {
    Candidate { path: path.to_string(), name: Some(name.to_string()), kind: EntryKind::File }
}

fn dir(path: &str, name: &str) -> Candidate {
    Candidate { path: path.to_string(), name: Some(name.to_string()), kind: EntryKind::Directory }
}

fn any() -> TypeFilter {
    TypeFilter { files_only: false, dirs_only: false }
}

fn shown(ranked: &Vec<ScoredPath>) -> Vec<(i32, String)> {
    ranked.iter().map(|s| (s.score(), s.path().to_string())).collect()
}

fn pairs(expected: &[(i32, &str)]) -> Vec<(i32, String)> {
    expected.iter().map(|(score, path)| (*score, path.to_string())).collect()
}

fn root() -> Vec<Candidate> {
    vec![
        file("root/kilogram.txt", "kilogram.txt"),
        file("root/kilo.md", "kilo.md"),
        file("root/notes.txt", "notes.txt"),
    ]
}

#[test]
fn end_to_end_kilo() {
    let query = Query::new("kilo", CaseSensitivity::Insensitive);
    for parallel in [false, true] {
        let results = search(&root(), &query, any(), 2, parallel);
        assert_eq!(shown(&results), pairs(&[(5008, "root/kilo.md"), (5008, "root/kilogram.txt")]));
    }
}

#[test]
fn end_to_end_kilo_with_room_for_all() {
    let query = Query::new("kilo", CaseSensitivity::Insensitive);
    let results = search(&root(), &query, any(), 10, true);
    assert_eq!(
        shown(&results),
        pairs(&[(5008, "root/kilo.md"), (5008, "root/kilogram.txt"), (2, "root/notes.txt")])
    );
}

#[test]
fn type_filtering_excludes_matching_directory() {
    let mut candidates = root();
    candidates.push(dir("root/kilo", "kilo"));
    let query = Query::new("kilo", CaseSensitivity::Insensitive);
    let files = TypeFilter { files_only: true, dirs_only: false };
    for parallel in [false, true] {
        let results = search(&candidates, &query, files, 10, parallel);
        assert_eq!(
            shown(&results),
            pairs(&[(5008, "root/kilo.md"), (5008, "root/kilogram.txt"), (2, "root/notes.txt")])
        );
        let results = search(&candidates, &query, any(), 1, parallel);
        assert_eq!(shown(&results), pairs(&[(10008, "root/kilo")]));
        assert!(results[0].is_dir());
    }
}

#[test]
fn scoring_keeps_the_order_of_the_candidates() {
    let query = Query::new("kilo", CaseSensitivity::Insensitive);
    let expected = pairs(&[(5008, "root/kilogram.txt"), (5008, "root/kilo.md"), (2, "root/notes.txt")]);
    assert_eq!(shown(&score_sequential(&root(), &query, any())), expected);
    assert_eq!(shown(&score_candidates(&root(), &query, any(), false)), expected);
    assert_eq!(shown(&score_candidates(&root(), &query, any(), true)), expected);
}

#[test]
fn parallel_scoring_equals_sequential_scoring() {
    let candidates: Vec<Candidate> = (0..5000)
        .map(|i| {
            let name = format!("file{}_{}.txt", i % 37, i);
            file(&format!("root/{}", name), &name)
        })
        .collect();
    let query = Query::new("File3", CaseSensitivity::Insensitive);
    let sequential = score_candidates(&candidates, &query, any(), false);
    let parallel = score_candidates(&candidates, &query, any(), true);
    assert_eq!(shown(&parallel), shown(&sequential));
    assert!(sequential.iter().all(|s| s.score() > 0));
    assert_eq!(
        shown(&search(&candidates, &query, any(), 40, true)),
        shown(&search(&candidates, &query, any(), 40, false))
    );
}

#[test]
fn search_does_not_depend_on_candidate_order() {
    let query = Query::new("kilo", CaseSensitivity::Insensitive);
    let mut reversed = root();
    reversed.reverse();
    for k in 0..5 {
        assert_eq!(
            shown(&search(&root(), &query, any(), k, false)),
            shown(&search(&reversed, &query, any(), k, true))
        );
    }
}

#[test]
fn search_without_matches_is_empty() {
    let query = Query::new("qqq", CaseSensitivity::Insensitive);
    assert!(search(&root(), &query, any(), 10, true).is_empty());
    assert!(search(&Vec::new(), &query, any(), 10, false).is_empty());
}

#[test]
fn search_is_case_sensitive_on_request() {
    let candidates = vec![file("root/Kilo.md", "Kilo.md"), file("root/kilo.md", "kilo.md")];
    let query = Query::new("Kilo", CaseSensitivity::Sensitive);
    let results = search(&candidates, &query, any(), 10, false);
    assert_eq!(shown(&results), pairs(&[(5008, "root/Kilo.md"), (6, "root/kilo.md")]));
    let query = Query::new("Kilo", CaseSensitivity::Insensitive);
    let results = search(&candidates, &query, any(), 10, false);
    assert_eq!(shown(&results), pairs(&[(5008, "root/Kilo.md"), (5008, "root/kilo.md")]));
}

#[test]
fn config_search_uses_every_option() {
    let mut candidates = root();
    candidates.push(dir("root/kilo", "kilo"));
    let config = Config {
        query: "KILO".to_string(),
        root: "root".to_string(),
        num: 2,
        files_only: false,
        dirs_only: false,
        case: CaseSensitivity::Insensitive,
        parallel: true,
        help: false,
        version: false,
    };
    let results = config.search(&candidates);
    assert_eq!(shown(&results), pairs(&[(10008, "root/kilo"), (5008, "root/kilo.md")]));
    let config = Config { dirs_only: true, ..config };
    let results = config.search(&candidates);
    assert_eq!(shown(&results), pairs(&[(10008, "root/kilo")]));
    let config = Config { files_only: true, ..config };
    assert!(config.search(&candidates).is_empty());
    let config = Config { files_only: false, dirs_only: false, case: CaseSensitivity::Sensitive, ..config };
    assert!(config.search(&candidates).is_empty());
    assert_eq!(config.type_filter(), TypeFilter { files_only: false, dirs_only: false });
    assert_eq!(config.query().score("KILO"), 10008);
}
