use shodh::candidate::{
    filter_and_score, folded_chars, Candidate, CaseSensitivity, EntryKind, Query, ScoredPath,
    TypeFilter,
};

fn file(path: &str, name: &str) -> Candidate {
    Candidate { path: path.to_string(), name: Some(name.to_string()), kind: EntryKind::File }
}

fn dir(path: &str, name: &str) -> Candidate {
    Candidate { path: path.to_string(), name: Some(name.to_string()), kind: EntryKind::Directory }
}

fn any() -> TypeFilter {
    TypeFilter { files_only: false, dirs_only: false }
}

fn query(text: &str, case: CaseSensitivity) -> Query {
    Query::new(text, case)
}

#[test]
fn query_folds_to_lowercase_when_insensitive() {
    let q = query("KILO", CaseSensitivity::Insensitive);
    assert_eq!(q.score("Kilo"), 10008);
    assert_eq!(q.score("KiloGram"), 5008);
    assert_eq!(q.case_sensitivity(), CaseSensitivity::Insensitive);
}

#[test]
fn query_folds_letters_beyond_ascii() {
    let q = query("ÉCOLE", CaseSensitivity::Insensitive);
    assert_eq!(q.score("école"), 10010);
    assert_eq!(q.score("École.txt"), 5010);
    let q = query("ÉCOLE", CaseSensitivity::Sensitive);
    assert_eq!(q.score("école"), 0);
}

#[test]
fn query_uses_text_verbatim_when_sensitive() {
    let q = query("KILO", CaseSensitivity::Sensitive);
    assert_eq!(q.score("KILO"), 10008);
    assert_eq!(q.score("kilo"), 0);
    assert_eq!(q.case_sensitivity(), CaseSensitivity::Sensitive);
}

#[test]
fn empty_query_scores_nothing() {
    let q = query("", CaseSensitivity::Insensitive);
    assert_eq!(q.score("anything"), 0);
    assert_eq!(q.score(""), 0);
    assert!(filter_and_score(&file("root/a", "a"), &q, any()).is_none());
}

#[test]
fn scored_path_needs_a_positive_score() {
    assert!(ScoredPath::new(file("a", "a"), 0).is_none());
    assert!(ScoredPath::new(file("a", "a"), -3).is_none());
    let scored = ScoredPath::new(dir("root/a", "a"), 7).unwrap();
    assert_eq!(scored.score(), 7);
    assert_eq!(scored.path(), "root/a");
    assert!(scored.is_dir());
    assert_eq!(scored.candidate().kind, EntryKind::Directory);
}

#[test]
fn filter_keeps_candidate_with_its_score() {
    let q = query("kilo", CaseSensitivity::Insensitive);
    let scored = filter_and_score(&file("root/Kilo.md", "Kilo.md"), &q, any()).unwrap();
    assert_eq!(scored.score(), 5008);
    assert_eq!(scored.path(), "root/Kilo.md");
    assert_eq!(scored.candidate().name.as_deref(), Some("Kilo.md"));
    assert!(!scored.is_dir());
}

#[test]
fn filter_scores_the_name_and_not_the_path() {
    let q = query("kilo", CaseSensitivity::Insensitive);
    assert!(filter_and_score(&file("kilo/zzz", "zzz"), &q, any()).is_none());
}

#[test]
fn filter_drops_candidate_that_scores_nothing() {
    let q = query("kilo", CaseSensitivity::Insensitive);
    assert!(filter_and_score(&file("root/xyz", "xyz"), &q, any()).is_none());
}

#[test]
fn filter_drops_candidate_without_a_name() {
    let q = query("kilo", CaseSensitivity::Insensitive);
    let nameless = Candidate { path: "..".to_string(), name: None, kind: EntryKind::Directory };
    assert!(filter_and_score(&nameless, &q, any()).is_none());
}

#[test]
fn files_only_excludes_a_directory_that_matches_exactly() {
    let q = query("kilo", CaseSensitivity::Insensitive);
    let files = TypeFilter { files_only: true, dirs_only: false };
    assert!(filter_and_score(&dir("root/kilo", "kilo"), &q, files).is_none());
    assert_eq!(filter_and_score(&dir("root/kilo", "kilo"), &q, any()).unwrap().score(), 10008);
    assert_eq!(filter_and_score(&file("root/kilo.md", "kilo.md"), &q, files).unwrap().score(), 5008);
}

#[test]
fn dirs_only_excludes_files() {
    let q = query("kilo", CaseSensitivity::Insensitive);
    let dirs = TypeFilter { files_only: false, dirs_only: true };
    assert!(filter_and_score(&file("root/kilo", "kilo"), &q, dirs).is_none());
    assert_eq!(filter_and_score(&dir("root/kilo", "kilo"), &q, dirs).unwrap().score(), 10008);
}

#[test]
fn both_filters_exclude_everything() {
    let q = query("kilo", CaseSensitivity::Insensitive);
    let both = TypeFilter { files_only: true, dirs_only: true };
    assert!(filter_and_score(&file("root/kilo", "kilo"), &q, both).is_none());
    assert!(filter_and_score(&dir("root/kilo", "kilo"), &q, both).is_none());
}

#[test]
fn vanished_path_fails_either_filter() {
    let q = query("kilo", CaseSensitivity::Insensitive);
    let gone = Candidate {
        path: "root/kilo".to_string(),
        name: Some("kilo".to_string()),
        kind: EntryKind::Other,
    };
    assert!(filter_and_score(&gone, &q, TypeFilter { files_only: true, dirs_only: false }).is_none());
    assert!(filter_and_score(&gone, &q, TypeFilter { files_only: false, dirs_only: true }).is_none());
    assert_eq!(filter_and_score(&gone, &q, any()).unwrap().score(), 10008);
}

#[test]
fn type_filter_admits_by_kind() {
    let files = TypeFilter { files_only: true, dirs_only: false };
    assert!(files.admits(EntryKind::File));
    assert!(!files.admits(EntryKind::Directory));
    assert!(!files.admits(EntryKind::Other));
    assert!(any().admits(EntryKind::Other));
}

#[test]
fn candidate_clone_keeps_every_field() {
    let source = dir("root/a", "a");
    let copy = source.clone();
    assert_eq!(copy.path, "root/a");
    assert_eq!(copy.name.as_deref(), Some("a"));
    assert_eq!(copy.kind, EntryKind::Directory);
    assert!(copy.is_dir());
    assert!(!copy.is_file());
}

#[test]
fn every_kept_candidate_has_a_positive_score() {
    let q = query("a", CaseSensitivity::Insensitive);
    for name in ["a", "A", "ba", "b", "", "abc", "xyz", "AAA"] {
        if let Some(scored) = filter_and_score(&file(name, name), &q, any()) {
            assert!(scored.score() > 0);
        }
    }
}

#[test]
fn folded_chars_folds_by_case_mode() {
    assert_eq!(folded_chars("KiLo", CaseSensitivity::Insensitive), vec!['k', 'i', 'l', 'o']);
    assert_eq!(folded_chars("KiLo", CaseSensitivity::Sensitive), vec!['K', 'i', 'L', 'o']);
    assert_eq!(folded_chars("", CaseSensitivity::Insensitive), Vec::<char>::new());
    assert_eq!(folded_chars("", CaseSensitivity::Sensitive), Vec::<char>::new());
}
