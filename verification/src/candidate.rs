//! Candidates, queries and the policy that turns a candidate into a scored
//! path or drops it.

use vstd::prelude::*;
use crate::align::capped;
use crate::score::{score_chars, score_of};
use crate::text::{chars_of, lowercase_of, to_lowercase};

verus! {

/// Whether letter case counts when a name is compared with the query.
#[derive(Debug, Clone, Copy, PartialEq, Eq, Structural)]
pub enum CaseSensitivity {
    Sensitive,
    Insensitive,
}

/// The text that is scored in place of `text` under `case`: the text as it
/// is, or its lowercase form. Text without characters stays as it is.
pub open spec fn fold(case: CaseSensitivity, text: Seq<char>) -> Seq<char> {
    match case {
        CaseSensitivity::Sensitive => text,
        CaseSensitivity::Insensitive => if text.len() == 0 {
            text
        } else {
            lowercase_of(text)
        },
    }
}

/// The characters of `text`, folded under `case`.
pub fn folded_chars(text: &str, case: CaseSensitivity) -> (chars: Vec<char>)
    ensures
        chars@ == fold(case, text@),
{
    match case {
        CaseSensitivity::Sensitive => chars_of(text),
        CaseSensitivity::Insensitive => {
            if text.is_empty() {
                chars_of(text)
            } else {
                let folded: String = to_lowercase(text);
                chars_of(folded.as_str())
            }
        },
    }
}

/// What a path names. A path that no longer exists names neither a file nor
/// a directory. The kind is taken once, when the candidate is made: the
/// filter reads it and does not look at the file system again.
#[derive(Debug, Clone, Copy, PartialEq, Eq, Structural)]
pub enum EntryKind {
    File,
    Directory,
    Other,
}

/// A path found under the root, with what the traversal learned of it: its
/// final component as text, if it has one that is text, and its kind.
#[derive(Debug)]
pub struct Candidate {
    pub path: String,
    pub name: Option<String>,
    pub kind: EntryKind,
}

/// What a candidate holds, with its texts as sequences of characters.
pub ghost struct CandidateView {
    pub path: Seq<char>,
    pub name: Option<Seq<char>>,
    pub kind: EntryKind,
}

impl View for Candidate {
    type V = CandidateView;

    open spec fn view(&self) -> CandidateView {
        CandidateView {
            path: self.path@,
            name: match self.name {
                Some(name) => Some(name@),
                None => None,
            },
            kind: self.kind,
        }
    }
}

impl Clone for Candidate {
    fn clone(&self) -> (copy: Self)
        ensures
            copy@ == self@,
    {
        let name: Option<String> = match &self.name {
            Some(name) => Some(name.clone()),
            None => None,
        };
        Candidate { path: self.path.clone(), name, kind: self.kind }
    }
}

impl Candidate {
    /// Whether the candidate names a file.
    pub fn is_file(&self) -> (file: bool)
        ensures
            file == (self.kind == EntryKind::File),
    {
        match self.kind {
            EntryKind::File => true,
            _ => false,
        }
    }

    /// Whether the candidate names a directory.
    pub fn is_dir(&self) -> (dir: bool)
        ensures
            dir == (self.kind == EntryKind::Directory),
    {
        match self.kind {
            EntryKind::Directory => true,
            _ => false,
        }
    }
}

/// Which kinds of entries may appear among the results. With both switches
/// set nothing may.
#[derive(Debug, Clone, Copy, PartialEq, Eq, Structural)]
pub struct TypeFilter {
    pub files_only: bool,
    pub dirs_only: bool,
}

impl TypeFilter {
    /// Whether an entry of kind `kind` may appear among the results.
    pub open spec fn admits_kind(self, kind: EntryKind) -> bool {
        &&& self.files_only ==> kind == EntryKind::File
        &&& self.dirs_only ==> kind == EntryKind::Directory
    }

    /// Whether an entry of kind `kind` may appear among the results.
    #[verifier::when_used_as_spec(admits_kind)]
    pub fn admits(self, kind: EntryKind) -> (admitted: bool)
        ensures
            admitted == self.admits_kind(kind),
    {
        let file: bool = match kind {
            EntryKind::File => true,
            _ => false,
        };
        let dir: bool = match kind {
            EntryKind::Directory => true,
            _ => false,
        };
        (!self.files_only || file) && (!self.dirs_only || dir)
    }
}

/// A query ready for scoring: its text, folded as its case mode asks.
#[derive(Debug)]
pub struct Query {
    needle: Vec<char>,
    case: CaseSensitivity,
}

impl Query {
    /// The characters that names are aligned with.
    pub closed spec fn needle(self) -> Seq<char> {
        self.needle@
    }

    /// The case mode under which the needle was folded and names are folded.
    pub closed spec fn case(self) -> CaseSensitivity {
        self.case
    }

    /// Folds `text` under `case`.
    pub fn new(text: &str, case: CaseSensitivity) -> (query: Query)
        ensures
            query.needle() == fold(case, text@),
            query.case() == case,
    {
        Query { needle: folded_chars(text, case), case }
    }

    /// The case mode of the query.
    pub fn case_sensitivity(&self) -> (case: CaseSensitivity)
        ensures
            case == self.case(),
    {
        self.case
    }

    /// Scores the name `name` for this query: folds it as the query was
    /// folded and scores it against the needle.
    pub fn score(&self, name: &str) -> (score: i32)
        ensures
            score == capped(score_of(self.needle(), fold(self.case(), name@))),
            score >= 0,
    {
        let candidate: Vec<char> = folded_chars(name, self.case);
        score_chars(&self.needle, &candidate)
    }
}

/// A candidate with its score, which is positive.
#[derive(Debug)]
pub struct ScoredPath {
    score: i32,
    candidate: Candidate,
}

/// What a scored path holds: the score and the view of the candidate.
pub ghost struct ScoredView {
    pub score: int,
    pub candidate: CandidateView,
}

impl View for ScoredPath {
    type V = ScoredView;

    closed spec fn view(&self) -> ScoredView {
        ScoredView { score: self.score as int, candidate: self.candidate@ }
    }
}

impl ScoredPath {
    #[verifier::type_invariant]
    spec fn positive(self) -> bool {
        self.score > 0
    }

    /// Pairs `candidate` with `score`. There is no scored path for a score
    /// that is not positive.
    pub fn new(candidate: Candidate, score: i32) -> (scored: Option<ScoredPath>)
        ensures
            scored is Some <==> score > 0,
            scored matches Some(s) ==> s@ == (ScoredView {
                score: score as int,
                candidate: candidate@,
            }),
    {
        if score > 0 {
            Some(ScoredPath { score, candidate })
        } else {
            None
        }
    }

    /// The score, which is positive.
    pub fn score(&self) -> (score: i32)
        ensures
            score == self@.score,
            score > 0,
    {
        proof {
            use_type_invariant(self);
        }
        self.score
    }

    /// The candidate that scored.
    pub fn candidate(&self) -> (candidate: &Candidate)
        ensures
            candidate@ == self@.candidate,
    {
        &self.candidate
    }

    /// The path of the candidate.
    pub fn path(&self) -> (path: &str)
        ensures
            path@ == self@.candidate.path,
    {
        self.candidate.path.as_str()
    }

    /// Whether the candidate names a directory.
    pub fn is_dir(&self) -> (dir: bool)
        ensures
            dir == (self@.candidate.kind == EntryKind::Directory),
    {
        self.candidate.is_dir()
    }
}

/// What the filter makes of a candidate: nothing where it has no name, where
/// its kind is not admitted or where its folded name scores nothing for the
/// needle, else the candidate with that score.
pub open spec fn evaluate(
    candidate: CandidateView,
    needle: Seq<char>,
    case: CaseSensitivity,
    filter: TypeFilter,
) -> Option<ScoredView> {
    match candidate.name {
        None => None,
        Some(name) => {
            let score = capped(score_of(needle, fold(case, name)));
            if filter.admits_kind(candidate.kind) && score > 0 {
                Some(ScoredView { score, candidate })
            } else {
                None
            }
        },
    }
}

/// A query without characters finds nothing: it folds to a needle without
/// characters, for which no candidate scores.
pub proof fn lemma_empty_query_finds_nothing(
    candidate: CandidateView,
    case: CaseSensitivity,
    filter: TypeFilter,
)
    ensures
        fold(case, Seq::<char>::empty()) == Seq::<char>::empty(),
        evaluate(candidate, fold(case, Seq::<char>::empty()), case, filter) is None,
{
}

/// With both switches set the filter admits no kind, and no candidate is
/// kept.
pub proof fn lemma_both_filters_keep_nothing(
    candidate: CandidateView,
    needle: Seq<char>,
    case: CaseSensitivity,
)
    ensures
        !(TypeFilter { files_only: true, dirs_only: true }).admits_kind(candidate.kind),
        evaluate(candidate, needle, case, TypeFilter { files_only: true, dirs_only: true }) is None,
{
}

/// The view of an optional scored path.
pub open spec fn scored_view(scored: Option<ScoredPath>) -> Option<ScoredView> {
    match scored {
        Some(s) => Some(s@),
        None => None,
    }
}

/// Applies the type filter to `candidate` and scores its name for `query`.
/// A candidate that passes and scores above zero comes back with its score.
pub fn filter_and_score(candidate: &Candidate, query: &Query, filter: TypeFilter) -> (scored:
    Option<ScoredPath>)
    ensures
        scored_view(scored) == evaluate(candidate@, query.needle(), query.case(), filter),
        scored matches Some(s) ==> s@.score > 0 && s@.candidate == candidate@,
        candidate@.name is None ==> scored is None,
        !filter.admits_kind(candidate@.kind) ==> scored is None,
{
    let name: &String = match &candidate.name {
        Some(name) => name,
        None => {
            return None;
        },
    };
    if !filter.admits(candidate.kind) {
        return None;
    }
    let score: i32 = query.score(name.as_str());
    ScoredPath::new(candidate.clone(), score)
}

} // verus!
