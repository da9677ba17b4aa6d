//! Text as sequences of characters: decoding, case folding and comparison.

use vstd::prelude::*;
use vstd::std_specs::iter::IteratorSpec;

verus! {

/// The lowercase form of `text` that `str::to_lowercase` gives.
pub uninterp spec fn lowercase_of(text: Seq<char>) -> Seq<char>;

/// Calls `str::to_lowercase`, which maps each character to its Unicode
/// lowercase equivalent. The result depends on the text alone; the contract
/// gives it the name `lowercase_of` and claims nothing else of it.
#[verifier::external_body]
pub(crate) fn to_lowercase(text: &str) -> (folded: String)
    ensures
        folded@ == lowercase_of(text@),
{
    text.to_lowercase()
}

/// The characters of `text`, in order.
pub fn chars_of(text: &str) -> (chars: Vec<char>)
    ensures
        chars@ == text@,
{
    let mut chars: Vec<char> = Vec::new();
    for c in it: text.chars()
        invariant
            it.seq() == text@,
            chars@ == it.seq().take(it.index()),
    {
        chars.push(c);
    }
    chars
}

/// The first character of `text`, if it has one.
pub fn first_char(text: &str) -> (first: Option<char>)
    ensures
        first == (if text@.len() > 0 {
            Some(text@[0])
        } else {
            None
        }),
{
    let mut chars = text.chars();
    assert(chars.remaining() == text@);
    chars.next()
}

/// Whether `a` and `b` hold the same characters.
pub fn same_chars(a: &Vec<char>, b: &Vec<char>) -> (same: bool)
    ensures
        same == (a@ == b@),
{
    if a.len() != b.len() {
        return false;
    }
    let mut i: usize = 0;
    while i < a.len()
        invariant
            i <= a@.len(),
            a@.len() == b@.len(),
            a@.take(i as int) == b@.take(i as int),
        decreases a@.len() - i,
    {
        if a[i] != b[i] {
            return false;
        }
        i += 1;
    }
    assert(a@ == a@.take(i as int));
    assert(b@ == b@.take(i as int));
    true
}

/// Whether `text` begins with `prefix`.
pub fn begins_with(text: &Vec<char>, prefix: &Vec<char>) -> (begins: bool)
    ensures
        begins == prefix@.is_prefix_of(text@),
{
    if prefix.len() > text.len() {
        return false;
    }
    let mut i: usize = 0;
    while i < prefix.len()
        invariant
            i <= prefix@.len(),
            prefix@.len() <= text@.len(),
            prefix@.take(i as int) == text@.take(i as int),
        decreases prefix@.len() - i,
    {
        if prefix[i] != text[i] {
            return false;
        }
        i += 1;
    }
    true
}

/// Whether `a` and `b` are the same text.
pub fn same_text(a: &str, b: &str) -> (same: bool)
    ensures
        same == (a@ == b@),
{
    let mut others = b.chars();
    assert(a@.skip(0) =~= a@);
    for x in it: a.chars()
        invariant
            it.seq() == a@,
            others.obeys_prophetic_iter_laws(),
            (a@ == b@) == (it.seq().skip(it.index()) == others.remaining()),
    {
        let ghost tail = it.seq().skip(it.index());
        let ghost other_tail = others.remaining();
        assert(tail.drop_first() == it.seq().skip(it.index() + 1));
        assert(tail =~= seq![tail[0]] + tail.drop_first());
        match others.next() {
            None => {
                return false;
            },
            Some(y) => {
                assert(other_tail =~= seq![other_tail[0]] + other_tail.drop_first());
                if x != y {
                    return false;
                }
            },
        }
    }
    let ghost left = others.remaining();
    match others.next() {
        Some(_) => {
            false
        },
        None => {
            assert(left =~= a@.skip(a@.len() as int));
            true
        },
    }
}

} // verus!
