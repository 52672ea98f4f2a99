//! Regular-expression searches over response text, through the `regex` crate.

use vstd::prelude::*;
use crate::sorted_set::views;

verus! {

#[verifier::external_type_specification]
#[verifier::external_body]
pub struct ExRegex(regex::Regex);

/// Whether `regex::Regex::new` accepts this pattern: its syntax is valid and
/// the compiled program stays within the crate's default size limit.
pub uninterp spec fn regex_compiles(pattern: Seq<char>) -> bool;

/// The texts of the successive non-overlapping matches (capture group 0) that
/// `regex::Regex::captures_iter` yields for this pattern on this haystack.
pub uninterp spec fn regex_match_texts(pattern: Seq<char>, haystack: Seq<char>) -> Seq<Seq<char>>;

/// `needle` stands somewhere in `haystack`, as a run of consecutive
/// characters.
pub open spec fn occurs_in(needle: Seq<char>, haystack: Seq<char>) -> bool {
    exists|s: int| 0 <= s && s + needle.len() <= haystack.len()
        && #[trigger] haystack.subrange(s, s + needle.len()) == needle
}

/// Every name of the list stands somewhere in `haystack`.
pub open spec fn all_occur_in(names: Seq<Seq<char>>, haystack: Seq<char>) -> bool {
    forall|i: int| 0 <= i < names.len() ==> occurs_in(#[trigger] names[i], haystack)
}

/// Lists whose names all stand in a text, put side by side, still do.
pub proof fn lemma_all_occur_concat(a: Seq<Seq<char>>, b: Seq<Seq<char>>, haystack: Seq<char>)
    requires
        all_occur_in(a, haystack),
        all_occur_in(b, haystack),
    ensures
        all_occur_in(a + b, haystack),
{
    assert forall|i: int| 0 <= i < (a + b).len() implies occurs_in(#[trigger] (a + b)[i], haystack) by {
        if i < a.len() {
            assert((a + b)[i] == a[i]);
        } else {
            assert((a + b)[i] == b[i - a.len()]);
        }
    }
}

/// A list holding only names of a list whose names all stand in a text holds
/// only such names too.
pub proof fn lemma_all_occur_same_elements(a: Seq<Seq<char>>, b: Seq<Seq<char>>, haystack: Seq<char>)
    requires
        all_occur_in(b, haystack),
        forall|x: Seq<char>| a.contains(x) ==> b.contains(x),
    ensures
        all_occur_in(a, haystack),
{
    assert forall|i: int| 0 <= i < a.len() implies occurs_in(#[trigger] a[i], haystack) by {
        assert(a.contains(a[i]));
        let k = choose|k: int| 0 <= k < b.len() && b[k] == a[i];
        assert(occurs_in(b[k], haystack));
    }
}

/// A match found in one text still stands in that text with more after it.
pub proof fn lemma_occurs_in_prefix(names: Seq<Seq<char>>, front: Seq<char>, back: Seq<char>)
    requires
        all_occur_in(names, front),
    ensures
        all_occur_in(names, front + back),
{
    assert forall|i: int| 0 <= i < names.len() implies occurs_in(#[trigger] names[i], front + back) by {
        let n = names[i];
        let s = choose|s: int| 0 <= s && s + n.len() <= front.len() && #[trigger] front.subrange(s, s + n.len()) == n;
        assert((front + back).subrange(s, s + n.len()) =~= front.subrange(s, s + n.len()));
    }
}

/// A match found in one text still stands in that text with more before it.
pub proof fn lemma_occurs_in_suffix(names: Seq<Seq<char>>, front: Seq<char>, back: Seq<char>)
    requires
        all_occur_in(names, back),
    ensures
        all_occur_in(names, front + back),
{
    assert forall|i: int| 0 <= i < names.len() implies occurs_in(#[trigger] names[i], front + back) by {
        let n = names[i];
        let s = choose|s: int| 0 <= s && s + n.len() <= back.len() && #[trigger] back.subrange(s, s + n.len()) == n;
        let t = front.len() + s;
        assert((front + back).subrange(t, t + n.len()) =~= back.subrange(s, s + n.len()));
    }
}

/// A compiled regular expression together with the pattern it was compiled
/// from. Only `regex_new` builds one, so the two always belong together.
struct Pattern {
    source: String,
    regex: regex::Regex,
}

impl Pattern {
    /// The pattern text this expression was compiled from.
    closed spec fn source(&self) -> Seq<char> {
        self.source@
    }
}

/// `regex::Regex::new`: `Some` exactly when the pattern compiles; the result
/// remembers the pattern.
#[verifier::external_body]
fn regex_new(pattern: &String) -> (r: Option<Pattern>)
    ensures
        r is Some <==> regex_compiles(pattern@),
        r matches Some(p) ==> p.source() == pattern@,
{
    match regex::Regex::new(pattern) {
        Ok(regex) => Some(Pattern { source: pattern.clone(), regex }),
        Err(_) => None,
    }
}

/// `regex::Regex::captures_iter`, each match taken as its whole text (group 0).
/// Each match is a part of the haystack, so each text stands in it.
#[verifier::external_body]
fn regex_captures(pattern: &Pattern, haystack: &str) -> (r: Vec<String>)
    ensures
        views(r@) == regex_match_texts(pattern.source(), haystack@),
        all_occur_in(views(r@), haystack@),
{
    pattern.regex.captures_iter(haystack).map(|caps| caps[0].to_string()).collect()
}

/// Every match of the regular expression `pattern` in `haystack`, each as
/// its whole matched text, in order; `None` when `regex` refuses the pattern.
pub fn find_matches(pattern: &String, haystack: &str) -> (r: Option<Vec<String>>)
    ensures
        r is Some <==> regex_compiles(pattern@),
        r matches Some(v) ==> views(v@) == regex_match_texts(pattern@, haystack@),
        r matches Some(v) ==> all_occur_in(views(v@), haystack@),
{
    match regex_new(pattern) {
        Some(p) => Some(regex_captures(&p, haystack)),
        None => None,
    }
}

/// Whether `regex` accepts the pattern.
pub fn compiles(pattern: &String) -> (r: bool)
    ensures
        r == regex_compiles(pattern@),
{
    regex_new(pattern).is_some()
}

} // verus!
