use vstd::prelude::*;

verus! {

#[verifier::external_type_specification]
#[verifier::external_body]
pub struct ExRegex(regex::Regex);

#[verifier::external_type_specification]
#[verifier::external_body]
pub struct ExRegexError(regex::Error);

/// Whether `regex::Regex::new` accepts a pattern.
pub uninterp spec fn compiles(pattern: Seq<char>) -> bool;

/// What `regex::Regex::capture_names` yields for a compiled pattern: one
/// entry per capture group, group zero first, `Some` for a named group.
pub uninterp spec fn capture_names_of(pattern: Seq<char>) -> Seq<Option<Seq<char>>>;

/// What `regex::Regex::captures` yields for a pattern on a haystack: the
/// text of each capture group of the first match, `None` for a group that
/// did not take part.
pub uninterp spec fn first_match_of(pattern: Seq<char>, haystack: Seq<char>) -> Option<
    Seq<Option<Seq<char>>>,
>;

/// Whether `part` occurs in `whole` as a contiguous piece.
pub open spec fn is_substring(part: Seq<char>, whole: Seq<char>) -> bool {
    exists|a: int, b: int| 0 <= a <= b <= whole.len() && whole.subrange(a, b) == part
}

/// A compiled regular expression together with the text it was compiled
/// from. Its view is that text.
pub struct Pattern {
    re: regex::Regex,
    text: String,
}

impl View for Pattern {
    type V = Seq<char>;

    closed spec fn view(&self) -> Seq<char> {
        self.text@
    }
}

/// Relies on `regex::Regex::new`: it fails exactly on the patterns that
/// `compiles` refuses. The compiled value is kept beside its source text.
#[verifier::external_body]
pub(crate) fn compile(text: String) -> (r: Result<Pattern, regex::Error>)
    ensures
        r is Ok <==> compiles(text@),
        r matches Ok(p) ==> p@ == text@,
{
    regex::Regex::new(text.as_str()).map(|re| Pattern { re, text })
}

/// Relies on `regex::Regex::capture_names`: the names of the groups, in
/// group order, with at least the unnamed group zero.
#[verifier::external_body]
pub(crate) fn capture_names(p: &Pattern) -> (r: Vec<Option<String>>)
    ensures
        r.deep_view() == capture_names_of(p@),
        r@.len() >= 1,
{
    p.re.capture_names().map(|n| n.map(|n| n.to_string())).collect()
}

/// Relies on `regex::Regex::captures`: the first match, given as the text of
/// each group (one entry per group, as `Captures::iter` walks them). Each
/// captured text is a piece of the haystack.
#[verifier::external_body]
pub(crate) fn captures(p: &Pattern, haystack: &str) -> (r: Option<Vec<Option<String>>>)
    ensures
        r.deep_view() == first_match_of(p@, haystack@),
        r matches Some(g) ==> g@.len() == capture_names_of(p@).len(),
        r matches Some(g) ==> forall|i: int|
            0 <= i < g@.len() && (#[trigger] g@[i]) is Some ==> is_substring(
                g@[i]->0@,
                haystack@,
            ),
{
    p.re.captures(haystack).map(|c| c.iter().map(|m| m.map(|m| m.as_str().to_string())).collect())
}

} // verus!
