use vstd::prelude::*;
use regex::Regex;

verus! {

#[verifier::external_type_specification]
#[verifier::external_body]
pub struct ExRegex(Regex);

#[verifier::external_type_specification]
#[verifier::external_body]
pub struct ExRegexError(regex::Error);

/// Whether `regex::Regex::new` accepts `pattern` (it refuses invalid syntax and patterns that
/// compile beyond its default size limit).
pub uninterp spec fn regex_compiles(pattern: Seq<char>) -> bool;

/// What `regex::Regex::captures` finds for the regex compiled from `pattern` in `haystack`:
/// `None` when there is no match, else the text of every capture group in the order of its
/// opening parenthesis, group 0 being the whole match, `None` for a group that did not take
/// part in the match.
pub uninterp spec fn regex_captures(pattern: Seq<char>, haystack: Seq<char>) -> Option<
    Seq<Option<Seq<char>>>,
>;

/// A compiled regular expression together with the pattern it was compiled from.
pub struct Pattern {
    source: String,
    re: Regex,
}

impl View for Pattern {
    type V = Seq<char>;

    /// The pattern the regex was compiled from.
    closed spec fn view(&self) -> Seq<char> {
        self.source@
    }
}

/// The texts of the capture groups of one match.
pub open spec fn groups_view(caps: Seq<Option<String>>) -> Seq<Option<Seq<char>>> {
    caps.map_values(
        |g: Option<String>|
            match g {
                Some(s) => Some(s@),
                None => None,
            },
    )
}

/// The view of a `captures` result.
pub open spec fn captures_view(r: Option<Vec<Option<String>>>) -> Option<Seq<Option<Seq<char>>>> {
    match r {
        Some(caps) => Some(groups_view(caps@)),
        None => None,
    }
}

/// Calls `regex::Regex::new`. The contract claims that it succeeds exactly when
/// `regex_compiles` holds of the pattern, and that the result keeps the pattern's text.
#[verifier::external_body]
fn regex_new(pattern: &str) -> (r: Result<Pattern, regex::Error>)
    ensures
        r is Ok <==> regex_compiles(pattern@),
        r matches Ok(p) ==> p@ == pattern@,
{
    Regex::new(pattern).map(|re| Pattern { source: pattern.to_string(), re })
}

/// Calls `regex::Regex::captures` and copies out the text of every group, in group order.
/// The contract claims that the result is `regex_captures` of the pattern the regex was
/// compiled from (a `Pattern` is only made by `regex_new`) and of the haystack.
#[verifier::external_body]
fn regex_captures_of(p: &Pattern, haystack: &str) -> (r: Option<Vec<Option<String>>>)
    ensures
        captures_view(r) == regex_captures(p@, haystack@),
{
    p.re.captures(haystack).map(
        |c| c.iter().map(|g| g.map(|m| m.as_str().to_string())).collect(),
    )
}

/// A pattern that `regex::Regex::new` refused.
pub struct PatternError {
    pub pattern: String,
}

/// Compiles `pattern`; fails exactly when the regex crate refuses it.
pub fn compile(pattern: &str) -> (r: Result<Pattern, PatternError>)
    ensures
        r is Ok <==> regex_compiles(pattern@),
        r matches Ok(p) ==> p@ == pattern@,
        r matches Err(e) ==> e.pattern@ == pattern@,
{
    match regex_new(pattern) {
        Ok(p) => Ok(p),
        Err(_) => Err(PatternError { pattern: pattern.to_string() }),
    }
}

/// The groups of the first match of `p` in `haystack`, if there is one.
pub fn captures(p: &Pattern, haystack: &str) -> (r: Option<Vec<Option<String>>>)
    ensures
        captures_view(r) == regex_captures(p@, haystack@),
{
    regex_captures_of(p, haystack)
}

/// Group `k` of a match: `None` when the group does not exist or did not take part.
pub open spec fn group(caps: Seq<Option<Seq<char>>>, k: int) -> Option<Seq<char>> {
    if 0 <= k < caps.len() {
        caps[k]
    } else {
        None
    }
}

/// Group `k` of a match, as a string.
pub fn group_text(caps: &Vec<Option<String>>, k: usize) -> (r: Option<String>)
    ensures
        r is Some == group(groups_view(caps@), k as int) is Some,
        r matches Some(s) ==> group(groups_view(caps@), k as int) == Some(s@),
{
    if k < caps.len() {
        match &caps[k] {
            Some(s) => Some(s.clone()),
            None => None,
        }
    } else {
        None
    }
}

} // verus!
