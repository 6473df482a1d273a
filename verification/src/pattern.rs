use crate::error::ReferendumError;
use crate::text::texts;
use regex::Regex;
use vstd::prelude::*;

verus! {

/// `regex::Regex`, a compiled regular expression. Verus sees nothing inside it.
#[verifier::external_type_specification]
#[verifier::external_body]
pub struct ExRegex(regex::Regex);

/// `regex::Error`, what `Regex::new` gives for a pattern that it does not take.
#[verifier::external_type_specification]
#[verifier::external_body]
pub struct ExRegexError(regex::Error);

/// Whether `Regex::new` compiles `pattern`.
pub uninterp spec fn regex_accepts(pattern: Seq<char>) -> bool;

/// The pattern that `Regex::new` compiled `re` from; it is what `Regex::as_str`
/// gives back. In this library `Regex::new` is the only source of a regex.
pub uninterp spec fn regex_pattern(re: Regex) -> Seq<char>;

/// Whether the regex that `Regex::new` compiles from `pattern` has a match
/// anywhere in `haystack`.
pub uninterp spec fn regex_is_match(pattern: Seq<char>, haystack: Seq<char>) -> bool;

/// The matches in `haystack` of the regex that `Regex::new` compiles from
/// `pattern`: the matched substrings, one after the other and not overlapping,
/// from left to right.
pub uninterp spec fn regex_find_all(pattern: Seq<char>, haystack: Seq<char>) -> Seq<Seq<char>>;

/// `Regex::new`: compiles a pattern, or returns an error for one that it does
/// not take. Nothing is claimed about which patterns it takes; the compiled
/// regex keeps the pattern it was given.
pub assume_specification[ Regex::new ](re: &str) -> (compiled: Result<Regex, regex::Error>)
    ensures
        compiled is Ok <==> regex_accepts(re@),
        compiled matches Ok(regex) ==> regex_pattern(regex) == re@,
;

/// `Regex::is_match`: whether the regex has a match anywhere in the haystack.
/// The answer is a function of the pattern and the haystack.
pub assume_specification[ Regex::is_match ](re: &Regex, haystack: &str) -> (found: bool)
    ensures
        found == regex_is_match(regex_pattern(*re), haystack@),
;

/// `Regex::find_iter`, with `Match::as_str` on each match it yields: the
/// matched substrings in the order in which the iterator gives them. They are
/// a function of the pattern and the haystack.
#[verifier::external_body]
pub(crate) fn find_all(re: &Regex, haystack: &str) -> (found: Vec<String>)
    ensures
        texts(found@) == regex_find_all(regex_pattern(*re), haystack@),
{
    re.find_iter(haystack).map(|m| m.as_str().to_string()).collect()
}

/// The regex of a pattern. Where `Regex::new` does not take the pattern,
/// nothing can be extracted with it.
pub(crate) fn compile(pattern: &str) -> (compiled: Result<Regex, ReferendumError>)
    ensures
        match compiled {
            Ok(regex) => regex_accepts(pattern@) && regex_pattern(regex) == pattern@,
            Err(e) => !regex_accepts(pattern@) && e
                == ReferendumError::TestResultExtractionFailure(),
        },
{
    match Regex::new(pattern) {
        Ok(regex) => Ok(regex),
        Err(_) => Err(ReferendumError::TestResultExtractionFailure()),
    }
}

} // verus!
