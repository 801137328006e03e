//! The regular expression engine behind the matcher.
//!
//! Compiled expressions come from the `regex` crate. Nothing in this module is
//! proved: each item states what is taken on trust about that crate.

use regex::bytes::Regex;
use regex::bytes::RegexBuilder;
use vstd::prelude::*;

verus! {

/// A compiled expression of `regex::bytes`. Its inside is not visible to proofs.
#[verifier::external_type_specification]
#[verifier::external_body]
pub struct ExRegex(regex::bytes::Regex);

/// The text a compiled expression was built from, as `Regex::as_str` gives it.
pub uninterp spec fn regex_source(re: Regex) -> Seq<char>;

/// The haystacks in which a compiled expression finds a match.
pub uninterp spec fn regex_language(re: Regex) -> Set<Seq<u8>>;

/// The haystacks matched by the expression that `RegexBuilder::build` makes
/// of `source` under the given flags.
pub uninterp spec fn pattern_language(
    source: Seq<char>,
    case_insensitive: bool,
    unicode: bool,
    swap_greed: bool,
) -> Set<Seq<u8>>;

/// Calls `regex::bytes::RegexBuilder` with the given flags and size limit.
///
/// Whether the build succeeds is left open: it depends on the syntax and on
/// the size the compiled program takes on this machine. A refusal comes back
/// as `None`. When the build succeeds, the expression remembers `source` and
/// matches what `source` means under the flags.
#[verifier::external_body]
pub(crate) fn build_regex(
    source: &str,
    case_insensitive: bool,
    size_limit: usize,
    unicode: bool,
    swap_greed: bool,
) -> (built: Option<Regex>)
    ensures
        built matches Some(re) ==> regex_source(re) == source@ && regex_language(re)
            == pattern_language(source@, case_insensitive, unicode, swap_greed),
{
    RegexBuilder::new(source)
        .case_insensitive(case_insensitive)
        .size_limit(size_limit)
        .unicode(unicode)
        .swap_greed(swap_greed)
        .build()
        .ok()
}

/// Calls `Regex::is_match`: true exactly when the expression matches somewhere
/// in `haystack`.
#[verifier::external_body]
pub(crate) fn regex_is_match(re: &Regex, haystack: &[u8]) -> (found: bool)
    ensures
        found == regex_language(*re).contains(haystack@),
{
    re.is_match(haystack)
}

/// Calls `Regex::as_str`, which returns the text the expression was built from.
#[verifier::external_body]
pub(crate) fn regex_text(re: &Regex) -> (text: String)
    ensures
        text@ == regex_source(*re),
{
    re.as_str().to_owned()
}

} // verus!
