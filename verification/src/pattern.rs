//! The boundary to the regular-expression engine.
//!
//! Expressions are compiled and run by `regex-automata`. Nothing in this
//! module is proved: each function states what the engine is taken to do,
//! and the rest of the crate is verified against those statements.

use regex_automata::meta::{BuildError, Regex};
use regex_automata::util::syntax;
use vstd::prelude::*;
use vstd::string::*;

verus! {

/// A compiled expression, `regex_automata::meta::Regex`. Nothing is known
/// of what is inside one.
#[verifier::external_type_specification]
#[verifier::external_body]
pub struct ExRegex(Regex);

/// Why a pattern did not compile, `regex_automata::meta::BuildError`.
#[verifier::external_type_specification]
#[verifier::external_body]
pub struct ExBuildError(BuildError);

/// Whether the list of patterns compiles, under the given case mode.
pub uninterp spec fn patterns_compile(patterns: Seq<Seq<char>>, ignore_case: bool) -> bool;

/// The patterns an expression was compiled from, in order.
pub uninterp spec fn regex_sources(re: Regex) -> Seq<Seq<char>>;

/// Whether an expression was compiled to match without regard to case.
pub uninterp spec fn regex_ignores_case(re: Regex) -> bool;

/// Whether the expression matches anywhere in the haystack.
pub uninterp spec fn regex_accepts(re: Regex, hay: Seq<u8>) -> bool;

/// The byte ranges, start and end, of the successive non-overlapping
/// matches of the expression in the haystack.
pub uninterp spec fn regex_spans(re: Regex, hay: Seq<u8>) -> Seq<(usize, usize)>;

/// `Builder::build_many` of `regex_automata::meta`, with the syntax option
/// `case_insensitive` set to `ignore_case` and every other option left at
/// its default. It fails exactly when some pattern does not compile, which
/// depends on the patterns and the case mode alone; the expression it
/// returns remembers both.
#[verifier::external_body]
pub(crate) fn compile(patterns: &Vec<String>, ignore_case: bool) -> (built: Result<
    Regex,
    BuildError,
>)
    ensures
        built is Ok <==> patterns_compile(patterns.deep_view(), ignore_case),
        built matches Ok(re) ==> regex_sources(re) == patterns.deep_view() && regex_ignores_case(re)
            == ignore_case,
{
    Regex::builder().syntax(syntax::Config::new().case_insensitive(ignore_case)).build_many(
        patterns,
    )
}

/// `Regex::is_match` of `regex_automata::meta`: whether the expression
/// matches somewhere in `hay`, a function of the expression and the text.
#[verifier::external_body]
pub(crate) fn is_match(re: &Regex, hay: &str) -> (found: bool)
    ensures
        found == regex_accepts(*re, hay.spec_bytes()),
{
    re.is_match(hay)
}

/// `Regex::find_iter` of `regex_automata::meta`, run to its end: the byte
/// offsets of every match it yields, in the order it yields them, a
/// function of the expression and the text.
#[verifier::external_body]
pub(crate) fn find_spans(re: &Regex, hay: &str) -> (spans: Vec<(usize, usize)>)
    ensures
        spans@ == regex_spans(*re, hay.spec_bytes()),
{
    re.find_iter(hay).map(|m| (m.start(), m.end())).collect()
}

} // verus!
