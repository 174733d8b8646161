//! Regular expressions, through the `regex` crate.
//!
//! What a pattern accepts and where it matches is not restated here: those
//! results are named by uninterpreted functions of the pattern text and the
//! haystack, and the library's own logic is specified over those names.

use regex::Regex;
use vstd::prelude::*;

use crate::text::on_boundary;

verus! {

#[verifier::external_type_specification]
#[verifier::external_body]
pub struct ExRegex(Regex);

#[verifier::external_type_specification]
#[verifier::external_body]
pub struct ExRegexError(regex::Error);

/// Whether `regex::Regex::new` accepts the pattern text.
pub uninterp spec fn regex_compiles(pattern: Seq<char>) -> bool;

/// Whether the compiled pattern matches somewhere in the haystack.
pub uninterp spec fn regex_is_match(pattern: Seq<char>, haystack: Seq<char>) -> bool;

/// The byte spans `(start, end)` of the successive non-overlapping matches
/// of the pattern in the haystack, in the order `find_iter` yields them.
pub uninterp spec fn regex_find_spans(pattern: Seq<char>, haystack: Seq<char>) -> Seq<(usize, usize)>;

/// For the first match of the pattern in the haystack: `None` when there is
/// no match, `Some(None)` when the named group took no part in it, and
/// otherwise the byte span of the text the group captured.
pub uninterp spec fn regex_named_group(
    pattern: Seq<char>,
    haystack: Seq<char>,
    name: Seq<char>,
) -> Option<Option<(usize, usize)>>;

/// A regular expression together with the pattern text it was compiled from.
pub struct CompiledPattern {
    re: Regex,
    source: Ghost<Seq<char>>,
}

impl View for CompiledPattern {
    type V = Seq<char>;

    closed spec fn view(&self) -> Seq<char> {
        self.source@
    }
}

/// `regex::Regex::new`. Trusted: the result is `Ok` exactly when
/// [`regex_compiles`] holds of the pattern text, and the compiled expression
/// remembers that text. The pattern's meaning is left to the names above.
#[verifier::external_body]
pub(crate) fn compile_pattern(pattern: &str) -> (r: Result<CompiledPattern, regex::Error>)
    ensures
        r is Ok <==> regex_compiles(pattern@),
        r matches Ok(c) ==> c@ == pattern@,
{
    match Regex::new(pattern) {
        Ok(re) => Ok(CompiledPattern { re, source: Ghost(pattern@) }),
        Err(e) => Err(e),
    }
}

/// `regex::Regex::is_match`. Trusted: the result is [`regex_is_match`] of the
/// pattern text and the haystack.
#[verifier::external_body]
pub(crate) fn pattern_matches(re: &CompiledPattern, haystack: &str) -> (b: bool)
    ensures
        b == regex_is_match(re@, haystack@),
{
    re.re.is_match(haystack)
}

/// `regex::Regex::find_iter`, each match taken as its byte span. Trusted: the
/// spans are [`regex_find_spans`] of the pattern text and the haystack; as the
/// crate documents for `Match::start` and `Match::end`, each span starts no
/// later than it ends and both ends fall on character boundaries of the
/// haystack.
#[verifier::external_body]
pub(crate) fn find_spans(re: &CompiledPattern, haystack: &str) -> (spans: Vec<(usize, usize)>)
    ensures
        spans@ == regex_find_spans(re@, haystack@),
        forall|k: int|
            0 <= k < spans@.len() ==> {
                &&& (#[trigger] spans@[k]).0 <= spans@[k].1
                &&& on_boundary(haystack@, spans@[k].0 as int)
                &&& on_boundary(haystack@, spans@[k].1 as int)
            },
{
    re.re.find_iter(haystack).map(|m| (m.start(), m.end())).collect()
}

/// `regex::Regex::captures` followed by `regex::Captures::name`, each match
/// taken as its byte span. Trusted: the result is [`regex_named_group`] of the
/// pattern text, the haystack and the group name; a captured span starts no
/// later than it ends and both ends fall on character boundaries of the
/// haystack, as the crate documents for `Match`.
#[verifier::external_body]
pub(crate) fn named_group_span(re: &CompiledPattern, haystack: &str, name: &str) -> (r: Option<
    Option<(usize, usize)>,
>)
    ensures
        r == regex_named_group(re@, haystack@, name@),
        r matches Some(Some(sp)) ==> sp.0 <= sp.1 && on_boundary(haystack@, sp.0 as int)
            && on_boundary(haystack@, sp.1 as int),
{
    re.re.captures(haystack).map(|c| c.name(name).map(|m| (m.start(), m.end())))
}

} // verus!
