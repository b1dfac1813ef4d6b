//! Regular expressions, compiled by the `regex` crate.

use vstd::prelude::*;

verus! {

/// A compiled regular expression of the `regex` crate.
#[verifier::external_type_specification]
#[verifier::external_body]
pub struct ExRegex(regex::Regex);

/// Why the `regex` crate did not compile a pattern.
#[verifier::external_type_specification]
#[verifier::external_body]
pub struct ExRegexError(regex::Error);

/// The text that `Regex::as_str` gives back for an expression.
pub uninterp spec fn regex_source(re: regex::Regex) -> Seq<char>;

/// What `Regex::is_match` answers for an expression and a text.
pub uninterp spec fn regex_match(re: regex::Regex, text: Seq<char>) -> bool;

/// What `Regex::is_match` answers for a text, on the expression that
/// `Regex::new` makes of a pattern.
pub uninterp spec fn pattern_matches(pattern: Seq<char>, text: Seq<char>) -> bool;

/// A character that has significance in a pattern.
pub open spec fn is_meta(c: char) -> bool {
    seq![
        '\\', '.', '+', '*', '?', '(', ')', '|', '[', ']', '{', '}', '^', '$', '#', '&', '-', '~',
    ].contains(c)
}

/// A text with a backslash before every character that has significance in a
/// pattern.
pub open spec fn escaped(s: Seq<char>) -> Seq<char>
    decreases s.len(),
{
    if s.len() == 0 {
        Seq::empty()
    } else if is_meta(s.last()) {
        escaped(s.drop_last()).push('\\').push(s.last())
    } else {
        escaped(s.drop_last()).push(s.last())
    }
}

/// The length up to which a text, taken literally, is sure to compile.
pub const LITERAL_CHARS: usize = 100;

/// Whether a pattern is a text taken literally and blind to case, anywhere or
/// behind white space at the start.
pub open spec fn is_literal(pattern: Seq<char>, text: Seq<char>) -> bool {
    ||| pattern == "(?i)(?:"@ + escaped(text) + ")"@
    ||| pattern == "(?i)^\\s*(?:"@ + escaped(text) + ")"@
}

/// `Regex::new`. An expression that comes out has the pattern as its source,
/// and what it matches is fixed by the pattern. It fails on a pattern that is
/// no expression, and on one whose compiled form is over a limit of ten
/// mebibytes. An escaped text of at most a hundred characters in a group is an
/// expression, each character of it a class of four at most, and stays far
/// below that limit: it compiles. Of other patterns it is not said whether they
/// do, since the compiled size depends on the machine.
#[verifier::external_body]
pub(crate) fn compile(pattern: &str) -> (r: Result<regex::Regex, regex::Error>)
    ensures
        r is Ok ==> regex_source(r->Ok_0) == pattern@,
        r is Ok ==> forall|text: Seq<char>|
            #[trigger] regex_match(r->Ok_0, text) == pattern_matches(pattern@, text),
        forall|text: Seq<char>|
            text.len() <= LITERAL_CHARS && #[trigger] is_literal(pattern@, text) ==> r is Ok,
{
    regex::Regex::new(pattern)
}

/// `Regex::is_match`: whether the expression matches anywhere in the text. The
/// answer is named.
#[verifier::external_body]
pub(crate) fn is_match(re: &regex::Regex, text: &str) -> (r: bool)
    ensures
        r == regex_match(*re, text@),
{
    re.is_match(text)
}

/// `Regex::as_str`: the text the expression was compiled from.
#[verifier::external_body]
pub(crate) fn source(re: &regex::Regex) -> (r: &str)
    ensures
        r@ == regex_source(*re),
{
    re.as_str()
}

/// `regex::escape`: puts a backslash before every character that has
/// significance in a pattern, and keeps the rest.
#[verifier::external_body]
pub(crate) fn escape(text: &str) -> (r: String)
    ensures
        r@ == escaped(text@),
{
    regex::escape(text)
}

} // verus!
