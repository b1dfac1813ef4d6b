//! Texts in quotes, as the standard library's debug formatting writes them.

use vstd::prelude::*;

verus! {

/// What debug formatting writes for a text.
pub uninterp spec fn quoted_text(s: Seq<char>) -> Seq<char>;

/// A printable ASCII character that needs no escape inside quotes.
pub open spec fn is_plain(c: char) -> bool {
    ' ' <= c <= '~' && c != '"' && c != '\\'
}

/// The debug formatting of `str`, through `format!`. What it writes rests on
/// the Unicode tables, which say what is escaped, and is named; printable ASCII
/// without quotes and backslashes stands between quotes as it is.
#[verifier::external_body]
pub(crate) fn quote(s: &str) -> (r: String)
    ensures
        r@ == quoted_text(s@),
        (forall|i: int| 0 <= i < s@.len() ==> is_plain(#[trigger] s@[i])) ==> r@ == seq!['"'] + s@
            + seq!['"'],
{
    format!("{:?}", s)
}

} // verus!
