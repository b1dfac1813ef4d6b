//! Stored chunks: a body, and the provenance captured with it.

use vstd::prelude::*;
use vstd::string::*;

use crate::contract::response::{Locator, Source};
use crate::text::{bytes_upto, chars_of, drop_space, is_space, is_whitespace, string_of, the_end_is_trimmed, trim, trim_end, trimmed, utf8_len};

verus! {

/// Embedding width of the production corpus.
pub const EMBEDDING_DIM: usize = 4096;

/// A stored chunk: a body plus the provenance captured at ingest.
#[derive(Debug, PartialEq, Eq)]
pub struct Chunk {
    pub id: String,
    pub domain_id: String,
    pub cluster_id: i32,
    pub body: String,
    pub source_title: String,
    pub source_url: String,
    pub locator_page: Option<i32>,
    pub locator_section: Option<String>,
    pub heading_path: Option<String>,
    pub identifier: Option<String>,
}

/// A knowledge base, as advertised to the agent.
#[derive(Debug, PartialEq, Eq)]
pub struct Domain {
    pub id: String,
    pub description: String,
    pub row_count: i64,
}

/// The place of the last white space of a text.
pub open spec fn last_space(s: Seq<char>) -> Option<int>
    decreases s.len(),
{
    if s.len() == 0 {
        None
    } else if is_space(s.last()) {
        Some(s.len() - 1)
    } else {
        last_space(s.drop_last())
    }
}

/// Three quarters of a budget, where three times the budget is capped at the
/// largest machine number.
pub open spec fn most_of(max_chars: usize) -> nat {
    (if max_chars * 3 > usize::MAX {
        usize::MAX as nat
    } else {
        (max_chars * 3) as nat
    }) / 4
}

/// A text cut down to a budget of characters: whole where it fits; else cut,
/// at the last word break where that keeps most of the budget in bytes, and
/// marked with an ellipsis.
pub open spec fn preview(s: Seq<char>, max_chars: usize) -> Seq<char> {
    if s.len() <= max_chars {
        s
    } else {
        let cut = s.take(max_chars as int);
        let keep = match last_space(cut) {
            Some(i) => if utf8_len(cut.take(i)) >= most_of(max_chars) {
                cut.take(i)
            } else {
                cut
            },
            None => cut,
        };
        trim_end(keep) + "…"@
    }
}

fn find_last_space(v: &Vec<char>, to: usize) -> (r: Option<usize>)
    requires
        to <= v@.len(),
    ensures
        match r {
            Some(i) => i < to && last_space(v@.take(to as int)) == Some(i as int),
            None => last_space(v@.take(to as int)) is None,
        },
{
    let mut i: usize = to;
    while i > 0
        invariant
            i <= to <= v@.len(),
            last_space(v@.take(to as int)) == last_space(v@.take(i as int)),
        decreases i,
    {
        assert(v@.take(i as int).drop_last() =~= v@.take(i - 1));
        assert(v@.take(i as int).last() == v@[i - 1]);
        if is_whitespace(v[i - 1]) {
            return Some(i - 1);
        }
        i = i - 1;
    }
    None
}

/// The text cut down to a budget of characters.
pub fn preview_of(v: &Vec<char>, max_chars: usize) -> (r: String)
    ensures
        r@ == preview(v@, max_chars),
{
    if v.len() <= max_chars {
        assert(v@.subrange(0, v@.len() as int) =~= v@);
        return string_of(v, 0, v.len());
    }
    let ghost cut = v@.take(max_chars as int);
    let thrice: u128 = max_chars as u128 * 3;
    let capped: u128 = if thrice > usize::MAX as u128 {
        usize::MAX as u128
    } else {
        thrice
    };
    let most: u128 = capped / 4;
    assert(most == most_of(max_chars));
    let keep: usize = match find_last_space(v, max_chars) {
        Some(i) => {
            assert(cut.take(i as int) =~= v@.take(i as int));
            if bytes_upto(v, i) >= most {
                i
            } else {
                max_chars
            }
        },
        None => max_chars,
    };
    let end = drop_space(v, 0, keep);
    assert(v@.subrange(0, keep as int) =~= v@.take(keep as int));
    assert(cut.take(keep as int) =~= v@.take(keep as int));
    let mut out = string_of(v, 0, end);
    out.append("…");
    out
}

/// A preview is the text itself, or a piece of its beginning within the budget
/// and an ellipsis.
pub proof fn a_preview_stays_within_budget(s: Seq<char>, max_chars: usize)
    ensures
        preview(s, max_chars) == s || {
            let n = preview(s, max_chars).len() - 1;
            &&& 0 <= n <= max_chars < s.len()
            &&& preview(s, max_chars).take(n) == s.take(n)
            &&& preview(s, max_chars)[n] == '…'
        },
{
    if s.len() > max_chars {
        reveal_strlit("…");
        let cut = s.take(max_chars as int);
        let keep = match last_space(cut) {
            Some(i) => if utf8_len(cut.take(i)) >= most_of(max_chars) {
                cut.take(i)
            } else {
                cut
            },
            None => cut,
        };
        last_space_is_inside(cut);
        trim_end_is_a_prefix(keep);
        let t = trim_end(keep);
        assert(preview(s, max_chars).take(t.len() as int) =~= t);
        assert(keep =~= s.take(keep.len() as int));
        assert(t =~= s.take(t.len() as int));
    }
}

proof fn last_space_is_inside(s: Seq<char>)
    ensures
        last_space(s) is Some ==> 0 <= last_space(s)->0 < s.len(),
    decreases s.len(),
{
    if s.len() > 0 && !is_space(s.last()) {
        last_space_is_inside(s.drop_last());
    }
}

proof fn trim_end_is_a_prefix(s: Seq<char>)
    ensures
        trim_end(s).len() <= s.len(),
        trim_end(s) == s.take(trim_end(s).len() as int),
    decreases s.len(),
{
    if s.len() > 0 && is_space(s.last()) {
        trim_end_is_a_prefix(s.drop_last());
        assert(trim_end(s) =~= s.take(trim_end(s).len() as int));
    } else {
        assert(s =~= s.take(s.len() as int));
    }
}

impl Chunk {
    /// Provenance for this chunk, always the stored fields. Where ingest
    /// recorded no locator, the locator is empty rather than guessed.
    pub fn source(&self) -> (r: Source)
        ensures
            r.title == self.source_title,
            r.url == self.source_url,
            r.locator.page == self.locator_page,
            r.locator.section == self.locator_section,
    {
        let section = match &self.locator_section {
            Some(s) => Some(s.clone()),
            None => None,
        };
        Source {
            title: self.source_title.clone(),
            url: self.source_url.clone(),
            locator: Locator { page: self.locator_page, section },
        }
    }

    /// Bounded preview, never the full body. Counts characters, so none is
    /// split.
    pub fn snippet(&self, max_chars: usize) -> (r: String)
        ensures
            r@ == preview(trimmed(self.body@), max_chars),
    {
        let body = trim(self.body.as_str());
        let v = chars_of(body.as_str());
        preview_of(&v, max_chars)
    }
}

/// Where a preview cuts. A text that fits is shown whole. A longer one is cut at
/// `c` and marked: at the last white space within the budget where the part
/// before it takes three quarters of the budget in bytes, else at the budget
/// itself; white space before the mark is left out, and nothing else.
pub proof fn a_preview_cuts_at_the_last_word_break(s: Seq<char>, max_chars: usize) -> (r: (int, int))
    ensures
        s.len() <= max_chars ==> preview(s, max_chars) == s,
        s.len() > max_chars ==> ({
            let c = r.0;
            let n = r.1;
            &&& 0 <= n <= c <= max_chars
            &&& preview(s, max_chars) == s.take(n).push('…')
            &&& forall|i: int| n <= i < c ==> is_space(#[trigger] s[i])
            &&& n > 0 ==> !is_space(s[n - 1])
            &&& c < max_chars ==> is_space(s[c]) && (forall|i: int|
                c < i < max_chars ==> !is_space(#[trigger] s[i])) && utf8_len(s.take(c)) >= most_of(
                max_chars,
            )
            &&& c == max_chars ==> forall|i: int|
                0 <= i < max_chars && #[trigger] is_space(s[i]) && (forall|j: int|
                    i < j < max_chars ==> !is_space(#[trigger] s[j])) ==> utf8_len(s.take(i))
                    < most_of(max_chars)
        }),
        max_chars <= usize::MAX / 3 ==> most_of(max_chars) == (max_chars * 3) / 4,
{
    if s.len() <= max_chars {
        (0, 0)
    } else {
        reveal_strlit("…");
        let cut = s.take(max_chars as int);
        the_last_space_is_the_last(cut);
        let c = match last_space(cut) {
            Some(i) => if utf8_len(cut.take(i)) >= most_of(max_chars) {
                i
            } else {
                max_chars as int
            },
            None => max_chars as int,
        };
        let keep = s.take(c);
        if last_space(cut) is Some {
            let i = last_space(cut)->0;
            assert(cut.take(i) =~= s.take(i));
            assert(cut[i] == s[i]);
            assert forall|j: int| i < j < max_chars implies !is_space(#[trigger] s[j]) by {
                assert(cut[j] == s[j]);
            }
        }
        let n = the_end_is_trimmed(keep);
        assert(keep.take(n) =~= s.take(n));
        assert(trim_end(keep) + "…"@ =~= s.take(n).push('…'));
        assert forall|i: int| n <= i < c implies is_space(#[trigger] s[i]) by {
            assert(keep[i] == s[i]);
        }
        if n > 0 {
            assert(keep[n - 1] == s[n - 1]);
        }
        if c == max_chars {
            assert(cut =~= keep);
            assert forall|i: int|
                0 <= i < max_chars && #[trigger] is_space(s[i]) && (forall|j: int|
                    i < j < max_chars ==> !is_space(#[trigger] s[j])) implies utf8_len(s.take(i))
                < most_of(max_chars) by {
                assert(cut[i] == s[i]);
                let k = last_space(cut)->0;
                assert(cut[k] == s[k]);
                assert(k == i);
                assert(cut.take(i) =~= s.take(i));
            }
        }
        (c, n)
    }
}

proof fn the_last_space_is_the_last(s: Seq<char>)
    ensures
        match last_space(s) {
            Some(i) => 0 <= i < s.len() && is_space(s[i]) && forall|j: int|
                i < j < s.len() ==> !is_space(#[trigger] s[j]),
            None => forall|j: int| 0 <= j < s.len() ==> !is_space(#[trigger] s[j]),
        },
    decreases s.len(),
{
    if s.len() > 0 && !is_space(s.last()) {
        let t = s.drop_last();
        the_last_space_is_the_last(t);
        match last_space(t) {
            Some(i) => {
                assert(t[i] == s[i]);
                assert forall|j: int| i < j < s.len() implies !is_space(#[trigger] s[j]) by {
                    if j < t.len() {
                        assert(t[j] == s[j]);
                    }
                }
            },
            None => {
                assert forall|j: int| 0 <= j < s.len() implies !is_space(#[trigger] s[j]) by {
                    if j < t.len() {
                        assert(t[j] == s[j]);
                    }
                }
            },
        }
    }
}

} // verus!
