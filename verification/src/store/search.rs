//! Rows of the query surface: scored hits, chunks, and settling their order.

use vstd::prelude::*;
use vstd::string::*;

use crate::engine::factors::is_shuffle;
use crate::engine::routing::first;
use crate::order::{arrange, arranged, arranging_ignores_arrival, Ordered};
use crate::score::Score;
use crate::text::{decimal, decimal_reads_back, is_digit, is_space, is_text_before, same, show_signed, signed_decimal, text_before, text_order_is_irreflexive, text_order_is_total, text_order_is_transitive, trim, trim_end, trim_start, trimmed};

verus! {

/// One scored hit from a single arm.
#[derive(Debug, PartialEq)]
pub struct Scored {
    pub id: String,
    /// Comparable within an arm, not across arms.
    pub score: Score,
}

/// The higher score stands first, by the total order; ties go by id.
impl Ordered for Scored {
    open spec fn ahead(&self, other: &Self) -> bool {
        self.score.total_rank() > other.score.total_rank() || (self.score.total_rank()
            == other.score.total_rank() && text_before(self.id@, other.id@))
    }

    proof fn ahead_is_an_order(a: &Self, b: &Self, c: &Self) {
        text_order_is_irreflexive(a.id@, 0);
        if !text_before(b.id@, a.id@) && !text_before(c.id@, b.id@) {
            text_order_is_total(a.id@, b.id@, c.id@, 0);
        }
        if text_before(a.id@, b.id@) && text_before(b.id@, a.id@) {
            text_order_is_transitive(a.id@, b.id@, a.id@, 0);
        }
    }

    fn is_ahead(&self, other: &Self) -> bool {
        other.score.total_before(self.score) || (!self.score.total_before(other.score)
            && is_text_before(self.id.as_str(), other.id.as_str()))
    }
}

/// How many rows a limit lets through: all of them where it is negative.
pub open spec fn limit(k: i64) -> nat {
    if k < 0 {
        usize::MAX as nat
    } else if k > usize::MAX {
        usize::MAX as nat
    } else {
        k as nat
    }
}

/// Orders by score, breaks ties on id, cuts to `k`. The database leaves the
/// order of ties open; settling it here makes a pool repeatable.
pub fn settle(rows: Vec<Scored>, k: i64) -> (r: Vec<Scored>)
    ensures
        r@ == first(arranged(rows@), limit(k)),
{
    let mut sorted = arrange(rows);
    let ghost all = sorted@;
    let n: usize = if k < 0 || k as u64 > usize::MAX as u64 {
        usize::MAX
    } else {
        k as usize
    };
    sorted.truncate(n);
    assert(sorted@ =~= first(all, limit(k)));
    sorted
}

/// Hits, as what they say.
pub open spec fn hit_keys(v: Seq<Scored>) -> Seq<(Seq<char>, Score)> {
    v.map_values(|h: Scored| (h.id@, h.score))
}

/// The order in which hits arrive does not reach the settled order: every
/// arrangement of the same hits settles to the same list.
pub proof fn settling_ignores_arrival(a: Seq<Scored>, b: Seq<Scored>, k: i64)
    requires
        hit_keys(a).to_multiset() == hit_keys(b).to_multiset(),
    ensures
        hit_keys(first(arranged(a), limit(k))) == hit_keys(first(arranged(b), limit(k))),
{
    let key = |h: Scored| (h.id@, h.score);
    assert forall|i: int, j: int|
        #![trigger a[i], b[j]]
        0 <= i < a.len() && 0 <= j < b.len() && !a[i].ahead(&b[j]) && !b[j].ahead(
            &a[i],
        ) implies key(a[i]) == key(b[j]) by {
        settled_hits_never_tie(a[i], b[j]);
    }
    arranging_ignores_arrival(a, b, key);
    let x = arranged(a);
    let y = arranged(b);
    assert(hit_keys(x) == hit_keys(y));
    assert(hit_keys(x).len() == x.len() && hit_keys(y).len() == y.len());
    assert(hit_keys(first(x, limit(k))) =~= first(hit_keys(x), limit(k)));
    assert(hit_keys(first(y, limit(k))) =~= first(hit_keys(y), limit(k)));
}

/// Two hits tie only when they have the same score and the same id.
pub proof fn settled_hits_never_tie(a: Scored, b: Scored)
    requires
        !a.ahead(&b),
        !b.ahead(&a),
    ensures
        a.score.bits == b.score.bits,
        a.id@ == b.id@,
{
    assert(a.id@.take(0) =~= b.id@.take(0));
    crate::text::text_order_separates(a.id@, b.id@, 0);
}

/// How much deeper than it was asked an arm reads before it settles ties.
pub const OVERFETCH: i64 = 3;

/// How many rows an arm asks the database for.
pub fn overfetch(k: i64) -> (r: i64)
    requires
        i64::MIN <= k * OVERFETCH <= i64::MAX,
    ensures
        r == k * OVERFETCH,
        k >= 0 ==> r >= k,
{
    k * OVERFETCH
}

/// A hit from the global exact-identifier path.
#[derive(Debug, PartialEq, Eq)]
pub struct ExactHit {
    pub id: String,
    pub matched_on: String,
}

/// The text of an optional column, empty where there is none.
pub open spec fn column_text(s: Option<String>) -> Seq<char> {
    match s {
        Some(t) => t@,
        None => Seq::empty(),
    }
}

/// How a regulation that was found is named: its tier, its number and its
/// year, or a question mark where no year is recorded.
pub open spec fn regulation_name(
    tier: Option<String>,
    number: Option<String>,
    year: Option<i32>,
) -> Seq<char> {
    trimmed(
        column_text(tier) + " "@ + column_text(number) + "/"@ + match year {
            Some(y) => signed_decimal(y as int),
            None => "?"@,
        },
    )
}

impl ExactHit {
    /// The hit that a row of the lookup stands for.
    pub fn of(id: String, tier: Option<String>, number: Option<String>, year: Option<i32>) -> (r:
        ExactHit)
        ensures
            r.id == id,
            r.matched_on@ == regulation_name(tier, number, year),
    {
        let mut name = String::new();
        match &tier {
            Some(t) => {
                name = t.clone();
            },
            None => {},
        }
        assert(name@ =~= column_text(tier));
        name.append(" ");
        let ghost head = name@;
        match &number {
            Some(n) => {
                name.append(n.as_str());
            },
            None => {},
        }
        assert(name@ =~= head + column_text(number));
        name.append("/");
        match year {
            Some(y) => {
                let t = show_signed(y as i64);
                name.append(t.as_str());
            },
            None => {
                name.append("?");
            },
        }
        ExactHit { id, matched_on: trim(name.as_str()) }
    }
}

/// A stored chunk as the engine sees it.
#[derive(Debug, PartialEq, Eq)]
pub struct ChunkRow {
    pub id: String,
    pub body: String,
    pub source_title: String,
    /// `None` when ingestion recorded no address. Never made up later.
    pub source_url: Option<String>,
    pub chapter: Option<String>,
    pub article: Option<String>,
    pub regulation_type: Option<String>,
    pub regulation_number: Option<String>,
    pub year: Option<i32>,
    /// What the instrument is about.
    pub about: Option<String>,
    pub truncated_at_source: bool,
    pub cluster_id: Option<i32>,
}

impl ChunkRow {
    /// Whether this result can be double-checked by a human.
    pub fn provenance_complete(&self) -> (r: bool)
        ensures
            r == (self.source_url is Some),
    {
        self.source_url.is_some()
    }
}

/// Which regulation a candidate belongs to: the key that sibling expansion
/// walks. All three parts, since number and year alone are not unique.
#[derive(Debug, Clone, Copy, PartialEq, Eq)]
pub struct SiblingKey<'a> {
    pub regulation_type: &'a str,
    pub regulation_number: &'a str,
    pub year: Option<i32>,
}

/// A regulation, as what its key says.
pub ghost struct Regulation {
    pub regulation_type: Seq<char>,
    pub regulation_number: Seq<char>,
    pub year: Option<i32>,
}

impl<'a> SiblingKey<'a> {
    pub open spec fn view(self) -> Regulation {
        Regulation {
            regulation_type: self.regulation_type@,
            regulation_number: self.regulation_number@,
            year: self.year,
        }
    }

    /// The key of a row, or `None` when it does not carry enough identity to
    /// walk from.
    pub fn of(row: &'a ChunkRow) -> (r: Option<SiblingKey<'a>>)
        ensures
            match r {
                Some(k) => regulation_of(*row) == Some(k@),
                None => regulation_of(*row) is None,
            },
    {
        match (&row.regulation_type, &row.regulation_number) {
            (Some(t), Some(n)) => Some(
                SiblingKey {
                    regulation_type: t.as_str(),
                    regulation_number: n.as_str(),
                    year: row.year,
                },
            ),
            _ => None,
        }
    }

    /// Whether two keys name the same regulation.
    pub fn same_as(&self, other: &SiblingKey<'_>) -> (r: bool)
        ensures
            r == (self@ == other@),
    {
        let equal_year = match (self.year, other.year) {
            (Some(a), Some(b)) => a == b,
            (None, None) => true,
            _ => false,
        };
        same(self.regulation_type, other.regulation_type) && same(
            self.regulation_number,
            other.regulation_number,
        ) && equal_year
    }
}

/// The regulation that a row belongs to, where it records enough to tell.
pub open spec fn regulation_of(row: ChunkRow) -> Option<Regulation> {
    match (row.regulation_type, row.regulation_number) {
        (Some(t), Some(n)) => Some(
            Regulation { regulation_type: t@, regulation_number: n@, year: row.year },
        ),
        _ => None,
    }
}

/// Settled hits stand by descending score in the total order, ties by id; they
/// are some of those that arrived, each once, and none that was cut off belongs
/// before one that was kept.
pub proof fn settled_hits_stand_by_score(rows: Seq<Scored>, k: i64) -> (p: Seq<int>)
    ensures
        ({
            let r = first(arranged(rows), limit(k));
            &&& is_shuffle(p, rows.len())
            &&& 0 <= k < rows.len() <= usize::MAX ==> r.len() == k
            &&& k < 0 && rows.len() <= usize::MAX ==> r.len() == rows.len()
            &&& r.len() <= rows.len()
            &&& k >= rows.len() && rows.len() <= usize::MAX ==> r.len() == rows.len()
            &&& forall|i: int| 0 <= i < r.len() ==> r[i] == rows[#[trigger] p[i]]
            &&& forall|i: int, j: int|
                #![trigger p[i], p[j]]
                0 <= i < j < p.len() ==> rows[p[i]].score.total_rank() > rows[p[j]].score.total_rank()
                    || (rows[p[i]].score.total_rank() == rows[p[j]].score.total_rank()
                    && !text_before(rows[p[j]].id@, rows[p[i]].id@))
        }),
{
    let p = crate::order::arranging_is_stable(rows);
    crate::order::arranging_orders(rows);
    crate::order::arranging_keeps_elements(rows);
    let t = arranged(rows);
    assert forall|i: int, j: int|
        #![trigger p[i], p[j]]
        0 <= i < j < p.len() implies rows[p[i]].score.total_rank() > rows[p[j]].score.total_rank()
        || (rows[p[i]].score.total_rank() == rows[p[j]].score.total_rank() && !text_before(
        rows[p[j]].id@,
        rows[p[i]].id@,
    )) by {
        assert(t[i] == rows[p[i]] && t[j] == rows[p[j]]);
        assert(!t[j].ahead(&t[i]));
    }
    p
}

/// A row belongs to a regulation where it records both a type and a number, and
/// then to the one of its type, its number and its year.
pub proof fn a_row_belongs_to_the_regulation_it_records(row: ChunkRow)
    ensures
        regulation_of(row) is Some <==> row.regulation_type is Some && row.regulation_number is Some,
        regulation_of(row) is Some ==> (regulation_of(row)->0).regulation_type
            == row.regulation_type->0@ && (regulation_of(row)->0).regulation_number
            == row.regulation_number->0@ && (regulation_of(row)->0).year == row.year,
{
}

/// A regulation with a tier is named by its tier, its number and its year, with
/// a question mark for a year that is not recorded.
pub proof fn a_regulation_is_named_by_its_parts(tier: String, number: String, year: i32)
    requires
        tier@.len() > 0,
        !is_space(tier@[0]),
    ensures
        regulation_name(Some(tier), Some(number), None) == tier@ + seq![' '] + number@ + seq!['/', '?'],
        year >= 0 ==> regulation_name(Some(tier), Some(number), Some(year)) == tier@ + seq![' ']
            + number@ + seq!['/'] + decimal(year as nat),
{
    reveal_strlit(" ");
    reveal_strlit("/");
    reveal_strlit("?");
    assert(" "@ =~= seq![' ']);
    assert("/"@ =~= seq!['/']);
    assert("?"@ =~= seq!['?']);
    let a = tier@ + " "@ + number@ + "/"@ + "?"@;
    assert(a[0] == tier@[0] && a.last() == '?');
    assert(trim_start(a) == a);
    assert(trim_end(a) == a);
    assert(a =~= tier@ + seq![' '] + number@ + seq!['/', '?']);
    if year >= 0 {
        let d = decimal(year as nat);
        decimal_reads_back(year as nat);
        let b = tier@ + " "@ + number@ + "/"@ + d;
        assert(is_digit(d[d.len() - 1]));
        assert(b[0] == tier@[0] && b.last() == d.last());
        assert(trim_start(b) == b);
        assert(trim_end(b) == b);
    }
}

} // verus!
