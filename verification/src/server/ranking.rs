//! From what the arms returned to an ordered list of candidates.
//!
//! A candidate points into the rows that were read for a request. The numbers
//! that a candidate is ranked by are formed by the caller; what is kept, in
//! which order, and what is said about it are decided here.

use vstd::prelude::*;
use vstd::string::*;

use crate::engine::factors::{after_floor, floor_acts, floor_applies, is_shuffle, is_span, keep_covered, rank_by_score, ranking_puts_the_best_first, year_span, Composition, Facets, Weighed};
use crate::engine::routing::first;
use crate::order::{arranged, picks, picks_one_more};
use crate::retrieval::fusion::{arm_views, Arm, ArmView, Fused};
use crate::score::Score;
use crate::contract::options::FactorWeights;
use crate::store::search::{regulation_of, ChunkRow, Regulation, Scored, SiblingKey};
use crate::text::{bytes_upto, chars_of, decimal, same, show, texts, utf8_len};

verus! {

// ---------------------------------------------------------------------------
// The dense arm
// ---------------------------------------------------------------------------

/// A list cut into pieces of `size`, the last one shorter where it must be,
/// from the `i`-th element on.
pub open spec fn windows_from(ids: Seq<i32>, size: nat, i: int) -> Seq<Seq<i32>>
    decreases ids.len() - i,
{
    if i >= ids.len() || i < 0 || size == 0 {
        Seq::empty()
    } else if i + size >= ids.len() {
        seq![ids.subrange(i, ids.len() as int)]
    } else {
        seq![ids.subrange(i, i + size)] + windows_from(ids, size, i + size)
    }
}

/// The windows, as what they hold.
pub open spec fn window_views(v: Seq<Vec<i32>>) -> Seq<Seq<i32>> {
    v.map_values(|w: Vec<i32>| w@)
}

/// A batch size that a loop can advance by.
pub open spec fn batch_of(batch: usize) -> nat {
    if batch == 0 {
        1
    } else {
        batch as nat
    }
}

/// The probed clusters in batches: one statement each.
pub fn windows(ids: &Vec<i32>, batch: usize) -> (r: Vec<Vec<i32>>)
    ensures
        window_views(r@) == windows_from(ids@, batch_of(batch), 0),
{
    let size: usize = if batch == 0 {
        1
    } else {
        batch
    };
    let n = ids.len();
    let mut out: Vec<Vec<i32>> = Vec::new();
    let mut i: usize = 0;
    let ghost all = windows_from(ids@, size as nat, 0);
    assert(window_views(out@) + all =~= all);
    while i < n
        invariant
            i <= n,
            n == ids@.len(),
            size > 0,
            all == windows_from(ids@, size as nat, 0),
            window_views(out@) + windows_from(ids@, size as nat, i as int) == all,
        decreases n - i,
    {
        let end: usize = if size >= n - i {
            n
        } else {
            i + size
        };
        let mut w: Vec<i32> = Vec::new();
        let mut k: usize = i;
        while k < end
            invariant
                i <= k <= end,
                end <= ids@.len(),
                w@ == ids@.subrange(i as int, k as int),
            decreases end - k,
        {
            w.push(ids[k]);
            assert(w@ =~= ids@.subrange(i as int, k + 1));
            k = k + 1;
        }
        let ghost before = window_views(out@);
        let ghost piece = w@;
        out.push(w);
        assert(window_views(out@) =~= before.push(piece));
        assert(windows_from(ids@, size as nat, i as int) =~= seq![piece] + windows_from(
            ids@,
            size as nat,
            end as int,
        ));
        assert(before.push(piece) + windows_from(ids@, size as nat, end as int) =~= before + (seq![
            piece,
        ] + windows_from(ids@, size as nat, end as int)));
        i = end;
    }
    assert(window_views(out@) =~= all);
    out
}

/// The elements of lists, one list after the other.
pub open spec fn concat<T>(lists: Seq<Seq<T>>) -> Seq<T>
    decreases lists.len(),
{
    if lists.len() == 0 {
        Seq::empty()
    } else {
        lists[0] + concat(lists.skip(1))
    }
}

/// Batching asks for every probed cluster once, in order, whatever the batch
/// size, and never for more than a batch at a time.
pub proof fn windows_cover_every_cluster_once(ids: Seq<i32>, size: nat, i: int)
    requires
        size > 0,
        0 <= i <= ids.len(),
    ensures
        concat(windows_from(ids, size, i)) == ids.skip(i),
        forall|k: int|
            0 <= k < windows_from(ids, size, i).len() ==> 0 < (#[trigger] windows_from(
                ids,
                size,
                i,
            )[k]).len() <= size,
    decreases ids.len() - i,
{
    let w = windows_from(ids, size, i);
    if i >= ids.len() {
        assert(ids.skip(i) =~= Seq::<i32>::empty());
    } else if i + size >= ids.len() {
        assert(w.skip(1) =~= Seq::<Seq<i32>>::empty());
        assert(concat(w.skip(1)) =~= Seq::<i32>::empty());
        assert(concat(w) =~= ids.skip(i));
    } else {
        windows_cover_every_cluster_once(ids, size, i + size);
        let rest = windows_from(ids, size, i + size);
        assert(w.skip(1) =~= rest);
        assert(concat(w) =~= ids.skip(i));
        assert forall|k: int| 0 <= k < w.len() implies 0 < (#[trigger] w[k]).len() <= size by {
            if k > 0 {
                assert(w[k] == rest[k - 1]);
            }
        }
    }
}

/// The budget of a window: what one cluster is allowed, times the clusters in
/// it, within the range of a machine number. One limit serves the whole window,
/// so the figure of a single cluster would make batching change results.
pub open spec fn budget_of(per_cluster_k: i64, clusters: nat) -> int {
    let product = per_cluster_k * clusters;
    if product > i64::MAX {
        i64::MAX as int
    } else if product < i64::MIN {
        i64::MIN as int
    } else {
        product
    }
}

/// The budget of a window. A product that is out of range is held at the end of
/// the range.
pub fn window_limit(per_cluster_k: i64, clusters: usize) -> (r: i64)
    ensures
        r == budget_of(per_cluster_k, clusters as nat),
{
    let k: i128 = per_cluster_k as i128;
    let n: i128 = clusters as i128;
    assert(-0x8000_0000_0000_0000_0000_0000_0000_0000 <= k * n
        <= 0x7fff_ffff_ffff_ffff_ffff_ffff_ffff_ffff) by (nonlinear_arith)
        requires
            -0x8000_0000_0000_0000 <= k <= 0x7fff_ffff_ffff_ffff,
            0 <= n <= 0xffff_ffff_ffff_ffff,
    ;
    let product: i128 = k * n;
    if product > 0x7fff_ffff_ffff_ffff {
        i64::MAX
    } else if product < -0x8000_0000_0000_0000 {
        i64::MIN
    } else {
        product as i64
    }
}

/// The hits of an arm, each with the score it is ranked by.
pub open spec fn weighed(v: Seq<Scored>) -> Seq<Weighed<Scored>> {
    v.map_values(|s: Scored| Weighed { score: s.score, item: s })
}

/// Hits by descending score. Ties keep the incoming order.
pub open spec fn by_score(v: Seq<Scored>) -> Seq<Scored> {
    arranged(weighed(v)).map_values(|w: Weighed<Scored>| w.item)
}

/// How many hits an arm keeps.
pub open spec fn arm_limit(per_arm_k: i64) -> nat {
    if 0 <= per_arm_k <= usize::MAX {
        per_arm_k as nat
    } else {
        20
    }
}

/// The windows' hits, as what they hold.
pub open spec fn hit_lists(v: Seq<Vec<Scored>>) -> Seq<Seq<Scored>> {
    v.map_values(|w: Vec<Scored>| w@)
}

/// Merges what the windows returned: best score first, cut to the arm's limit.
pub fn merge_windows(found: Vec<Vec<Scored>>, per_arm_k: i64) -> (r: Vec<Scored>)
    ensures
        r@ == first(by_score(concat(hit_lists(found@))), arm_limit(per_arm_k)),
{
    let ghost lists = hit_lists(found@);
    let mut rest = found;
    assert(weighed(concat(Seq::<Seq<Scored>>::empty())) =~= Seq::<Weighed<Scored>>::empty());
    assert(lists.take(0) =~= Seq::<Seq<Scored>>::empty());
    let mut all: Vec<Weighed<Scored>> = Vec::new();
    while rest.len() > 0
        invariant
            lists.len() >= rest@.len(),
            hit_lists(rest@) == lists.take(rest@.len() as int),
            all@ == weighed(concat(lists.skip(rest@.len() as int))),
        decreases rest@.len(),
    {
        let ghost n = rest@.len() as int;
        match rest.pop() {
            Some(window) => {
                let ghost w = window@;
                assert(w == lists.take(n)[n - 1]);
                assert(hit_lists(rest@) =~= lists.take(n - 1));
                let ghost tail = concat(lists.skip(n));
                let mut hits = window;
                while hits.len() > 0
                    invariant
                        hits@ == w.take(hits@.len() as int),
                        hits@.len() <= w.len(),
                        all@ == weighed(w.skip(hits@.len() as int) + tail),
                    decreases hits@.len(),
                {
                    let ghost m = hits@.len() as int;
                    match hits.pop() {
                        Some(s) => {
                            let score = s.score;
                            all.insert(0, Weighed { score, item: s });
                            assert(hits@ =~= w.take(m - 1));
                            assert(all@ =~= weighed(w.skip(m - 1) + tail));
                        },
                        None => {},
                    }
                }
                assert(w.skip(0) =~= w);
                assert(lists.skip(n - 1)[0] == w);
                assert(lists.skip(n - 1).skip(1) =~= lists.skip(n));
            },
            None => {},
        }
    }
    assert(lists.skip(0) =~= lists);
    let mut sorted = rank_by_score(all);
    let ghost order = sorted@;
    let n: usize = if per_arm_k >= 0 && per_arm_k as u64 <= usize::MAX as u64 {
        per_arm_k as usize
    } else {
        20
    };
    sorted.truncate(n);
    let ghost cut = sorted@;
    assert(cut =~= first(order, n as nat));
    let mut out: Vec<Scored> = Vec::new();
    while sorted.len() > 0
        invariant
            sorted@ == cut.take(sorted@.len() as int),
            sorted@.len() <= cut.len(),
            out@ == cut.map_values(|w: Weighed<Scored>| w.item).skip(sorted@.len() as int),
        decreases sorted@.len(),
    {
        let ghost m = sorted@.len() as int;
        match sorted.pop() {
            Some(w) => {
                out.insert(0, w.item);
                assert(sorted@ =~= cut.take(m - 1));
                assert(out@ =~= cut.map_values(|w: Weighed<Scored>| w.item).skip(m - 1));
            },
            None => {},
        }
    }
    assert(out@ =~= first(by_score(concat(lists)), arm_limit(per_arm_k)));
    out
}

// ---------------------------------------------------------------------------
// Fusion
// ---------------------------------------------------------------------------

/// The ids of hits, in order.
pub open spec fn hit_ids(v: Seq<Scored>) -> Seq<Seq<char>> {
    v.map_values(|s: Scored| s.id@)
}

/// The ids of the first `n` hits, in order.
pub fn leading_ids(v: &Vec<Scored>, n: usize) -> (r: Vec<String>)
    ensures
        texts(r@) == hit_ids(first(v@, n as nat)),
{
    let mut out: Vec<String> = Vec::new();
    let mut i: usize = 0;
    while i < v.len() && i < n
        invariant
            i <= v@.len(),
            i <= n,
            out@.len() == i,
            forall|k: int| 0 <= k < i ==> (#[trigger] out@[k])@ == v@[k].id@,
        decreases v@.len() - i,
    {
        out.push(v[i].id.clone());
        i = i + 1;
    }
    assert(texts(out@) =~= hit_ids(first(v@, n as nat)));
    out
}

/// The arms that are fused, as what they say.
pub open spec fn arms_of(
    dense: Seq<Seq<char>>,
    sparse: Seq<Seq<char>>,
    text: Seq<Seq<char>>,
    weights: (Score, Score, Score),
) -> Seq<ArmView> {
    seq![
        ArmView { name: "dense"@, ids: dense, weight: weights.0 },
        ArmView { name: "sparse"@, ids: sparse, weight: weights.1 },
        ArmView { name: "text"@, ids: text, weight: weights.2 },
    ]
}

/// The arms that are fused: dense, sparse, text.
pub fn three_arms<'a>(
    dense: &'a Vec<String>,
    sparse: &'a Vec<String>,
    text: &'a Vec<String>,
    weights: (Score, Score, Score),
) -> (r: Vec<Arm<'a>>)
    ensures
        arm_views(r@) == arms_of(texts(dense@), texts(sparse@), texts(text@), weights),
{
    let arms = vec![
        Arm { name: "dense", ids: dense, weight: weights.0 },
        Arm { name: "sparse", ids: sparse, weight: weights.1 },
        Arm { name: "text", ids: text, weight: weights.2 },
    ];
    assert(arm_views(arms@) =~= arms_of(texts(dense@), texts(sparse@), texts(text@), weights));
    arms
}

/// The pool: the first `n` fused candidates. The cut to the number of results
/// comes after scoring, so that what stands further down can be promoted.
pub fn pool_of(fused: Vec<Fused>, n: usize) -> (r: Vec<Fused>)
    ensures
        r@ == first(fused@, n as nat),
{
    let mut r = fused;
    let ghost all = r@;
    r.truncate(n);
    assert(r@ =~= first(all, n as nat));
    r
}

/// The ids of a pool, in order.
pub fn pool_ids(pool: &Vec<Fused>) -> (r: Vec<String>)
    ensures
        texts(r@) == pool@.map_values(|f: Fused| f.id@),
{
    let mut out: Vec<String> = Vec::new();
    let mut i: usize = 0;
    while i < pool.len()
        invariant
            i <= pool@.len(),
            out@.len() == i,
            forall|k: int| 0 <= k < i ==> (#[trigger] out@[k])@ == pool@[k].id@,
        decreases pool@.len() - i,
    {
        out.push(pool[i].id.clone());
        i = i + 1;
    }
    assert(texts(out@) =~= pool@.map_values(|f: Fused| f.id@));
    out
}

// ---------------------------------------------------------------------------
// Candidates
// ---------------------------------------------------------------------------

/// One candidate on its way to being ranked.
#[derive(Debug, Clone, Copy, PartialEq)]
pub struct Candidate {
    /// Its place among the rows that were read.
    pub row: usize,
    /// The retrieval score that the factor prior multiplies.
    pub relevance: Score,
    /// The place of its seed, when it was expanded rather than retrieved.
    pub expanded_from: Option<usize>,
}

/// Whether candidates point into `n` rows.
pub open spec fn point_into(v: Seq<Candidate>, n: nat) -> bool {
    forall|i: int|
        0 <= i < v.len() ==> (#[trigger] v[i]).row < n && match v[i].expanded_from {
            Some(seed) => seed < n,
            None => true,
        }
}

/// The place of the first row with that id, from the `i`-th on.
pub open spec fn row_from(rows: Seq<ChunkRow>, id: Seq<char>, i: int) -> Option<int>
    decreases rows.len() - i,
{
    if i >= rows.len() {
        None
    } else if rows[i].id@ == id {
        Some(i)
    } else {
        row_from(rows, id, i + 1)
    }
}

fn find_row(rows: &Vec<ChunkRow>, id: &str) -> (r: Option<usize>)
    ensures
        match r {
            Some(i) => i < rows@.len() && row_from(rows@, id@, 0) == Some(i as int),
            None => row_from(rows@, id@, 0) is None,
        },
{
    let mut i: usize = 0;
    while i < rows.len()
        invariant
            i <= rows@.len(),
            row_from(rows@, id@, 0) == row_from(rows@, id@, i as int),
        decreases rows@.len() - i,
    {
        if same(rows[i].id.as_str(), id) {
            return Some(i);
        }
        i = i + 1;
    }
    None
}

/// The first `n` of a pool, each with its row; one whose row is missing is
/// dropped rather than ranked blind.
pub open spec fn paired_upto(pool: Seq<Fused>, rows: Seq<ChunkRow>, n: int) -> Seq<Candidate>
    decreases n,
{
    if n <= 0 {
        Seq::empty()
    } else {
        let before = paired_upto(pool, rows, n - 1);
        match row_from(rows, pool[n - 1].id@, 0) {
            Some(i) => before.push(
                Candidate {
                    row: i as usize,
                    relevance: pool[n - 1].score,
                    expanded_from: None,
                },
            ),
            None => before,
        }
    }
}

/// Pairs each candidate of the pool with its row, in fused order.
pub fn pair(pool: &Vec<Fused>, rows: &Vec<ChunkRow>) -> (r: Vec<Candidate>)
    ensures
        r@ == paired_upto(pool@, rows@, pool@.len() as int),
        point_into(r@, rows@.len()),
        r@.len() <= pool@.len(),
{
    let mut out: Vec<Candidate> = Vec::new();
    let mut i: usize = 0;
    while i < pool.len()
        invariant
            i <= pool@.len(),
            out@ == paired_upto(pool@, rows@, i as int),
            point_into(out@, rows@.len()),
            out@.len() <= i,
        decreases pool@.len() - i,
    {
        match find_row(rows, pool[i].id.as_str()) {
            Some(row) => {
                out.push(Candidate { row, relevance: pool[i].score, expanded_from: None });
            },
            None => {},
        }
        i = i + 1;
    }
    out
}

// ---------------------------------------------------------------------------
// Factors
// ---------------------------------------------------------------------------

/// Whether facets are those of a stored row. Rows carry no enrichment values.
pub open spec fn is_facets(f: Facets<'_>, row: ChunkRow) -> bool {
    &&& match row.regulation_type {
        Some(t) => f.regulation_type is Some && (f.regulation_type->0)@ == t@,
        None => f.regulation_type is None,
    }
    &&& match row.article {
        Some(t) => f.article is Some && (f.article->0)@ == t@,
        None => f.article is None,
    }
    &&& match row.chapter {
        Some(t) => f.chapter is Some && (f.chapter->0)@ == t@,
        None => f.chapter is None,
    }
    &&& f.year == row.year
    &&& match row.about {
        Some(t) => f.about is Some && (f.about->0)@ == t@,
        None => f.about is None,
    }
    &&& f.body is Some && (f.body->0)@ == row.body@
    &&& f.body_len == if utf8_len(row.body@) > usize::MAX {
        usize::MAX as nat
    } else {
        utf8_len(row.body@)
    }
    &&& f.numbers@.len() == 0
    &&& f.strings@.len() == 0
}

/// What a row tells the factors.
pub fn facets_of(row: &ChunkRow) -> (r: Facets<'_>)
    ensures
        is_facets(r, *row),
{
    let v = chars_of(row.body.as_str());
    let bytes = bytes_upto(&v, v.len());
    assert(v@.take(v@.len() as int) =~= row.body@);
    let body_len: usize = if bytes > usize::MAX as u128 {
        usize::MAX
    } else {
        bytes as usize
    };
    Facets {
        regulation_type: match &row.regulation_type {
            Some(t) => Some(t.as_str()),
            None => None,
        },
        article: match &row.article {
            Some(t) => Some(t.as_str()),
            None => None,
        },
        chapter: match &row.chapter {
            Some(t) => Some(t.as_str()),
            None => None,
        },
        year: row.year,
        about: match &row.about {
            Some(t) => Some(t.as_str()),
            None => None,
        },
        body: Some(row.body.as_str()),
        body_len,
        numbers: Vec::new(),
        strings: Vec::new(),
    }
}

/// The relevance floor of a request. Where the query names a regulation the
/// floor is off: the name is the relevance signal, and clause bodies do not
/// repeat it.
pub open spec fn request_floor(w: FactorWeights, apply_floor: bool) -> Score {
    if apply_floor {
        w.relevance_floor
    } else {
        Score { bits: 0 }
    }
}

/// What the relevance floor leaves of a pool, given what share of the query
/// each candidate covers. A composition that does nothing leaves it alone.
pub open spec fn floored(
    pool: Seq<Candidate>,
    coverages: Seq<Score>,
    c: Composition,
    terms: Seq<Seq<char>>,
) -> Seq<Candidate> {
    if !c.inert() && floor_acts(c.relevance_floor, terms) {
        after_floor(pool, coverages, c.relevance_floor)
    } else {
        pool
    }
}

/// Applies the relevance floor of a request. The floor runs first, and it
/// removes candidates.
pub fn floor_pool(
    pool: &Vec<Candidate>,
    coverages: &Vec<Score>,
    c: &Composition,
    terms: &Vec<String>,
) -> (r: Vec<Candidate>)
    requires
        coverages@.len() == pool@.len(),
    ensures
        r@ == floored(pool@, coverages@, *c, texts(terms@)),
{
    if !c.is_inert() && floor_applies(c.relevance_floor, terms) {
        keep_covered(pool, coverages, c.relevance_floor)
    } else {
        let mut out: Vec<Candidate> = Vec::new();
        let mut i: usize = 0;
        while i < pool.len()
            invariant
                i <= pool@.len(),
                out@ == pool@.take(i as int),
            decreases pool@.len() - i,
        {
            out.push(pool[i]);
            assert(out@ =~= pool@.take(i + 1));
            i = i + 1;
        }
        assert(out@ =~= pool@);
        out
    }
}

/// The years of candidates.
pub open spec fn years_of(pool: Seq<Candidate>, rows: Seq<ChunkRow>) -> Seq<Option<i32>> {
    pool.map_values(|c: Candidate| rows[c.row as int].year)
}

/// The span of years of the candidates that are ranked.
pub fn span_of(pool: &Vec<Candidate>, rows: &Vec<ChunkRow>) -> (r: (i32, i32))
    requires
        point_into(pool@, rows@.len()),
    ensures
        is_span(years_of(pool@, rows@), r.0, r.1),
{
    let mut years: Vec<Option<i32>> = Vec::new();
    let mut i: usize = 0;
    while i < pool.len()
        invariant
            i <= pool@.len(),
            point_into(pool@, rows@.len()),
            years@ == years_of(pool@, rows@).take(i as int),
        decreases pool@.len() - i,
    {
        years.push(rows[pool[i].row].year);
        assert(years@ =~= years_of(pool@, rows@).take(i + 1));
        i = i + 1;
    }
    assert(years@ =~= years_of(pool@, rows@));
    year_span(&years)
}

/// Candidates, each with the number it is ranked by.
pub open spec fn with_scores(pool: Seq<Candidate>, scores: Seq<Score>) -> Seq<Weighed<Candidate>> {
    Seq::new(pool.len(), |i: int| Weighed { score: scores[i], item: pool[i] })
}

/// Candidates by descending score. Ties keep the incoming order.
pub open spec fn reordered(pool: Seq<Candidate>, scores: Seq<Score>) -> Seq<Candidate> {
    arranged(with_scores(pool, scores)).map_values(|w: Weighed<Candidate>| w.item)
}

/// Reorders a pool on the final scores. A composition that does nothing leaves
/// it alone.
pub fn reorder(pool: &Vec<Candidate>, scores: &Vec<Score>, c: &Composition) -> (r: Vec<Candidate>)
    requires
        scores@.len() == pool@.len(),
    ensures
        r@ == if c.inert() {
            pool@
        } else {
            reordered(pool@, scores@)
        },
{
    let off = c.is_inert();
    let mut list: Vec<Weighed<Candidate>> = Vec::new();
    let mut i: usize = 0;
    while i < pool.len()
        invariant
            i <= pool@.len(),
            scores@.len() == pool@.len(),
            list@ == with_scores(pool@, scores@).take(i as int),
        decreases pool@.len() - i,
    {
        list.push(Weighed { score: scores[i], item: pool[i] });
        assert(list@ =~= with_scores(pool@, scores@).take(i + 1));
        i = i + 1;
    }
    assert(list@ =~= with_scores(pool@, scores@));
    let sorted = if off {
        list
    } else {
        rank_by_score(list)
    };
    let mut out: Vec<Candidate> = Vec::new();
    let mut k: usize = 0;
    while k < sorted.len()
        invariant
            k <= sorted@.len(),
            out@ == sorted@.map_values(|w: Weighed<Candidate>| w.item).take(k as int),
        decreases sorted@.len() - k,
    {
        out.push(sorted[k].item);
        assert(out@ =~= sorted@.map_values(|w: Weighed<Candidate>| w.item).take(k + 1));
        k = k + 1;
    }
    assert(out@ =~= sorted@.map_values(|w: Weighed<Candidate>| w.item));
    if off {
        assert(out@ =~= pool@);
    }
    out
}

/// Without a floor the factors reorder and never filter: what comes out is
/// what went in.
pub proof fn factors_without_a_floor_only_reorder(
    pool: Seq<Candidate>,
    coverages: Seq<Score>,
    scores: Seq<Score>,
    c: Composition,
    terms: Seq<Seq<char>>,
)
    requires
        !floor_acts(c.relevance_floor, terms),
        scores.len() == pool.len(),
    ensures
        floored(pool, coverages, c, terms) == pool,
        reordered(pool, scores).to_multiset() == pool.to_multiset(),
{
    let s = with_scores(pool, scores);
    crate::order::arranging_keeps_elements(s);
    let item = |w: Weighed<Candidate>| w.item;
    same_elements_map(s, arranged(s), item);
    assert(s.map_values(item) =~= pool);
    assert(reordered(pool, scores) =~= arranged(s).map_values(item));
}

proof fn same_elements_map<A, B>(a: Seq<A>, b: Seq<A>, f: spec_fn(A) -> B)
    requires
        a.to_multiset() == b.to_multiset(),
    ensures
        a.map_values(f).to_multiset() == b.map_values(f).to_multiset(),
    decreases a.len(),
{
    broadcast use vstd::seq_lib::group_to_multiset_ensures;

    if a.len() == 0 {
        assert(a.to_multiset().len() == 0);
        assert(b.to_multiset().len() == 0);
        assert(b.len() == 0);
        assert(a.map_values(f) =~= b.map_values(f));
    } else {
        let x = a[0];
        assert(a.to_multiset().count(x) > 0);
        assert(b.to_multiset().count(x) > 0);
        let k = b.index_of(x);
        let rest = b.remove(k);
        let tail = a.remove(0);
        assert(tail.to_multiset() =~= a.to_multiset().remove(x));
        assert(rest.to_multiset() =~= b.to_multiset().remove(x));
        same_elements_map(tail, rest, f);
        assert(a.map_values(f).remove(0) =~= tail.map_values(f));
        assert(b.map_values(f).remove(k) =~= rest.map_values(f));
        let fa = a.map_values(f);
        let fb = b.map_values(f);
        assert(fa.remove(0).to_multiset() =~= fa.to_multiset().remove(fa[0]));
        assert(fb.remove(k).to_multiset() =~= fb.to_multiset().remove(fb[k]));
        assert(fa.to_multiset().count(fa[0]) > 0);
        assert(fb.to_multiset().count(fb[k]) > 0);
        assert(fa.to_multiset() =~= fa.to_multiset().remove(fa[0]).insert(fa[0]));
        assert(fb.to_multiset() =~= fb.to_multiset().remove(fb[k]).insert(fb[k]));
    }
}

/// What is said of a reordering.
pub open spec fn factor_notes(
    before: Seq<Candidate>,
    after: Seq<Candidate>,
    rows: Seq<ChunkRow>,
    apply_floor: bool,
) -> Seq<Seq<char>> {
    (if apply_floor {
        Seq::empty()
    } else {
        seq!["relevance floor skipped · the query names a regulation"@]
    }) + (if after.len() < before.len() {
        seq![
            "relevance floor dropped "@ + decimal((before.len() - after.len()) as nat) + " of "@
                + decimal(before.len()) + " candidates"@,
        ]
    } else {
        Seq::empty()
    }) + (if before.len() > 0 && after.len() > 0 && rows[after[0].row as int].id@
        != rows[before[0].row as int].id@ {
        seq![
            "factors promoted "@ + rows[after[0].row as int].id@ + " over "@
                + rows[before[0].row as int].id@,
        ]
    } else {
        Seq::empty()
    })
}

/// What is said of a reordering: one the caller cannot see is one they cannot
/// check.
pub fn notes_of_factors(
    before: &Vec<Candidate>,
    after: &Vec<Candidate>,
    rows: &Vec<ChunkRow>,
    apply_floor: bool,
) -> (r: Vec<String>)
    requires
        point_into(before@, rows@.len()),
        point_into(after@, rows@.len()),
    ensures
        texts(r@) == factor_notes(before@, after@, rows@, apply_floor),
{
    let mut out: Vec<String> = Vec::new();
    assert(texts(out@) =~= Seq::<Seq<char>>::empty());
    if !apply_floor {
        out.push("relevance floor skipped · the query names a regulation".to_owned());
    }
    assert(texts(out@) =~= if apply_floor {
        Seq::empty()
    } else {
        seq!["relevance floor skipped · the query names a regulation"@]
    });
    let ghost one = texts(out@);
    let n = before.len();
    let m = after.len();
    if m < n {
        let mut s = "relevance floor dropped ".to_owned();
        let dropped = show((n - m) as u64);
        s.append(dropped.as_str());
        s.append(" of ");
        let of = show(n as u64);
        s.append(of.as_str());
        s.append(" candidates");
        out.push(s);
        assert(texts(out@) =~= one.push(
            "relevance floor dropped "@ + decimal((n - m) as nat) + " of "@ + decimal(n as nat)
                + " candidates"@,
        ));
    }
    let ghost two = texts(out@);
    if n > 0 && m > 0 && !same(rows[after[0].row].id.as_str(), rows[before[0].row].id.as_str()) {
        let mut s = "factors promoted ".to_owned();
        s.append(rows[after[0].row].id.as_str());
        s.append(" over ");
        s.append(rows[before[0].row].id.as_str());
        out.push(s);
        assert(texts(out@) =~= two.push(
            "factors promoted "@ + rows@[after@[0].row as int].id@ + " over "@
                + rows@[before@[0].row as int].id@,
        ));
    }
    assert(texts(out@) =~= factor_notes(before@, after@, rows@, apply_floor));
    out
}

// ---------------------------------------------------------------------------
// Expansion
// ---------------------------------------------------------------------------

/// The best relevance among the first `n` candidates, and never below zero.
pub open spec fn ceiling_upto(pool: Seq<Candidate>, n: int) -> Score
    decreases n,
{
    if n <= 0 {
        Score { bits: 0 }
    } else {
        ceiling_upto(pool, n - 1).max_spec(pool[n - 1].relevance)
    }
}

/// The best relevance that retrieval found: what an expanded candidate may not
/// exceed, since it was not found.
pub fn ceiling(pool: &Vec<Candidate>) -> (r: Score)
    ensures
        r == ceiling_upto(pool@, pool@.len() as int),
{
    let mut best = Score { bits: 0 };
    let mut i: usize = 0;
    while i < pool.len()
        invariant
            i <= pool@.len(),
            best == ceiling_upto(pool@, i as int),
        decreases pool@.len() - i,
    {
        best = best.max(pool[i].relevance);
        i = i + 1;
    }
    best
}

/// The regulation of a candidate.
pub open spec fn law_of(c: Candidate, rows: Seq<ChunkRow>) -> Option<Regulation> {
    regulation_of(rows[c.row as int])
}

/// Whether one of these places of the pool holds a candidate of a regulation.
pub open spec fn walked_law(
    places: Seq<usize>,
    pool: Seq<Candidate>,
    rows: Seq<ChunkRow>,
    law: Regulation,
) -> bool {
    exists|k: int|
        0 <= k < places.len() && law_of(pool[(#[trigger] places[k]) as int], rows) == Some(law)
}

/// The places of the first `n` candidates from which a walk starts: the first
/// of each regulation.
pub open spec fn walks_upto(pool: Seq<Candidate>, rows: Seq<ChunkRow>, n: int) -> Seq<usize>
    decreases n,
{
    if n <= 0 {
        Seq::empty()
    } else {
        let before = walks_upto(pool, rows, n - 1);
        match law_of(pool[n - 1], rows) {
            Some(law) => if walked_law(before, pool, rows, law) {
                before
            } else {
                before.push((n - 1) as usize)
            },
            None => before,
        }
    }
}

/// The lesser of two counts.
pub open spec fn lesser(a: nat, b: nat) -> nat {
    if a < b {
        a
    } else {
        b
    }
}

/// Where sibling expansion walks from: the first candidate of each regulation
/// among the leading ones. Two chunks of one law walk to the same siblings.
pub fn walks(pool: &Vec<Candidate>, rows: &Vec<ChunkRow>, seeds: usize) -> (r: Vec<usize>)
    requires
        point_into(pool@, rows@.len()),
    ensures
        r@ == walks_upto(pool@, rows@, lesser(pool@.len(), seeds as nat) as int),
        forall|k: int| 0 <= k < r@.len() ==> #[trigger] r@[k] < pool@.len(),
{
    let mut out: Vec<usize> = Vec::new();
    let mut i: usize = 0;
    while i < pool.len() && i < seeds
        invariant
            i <= pool@.len(),
            i <= seeds,
            point_into(pool@, rows@.len()),
            out@ == walks_upto(pool@, rows@, i as int),
            forall|k: int| 0 <= k < out@.len() ==> #[trigger] out@[k] < i,
        decreases pool@.len() - i,
    {
        match SiblingKey::of(&rows[pool[i].row]) {
            Some(key) => {
                let mut known = false;
                let mut k: usize = 0;
                while k < out.len()
                    invariant
                        k <= out@.len(),
                        i < pool@.len(),
                        point_into(pool@, rows@.len()),
                        forall|m: int| 0 <= m < out@.len() ==> #[trigger] out@[m] < i,
                        law_of(pool@[i as int], rows@) == Some(key@),
                        known == exists|m: int|
                            0 <= m < k && law_of(pool@[(#[trigger] out@[m]) as int], rows@) == Some(
                                key@,
                            ),
                    decreases out@.len() - k,
                {
                    assert(out@[k as int] < pool@.len());
                    match SiblingKey::of(&rows[pool[out[k]].row]) {
                        Some(other) => {
                            if other.same_as(&key) {
                                assert(law_of(pool@[out@[k as int] as int], rows@) == Some(key@));
                                known = true;
                            }
                        },
                        None => {},
                    }
                    k = k + 1;
                }
                assert(known == walked_law(out@, pool@, rows@, key@));
                if !known {
                    out.push(i);
                }
            },
            None => {},
        }
        i = i + 1;
    }
    out
}

/// The walks among the first `n` whose start accounts for some of the query.
pub open spec fn sponsors_upto(walks: Seq<usize>, evidence: Seq<Score>, n: int) -> Seq<int>
    decreases n,
{
    if n <= 0 {
        Seq::empty()
    } else if (Score { bits: 0 }).lt_spec(evidence[n - 1]) {
        sponsors_upto(walks, evidence, n - 1).push(n - 1)
    } else {
        sponsors_upto(walks, evidence, n - 1)
    }
}

/// Which of the walks may sponsor siblings, given how much of the query each
/// start accounts for. One that accounts for none of it cannot scale anything.
pub fn sponsors(walks: &Vec<usize>, evidence: &Vec<Score>) -> (r: Vec<usize>)
    requires
        evidence@.len() == walks@.len(),
    ensures
        r@.map_values(|k: usize| k as int) == sponsors_upto(
            walks@,
            evidence@,
            walks@.len() as int,
        ),
{
    let zero = Score { bits: 0 };
    let mut out: Vec<usize> = Vec::new();
    let mut i: usize = 0;
    assert(out@.map_values(|k: usize| k as int) =~= Seq::<int>::empty());
    while i < walks.len()
        invariant
            i <= walks@.len(),
            evidence@.len() == walks@.len(),
            zero == (Score { bits: 0 }),
            out@.map_values(|k: usize| k as int) == sponsors_upto(walks@, evidence@, i as int),
        decreases walks@.len() - i,
    {
        let ghost before = out@.map_values(|k: usize| k as int);
        if zero.lt(evidence[i]) {
            out.push(i);
            assert(out@.map_values(|k: usize| k as int) =~= before.push(i as int));
        }
        i = i + 1;
    }
    out
}

/// The siblings among the first `n` that are admitted: those whose own evidence
/// does not fall below the floor. `base` is the place of the first one among
/// the rows.
pub open spec fn admitted_upto(
    seed: usize,
    base: int,
    evidence: Seq<Score>,
    scaled: Seq<Score>,
    floor: Score,
    top: Score,
    n: int,
) -> Seq<Candidate>
    decreases n,
{
    if n <= 0 {
        Seq::empty()
    } else {
        let before = admitted_upto(seed, base, evidence, scaled, floor, top, n - 1);
        if evidence[n - 1].lt_spec(floor) {
            before
        } else {
            before.push(
                Candidate {
                    row: (base + n - 1) as usize,
                    relevance: scaled[n - 1].min_spec(top),
                    expanded_from: Some(seed),
                },
            )
        }
    }
}

/// Admits the siblings of one seed that are relevant on their own evidence.
/// `scaled` is the seed's relevance scaled by how much of the query a sibling
/// accounts for beside its seed; it is capped at the best that retrieval found.
pub fn admit_siblings(
    seed: usize,
    base: usize,
    evidence: &Vec<Score>,
    scaled: &Vec<Score>,
    floor: Score,
    top: Score,
) -> (r: Vec<Candidate>)
    requires
        scaled@.len() == evidence@.len(),
        base + evidence@.len() <= usize::MAX,
        seed < base,
    ensures
        r@ == admitted_upto(
            seed,
            base as int,
            evidence@,
            scaled@,
            floor,
            top,
            evidence@.len() as int,
        ),
        point_into(r@, (base + evidence@.len()) as nat),
{
    let mut out: Vec<Candidate> = Vec::new();
    let mut i: usize = 0;
    while i < evidence.len()
        invariant
            i <= evidence@.len(),
            scaled@.len() == evidence@.len(),
            base + evidence@.len() <= usize::MAX,
            seed < base,
            out@ == admitted_upto(seed, base as int, evidence@, scaled@, floor, top, i as int),
            point_into(out@, (base + evidence@.len()) as nat),
        decreases evidence@.len() - i,
    {
        if !evidence[i].lt(floor) {
            out.push(
                Candidate {
                    row: base + i,
                    relevance: scaled[i].min(top),
                    expanded_from: Some(seed),
                },
            );
        }
        i = i + 1;
    }
    out
}

/// What an expansion admits says which result it came from, and does not
/// outrank the best that retrieval found.
pub proof fn an_expanded_candidate_is_marked_and_capped(
    seed: usize,
    base: int,
    evidence: Seq<Score>,
    scaled: Seq<Score>,
    floor: Score,
    pool: Seq<Candidate>,
    n: int,
    k: int,
)
    requires
        0 <= n <= evidence.len(),
        ({
            let top = ceiling_upto(pool, pool.len() as int);
            0 <= k < admitted_upto(seed, base, evidence, scaled, floor, top, n).len()
        }),
    ensures
        ({
            let top = ceiling_upto(pool, pool.len() as int);
            let c = admitted_upto(seed, base, evidence, scaled, floor, top, n)[k];
            &&& c.expanded_from == Some(seed)
            &&& c.relevance.le_spec(top)
        }),
    decreases n,
{
    let top = ceiling_upto(pool, pool.len() as int);
    ceiling_is_a_number(pool, pool.len() as int);
    let before = admitted_upto(seed, base, evidence, scaled, floor, top, n - 1);
    if k < before.len() {
        an_expanded_candidate_is_marked_and_capped(
            seed,
            base,
            evidence,
            scaled,
            floor,
            pool,
            n - 1,
            k,
        );
    }
}

proof fn ceiling_is_a_number(pool: Seq<Candidate>, n: int)
    ensures
        !ceiling_upto(pool, n).nan(),
    decreases n,
{
    if n > 0 {
        ceiling_is_a_number(pool, n - 1);
    }
}

/// The note on an expansion, with the floor written as `shown`.
pub open spec fn expansion_note(read: nat, walked: nat, admitted: nat, shown: Seq<char>) -> Seq<
    char,
> {
    "expansion: read "@ + decimal(read) + " siblings of "@ + decimal(walked)
        + " regulations, admitted "@ + decimal(admitted) + " at evidence >= "@ + shown
}

/// The note on an expansion, with the floor written as `shown`.
pub fn note_of_expansion(read: usize, walked: usize, admitted: usize, shown: &str) -> (r: String)
    ensures
        r@ == expansion_note(read as nat, walked as nat, admitted as nat, shown@),
{
    let mut s = "expansion: read ".to_owned();
    let a = show(read as u64);
    s.append(a.as_str());
    s.append(" siblings of ");
    let b = show(walked as u64);
    s.append(b.as_str());
    s.append(" regulations, admitted ");
    let c = show(admitted as u64);
    s.append(c.as_str());
    s.append(" at evidence >= ");
    s.append(shown);
    s
}

// ---------------------------------------------------------------------------
// What the merged arm, the pool and an expansion promise
// ---------------------------------------------------------------------------

/// Lists stand one after the other as they stand: to join two groups of lists
/// is to join each, and a single list is itself.
pub proof fn joining_lists_keeps_them<T>(a: Seq<Seq<T>>, b: Seq<Seq<T>>, one: Seq<T>)
    ensures
        concat(a + b) == concat(a) + concat(b),
        concat(seq![one]) == one,
        concat(Seq::<Seq<T>>::empty()) == Seq::<T>::empty(),
    decreases a.len(),
{
    assert(seq![one].skip(1) =~= Seq::<Seq<T>>::empty());
    assert(concat(seq![one].skip(1)) =~= Seq::<T>::empty());
    assert(concat(seq![one]) =~= one);
    if a.len() == 0 {
        assert(a + b =~= b);
        assert(concat(a) + concat(b) =~= concat(b));
    } else {
        joining_lists_keeps_them(a.skip(1), b, one);
        assert((a + b).skip(1) =~= a.skip(1) + b);
        assert(concat(a + b) =~= concat(a) + concat(b));
    }
}

/// What the windows returned is merged by score: the hits are some of those the
/// windows returned, each once, by descending score, and of equal scores the
/// one that was returned first. None that was cut off has a higher score than
/// one that was kept, and none is cut off within the arm's limit.
pub proof fn merged_hits_stand_by_score(found: Seq<Seq<Scored>>, per_arm_k: i64) -> (p: Seq<int>)
    ensures
        ({
            let all = concat(found);
            let r = first(by_score(all), arm_limit(per_arm_k));
            &&& is_shuffle(p, all.len())
            &&& r.len() <= all.len()
            &&& 0 <= per_arm_k <= usize::MAX ==> r.len() == lesser(all.len(), per_arm_k as nat)
            &&& per_arm_k < 0 ==> r.len() == lesser(all.len(), 20)
            &&& forall|i: int| 0 <= i < r.len() ==> #[trigger] r[i] == all[p[i]]
            &&& forall|i: int, j: int|
                #![trigger r[i], r[j]]
                0 <= i < j < r.len() ==> r[j].score.rank() < r[i].score.rank() || (
                r[j].score.rank() == r[i].score.rank() && p[i] < p[j])
            &&& forall|i: int, m: int|
                #![trigger r[i], p[m]]
                0 <= i < r.len() <= m < p.len() ==> all[p[m]].score.rank() <= r[i].score.rank()
        }),
{
    let all = concat(found);
    let w = weighed(all);
    let p = ranking_puts_the_best_first(w);
    let sorted = by_score(all);
    let r = first(sorted, arm_limit(per_arm_k));
    assert forall|i: int| 0 <= i < sorted.len() implies #[trigger] sorted[i] == all[p[i]] by {
        assert(arranged(w)[i] == w[p[i]]);
    }
    assert forall|i: int| 0 <= i < r.len() implies #[trigger] r[i] == all[p[i]] by {
        assert(r[i] == sorted[i]);
    }
    assert forall|i: int, j: int|
        #![trigger r[i], r[j]]
        0 <= i < j < r.len() implies r[j].score.rank() < r[i].score.rank() || (
    r[j].score.rank() == r[i].score.rank() && p[i] < p[j]) by {
        assert(w[p[i]].score == all[p[i]].score && w[p[j]].score == all[p[j]].score);
    }
    assert forall|i: int, m: int|
        #![trigger r[i], p[m]]
        0 <= i < r.len() <= m < p.len() implies all[p[m]].score.rank() <= r[i].score.rank() by {
        assert(r[i] == all[p[i]]);
        assert(w[p[i]].score == all[p[i]].score && w[p[m]].score == all[p[m]].score);
    }
    p
}

/// What an expansion admits of the siblings of a seed: those whose evidence does
/// not fall below the floor, in order, each marked with the seed. `q` says which
/// sibling each is. Its relevance is its scaled relevance wherever that does not
/// exceed the ceiling, and the ceiling where it does.
pub proof fn a_sibling_stands_on_its_scaled_relevance(
    seed: usize,
    base: int,
    evidence: Seq<Score>,
    scaled: Seq<Score>,
    floor: Score,
    top: Score,
    n: int,
) -> (q: Seq<int>)
    requires
        0 <= n <= evidence.len(),
        scaled.len() == evidence.len(),
        0 <= base,
        base + evidence.len() <= usize::MAX,
    ensures
        ({
            let r = admitted_upto(seed, base, evidence, scaled, floor, top, n);
            &&& q.len() == r.len()
            &&& forall|k: int, l: int|
                #![trigger q[k], q[l]]
                0 <= k < l < q.len() ==> q[k] < q[l]
            &&& forall|k: int|
                0 <= k < q.len() ==> 0 <= #[trigger] q[k] < n && !evidence[q[k]].lt_spec(floor)
            &&& forall|i: int|
                0 <= i < n && !(#[trigger] evidence[i]).lt_spec(floor) ==> q.contains(i)
            &&& forall|k: int|
                0 <= k < r.len() ==> ({
                    let c = #[trigger] r[k];
                    &&& c.row == base + q[k]
                    &&& c.expanded_from == Some(seed)
                    &&& scaled[q[k]].le_spec(top) ==> c.relevance == scaled[q[k]]
                    &&& top.lt_spec(scaled[q[k]]) ==> c.relevance == top
                    &&& top.nan() && !scaled[q[k]].nan() ==> c.relevance == scaled[q[k]]
                    &&& scaled[q[k]].nan() ==> c.relevance == top
                })
        }),
    decreases n,
{
    if n <= 0 {
        Seq::empty()
    } else {
        let before = admitted_upto(seed, base, evidence, scaled, floor, top, n - 1);
        let q = a_sibling_stands_on_its_scaled_relevance(
            seed,
            base,
            evidence,
            scaled,
            floor,
            top,
            n - 1,
        );
        let r = admitted_upto(seed, base, evidence, scaled, floor, top, n);
        if evidence[n - 1].lt_spec(floor) {
            q
        } else {
            let t = q.push(n - 1);
            assert forall|i: int|
                0 <= i < n && !(#[trigger] evidence[i]).lt_spec(floor) implies t.contains(i) by {
                if i < n - 1 {
                    assert(q.contains(i));
                    let k = q.index_of(i);
                    assert(t[k] == i);
                } else {
                    assert(t[q.len() as int] == i);
                }
            }
            assert forall|k: int| 0 <= k < r.len() implies ({
                let c = #[trigger] r[k];
                &&& c.row == base + t[k]
                &&& c.expanded_from == Some(seed)
                &&& scaled[t[k]].le_spec(top) ==> c.relevance == scaled[t[k]]
                &&& top.lt_spec(scaled[t[k]]) ==> c.relevance == top
                &&& top.nan() && !scaled[t[k]].nan() ==> c.relevance == scaled[t[k]]
                &&& scaled[t[k]].nan() ==> c.relevance == top
            }) by {
                if k < before.len() {
                    assert(r[k] == before[k]);
                    assert(t[k] == q[k]);
                }
            }
            t
        }
    }
}

/// The ceiling of an expansion is the best relevance of the pool: no relevance
/// is above it, it is not below zero, and it is zero or one of them.
pub proof fn the_ceiling_is_the_best_of_the_pool(pool: Seq<Candidate>, n: int)
    requires
        0 <= n <= pool.len(),
    ensures
        !ceiling_upto(pool, n).nan(),
        ceiling_upto(pool, n).rank() >= 0,
        forall|i: int| 0 <= i < n ==> !ceiling_upto(pool, n).lt_spec((#[trigger] pool[i]).relevance),
        ceiling_upto(pool, n).bits == 0 || exists|i: int|
            0 <= i < n && (#[trigger] pool[i]).relevance == ceiling_upto(pool, n),
    decreases n,
{
    if n > 0 {
        the_ceiling_is_the_best_of_the_pool(pool, n - 1);
        let before = ceiling_upto(pool, n - 1);
        let after = ceiling_upto(pool, n);
        if after == before {
            if before.bits != 0 {
                let i = choose|i: int| 0 <= i < n - 1 && (#[trigger] pool[i]).relevance == before;
                assert(pool[i].relevance == after);
            }
        } else {
            assert(pool[n - 1].relevance == after);
        }
    }
}

/// Every window but the last holds a whole batch, and a batch of zero counts as
/// one.
pub proof fn windows_are_full_but_the_last(ids: Seq<i32>, batch: usize, i: int)
    requires
        0 <= i <= ids.len(),
    ensures
        batch > 0 ==> batch_of(batch) == batch,
        batch == 0 ==> batch_of(batch) == 1,
        forall|k: int|
            0 <= k < windows_from(ids, batch_of(batch), i).len() - 1 ==> (#[trigger] windows_from(
                ids,
                batch_of(batch),
                i,
            )[k]).len() == batch_of(batch),
        concat(windows_from(ids, batch_of(batch), i)) == ids.skip(i),
    decreases ids.len() - i,
{
    let size = batch_of(batch);
    windows_cover_every_cluster_once(ids, size, i);
    if i < ids.len() && i + size < ids.len() {
        windows_are_full_but_the_last(ids, batch, i + size);
        let w = windows_from(ids, size, i);
        let rest = windows_from(ids, size, i + size);
        assert forall|k: int| 0 <= k < w.len() - 1 implies (#[trigger] w[k]).len() == size by {
            if k > 0 {
                assert(w[k] == rest[k - 1]);
            }
        }
    }
}

/// The budget of a window is its clusters' budgets together: of one cluster what
/// a cluster is allowed, and of more the sum, wherever that is in range.
pub proof fn a_window_has_its_clusters_budgets(k: i64, a: nat, b: nat)
    ensures
        budget_of(k, 0) == 0,
        budget_of(k, 1) == k,
        i64::MIN <= budget_of(k, a) + budget_of(k, b) <= i64::MAX && i64::MIN < budget_of(k, a)
            < i64::MAX && i64::MIN < budget_of(k, b) < i64::MAX ==> budget_of(k, a + b)
            == budget_of(k, a) + budget_of(k, b),
        i64::MIN <= budget_of(k, a) <= i64::MAX,
        k >= 0 ==> budget_of(k, a) <= budget_of(k, a + b),
{
    assert(k * (a + b) == k * a + k * b) by (nonlinear_arith);
    assert(k * 0 == 0 && k * 1 == k);
    if k >= 0 {
        assert(k * b >= 0) by (nonlinear_arith)
            requires
                k >= 0,
                b >= 0,
        ;
    }
}

/// The row of an id is the first that has it; an id that no row has is left
/// without.
pub proof fn a_row_is_found_by_its_id(rows: Seq<ChunkRow>, id: Seq<char>, from: int)
    requires
        0 <= from <= rows.len(),
    ensures
        match row_from(rows, id, from) {
            Some(i) => from <= i < rows.len() && rows[i].id@ == id && forall|j: int|
                from <= j < i ==> (#[trigger] rows[j]).id@ != id,
            None => forall|j: int| from <= j < rows.len() ==> (#[trigger] rows[j]).id@ != id,
        },
    decreases rows.len() - from,
{
    if from < rows.len() && rows[from].id@ != id {
        a_row_is_found_by_its_id(rows, id, from + 1);
    }
}

/// The candidates of a pool keep the fused order: every fused id whose row was
/// read is a candidate, with the row that has its id and the score it was fused
/// to, and nothing else is.
pub proof fn candidates_keep_the_fused_order(pool: Seq<Fused>, rows: Seq<ChunkRow>, n: int) -> (q:
    Seq<int>)
    requires
        0 <= n <= pool.len(),
        rows.len() <= usize::MAX,
    ensures
        ({
            let r = paired_upto(pool, rows, n);
            &&& r.len() == q.len()
            &&& picks(
                q,
                n,
                |i: int| exists|m: int| 0 <= m < rows.len() && (#[trigger] rows[m]).id@ == pool[i].id@,
            )
            &&& forall|k: int|
                0 <= k < r.len() ==> (#[trigger] r[k]).row < rows.len() && rows[r[k].row as int].id@
                    == pool[q[k]].id@ && r[k].relevance == pool[q[k]].score
                    && r[k].expanded_from is None
        }),
    decreases n,
{
    let p = |i: int| exists|m: int| 0 <= m < rows.len() && (#[trigger] rows[m]).id@ == pool[i].id@;
    if n <= 0 {
        Seq::empty()
    } else {
        let q = candidates_keep_the_fused_order(pool, rows, n - 1);
        a_row_is_found_by_its_id(rows, pool[n - 1].id@, 0);
        let r = paired_upto(pool, rows, n);
        let before = paired_upto(pool, rows, n - 1);
        let t = picks_one_more(q, n - 1, p);
        match row_from(rows, pool[n - 1].id@, 0) {
            Some(m) => {
                assert(rows[m].id@ == pool[n - 1].id@);
                assert(p(n - 1));
            },
            None => {
                assert(!p(n - 1));
            },
        }
        assert forall|k: int| 0 <= k < r.len() implies (#[trigger] r[k]).row < rows.len()
            && rows[r[k].row as int].id@ == pool[t[k]].id@ && r[k].relevance == pool[t[k]].score
            && r[k].expanded_from is None by {
            if k < before.len() {
                assert(r[k] == before[k]);
                assert(t[k] == q[k]);
            }
        }
        t
    }
}

/// A reordered pool is the pool, by descending score; candidates of equal score
/// keep the order they had.
pub proof fn a_reordered_pool_stands_by_score(pool: Seq<Candidate>, scores: Seq<Score>) -> (p: Seq<int>)
    requires
        scores.len() == pool.len(),
    ensures
        is_shuffle(p, pool.len()),
        reordered(pool, scores).len() == pool.len(),
        forall|i: int| 0 <= i < p.len() ==> reordered(pool, scores)[i] == pool[#[trigger] p[i]],
        forall|i: int, j: int|
            #![trigger p[i], p[j]]
            0 <= i < j < p.len() ==> scores[p[i]].rank() > scores[p[j]].rank() || (
            scores[p[i]].rank() == scores[p[j]].rank() && p[i] < p[j]),
{
    let w = with_scores(pool, scores);
    let p = ranking_puts_the_best_first(w);
    assert forall|i: int| 0 <= i < p.len() implies reordered(pool, scores)[i]
        == pool[#[trigger] p[i]] by {
        assert(arranged(w)[i] == w[p[i]]);
    }
    assert forall|i: int, j: int|
        #![trigger p[i], p[j]]
        0 <= i < j < p.len() implies scores[p[i]].rank() > scores[p[j]].rank() || (
    scores[p[i]].rank() == scores[p[j]].rank() && p[i] < p[j]) by {
        assert(w[p[i]].score == scores[p[i]] && w[p[j]].score == scores[p[j]]);
    }
    p
}

/// An expansion walks from the first candidate of every regulation among the
/// leading ones, and from no other.
pub proof fn a_walk_starts_at_the_first_of_a_regulation(
    pool: Seq<Candidate>,
    rows: Seq<ChunkRow>,
    n: int,
)
    requires
        0 <= n <= pool.len() <= usize::MAX,
    ensures
        picks(
            walks_upto(pool, rows, n).map_values(|k: usize| k as int),
            n,
            |i: int|
                law_of(pool[i], rows) is Some && forall|j: int|
                    0 <= j < i ==> law_of(#[trigger] pool[j], rows) != law_of(pool[i], rows),
        ),
    decreases n,
{
    let p = |i: int|
        law_of(pool[i], rows) is Some && forall|j: int|
            0 <= j < i ==> law_of(#[trigger] pool[j], rows) != law_of(pool[i], rows);
    let r = walks_upto(pool, rows, n);
    let ints = r.map_values(|k: usize| k as int);
    if n > 0 {
        a_walk_starts_at_the_first_of_a_regulation(pool, rows, n - 1);
        let b = walks_upto(pool, rows, n - 1);
        let before = b.map_values(|k: usize| k as int);
        let next = picks_one_more(before, n - 1, p);
        match law_of(pool[n - 1], rows) {
            Some(law) => {
                if walked_law(b, pool, rows, law) {
                    let k = choose|k: int|
                        0 <= k < b.len() && law_of(pool[(#[trigger] b[k]) as int], rows) == Some(
                            law,
                        );
                    assert(before[k] == b[k]);
                    assert(!p(n - 1)) by {
                        let j = before[k];
                        assert(law_of(pool[j], rows) == law_of(pool[n - 1], rows));
                    }
                } else {
                    assert(p(n - 1)) by {
                        assert forall|j: int| 0 <= j < n - 1 implies law_of(#[trigger] pool[j], rows)
                            != law_of(pool[n - 1], rows) by {
                            if law_of(pool[j], rows) == law_of(pool[n - 1], rows) {
                                let i = first_of_law(pool, rows, law, j);
                                assert(p(i));
                                assert(before.contains(i));
                                let k = before.index_of(i);
                                assert(before[k] == b[k]);
                                assert(law_of(pool[b[k] as int], rows) == Some(law));
                            }
                        }
                    }
                }
            },
            None => {
                assert(!p(n - 1));
            },
        }
        assert(ints =~= next);
    }
}

proof fn first_of_law(pool: Seq<Candidate>, rows: Seq<ChunkRow>, law: Regulation, j: int) -> (i: int)
    requires
        0 <= j < pool.len(),
        law_of(pool[j], rows) == Some(law),
    ensures
        0 <= i <= j,
        law_of(pool[i], rows) == Some(law),
        forall|m: int| 0 <= m < i ==> law_of(#[trigger] pool[m], rows) != Some(law),
    decreases j,
{
    if exists|m: int| 0 <= m < j && law_of(#[trigger] pool[m], rows) == Some(law) {
        let m = choose|m: int| 0 <= m < j && law_of(#[trigger] pool[m], rows) == Some(law);
        first_of_law(pool, rows, law, m)
    } else {
        j
    }
}

/// A walk sponsors siblings where its start accounts for some of the query, and
/// only there.
pub proof fn a_sponsor_accounts_for_some_of_the_query(
    walks: Seq<usize>,
    evidence: Seq<Score>,
    n: int,
)
    requires
        0 <= n <= walks.len(),
        evidence.len() == walks.len(),
    ensures
        picks(sponsors_upto(walks, evidence, n), n, |i: int| 0 < evidence[i].bits <= 0x7f80_0000),
    decreases n,
{
    let p = |i: int| 0 < evidence[i].bits <= 0x7f80_0000;
    if n > 0 {
        a_sponsor_accounts_for_some_of_the_query(walks, evidence, n - 1);
        let next = picks_one_more(sponsors_upto(walks, evidence, n - 1), n - 1, p);
        assert(p(n - 1) == (Score { bits: 0 }).lt_spec(evidence[n - 1]));
    }
}

/// What the floor of a request does to a pool: where the query names a
/// regulation it does nothing.
pub proof fn a_named_regulation_lifts_the_floor(w: FactorWeights)
    ensures
        request_floor(w, true) == w.relevance_floor,
        request_floor(w, false).bits == 0,
{
}

/// A reordering is told: that the floor was skipped, how many of how many
/// candidates it dropped, and which candidate took the first place from which.
pub proof fn a_reordering_is_told(
    before: Seq<Candidate>,
    after: Seq<Candidate>,
    rows: Seq<ChunkRow>,
    apply_floor: bool,
)
    ensures
        ({
            let t = factor_notes(before, after, rows, apply_floor);
            let a: int = if apply_floor {
                0
            } else {
                1
            };
            let drops = after.len() < before.len();
            let b: int = a + if drops {
                1int
            } else {
                0
            };
            let promotes = before.len() > 0 && after.len() > 0 && rows[after[0].row as int].id@
                != rows[before[0].row as int].id@;
            &&& t.len() == b + if promotes {
                1int
            } else {
                0
            }
            &&& !apply_floor ==> t[0] == "relevance floor skipped · the query names a regulation"@
            &&& drops ==> t[a] == "relevance floor dropped "@ + decimal(
                (before.len() - after.len()) as nat,
            ) + " of "@ + decimal(before.len()) + " candidates"@
            &&& promotes ==> t[b] == "factors promoted "@ + rows[after[0].row as int].id@ + " over "@
                + rows[before[0].row as int].id@
        }),
{
}

/// What is read of a row is what the row records, and its length in bytes.
pub proof fn a_row_is_read_as_it_is_recorded(f: Facets<'_>, row: ChunkRow)
    requires
        is_facets(f, row),
    ensures
        f.year == row.year,
        f.regulation_type is Some <==> row.regulation_type is Some,
        f.regulation_type is Some ==> (f.regulation_type->0)@ == (row.regulation_type->0)@,
        f.article is Some <==> row.article is Some,
        f.article is Some ==> (f.article->0)@ == (row.article->0)@,
        f.chapter is Some <==> row.chapter is Some,
        f.chapter is Some ==> (f.chapter->0)@ == (row.chapter->0)@,
        f.about is Some <==> row.about is Some,
        f.about is Some ==> (f.about->0)@ == (row.about->0)@,
        f.body is Some && (f.body->0)@ == row.body@,
        utf8_len(row.body@) <= usize::MAX ==> f.body_len == utf8_len(row.body@),
{
}

/// The three arms are fused in their order, each with its own ids and its own
/// weight.
pub proof fn every_arm_keeps_its_weight(
    dense: Seq<Seq<char>>,
    sparse: Seq<Seq<char>>,
    text: Seq<Seq<char>>,
    weights: (Score, Score, Score),
)
    ensures
        arms_of(dense, sparse, text, weights).len() == 3,
        arms_of(dense, sparse, text, weights)[0].ids == dense,
        arms_of(dense, sparse, text, weights)[0].weight == weights.0,
        arms_of(dense, sparse, text, weights)[1].ids == sparse,
        arms_of(dense, sparse, text, weights)[1].weight == weights.1,
        arms_of(dense, sparse, text, weights)[2].ids == text,
        arms_of(dense, sparse, text, weights)[2].weight == weights.2,
{
}

} // verus!
