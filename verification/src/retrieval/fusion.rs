//! Reciprocal rank fusion: combining the retrieval arms.
//!
//! Ranks are fused, not scores: distances, inner products and text ranks live
//! on incomparable scales, and ranks need no calibration. Each place in an arm
//! with weight `w` adds `w / (k + rank)` to an id's score; the sums are formed
//! by the caller, over the ranks that are gathered here.

use vstd::prelude::*;

use crate::engine::factors::{is_shuffle, is_zero};
use crate::order::{arrange, arranged, Ordered};
use crate::score::Score;
use crate::text::{is_text_before, same, text_before, text_order_is_irreflexive, text_order_is_total, text_order_is_transitive, text_order_separates, texts};

verus! {

/// The damping constant `60.0`: it flattens the very top ranks, so that one
/// confident arm cannot monopolise the order.
pub const DEFAULT_K: u32 = 0x4270_0000;

/// One arm's contribution: an ordered list of ids, best first.
#[derive(Debug)]
pub struct Arm<'a> {
    pub name: &'static str,
    pub ids: &'a Vec<String>,
    /// Relative influence. Zero disables the arm.
    pub weight: Score,
}

/// A place that an arm gave an id.
#[derive(Debug, Clone, Copy, PartialEq)]
pub struct Contribution {
    pub arm: &'static str,
    pub weight: Score,
    /// Counted from one.
    pub rank: usize,
}

/// An id, and every place it was given.
#[derive(Debug, PartialEq)]
pub struct Gathered {
    pub id: String,
    pub contributions: Vec<Contribution>,
}

/// A place, as what it says.
pub ghost struct Place {
    pub arm: Seq<char>,
    pub weight: Score,
    pub rank: int,
}

impl Contribution {
    pub open spec fn view(self) -> Place {
        Place { arm: self.arm@, weight: self.weight, rank: self.rank as int }
    }
}

/// The places of a list, as what they say.
pub open spec fn place_views(v: Seq<Contribution>) -> Seq<Place> {
    v.map_values(|c: Contribution| c@)
}

/// An id with its places, as what it says.
pub ghost struct Hit {
    pub id: Seq<char>,
    pub places: Seq<Place>,
}

impl Gathered {
    pub open spec fn view(self) -> Hit {
        Hit { id: self.id@, places: place_views(self.contributions@) }
    }
}

/// The ids of a list with their places, as what they say.
pub open spec fn hit_views(v: Seq<Gathered>) -> Seq<Hit> {
    v.map_values(|g: Gathered| g@)
}

/// The place of an id in a list of hits, from the `i`-th on.
pub open spec fn find_hit(v: Seq<Hit>, id: Seq<char>, i: int) -> Option<int>
    decreases v.len() - i,
{
    if i >= v.len() {
        None
    } else if v[i].id == id {
        Some(i)
    } else {
        find_hit(v, id, i + 1)
    }
}

/// The hits with one place more: added to the id where it is there, else a hit
/// of its own.
pub open spec fn with_place(v: Seq<Hit>, id: Seq<char>, p: Place) -> Seq<Hit> {
    match find_hit(v, id, 0) {
        Some(i) => v.update(i, Hit { id: v[i].id, places: v[i].places.push(p) }),
        None => v.push(Hit { id, places: seq![p] }),
    }
}

/// An arm, as what it says.
pub ghost struct ArmView {
    pub name: Seq<char>,
    pub ids: Seq<Seq<char>>,
    pub weight: Score,
}

impl<'a> Arm<'a> {
    pub open spec fn view(self) -> ArmView {
        ArmView { name: self.name@, ids: texts(self.ids@), weight: self.weight }
    }
}

/// The arms of a list, as what they say.
pub open spec fn arm_views(v: Seq<Arm<'_>>) -> Seq<ArmView> {
    v.map_values(|a: Arm<'_>| a@)
}

/// The hits after the first `n` ids of an arm, starting from `v`.
pub open spec fn arm_upto(v: Seq<Hit>, arm: ArmView, n: int) -> Seq<Hit>
    decreases n,
{
    if n <= 0 {
        v
    } else {
        with_place(
            arm_upto(v, arm, n - 1),
            arm.ids[n - 1],
            Place { arm: arm.name, weight: arm.weight, rank: n },
        )
    }
}

/// The hits after the first `n` arms. An arm of weight zero adds nothing.
pub open spec fn arms_upto(arms: Seq<ArmView>, n: int) -> Seq<Hit>
    decreases n,
{
    if n <= 0 {
        Seq::empty()
    } else if is_zero(arms[n - 1].weight) {
        arms_upto(arms, n - 1)
    } else {
        arm_upto(arms_upto(arms, n - 1), arms[n - 1], arms[n - 1].ids.len() as int)
    }
}

fn add_place(out: &mut Vec<Gathered>, id: &str, c: Contribution)
    ensures
        hit_views(final(out)@) == with_place(hit_views(old(out)@), id@, c@),
{
    let ghost before = hit_views(out@);
    let mut i: usize = 0;
    while i < out.len()
        invariant
            i <= out@.len(),
            before == hit_views(out@),
            before == hit_views(old(out)@),
            find_hit(before, id@, 0) == find_hit(before, id@, i as int),
        decreases out@.len() - i,
    {
        assert(before[i as int] == out@[i as int]@);
        if same(out[i].id.as_str(), id) {
            let mut places: Vec<Contribution> = Vec::new();
            let mut k: usize = 0;
            while k < out[i].contributions.len()
                invariant
                    i < out@.len(),
                    k <= out@[i as int].contributions@.len(),
                    places@ == out@[i as int].contributions@.take(k as int),
                decreases out@[i as int].contributions@.len() - k,
            {
                places.push(out[i].contributions[k]);
                assert(places@ =~= out@[i as int].contributions@.take(k + 1));
                k = k + 1;
            }
            assert(places@ =~= out@[i as int].contributions@);
            places.push(c);
            assert(place_views(places@) =~= before[i as int].places.push(c@));
            let g = Gathered { id: out[i].id.clone(), contributions: places };
            out.set(i, g);
            assert(hit_views(out@) =~= before.update(
                i as int,
                Hit { id: before[i as int].id, places: before[i as int].places.push(c@) },
            ));
            return;
        }
        i = i + 1;
    }
    let places = vec![c];
    assert(place_views(places@) =~= seq![c@]);
    let g = Gathered { id: id.to_owned(), contributions: places };
    let ghost h = g@;
    out.push(g);
    assert(hit_views(out@) =~= before.push(h));
}

/// Every id that an arm with influence returned, once, with every place it was
/// given: arm by arm, and within an arm from the top.
pub fn gather(arms: &Vec<Arm<'_>>) -> (r: Vec<Gathered>)
    ensures
        hit_views(r@) == arms_upto(arm_views(arms@), arms@.len() as int),
{
    let ghost views = arm_views(arms@);
    let zero = Score { bits: 0 };
    let mut out: Vec<Gathered> = Vec::new();
    let mut a: usize = 0;
    assert(hit_views(out@) =~= Seq::<Hit>::empty());
    while a < arms.len()
        invariant
            a <= arms@.len(),
            zero.bits == 0,
            views == arm_views(arms@),
            hit_views(out@) == arms_upto(views, a as int),
        decreases arms@.len() - a,
    {
        let arm = &arms[a];
        assert(views[a as int] == arm@);
        if arm.weight != zero {
            assert(!is_zero(views[a as int].weight));
            let ids = arm.ids;
            let n = ids.len();
            let mut i: usize = 0;
            while i < n
                invariant
                    i <= n,
                    n == ids@.len(),
                    ids == arm.ids,
                    arm@ == views[a as int],
                    hit_views(out@) == arm_upto(arms_upto(views, a as int), arm@, i as int),
                decreases n - i,
            {
                assert(arm@.ids[i as int] == ids@[i as int]@);
                let rank: usize = i + 1;
                add_place(
                    &mut out,
                    ids[i].as_str(),
                    Contribution { arm: arm.name, weight: arm.weight, rank },
                );
                i = i + 1;
            }
        }
        a = a + 1;
    }
    out
}

/// A fused result: the id, its combined score, and the places it was given.
#[derive(Debug, PartialEq)]
pub struct Fused {
    pub id: String,
    pub score: Score,
    pub contributions: Vec<Contribution>,
}

/// The higher score stands first; ties go by id, so the order is fixed.
impl Ordered for Fused {
    open spec fn ahead(&self, other: &Self) -> bool {
        self.score.rank() > other.score.rank() || (self.score.rank() == other.score.rank()
            && text_before(self.id@, other.id@))
    }

    proof fn ahead_is_an_order(a: &Self, b: &Self, c: &Self) {
        text_order_is_irreflexive(a.id@, 0);
        if !text_before(b.id@, a.id@) && !text_before(c.id@, b.id@) {
            text_order_is_total(a.id@, b.id@, c.id@, 0);
        }
        if text_before(a.id@, b.id@) && text_before(b.id@, a.id@) {
            text_order_is_transitive(a.id@, b.id@, a.id@, 0);
        }
    }

    fn is_ahead(&self, other: &Self) -> bool {
        other.score.rank_before(self.score) || (!self.score.rank_before(other.score)
            && is_text_before(self.id.as_str(), other.id.as_str()))
    }
}

/// The gathered ids with the scores that their places add up to.
pub open spec fn scored(hits: Seq<Gathered>, scores: Seq<Score>) -> Seq<Fused> {
    Seq::new(
        hits.len(),
        |i: int| Fused { id: hits[i].id, score: scores[i], contributions: hits[i].contributions },
    )
}

/// Fuses gathered ids into one order, given the score that each one's places
/// add up to.
pub fn reciprocal_rank_fusion(hits: Vec<Gathered>, scores: &Vec<Score>) -> (r: Vec<Fused>)
    requires
        scores@.len() == hits@.len(),
    ensures
        r@ == arranged(scored(hits@, scores@)),
{
    let ghost all = hits@;
    let mut rest = hits;
    let mut list: Vec<Fused> = Vec::new();
    let ghost want = scored(all, scores@);
    while rest.len() > 0
        invariant
            rest@ == all.take(rest@.len() as int),
            rest@.len() <= all.len(),
            scores@.len() == all.len(),
            want == scored(all, scores@),
            list@ == want.skip(rest@.len() as int),
        decreases rest@.len(),
    {
        let ghost n = rest@.len();
        match rest.pop() {
            Some(g) => {
                let score = scores[rest.len()];
                list.insert(
                    0,
                    Fused { id: g.id, score, contributions: g.contributions },
                );
                assert(rest@ =~= all.take(n - 1));
                assert(list@ =~= want.skip(n - 1));
            },
            None => {},
        }
    }
    assert(want.skip(0) =~= want);
    arrange(list)
}

/// No id stands twice in a list of hits.
pub open spec fn distinct_hits(v: Seq<Hit>) -> bool {
    forall|i: int, j: int| #![trigger v[i], v[j]] 0 <= i < j < v.len() ==> v[i].id != v[j].id
}

proof fn find_hit_finds(v: Seq<Hit>, id: Seq<char>, i: int)
    requires
        0 <= i <= v.len(),
    ensures
        match find_hit(v, id, i) {
            Some(k) => i <= k < v.len() && v[k].id == id,
            None => forall|k: int| i <= k < v.len() ==> (#[trigger] v[k]).id != id,
        },
    decreases v.len() - i,
{
    if i < v.len() {
        find_hit_finds(v, id, i + 1);
    }
}

proof fn with_place_keeps_distinct(v: Seq<Hit>, id: Seq<char>, p: Place)
    requires
        distinct_hits(v),
    ensures
        distinct_hits(with_place(v, id, p)),
{
    find_hit_finds(v, id, 0);
}

proof fn arm_keeps_distinct(v: Seq<Hit>, arm: ArmView, n: int)
    requires
        distinct_hits(v),
    ensures
        distinct_hits(arm_upto(v, arm, n)),
    decreases n,
{
    if n > 0 {
        arm_keeps_distinct(v, arm, n - 1);
        with_place_keeps_distinct(
            arm_upto(v, arm, n - 1),
            arm.ids[n - 1],
            Place { arm: arm.name, weight: arm.weight, rank: n },
        );
    }
}

/// Every id is fused into one result, however many arms returned it.
pub proof fn an_id_is_fused_once(arms: Seq<ArmView>, n: int)
    ensures
        distinct_hits(arms_upto(arms, n)),
    decreases n,
{
    if n > 0 {
        an_id_is_fused_once(arms, n - 1);
        if !is_zero(arms[n - 1].weight) {
            arm_keeps_distinct(
                arms_upto(arms, n - 1),
                arms[n - 1],
                arms[n - 1].ids.len() as int,
            );
        }
    }
}

/// Whether a list of hits holds an id.
pub open spec fn has_hit(v: Seq<Hit>, id: Seq<char>) -> bool {
    exists|i: int| 0 <= i < v.len() && (#[trigger] v[i]).id == id
}

proof fn with_place_keeps_hits(v: Seq<Hit>, id: Seq<char>, p: Place, other: Seq<char>)
    ensures
        has_hit(with_place(v, id, p), id),
        has_hit(v, other) ==> has_hit(with_place(v, id, p), other),
{
    find_hit_finds(v, id, 0);
    let t = with_place(v, id, p);
    match find_hit(v, id, 0) {
        Some(i) => {
            assert(t[i].id == id);
        },
        None => {
            assert(t[v.len() as int].id == id);
        },
    }
    if has_hit(v, other) {
        let k = choose|k: int| 0 <= k < v.len() && (#[trigger] v[k]).id == other;
        assert(t[k].id == other);
    }
}

proof fn arm_keeps_hits(v: Seq<Hit>, arm: ArmView, n: int, id: Seq<char>)
    requires
        0 <= n <= arm.ids.len(),
    ensures
        has_hit(v, id) ==> has_hit(arm_upto(v, arm, n), id),
        (exists|i: int| 0 <= i < n && #[trigger] arm.ids[i] == id) ==> has_hit(
            arm_upto(v, arm, n),
            id,
        ),
    decreases n,
{
    if n > 0 {
        arm_keeps_hits(v, arm, n - 1, id);
        with_place_keeps_hits(
            arm_upto(v, arm, n - 1),
            arm.ids[n - 1],
            Place { arm: arm.name, weight: arm.weight, rank: n },
            id,
        );
    }
}

/// Whatever an arm with influence returned is fused, whatever the other arms
/// returned.
pub proof fn what_an_arm_returned_is_fused(arms: Seq<ArmView>, n: int, a: int, i: int)
    requires
        0 <= a < n <= arms.len(),
        !is_zero(arms[a].weight),
        0 <= i < arms[a].ids.len(),
    ensures
        has_hit(arms_upto(arms, n), arms[a].ids[i]),
    decreases n,
{
    let arm = arms[n - 1];
    let id = arms[a].ids[i];
    if a == n - 1 {
        arm_keeps_hits(arms_upto(arms, n - 1), arm, arm.ids.len() as int, id);
    } else {
        what_an_arm_returned_is_fused(arms, n - 1, a, i);
        if !is_zero(arm.weight) {
            arm_keeps_hits(arms_upto(arms, n - 1), arm, arm.ids.len() as int, id);
        }
    }
}

/// An arm of weight zero contributes nothing.
pub proof fn a_zero_weight_arm_contributes_nothing(arms: Seq<ArmView>, n: int)
    requires
        0 < n,
        is_zero(arms[n - 1].weight),
    ensures
        arms_upto(arms, n) == arms_upto(arms, n - 1),
{
}

/// Fused results with pairwise different ids stand in one order only: no two
/// of them tie.
pub proof fn fused_ids_never_tie(a: Fused, b: Fused)
    requires
        a.id@ != b.id@,
    ensures
        a.ahead(&b) || b.ahead(&a),
{
    if !text_before(a.id@, b.id@) && !text_before(b.id@, a.id@) {
        assert(a.id@.take(0) =~= b.id@.take(0));
        text_order_separates(a.id@, b.id@, 0);
    }
}

// ---------------------------------------------------------------------------
// Where the places of an id come from
// ---------------------------------------------------------------------------

/// Whether a spot of the arms' lists comes before another: in an earlier arm,
/// or in the same arm further up.
pub open spec fn earlier(p: (int, int), q: (int, int)) -> bool {
    p.0 < q.0 || (p.0 == q.0 && p.1 < q.1)
}

/// Whether an id stands at a spot `(arm, i)` of a list that counts.
pub open spec fn stands_in(arms: Seq<ArmView>, p: (int, int), id: Seq<char>) -> bool {
    &&& 0 <= p.0 < arms.len()
    &&& !is_zero(arms[p.0].weight)
    &&& 0 <= p.1 < arms[p.0].ids.len()
    &&& arms[p.0].ids[p.1] == id
}

/// Whether the places of a hit are those of its id before `end`, read off the
/// arms' lists at the spots `o`: one place for each spot, in reading order, with
/// the arm's name and weight, and the spot counted from one.
pub open spec fn reads_off(h: Hit, arms: Seq<ArmView>, o: Seq<(int, int)>, end: (int, int)) -> bool {
    &&& o.len() == h.places.len()
    &&& o.len() > 0
    &&& forall|k: int|
        0 <= k < o.len() ==> stands_in(arms, #[trigger] o[k], h.id) && earlier(o[k], end)
    &&& forall|k: int|
        0 <= k < o.len() ==> #[trigger] h.places[k] == (Place {
            arm: arms[o[k].0].name,
            weight: arms[o[k].0].weight,
            rank: o[k].1 + 1,
        })
    &&& forall|k: int, l: int|
        #![trigger o[k], o[l]]
        0 <= k < l < o.len() ==> earlier(o[k], o[l])
    &&& forall|p: (int, int)| #[trigger]
        stands_in(arms, p, h.id) && earlier(p, end) ==> o.contains(p)
}

/// Whether hits are what the arms' lists hold before `end`: every id once, in
/// order of its first spot, with all of its places.
pub open spec fn reads_all(
    v: Seq<Hit>,
    arms: Seq<ArmView>,
    os: Seq<Seq<(int, int)>>,
    end: (int, int),
) -> bool {
    &&& os.len() == v.len()
    &&& forall|j: int| 0 <= j < v.len() ==> reads_off(#[trigger] v[j], arms, os[j], end)
    &&& forall|i: int, j: int|
        #![trigger os[i], os[j]]
        0 <= i < j < v.len() ==> v[i].id != v[j].id && earlier(os[i][0], os[j][0])
    &&& forall|p: (int, int), id: Seq<char>| #[trigger]
        stands_in(arms, p, id) && earlier(p, end) ==> has_hit(v, id)
}

proof fn one_spot_more(v: Seq<Hit>, arms: Seq<ArmView>, os: Seq<Seq<(int, int)>>, a: int, i: int) -> (r:
    Seq<Seq<(int, int)>>)
    requires
        reads_all(v, arms, os, (a, i)),
        0 <= a < arms.len(),
        0 <= i < arms[a].ids.len(),
        !is_zero(arms[a].weight),
    ensures
        reads_all(
            with_place(
                v,
                arms[a].ids[i],
                Place { arm: arms[a].name, weight: arms[a].weight, rank: i + 1 },
            ),
            arms,
            r,
            (a, i + 1),
        ),
{
    let id = arms[a].ids[i];
    let spot = (a, i);
    let place = Place { arm: arms[a].name, weight: arms[a].weight, rank: i + 1 };
    let t = with_place(v, id, place);
    find_hit_finds(v, id, 0);
    assert(stands_in(arms, spot, id));
    match find_hit(v, id, 0) {
        Some(k) => {
            let grown = os[k].push(spot);
            let r = os.update(k, grown);
            assert(reads_off(t[k], arms, grown, (a, i + 1))) by {
                assert(reads_off(v[k], arms, os[k], (a, i)));
                assert forall|p: (int, int)| #[trigger]
                    stands_in(arms, p, id) && earlier(p, (a, i + 1)) implies grown.contains(p) by {
                    if earlier(p, (a, i)) {
                        assert(os[k].contains(p));
                        let m = os[k].index_of(p);
                        assert(grown[m] == p);
                    } else {
                        assert(grown[os[k].len() as int] == p);
                    }
                }
            }
            assert forall|j: int| 0 <= j < t.len() implies reads_off(
                #[trigger] t[j],
                arms,
                r[j],
                (a, i + 1),
            ) by {
                if j != k {
                    assert(reads_off(v[j], arms, os[j], (a, i)));
                    assert(v[j].id != id) by {
                        if j < k {
                            assert(os[j] == os[j] && os[k] == os[k]);
                        } else {
                            assert(os[k] == os[k] && os[j] == os[j]);
                        }
                    }
                    assert forall|p: (int, int)| #[trigger]
                        stands_in(arms, p, v[j].id) && earlier(p, (a, i + 1)) implies os[j].contains(
                        p,
                    ) by {
                        assert(earlier(p, (a, i)));
                    }
                }
            }
            assert forall|x: int, y: int|
                #![trigger r[x], r[y]]
                0 <= x < y < t.len() implies t[x].id != t[y].id && earlier(r[x][0], r[y][0]) by {
                assert(reads_off(v[x], arms, os[x], (a, i)) && reads_off(v[y], arms, os[y], (a, i)));
                assert(os[x] == os[x] && os[y] == os[y]);
                assert(r[x][0] == os[x][0] && r[y][0] == os[y][0]);
            }
            assert forall|p: (int, int), other: Seq<char>| #[trigger]
                stands_in(arms, p, other) && earlier(p, (a, i + 1)) implies has_hit(t, other) by {
                with_place_keeps_hits(v, id, place, other);
            }
            r
        },
        None => {
            let fresh = seq![spot];
            let r = os.push(fresh);
            let n = v.len() as int;
            assert(reads_off(t[n], arms, fresh, (a, i + 1))) by {
                assert forall|p: (int, int)| #[trigger]
                    stands_in(arms, p, id) && earlier(p, (a, i + 1)) implies fresh.contains(p) by {
                    if earlier(p, (a, i)) {
                        assert(has_hit(v, id));
                    }
                    assert(fresh[0] == p);
                }
            }
            assert forall|j: int| 0 <= j < t.len() implies reads_off(
                #[trigger] t[j],
                arms,
                r[j],
                (a, i + 1),
            ) by {
                if j < n {
                    assert(reads_off(v[j], arms, os[j], (a, i)));
                    assert forall|p: (int, int)| #[trigger]
                        stands_in(arms, p, v[j].id) && earlier(p, (a, i + 1)) implies os[j].contains(
                        p,
                    ) by {
                        assert(earlier(p, (a, i)));
                    }
                }
            }
            assert forall|x: int, y: int|
                #![trigger r[x], r[y]]
                0 <= x < y < t.len() implies t[x].id != t[y].id && earlier(r[x][0], r[y][0]) by {
                assert(reads_off(v[x], arms, os[x], (a, i)));
                assert(earlier(os[x][0], (a, i)));
                if y < n {
                    assert(os[x] == os[x] && os[y] == os[y]);
                }
            }
            assert forall|p: (int, int), other: Seq<char>| #[trigger]
                stands_in(arms, p, other) && earlier(p, (a, i + 1)) implies has_hit(t, other) by {
                with_place_keeps_hits(v, id, place, other);
            }
            r
        },
    }
}

proof fn an_arm_is_read_off(arms: Seq<ArmView>, a: int, n: int) -> (r: Seq<Seq<(int, int)>>)
    requires
        0 <= a < arms.len(),
        0 <= n <= arms[a].ids.len(),
        !is_zero(arms[a].weight),
    ensures
        reads_all(arm_upto(arms_upto(arms, a), arms[a], n), arms, r, (a, n)),
    decreases a, 1int, n,
{
    if n == 0 {
        arms_are_read_off(arms, a)
    } else {
        let os = an_arm_is_read_off(arms, a, n - 1);
        one_spot_more(arm_upto(arms_upto(arms, a), arms[a], n - 1), arms, os, a, n - 1)
    }
}

proof fn arms_are_read_off(arms: Seq<ArmView>, n: int) -> (r: Seq<Seq<(int, int)>>)
    requires
        0 <= n <= arms.len(),
    ensures
        reads_all(arms_upto(arms, n), arms, r, (n, 0)),
    decreases n, 0int, 0int,
{
    if n == 0 {
        Seq::empty()
    } else if is_zero(arms[n - 1].weight) {
        let os = arms_are_read_off(arms, n - 1);
        same_reading(arms_upto(arms, n - 1), arms, os, (n - 1, 0), (n, 0));
        os
    } else {
        let m = arms[n - 1].ids.len() as int;
        let os = an_arm_is_read_off(arms, n - 1, m);
        same_reading(
            arm_upto(arms_upto(arms, n - 1), arms[n - 1], m),
            arms,
            os,
            (n - 1, m),
            (n, 0),
        );
        os
    }
}

/// Nothing that counts stands between two ends: what is read before the one is
/// what is read before the other.
proof fn same_reading(
    v: Seq<Hit>,
    arms: Seq<ArmView>,
    os: Seq<Seq<(int, int)>>,
    from: (int, int),
    end: (int, int),
)
    requires
        reads_all(v, arms, os, from),
        forall|p: (int, int), id: Seq<char>| #[trigger]
            stands_in(arms, p, id) ==> earlier(p, from) == earlier(p, end),
    ensures
        reads_all(v, arms, os, end),
{
    assert forall|j: int| 0 <= j < v.len() implies reads_off(
        #[trigger] v[j],
        arms,
        os[j],
        end,
    ) by {
        assert(reads_off(v[j], arms, os[j], from));
    }
}

/// What fusion gathers can be read off the arms' lists. Every id of an arm with
/// influence is there once, in order of its first spot; its contributions are
/// exactly its spots, each with the arm's name and weight, and with the rank
/// that is the spot's place in the arm's list counted from one.
pub proof fn contributions_are_the_spots_of_an_id(arms: Seq<ArmView>) -> (os: Seq<
    Seq<(int, int)>,
>)
    ensures
        reads_all(
            arms_upto(arms, arms.len() as int),
            arms,
            os,
            (arms.len() as int, 0),
        ),
{
    arms_are_read_off(arms, arms.len() as int)
}

/// An id that an arm with influence has at place `i` of its list holds the
/// contribution of that arm with rank `i + 1`, and every contribution of a hit
/// is one of these.
pub proof fn a_rank_is_the_place_in_the_arm(arms: Seq<ArmView>, a: int, i: int)
    requires
        0 <= a < arms.len(),
        !is_zero(arms[a].weight),
        0 <= i < arms[a].ids.len(),
    ensures
        ({
            let hits = arms_upto(arms, arms.len() as int);
            &&& exists|j: int|
                0 <= j < hits.len() && (#[trigger] hits[j]).id == arms[a].ids[i]
                    && hits[j].places.contains(
                    Place { arm: arms[a].name, weight: arms[a].weight, rank: i + 1 },
                )
            &&& forall|j: int, k: int|
                0 <= j < hits.len() && 0 <= k < hits[j].places.len() ==> exists|b: int, m: int|
                    0 <= b < arms.len() && 0 <= m < arms[b].ids.len() && !is_zero(arms[b].weight)
                        && #[trigger] arms[b].ids[m] == hits[j].id
                        && #[trigger] hits[j].places[k] == (Place {
                        arm: arms[b].name,
                        weight: arms[b].weight,
                        rank: m + 1,
                    })
        }),
{
    let hits = arms_upto(arms, arms.len() as int);
    let end = (arms.len() as int, 0int);
    let os = contributions_are_the_spots_of_an_id(arms);
    let spot = (a, i);
    let id = arms[a].ids[i];
    assert(stands_in(arms, spot, id) && earlier(spot, end));
    let j = choose|j: int| 0 <= j < hits.len() && (#[trigger] hits[j]).id == id;
    assert(reads_off(hits[j], arms, os[j], end));
    assert(os[j].contains(spot));
    let k = os[j].index_of(spot);
    assert(hits[j].places[k] == (Place {
        arm: arms[a].name,
        weight: arms[a].weight,
        rank: i + 1,
    }));
    assert forall|j: int, k: int|
        0 <= j < hits.len() && 0 <= k < hits[j].places.len() implies exists|b: int, m: int|
        0 <= b < arms.len() && 0 <= m < arms[b].ids.len() && !is_zero(arms[b].weight)
            && #[trigger] arms[b].ids[m] == hits[j].id && #[trigger] hits[j].places[k] == (Place {
            arm: arms[b].name,
            weight: arms[b].weight,
            rank: m + 1,
        }) by {
        assert(reads_off(hits[j], arms, os[j], end));
        let o = os[j][k];
        assert(stands_in(arms, o, hits[j].id));
        assert(arms[o.0].ids[o.1] == hits[j].id);
    }
}

/// Fusing gives back every gathered id once, with its score and its places; the
/// higher score stands first, and of equal scores the id that comes first in
/// the dictionary.
pub proof fn fusion_puts_the_best_first(hits: Seq<Gathered>, scores: Seq<Score>) -> (p: Seq<int>)
    requires
        scores.len() == hits.len(),
    ensures
        is_shuffle(p, hits.len()),
        arranged(scored(hits, scores)).len() == hits.len(),
        forall|i: int|
            0 <= i < p.len() ==> ({
                let f = arranged(scored(hits, scores))[i];
                &&& f.id == hits[#[trigger] p[i]].id
                &&& f.score == scores[p[i]]
                &&& f.contributions == hits[p[i]].contributions
            }),
        forall|i: int, j: int|
            #![trigger p[i], p[j]]
            0 <= i < j < p.len() ==> scores[p[i]].rank() > scores[p[j]].rank() || (
            scores[p[i]].rank() == scores[p[j]].rank() && !text_before(
                hits[p[j]].id@,
                hits[p[i]].id@,
            )),
{
    let s = scored(hits, scores);
    let p = crate::order::arranging_is_stable(s);
    crate::order::arranging_orders(s);
    crate::order::arranging_keeps_elements(s);
    let r = arranged(s);
    assert forall|i: int, j: int|
        #![trigger p[i], p[j]]
        0 <= i < j < p.len() implies scores[p[i]].rank() > scores[p[j]].rank() || (
    scores[p[i]].rank() == scores[p[j]].rank() && !text_before(
        hits[p[j]].id@,
        hits[p[i]].id@,
    )) by {
        assert(r[i] == s[p[i]] && r[j] == s[p[j]]);
        assert(!r[j].ahead(&r[i]));
    }
    p
}

} // verus!
