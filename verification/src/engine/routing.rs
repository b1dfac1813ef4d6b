//! Domain detection and cluster selection.
//!
//! The agent never names a domain. It is detected from how near the query is
//! to each domain's anchor, and where nothing clears the threshold the honest
//! answer is no domain, not the closest one.

use vstd::prelude::*;

use crate::engine::factors::is_shuffle;
use crate::order::{arrange, arranged, arranging_ignores_arrival, Ordered};
use crate::score::Score;

verus! {

/// A knowledge base, and how near the query is to its anchor.
#[derive(Debug, PartialEq)]
pub struct AnchorMatch {
    pub id: String,
    pub similarity: Score,
}

/// A cluster, and how near the query is to its centroid.
#[derive(Debug, Clone, Copy, PartialEq)]
pub struct ClusterMatch {
    pub id: i32,
    pub similarity: Score,
}

/// What routing decided.
#[derive(Debug, PartialEq)]
pub struct Route {
    pub domain: Option<String>,
    pub domain_confidence: Score,
    /// Clusters to scan, nearest first. Empty when no domain matched.
    pub clusters: Vec<i32>,
    /// Every probed cluster with its similarity.
    pub cluster_scores: Vec<ClusterMatch>,
}

/// The place of the nearest anchor, among the first `n`, whose similarity
/// reaches its threshold; of equally near ones the last.
pub open spec fn nearest_upto(similarities: Seq<Score>, thresholds: Seq<Score>, n: int) -> Option<
    int,
>
    decreases n,
{
    if n <= 0 {
        None
    } else {
        let best = nearest_upto(similarities, thresholds, n - 1);
        let s = similarities[n - 1];
        if thresholds[n - 1].le_spec(s) && (best is None || similarities[best->0].rank()
            <= s.rank()) {
            Some(n - 1)
        } else {
            best
        }
    }
}

/// The place of the nearest anchor whose similarity reaches its threshold.
pub fn nearest_anchor(similarities: &Vec<Score>, thresholds: &Vec<Score>) -> (r: Option<usize>)
    requires
        thresholds@.len() == similarities@.len(),
    ensures
        match r {
            Some(i) => i < similarities@.len() && nearest_upto(
                similarities@,
                thresholds@,
                similarities@.len() as int,
            ) == Some(i as int),
            None => nearest_upto(similarities@, thresholds@, similarities@.len() as int) is None,
        },
{
    let mut best: Option<usize> = None;
    let mut i: usize = 0;
    while i < similarities.len()
        invariant
            i <= similarities@.len(),
            thresholds@.len() == similarities@.len(),
            match best {
                Some(b) => b < i && nearest_upto(similarities@, thresholds@, i as int) == Some(
                    b as int,
                ),
                None => nearest_upto(similarities@, thresholds@, i as int) is None,
            },
        decreases similarities@.len() - i,
    {
        if thresholds[i].le(similarities[i]) {
            let nearer = match best {
                Some(b) => !similarities[i].rank_before(similarities[b]),
                None => true,
            };
            if nearer {
                best = Some(i);
            }
        }
        i = i + 1;
    }
    best
}

/// The anchor that is chosen reaches its threshold, and no other that reaches
/// its own is nearer. Where none is chosen, none reaches its threshold.
pub proof fn the_nearest_anchor_above_threshold_is_chosen(
    similarities: Seq<Score>,
    thresholds: Seq<Score>,
    n: int,
)
    requires
        0 <= n <= similarities.len(),
        thresholds.len() == similarities.len(),
    ensures
        match nearest_upto(similarities, thresholds, n) {
            Some(b) => {
                &&& 0 <= b < n
                &&& thresholds[b].le_spec(similarities[b])
                &&& forall|i: int|
                    0 <= i < n && (#[trigger] thresholds[i]).le_spec(similarities[i])
                        ==> similarities[i].rank() <= similarities[b].rank()
            },
            None => forall|i: int|
                0 <= i < n ==> !(#[trigger] thresholds[i]).le_spec(similarities[i]),
        },
    decreases n,
{
    if n > 0 {
        the_nearest_anchor_above_threshold_is_chosen(similarities, thresholds, n - 1);
    }
}

/// The similarities of a list of anchors.
pub open spec fn similarities(v: Seq<AnchorMatch>) -> Seq<Score> {
    v.map_values(|a: AnchorMatch| a.similarity)
}

/// The same threshold for every anchor.
pub open spec fn uniform(threshold: Score, n: nat) -> Seq<Score> {
    Seq::new(n, |i: int| threshold)
}

/// The place of the domain that a query belongs to, under one threshold.
pub open spec fn domain_of(anchors: Seq<AnchorMatch>, threshold: Score) -> Option<int> {
    nearest_upto(similarities(anchors), uniform(threshold, anchors.len()), anchors.len() as int)
}

/// The domain whose anchor the query is nearest, if that clears the threshold,
/// with its similarity. Nothing, rather than the nearest, when none does.
pub fn detect_domain(anchors: &Vec<AnchorMatch>, threshold: Score) -> (r: Option<(String, Score)>)
    ensures
        match r {
            Some((id, similarity)) => {
                &&& domain_of(anchors@, threshold) is Some
                &&& id == anchors@[domain_of(anchors@, threshold)->0].id
                &&& similarity == anchors@[domain_of(anchors@, threshold)->0].similarity
            },
            None => domain_of(anchors@, threshold) is None,
        },
{
    let mut near: Vec<Score> = Vec::new();
    let mut bars: Vec<Score> = Vec::new();
    let mut i: usize = 0;
    while i < anchors.len()
        invariant
            i <= anchors@.len(),
            near@ == similarities(anchors@).take(i as int),
            bars@ == uniform(threshold, i as nat),
        decreases anchors@.len() - i,
    {
        near.push(anchors[i].similarity);
        bars.push(threshold);
        assert(near@ =~= similarities(anchors@).take(i + 1));
        assert(bars@ =~= uniform(threshold, (i + 1) as nat));
        i = i + 1;
    }
    assert(near@ =~= similarities(anchors@));
    match nearest_anchor(&near, &bars) {
        Some(b) => Some((anchors[b].id.clone(), anchors[b].similarity)),
        None => None,
    }
}

/// The nearer cluster stands first, and of equally near ones the lower id.
impl Ordered for ClusterMatch {
    open spec fn ahead(&self, other: &Self) -> bool {
        self.similarity.rank() > other.similarity.rank() || (self.similarity.rank()
            == other.similarity.rank() && self.id < other.id)
    }

    proof fn ahead_is_an_order(a: &Self, b: &Self, c: &Self) {
    }

    fn is_ahead(&self, other: &Self) -> bool {
        other.similarity.rank_before(self.similarity) || (!self.similarity.rank_before(
            other.similarity,
        ) && self.id < other.id)
    }
}

/// The first `n` elements, or all where there are fewer.
pub open spec fn first<T>(s: Seq<T>, n: nat) -> Seq<T> {
    if n < s.len() {
        s.take(n as int)
    } else {
        s
    }
}

/// Selects the `probe` nearest centroids. Ties go by cluster id, so a query
/// always probes the same clusters.
pub fn select_clusters(centroids: Vec<ClusterMatch>, probe: usize) -> (r: Vec<ClusterMatch>)
    ensures
        r@ == first(arranged(centroids@), probe as nat),
{
    let mut scored = arrange(centroids);
    let ghost all = scored@;
    scored.truncate(probe);
    assert(scored@ =~= first(all, probe as nat));
    scored
}

/// The order in which clusters arrive does not reach which of them are
/// selected, nor their order: every arrangement gives the same. Left out are
/// lists with two different entries for one cluster, equally near.
pub proof fn selected_clusters_ignore_arrival(a: Seq<ClusterMatch>, b: Seq<ClusterMatch>, n: nat)
    requires
        a.to_multiset() == b.to_multiset(),
        forall|i: int, j: int|
            #![trigger a[i], a[j]]
            0 <= i < a.len() && 0 <= j < a.len() && a[i].id == a[j].id
                && a[i].similarity.rank() == a[j].similarity.rank() ==> a[i] == a[j],
    ensures
        first(arranged(a), n) == first(arranged(b), n),
{
    broadcast use vstd::seq_lib::group_to_multiset_ensures;

    let key = |c: ClusterMatch| c;
    assert(a.map_values(key) =~= a);
    assert(b.map_values(key) =~= b);
    assert forall|i: int, j: int|
        #![trigger a[i], b[j]]
        0 <= i < a.len() && 0 <= j < b.len() && !a[i].ahead(&b[j]) && !b[j].ahead(
            &a[i],
        ) implies key(a[i]) == key(b[j]) by {
        assert(b.contains(b[j]));
        assert(a.to_multiset().contains(b[j]));
        let k = a.index_of(b[j]);
        assert(a[k] == b[j]);
    }
    arranging_ignores_arrival(a, b, key);
    assert(arranged(a).map_values(key) =~= arranged(a));
    assert(arranged(b).map_values(key) =~= arranged(b));
}

/// Probing more clusters never drops one that was chosen already: the longer
/// selection starts with the shorter one.
pub proof fn probing_more_only_adds<T: Ordered>(s: Seq<T>, few: nat, many: nat)
    requires
        few <= many,
    ensures
        first(arranged(s), few) == first(first(arranged(s), many), few),
{
    assert(first(arranged(s), few) =~= first(first(arranged(s), many), few));
}

/// The ids of a list of clusters.
pub open spec fn cluster_ids(v: Seq<ClusterMatch>) -> Seq<i32> {
    v.map_values(|c: ClusterMatch| c.id)
}

/// The full routing decision for one query. Without a domain nothing is probed.
pub fn route(
    anchors: &Vec<AnchorMatch>,
    centroids: Vec<ClusterMatch>,
    threshold: Score,
    probe: usize,
) -> (r: Route)
    ensures
        match domain_of(anchors@, threshold) {
            Some(i) => {
                &&& r.domain == Some(anchors@[i].id)
                &&& r.domain_confidence == anchors@[i].similarity
                &&& r.cluster_scores@ == first(arranged(centroids@), probe as nat)
                &&& r.clusters@ == cluster_ids(r.cluster_scores@)
            },
            None => {
                &&& r.domain is None
                &&& r.domain_confidence == (Score { bits: 0 })
                &&& r.clusters@.len() == 0
                &&& r.cluster_scores@.len() == 0
            },
        },
{
    match detect_domain(anchors, threshold) {
        None => Route {
            domain: None,
            domain_confidence: Score { bits: 0 },
            clusters: Vec::new(),
            cluster_scores: Vec::new(),
        },
        Some((domain, confidence)) => {
            let scores = select_clusters(centroids, probe);
            let mut clusters: Vec<i32> = Vec::new();
            let mut i: usize = 0;
            while i < scores.len()
                invariant
                    i <= scores@.len(),
                    clusters@ == cluster_ids(scores@).take(i as int),
                decreases scores@.len() - i,
            {
                clusters.push(scores[i].id);
                assert(clusters@ =~= cluster_ids(scores@).take(i + 1));
                i = i + 1;
            }
            assert(clusters@ =~= cluster_ids(scores@));
            Route {
                domain: Some(domain),
                domain_confidence: confidence,
                clusters,
                cluster_scores: scores,
            }
        },
    }
}

/// The clusters that are chosen are the nearest: some of those there are, each
/// once, nearest first and of equally near ones the lower id; none that was left
/// out is nearer than one that was chosen, and none is left out within the
/// number asked for.
pub proof fn the_nearest_clusters_are_selected(all: Seq<ClusterMatch>, n: nat) -> (p: Seq<int>)
    ensures
        ({
            let r = first(arranged(all), n);
            &&& is_shuffle(p, all.len())
            &&& r.len() == if n < all.len() {
                n
            } else {
                all.len()
            }
            &&& forall|i: int| 0 <= i < r.len() ==> r[i] == all[#[trigger] p[i]]
            &&& forall|i: int, j: int|
                #![trigger p[i], p[j]]
                0 <= i < j < p.len() ==> all[p[i]].similarity.rank() > all[p[j]].similarity.rank() || (
                all[p[i]].similarity.rank() == all[p[j]].similarity.rank() && all[p[i]].id
                    <= all[p[j]].id)
        }),
{
    let p = crate::order::arranging_is_stable(all);
    crate::order::arranging_orders(all);
    crate::order::arranging_keeps_elements(all);
    let t = arranged(all);
    assert forall|i: int, j: int|
        #![trigger p[i], p[j]]
        0 <= i < j < p.len() implies all[p[i]].similarity.rank() > all[p[j]].similarity.rank() || (
    all[p[i]].similarity.rank() == all[p[j]].similarity.rank() && all[p[i]].id
        <= all[p[j]].id) by {
        assert(t[i] == all[p[i]] && t[j] == all[p[j]]);
        assert(!t[j].ahead(&t[i]));
    }
    p
}

/// Of equally near anchors that reach their thresholds the last is chosen.
pub proof fn the_last_of_equally_near_anchors_is_chosen(
    similarities: Seq<Score>,
    thresholds: Seq<Score>,
    n: int,
)
    requires
        0 <= n <= similarities.len(),
        thresholds.len() == similarities.len(),
    ensures
        match nearest_upto(similarities, thresholds, n) {
            Some(b) => forall|i: int|
                b < i < n && (#[trigger] thresholds[i]).le_spec(similarities[i])
                    ==> similarities[i].rank() < similarities[b].rank(),
            None => true,
        },
    decreases n,
{
    if n > 0 {
        the_last_of_equally_near_anchors_is_chosen(similarities, thresholds, n - 1);
    }
}

/// A domain is detected where, and only where, an anchor reaches the threshold,
/// and it is one whose similarity no other reaches.
pub proof fn a_domain_reaches_its_threshold(anchors: Seq<AnchorMatch>, threshold: Score)
    ensures
        match domain_of(anchors, threshold) {
            Some(b) => 0 <= b < anchors.len() && threshold.le_spec(anchors[b].similarity)
                && forall|i: int|
                0 <= i < anchors.len() ==> !anchors[b].similarity.lt_spec(
                    (#[trigger] anchors[i]).similarity,
                ),
            None => forall|i: int|
                0 <= i < anchors.len() ==> !threshold.le_spec((#[trigger] anchors[i]).similarity),
        },
{
    let s = similarities(anchors);
    let t = uniform(threshold, anchors.len());
    the_nearest_anchor_above_threshold_is_chosen(s, t, anchors.len() as int);
    assert forall|i: int| 0 <= i < anchors.len() implies s[i] == (#[trigger] anchors[i]).similarity
        && t[i] == threshold by {}
    match domain_of(anchors, threshold) {
        Some(b) => {
            assert(s[b] == anchors[b].similarity && t[b] == threshold);
            assert forall|i: int| 0 <= i < anchors.len() implies !anchors[b].similarity.lt_spec(
                (#[trigger] anchors[i]).similarity,
            ) by {
                assert(t[i] == threshold && s[i] == anchors[i].similarity);
            }
        },
        None => {
            assert forall|i: int| 0 <= i < anchors.len() implies !threshold.le_spec(
                (#[trigger] anchors[i]).similarity,
            ) by {
                assert(t[i] == threshold && s[i] == anchors[i].similarity);
            }
        },
    }
}

/// The first so many elements are a beginning of the list, as long as was asked
/// where there are as many.
pub proof fn the_first_elements_are_a_beginning<T>(s: Seq<T>, n: nat)
    ensures
        n <= s.len() ==> first(s, n).len() == n,
        n > s.len() ==> first(s, n).len() == s.len(),
        forall|i: int| 0 <= i < first(s, n).len() ==> first(s, n)[i] == s[i],
{
}

} // verus!
