//! Domain detection with a threshold per domain, and cluster ranking.

use vstd::prelude::*;

use crate::engine::factors::is_shuffle;
use crate::engine::routing::{domain_of, first, nearest_anchor, nearest_upto, AnchorMatch};
use crate::order::{arrange, arranged, arranging_ignores_arrival, Ordered};
use crate::score::Score;

verus! {

/// A cluster chosen for probing, with the score that chose it.
#[derive(Debug, Clone, Copy, PartialEq)]
pub struct ProbedCluster {
    pub cluster_id: i32,
    pub similarity: Score,
    pub row_count: i64,
}

/// The outcome of domain detection.
#[derive(Debug, PartialEq)]
pub struct DetectedDomain {
    pub id: String,
    pub similarity: Score,
}

/// A knowledge base, how near the query is to its anchor, and how near it has
/// to be.
#[derive(Debug, PartialEq)]
pub struct CalibratedAnchor {
    pub id: String,
    pub similarity: Score,
    pub threshold: Score,
}

/// The similarities of a list of anchors.
pub open spec fn nearness(v: Seq<CalibratedAnchor>) -> Seq<Score> {
    v.map_values(|a: CalibratedAnchor| a.similarity)
}

/// The thresholds of a list of anchors.
pub open spec fn bars(v: Seq<CalibratedAnchor>) -> Seq<Score> {
    v.map_values(|a: CalibratedAnchor| a.threshold)
}

/// The place of the domain that a query belongs to.
pub open spec fn detected(anchors: Seq<CalibratedAnchor>) -> Option<int> {
    nearest_upto(nearness(anchors), bars(anchors), anchors.len() as int)
}

/// Matches a query against the anchors, each with a threshold of its own: two
/// knowledge bases occupy differently shaped regions, and one shared cut-off
/// would be too tight for one and too loose for the other.
///
/// `None` is a result and no error.
pub fn detect_domain_with(anchors: &Vec<CalibratedAnchor>) -> (r: Option<DetectedDomain>)
    ensures
        match r {
            Some(d) => {
                &&& detected(anchors@) is Some
                &&& d.id == anchors@[detected(anchors@)->0].id
                &&& d.similarity == anchors@[detected(anchors@)->0].similarity
            },
            None => detected(anchors@) is None,
        },
{
    let mut near: Vec<Score> = Vec::new();
    let mut reach: Vec<Score> = Vec::new();
    let mut i: usize = 0;
    while i < anchors.len()
        invariant
            i <= anchors@.len(),
            near@ == nearness(anchors@).take(i as int),
            reach@ == bars(anchors@).take(i as int),
        decreases anchors@.len() - i,
    {
        near.push(anchors[i].similarity);
        reach.push(anchors[i].threshold);
        assert(near@ =~= nearness(anchors@).take(i + 1));
        assert(reach@ =~= bars(anchors@).take(i + 1));
        i = i + 1;
    }
    assert(near@ =~= nearness(anchors@));
    assert(reach@ =~= bars(anchors@));
    match nearest_anchor(&near, &reach) {
        Some(b) => Some(
            DetectedDomain { id: anchors[b].id.clone(), similarity: anchors[b].similarity },
        ),
        None => None,
    }
}

/// Matches a query against the anchors under one threshold for all.
pub fn detect_domain(anchors: &Vec<AnchorMatch>, threshold: Score) -> (r: Option<DetectedDomain>)
    ensures
        match r {
            Some(d) => {
                &&& domain_of(anchors@, threshold) is Some
                &&& d.id == anchors@[domain_of(anchors@, threshold)->0].id
                &&& d.similarity == anchors@[domain_of(anchors@, threshold)->0].similarity
            },
            None => domain_of(anchors@, threshold) is None,
        },
{
    match crate::engine::routing::detect_domain(anchors, threshold) {
        Some((id, similarity)) => Some(DetectedDomain { id, similarity }),
        None => None,
    }
}

/// The nearer cluster stands first, and of equally near ones the lower id.
impl Ordered for ProbedCluster {
    open spec fn ahead(&self, other: &Self) -> bool {
        self.similarity.rank() > other.similarity.rank() || (self.similarity.rank()
            == other.similarity.rank() && self.cluster_id < other.cluster_id)
    }

    proof fn ahead_is_an_order(a: &Self, b: &Self, c: &Self) {
    }

    fn is_ahead(&self, other: &Self) -> bool {
        other.similarity.rank_before(self.similarity) || (!self.similarity.rank_before(
            other.similarity,
        ) && self.cluster_id < other.cluster_id)
    }
}

/// Ranks centroids and takes the `n` nearest.
pub fn nearest_clusters(centroids: Vec<ProbedCluster>, n: usize) -> (r: Vec<ProbedCluster>)
    ensures
        r@ == first(arranged(centroids@), n as nat),
{
    let mut ranked = arrange(centroids);
    let ghost all = ranked@;
    ranked.truncate(n);
    assert(ranked@ =~= first(all, n as nat));
    ranked
}

/// The order in which clusters arrive does not reach which of them are
/// nearest, nor their order: every arrangement gives the same. Left out are
/// lists with two different entries for one cluster, equally near.
pub proof fn nearest_clusters_ignore_arrival(a: Seq<ProbedCluster>, b: Seq<ProbedCluster>, n: nat)
    requires
        a.to_multiset() == b.to_multiset(),
        forall|i: int, j: int|
            #![trigger a[i], a[j]]
            0 <= i < a.len() && 0 <= j < a.len() && a[i].cluster_id == a[j].cluster_id
                && a[i].similarity.rank() == a[j].similarity.rank() ==> a[i] == a[j],
    ensures
        first(arranged(a), n) == first(arranged(b), n),
{
    broadcast use vstd::seq_lib::group_to_multiset_ensures;

    let key = |c: ProbedCluster| c;
    assert(a.map_values(key) =~= a);
    assert(b.map_values(key) =~= b);
    assert forall|i: int, j: int|
        #![trigger a[i], b[j]]
        0 <= i < a.len() && 0 <= j < b.len() && !a[i].ahead(&b[j]) && !b[j].ahead(
            &a[i],
        ) implies key(a[i]) == key(b[j]) by {
        assert(b.contains(b[j]));
        assert(a.to_multiset().contains(b[j]));
        let k = a.index_of(b[j]);
        assert(a[k] == b[j]);
    }
    arranging_ignores_arrival(a, b, key);
    assert(arranged(a).map_values(key) =~= arranged(a));
    assert(arranged(b).map_values(key) =~= arranged(b));
}

/// The clusters that are chosen are the nearest: some of those there are, each
/// once, nearest first and of equally near ones the lower id; none that was left
/// out is nearer than one that was chosen, and none is left out within the
/// number asked for.
pub proof fn the_nearest_clusters_are_probed(all: Seq<ProbedCluster>, n: nat) -> (p: Seq<int>)
    ensures
        ({
            let r = first(arranged(all), n);
            &&& is_shuffle(p, all.len())
            &&& r.len() == if n < all.len() {
                n
            } else {
                all.len()
            }
            &&& forall|i: int| 0 <= i < r.len() ==> r[i] == all[#[trigger] p[i]]
            &&& forall|i: int, j: int|
                #![trigger p[i], p[j]]
                0 <= i < j < p.len() ==> all[p[i]].similarity.rank() > all[p[j]].similarity.rank() || (
                all[p[i]].similarity.rank() == all[p[j]].similarity.rank() && all[p[i]].cluster_id
                    <= all[p[j]].cluster_id)
        }),
{
    let p = crate::order::arranging_is_stable(all);
    crate::order::arranging_orders(all);
    crate::order::arranging_keeps_elements(all);
    let t = arranged(all);
    assert forall|i: int, j: int|
        #![trigger p[i], p[j]]
        0 <= i < j < p.len() implies all[p[i]].similarity.rank() > all[p[j]].similarity.rank() || (
    all[p[i]].similarity.rank() == all[p[j]].similarity.rank() && all[p[i]].cluster_id
        <= all[p[j]].cluster_id) by {
        assert(t[i] == all[p[i]] && t[j] == all[p[j]]);
        assert(!t[j].ahead(&t[i]));
    }
    p
}

/// A domain is detected where, and only where, an anchor reaches the threshold
/// of its own, and none that reaches its own is nearer.
pub proof fn a_detected_domain_reaches_its_own_threshold(anchors: Seq<CalibratedAnchor>)
    ensures
        match detected(anchors) {
            Some(b) => 0 <= b < anchors.len() && anchors[b].threshold.le_spec(anchors[b].similarity)
                && forall|i: int|
                0 <= i < anchors.len() && (#[trigger] anchors[i]).threshold.le_spec(
                    anchors[i].similarity,
                ) ==> !anchors[b].similarity.lt_spec(anchors[i].similarity),
            None => forall|i: int|
                0 <= i < anchors.len() ==> !(#[trigger] anchors[i]).threshold.le_spec(
                    anchors[i].similarity,
                ),
        },
{
    let s = nearness(anchors);
    let t = bars(anchors);
    crate::engine::routing::the_nearest_anchor_above_threshold_is_chosen(
        s,
        t,
        anchors.len() as int,
    );
    assert forall|i: int| 0 <= i < anchors.len() implies s[i] == (#[trigger] anchors[i]).similarity
        && t[i] == anchors[i].threshold by {}
    match detected(anchors) {
        Some(b) => {
            assert(s[b] == anchors[b].similarity && t[b] == anchors[b].threshold);
            assert forall|i: int|
                0 <= i < anchors.len() && (#[trigger] anchors[i]).threshold.le_spec(
                    anchors[i].similarity,
                ) implies !anchors[b].similarity.lt_spec(anchors[i].similarity) by {
                assert(t[i] == anchors[i].threshold && s[i] == anchors[i].similarity);
            }
        },
        None => {
            assert forall|i: int| 0 <= i < anchors.len() implies !(
            #[trigger] anchors[i]).threshold.le_spec(anchors[i].similarity) by {
                assert(t[i] == anchors[i].threshold && s[i] == anchors[i].similarity);
            }
        },
    }
}

} // verus!
