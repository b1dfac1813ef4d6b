//! Latency percentiles and retrieval quality.
//!
//! Percentiles, not means: a mean hides a tail that is starving.

use vstd::prelude::*;

use crate::contract::chunk::Domain;
use crate::engine::routing::first;
use crate::order::{arranged, in_order, picks, picks_one_more};
use crate::sample::{percentile, percentile_of, sorted_sample};
use crate::text::{list_contains, same, texts};

verus! {

/// A sorted sample of durations in nanoseconds.
#[derive(Debug, PartialEq, Eq)]
pub struct Latencies {
    nanos: Vec<u64>,
}

impl Latencies {
    /// The durations in ascending order.
    pub closed spec fn view(self) -> Seq<u64> {
        self.nanos@
    }

    /// Collects and sorts.
    pub fn from_durations(samples: Vec<u64>) -> (r: Latencies)
        ensures
            r@ == arranged(samples@),
            in_order(r@),
            r@.len() == samples@.len(),
    {
        Latencies { nanos: sorted_sample(samples) }
    }

    /// Nearest-rank percentile.
    pub fn percentile(&self, percent: u8) -> (r: u64)
        ensures
            r == percentile_of(self@, percent as nat),
    {
        percentile(&self.nanos, percent)
    }

    pub fn p50(&self) -> (r: u64)
        ensures
            r == percentile_of(self@, 50),
    {
        self.percentile(50)
    }

    pub fn p95(&self) -> (r: u64)
        ensures
            r == percentile_of(self@, 95),
    {
        self.percentile(95)
    }

    pub fn p99(&self) -> (r: u64)
        ensures
            r == percentile_of(self@, 99),
    {
        self.percentile(99)
    }

    /// The longest duration; zero where there is none.
    pub fn max(&self) -> (r: u64)
        ensures
            r == if self@.len() == 0 {
                0
            } else {
                self@.last()
            },
    {
        let n = self.nanos.len();
        if n == 0 {
            0
        } else {
            self.nanos[n - 1]
        }
    }

    /// The durations added up.
    pub fn total(&self) -> (r: u128)
        ensures
            r == total_upto(self@, self@.len() as int),
    {
        let mut sum: u128 = 0;
        let n = self.nanos.len();
        let mut i: usize = 0;
        while i < n
            invariant
                i <= n,
                n == self.nanos@.len(),
                sum == total_upto(self.nanos@, i as int),
                sum <= i * (u64::MAX as int),
            decreases n - i,
        {
            assert(i * (u64::MAX as int) + u64::MAX <= u128::MAX) by (nonlinear_arith)
                requires
                    0 <= i < usize::MAX,
            ;
            sum = sum + self.nanos[i] as u128;
            assert((i + 1) * (u64::MAX as int) == i * (u64::MAX as int) + u64::MAX)
                by (nonlinear_arith);
            i = i + 1;
        }
        sum
    }

    pub fn len(&self) -> (r: usize)
        ensures
            r == self@.len(),
    {
        self.nanos.len()
    }

    pub fn is_empty(&self) -> (r: bool)
        ensures
            r == (self@.len() == 0),
    {
        self.nanos.len() == 0
    }
}

/// The first `n` durations added up.
pub open spec fn total_upto(v: Seq<u64>, n: int) -> nat
    decreases n,
{
    if n <= 0 {
        0
    } else {
        total_upto(v, n - 1) + v[n - 1] as nat
    }
}

/// How much of something was found: a share, before it is divided.
#[derive(Debug, Clone, Copy, PartialEq, Eq)]
pub struct Share {
    pub found: usize,
    pub of: usize,
}

/// How many of the first `n` texts of a list are among others.
pub open spec fn among_upto(v: Seq<Seq<char>>, others: Seq<Seq<char>>, n: int) -> nat
    decreases n,
{
    if n <= 0 {
        0
    } else if others.contains(v[n - 1]) {
        among_upto(v, others, n - 1) + 1
    } else {
        among_upto(v, others, n - 1)
    }
}

/// How many different texts the first `n` of a list are.
pub open spec fn distinct_upto(v: Seq<Seq<char>>, n: int) -> nat
    decreases n,
{
    if n <= 0 {
        0
    } else if v.take(n - 1).contains(v[n - 1]) {
        distinct_upto(v, n - 1)
    } else {
        distinct_upto(v, n - 1) + 1
    }
}

fn leading(v: &Vec<String>, k: usize) -> (r: Vec<String>)
    ensures
        texts(r@) == first(texts(v@), k as nat),
{
    let mut out: Vec<String> = Vec::new();
    let mut i: usize = 0;
    while i < v.len() && i < k
        invariant
            i <= v@.len(),
            i <= k,
            out@.len() == i,
            forall|m: int| 0 <= m < i ==> (#[trigger] out@[m])@ == v@[m]@,
        decreases v@.len() - i,
    {
        out.push(v[i].clone());
        i = i + 1;
    }
    assert(texts(out@) =~= first(texts(v@), k as nat));
    out
}

/// How much of the exhaustive top `k` a routed search also found. Where there
/// is nothing to recall, the recall is perfect: one of one.
pub fn recall_at_k(routed: &Vec<String>, baseline: &Vec<String>, k: usize) -> (r: Share)
    ensures
        ({
            let truth = first(texts(baseline@), k as nat);
            let tried = first(texts(routed@), k as nat);
            if truth.len() == 0 {
                r.found == 1 && r.of == 1
            } else {
                r.found == among_upto(tried, truth, tried.len() as int) && r.of == distinct_upto(
                    truth,
                    truth.len() as int,
                )
            }
        }),
{
    let truth = leading(baseline, k);
    let tried = leading(routed, k);
    let ghost want = first(texts(baseline@), k as nat);
    let ghost have = first(texts(routed@), k as nat);
    assert(want.len() == truth@.len());
    assert(have.len() == tried@.len());
    if truth.len() == 0 {
        return Share { found: 1, of: 1 };
    }
    let mut found: usize = 0;
    let mut i: usize = 0;
    while i < tried.len()
        invariant
            i <= tried@.len(),
            texts(tried@) == have,
            texts(truth@) == want,
            found == among_upto(have, want, i as int),
            found <= i,
        decreases tried@.len() - i,
    {
        assert(have[i as int] == tried@[i as int]@);
        if list_contains(&truth, tried[i].as_str()) {
            found = found + 1;
        }
        i = i + 1;
    }
    let mut of: usize = 0;
    let mut seen: Vec<String> = Vec::new();
    let mut j: usize = 0;
    assert(texts(seen@) =~= want.take(0));
    while j < truth.len()
        invariant
            j <= truth@.len(),
            texts(truth@) == want,
            want.len() == truth@.len(),
            texts(seen@) == want.take(j as int),
            of == distinct_upto(want, j as int),
            of <= j,
        decreases truth@.len() - j,
    {
        assert(want[j as int] == truth@[j as int]@);
        if !list_contains(&seen, truth[j].as_str()) {
            of = of + 1;
        }
        let ghost before = texts(seen@);
        seen.push(truth[j].clone());
        assert(texts(seen@) =~= before.push(want[j as int]));
        assert(texts(seen@) =~= want.take(j + 1));
        j = j + 1;
    }
    Share { found, of }
}

/// Where a chunk lives.
#[derive(Debug, PartialEq, Eq)]
pub struct Home {
    pub id: String,
    pub cluster: i32,
}

/// The cluster of a chunk, from the `i`-th entry on.
pub open spec fn cluster_from(homes: Seq<Home>, id: Seq<char>, i: int) -> Option<i32>
    decreases homes.len() - i,
{
    if i >= homes.len() {
        None
    } else if homes[i].id@ == id {
        Some(homes[i].cluster)
    } else {
        cluster_from(homes, id, i + 1)
    }
}

fn find_cluster(homes: &Vec<Home>, id: &str) -> (r: Option<i32>)
    ensures
        r == cluster_from(homes@, id@, 0),
{
    let mut i: usize = 0;
    while i < homes.len()
        invariant
            i <= homes@.len(),
            cluster_from(homes@, id@, 0) == cluster_from(homes@, id@, i as int),
        decreases homes@.len() - i,
    {
        if same(homes[i].id.as_str(), id) {
            return Some(homes[i].cluster);
        }
        i = i + 1;
    }
    None
}

/// Whether a chunk lies in a cluster that was probed.
pub open spec fn reachable(homes: Seq<Home>, probed: Seq<i32>, id: Seq<char>) -> bool {
    match cluster_from(homes, id, 0) {
        Some(c) => probed.contains(c),
        None => false,
    }
}

/// How many of the first `n` chunks lie in a cluster that was probed.
pub open spec fn reachable_upto(v: Seq<Seq<char>>, homes: Seq<Home>, probed: Seq<i32>, n: int) -> nat
    decreases n,
{
    if n <= 0 {
        0
    } else if reachable(homes, probed, v[n - 1]) {
        reachable_upto(v, homes, probed, n - 1) + 1
    } else {
        reachable_upto(v, homes, probed, n - 1)
    }
}

fn has_cluster(probed: &Vec<i32>, c: i32) -> (r: bool)
    ensures
        r == probed@.contains(c),
{
    let mut i: usize = 0;
    while i < probed.len()
        invariant
            i <= probed@.len(),
            forall|k: int| 0 <= k < i ==> #[trigger] probed@[k] != c,
        decreases probed@.len() - i,
    {
        if probed[i] == c {
            assert(probed@[i as int] == c);
            return true;
        }
        i = i + 1;
    }
    false
}

/// How much of the true top `k` lies in a cluster that the query probed. It
/// tells a routing miss from a ranking miss: a chunk of no known cluster is
/// unreachable.
pub fn routing_recall(
    baseline: &Vec<String>,
    homes: &Vec<Home>,
    probed: &Vec<i32>,
    k: usize,
) -> (r: Share)
    ensures
        ({
            let truth = first(texts(baseline@), k as nat);
            if truth.len() == 0 {
                r.found == 1 && r.of == 1
            } else {
                r.found == reachable_upto(truth, homes@, probed@, truth.len() as int) && r.of
                    == truth.len()
            }
        }),
{
    let truth = leading(baseline, k);
    let ghost want = first(texts(baseline@), k as nat);
    assert(want.len() == truth@.len());
    if truth.len() == 0 {
        return Share { found: 1, of: 1 };
    }
    let mut found: usize = 0;
    let mut i: usize = 0;
    while i < truth.len()
        invariant
            i <= truth@.len(),
            texts(truth@) == want,
            found == reachable_upto(want, homes@, probed@, i as int),
            found <= i,
        decreases truth@.len() - i,
    {
        assert(want[i as int] == truth@[i as int]@);
        match find_cluster(homes, truth[i].as_str()) {
            Some(c) => {
                if has_cluster(probed, c) {
                    found = found + 1;
                }
            },
            None => {},
        }
        i = i + 1;
    }
    Share { found, of: truth.len() }
}

/// The place of a text in a list, from the `i`-th on.
pub open spec fn place_from(v: Seq<Seq<char>>, t: Seq<char>, i: int) -> Option<int>
    decreases v.len() - i,
{
    if i >= v.len() {
        None
    } else if v[i] == t {
        Some(i)
    } else {
        place_from(v, t, i + 1)
    }
}

/// The rank, counted from one, at which a routed search has the best baseline
/// result, as a share: one of the rank, none of one where it is missing, and
/// one of one where there is nothing to find.
pub fn reciprocal_rank(routed: &Vec<String>, baseline: &Vec<String>) -> (r: Share)
    ensures
        ({
            let found = texts(routed@);
            if baseline@.len() == 0 {
                r.found == 1 && r.of == 1
            } else {
                match place_from(found, baseline@[0]@, 0) {
                    Some(i) => r.found == 1 && r.of == i + 1,
                    None => r.found == 0 && r.of == 1,
                }
            }
        }),
{
    if baseline.len() == 0 {
        return Share { found: 1, of: 1 };
    }
    let ghost all = texts(routed@);
    let n = routed.len();
    let mut i: usize = 0;
    while i < n
        invariant
            i <= n,
            n == routed@.len(),
            all == texts(routed@),
            baseline@.len() > 0,
            place_from(all, baseline@[0]@, 0) == place_from(all, baseline@[0]@, i as int),
        decreases n - i,
    {
        assert(all[i as int] == routed@[i as int]@);
        if same(routed[i].as_str(), baseline[0].as_str()) {
            return Share { found: 1, of: i + 1 };
        }
        i = i + 1;
    }
    Share { found: 0, of: 1 }
}

/// Whether the single best baseline result survived routing in first place.
pub fn top1_hit(routed: &Vec<String>, baseline: &Vec<String>) -> (r: bool)
    ensures
        r == if baseline@.len() == 0 {
            true
        } else {
            routed@.len() > 0 && routed@[0]@ == baseline@[0]@
        },
{
    if baseline.len() == 0 {
        return true;
    }
    routed.len() > 0 && same(routed[0].as_str(), baseline[0].as_str())
}

/// Recall never exceeds what there is to find, where nothing is routed twice.
pub proof fn recall_is_a_share(tried: Seq<Seq<char>>, truth: Seq<Seq<char>>)
    requires
        tried.no_duplicates(),
    ensures
        among_upto(tried, truth, tried.len() as int) <= distinct_upto(truth, truth.len() as int),
{
    let n = tried.len() as int;
    let m = truth.len() as int;
    distinct_counts_members(truth, m);
    found_are_members(tried, truth, n);
    let hits = tried.take(n).to_set().intersect(truth.take(m).to_set());
    assert(tried.take(n) =~= tried);
    assert(truth.take(m) =~= truth);
    vstd::seq_lib::seq_to_set_is_finite(truth);
    vstd::set_lib::lemma_len_subset(hits, truth.to_set());
}

proof fn distinct_counts_members(v: Seq<Seq<char>>, n: int)
    requires
        0 <= n <= v.len(),
    ensures
        distinct_upto(v, n) == v.take(n).to_set().len(),
        v.take(n).to_set().finite(),
    decreases n,
{
    vstd::seq_lib::seq_to_set_is_finite(v.take(n));
    if n > 0 {
        distinct_counts_members(v, n - 1);
        let past = v.take(n - 1);
        assert(v.take(n) =~= past.push(v[n - 1]));
        assert(v.take(n).to_set() =~= past.to_set().insert(v[n - 1])) by {
            assert forall|t: Seq<char>| #[trigger]
                v.take(n).to_set().contains(t) == past.to_set().insert(v[n - 1]).contains(t) by {
                if past.contains(t) {
                    let k = past.index_of(t);
                    assert(v.take(n)[k] == t);
                }
                if v.take(n).contains(t) {
                    let k = v.take(n).index_of(t);
                    if k < n - 1 {
                        assert(past[k] == t);
                    }
                }
                assert(v.take(n)[n - 1] == v[n - 1]);
            }
        }
        assert(past.to_set().contains(v[n - 1]) == past.contains(v[n - 1]));
    } else {
        assert(v.take(n).to_set() =~= Set::<Seq<char>>::empty());
    }
}

proof fn found_are_members(tried: Seq<Seq<char>>, truth: Seq<Seq<char>>, n: int)
    requires
        0 <= n <= tried.len(),
        tried.no_duplicates(),
    ensures
        among_upto(tried, truth, n) == tried.take(n).to_set().intersect(
            truth.take(truth.len() as int).to_set(),
        ).len(),
        tried.take(n).to_set().intersect(truth.take(truth.len() as int).to_set()).finite(),
    decreases n,
{
    let all = truth.take(truth.len() as int).to_set();
    assert(truth.take(truth.len() as int) =~= truth);
    vstd::seq_lib::seq_to_set_is_finite(tried.take(n));
    if n > 0 {
        found_are_members(tried, truth, n - 1);
        let past = tried.take(n - 1);
        let x = tried[n - 1];
        assert(!past.contains(x)) by {
            if past.contains(x) {
                let k = past.index_of(x);
                assert(tried[k] == x);
            }
        }
        assert(tried.take(n).to_set() =~= past.to_set().insert(x)) by {
            assert forall|t: Seq<char>| #[trigger]
                tried.take(n).to_set().contains(t) == past.to_set().insert(x).contains(t) by {
                if past.contains(t) {
                    let k = past.index_of(t);
                    assert(tried.take(n)[k] == t);
                }
                if tried.take(n).contains(t) {
                    let k = tried.take(n).index_of(t);
                    if k < n - 1 {
                        assert(past[k] == t);
                    }
                }
                assert(tried.take(n)[n - 1] == x);
            }
        }
        let before = past.to_set().intersect(all);
        let after = tried.take(n).to_set().intersect(all);
        assert(!past.to_set().contains(x));
        assert(all.contains(x) == truth.contains(x));
        if truth.contains(x) {
            assert(after =~= before.insert(x));
        } else {
            assert(after =~= before);
        }
    } else {
        assert(tried.take(n).to_set().intersect(all) =~= Set::<Seq<char>>::empty());
    }
}

/// How long each stage of a search took, in nanoseconds.
#[derive(Debug, Clone, Copy, PartialEq, Eq)]
pub struct StageTimings {
    pub route_domain: u64,
    pub route_cluster: u64,
    pub leaf_dense: u64,
    pub leaf_keyword: u64,
    pub exact_path: u64,
    pub fuse: u64,
    pub hydrate: u64,
    pub total: u64,
    pub rows_scanned: usize,
}

/// The stages of several searches added up, in nanoseconds.
#[derive(Debug, Clone, Copy, PartialEq, Eq)]
pub struct StageTotals {
    pub route_domain: u128,
    pub route_cluster: u128,
    pub leaf_dense: u128,
    pub leaf_keyword: u128,
    pub exact_path: u128,
    pub fuse: u128,
    pub hydrate: u128,
    pub total: u128,
}

impl Default for StageTotals {
    fn default() -> (r: StageTotals)
        ensures
            r == (StageTotals {
                route_domain: 0,
                route_cluster: 0,
                leaf_dense: 0,
                leaf_keyword: 0,
                exact_path: 0,
                fuse: 0,
                hydrate: 0,
                total: 0,
            }),
    {
        StageTotals {
            route_domain: 0,
            route_cluster: 0,
            leaf_dense: 0,
            leaf_keyword: 0,
            exact_path: 0,
            fuse: 0,
            hydrate: 0,
            total: 0,
        }
    }
}

impl StageTotals {
    /// Whether one search more can be added.
    pub open spec fn has_room(self) -> bool {
        let most = u128::MAX - u64::MAX;
        &&& self.route_domain <= most
        &&& self.route_cluster <= most
        &&& self.leaf_dense <= most
        &&& self.leaf_keyword <= most
        &&& self.exact_path <= most
        &&& self.fuse <= most
        &&& self.hydrate <= most
        &&& self.total <= most
    }

    /// Adds the stages of one search.
    pub fn add(&mut self, t: &StageTimings)
        requires
            old(self).has_room(),
        ensures
            final(self).route_domain == old(self).route_domain + t.route_domain,
            final(self).route_cluster == old(self).route_cluster + t.route_cluster,
            final(self).leaf_dense == old(self).leaf_dense + t.leaf_dense,
            final(self).leaf_keyword == old(self).leaf_keyword + t.leaf_keyword,
            final(self).exact_path == old(self).exact_path + t.exact_path,
            final(self).fuse == old(self).fuse + t.fuse,
            final(self).hydrate == old(self).hydrate + t.hydrate,
            final(self).total == old(self).total + t.total,
    {
        self.route_domain = self.route_domain + t.route_domain as u128;
        self.route_cluster = self.route_cluster + t.route_cluster as u128;
        self.leaf_dense = self.leaf_dense + t.leaf_dense as u128;
        self.leaf_keyword = self.leaf_keyword + t.leaf_keyword as u128;
        self.exact_path = self.exact_path + t.exact_path as u128;
        self.fuse = self.fuse + t.fuse as u128;
        self.hydrate = self.hydrate + t.hydrate as u128;
        self.total = self.total + t.total as u128;
    }
}

/// The rows of the first `n` domains added up.
pub open spec fn rows_upto(domains: Seq<Domain>, n: int) -> int
    decreases n,
{
    if n <= 0 {
        0
    } else {
        rows_upto(domains, n - 1) + domains[n - 1].row_count
    }
}

/// How many rows a corpus has.
pub fn corpus_rows(domains: &Vec<Domain>) -> (r: i128)
    ensures
        r == rows_upto(domains@, domains@.len() as int),
{
    let n = domains.len();
    let mut sum: i128 = 0;
    let mut i: usize = 0;
    while i < n
        invariant
            i <= n,
            n == domains@.len(),
            sum == rows_upto(domains@, i as int),
            -(i * 0x8000_0000_0000_0000) <= sum <= i * 0x8000_0000_0000_0000,
        decreases n - i,
    {
        sum = sum + domains[i].row_count as i128;
        i = i + 1;
    }
    sum
}

// ---------------------------------------------------------------------------
// What counts and places satisfy
// ---------------------------------------------------------------------------

/// The durations of two samples add up, and one alone is itself.
pub proof fn durations_add_up(a: Seq<u64>, b: Seq<u64>, x: u64)
    ensures
        total_upto(a + b, (a + b).len() as int) == total_upto(a, a.len() as int) + total_upto(
            b,
            b.len() as int,
        ),
        total_upto(seq![x], 1) == x,
{
    reveal_with_fuel(total_upto, 2);
    durations_add_up_to(a, b, b.len() as int);
}

proof fn durations_add_up_to(a: Seq<u64>, b: Seq<u64>, n: int)
    requires
        0 <= n <= b.len(),
    ensures
        total_upto(a + b, a.len() + n) == total_upto(a, a.len() as int) + total_upto(b, n),
    decreases n,
{
    if n > 0 {
        durations_add_up_to(a, b, n - 1);
    } else {
        durations_of_a_beginning(a, b, a.len() as int);
    }
}

proof fn durations_of_a_beginning(a: Seq<u64>, b: Seq<u64>, n: int)
    requires
        0 <= n <= a.len(),
    ensures
        total_upto(a + b, n) == total_upto(a, n),
    decreases n,
{
    if n > 0 {
        durations_of_a_beginning(a, b, n - 1);
    }
}

/// What was found is counted one by one: the places whose text is among the
/// others.
pub proof fn what_is_among_others_is_counted(v: Seq<Seq<char>>, others: Seq<Seq<char>>, n: int) -> (q:
    Seq<int>)
    requires
        0 <= n <= v.len(),
    ensures
        picks(q, n, |i: int| others.contains(v[i])),
        among_upto(v, others, n) == q.len(),
    decreases n,
{
    if n <= 0 {
        Seq::empty()
    } else {
        let q = what_is_among_others_is_counted(v, others, n - 1);
        picks_one_more(q, n - 1, |i: int| others.contains(v[i]))
    }
}

/// How many different texts a list has is the size of the set of them.
pub proof fn different_texts_are_counted(v: Seq<Seq<char>>)
    ensures
        distinct_upto(v, v.len() as int) == v.to_set().len(),
{
    distinct_counts_members(v, v.len() as int);
    assert(v.take(v.len() as int) =~= v);
}

/// The cluster of a chunk is that of the first entry with its id, and a chunk
/// without an entry has none.
pub proof fn a_chunk_lives_where_its_first_entry_says(homes: Seq<Home>, id: Seq<char>, i: int)
    requires
        0 <= i <= homes.len(),
        forall|k: int| 0 <= k < i ==> (#[trigger] homes[k]).id@ != id,
        i < homes.len() ==> homes[i].id@ == id,
    ensures
        i < homes.len() ==> cluster_from(homes, id, 0) == Some(homes[i].cluster),
        i == homes.len() ==> cluster_from(homes, id, 0) is None,
{
    looking_goes_on(homes, id, 0, i);
}

proof fn looking_goes_on(homes: Seq<Home>, id: Seq<char>, from: int, i: int)
    requires
        0 <= from <= i <= homes.len(),
        forall|k: int| from <= k < i ==> (#[trigger] homes[k]).id@ != id,
    ensures
        cluster_from(homes, id, from) == cluster_from(homes, id, i),
    decreases i - from,
{
    if from < i {
        looking_goes_on(homes, id, from + 1, i);
    }
}

/// The chunks that can be reached are counted one by one: those whose cluster
/// is known and was probed.
pub proof fn reachable_chunks_are_counted(
    v: Seq<Seq<char>>,
    homes: Seq<Home>,
    probed: Seq<i32>,
    n: int,
) -> (q: Seq<int>)
    requires
        0 <= n <= v.len(),
    ensures
        picks(
            q,
            n,
            |i: int|
                cluster_from(homes, v[i], 0) is Some && probed.contains(
                    cluster_from(homes, v[i], 0)->0,
                ),
        ),
        reachable_upto(v, homes, probed, n) == q.len(),
    decreases n,
{
    let f = |i: int|
        cluster_from(homes, v[i], 0) is Some && probed.contains(cluster_from(homes, v[i], 0)->0);
    if n <= 0 {
        Seq::empty()
    } else {
        let q = reachable_chunks_are_counted(v, homes, probed, n - 1);
        assert(f(n - 1) == reachable(homes, probed, v[n - 1]));
        picks_one_more(q, n - 1, f)
    }
}

/// A text's place in a list is the first one where it stands.
pub proof fn a_text_stands_at_its_first_place(v: Seq<Seq<char>>, t: Seq<char>, i: int)
    requires
        0 <= i <= v.len(),
        forall|k: int| 0 <= k < i ==> #[trigger] v[k] != t,
        i < v.len() ==> v[i] == t,
    ensures
        i < v.len() ==> place_from(v, t, 0) == Some(i),
        i == v.len() ==> place_from(v, t, 0) is None,
{
    placing_goes_on(v, t, 0, i);
}

proof fn placing_goes_on(v: Seq<Seq<char>>, t: Seq<char>, from: int, i: int)
    requires
        0 <= from <= i <= v.len(),
        forall|k: int| from <= k < i ==> #[trigger] v[k] != t,
    ensures
        place_from(v, t, from) == place_from(v, t, i),
    decreases i - from,
{
    if from < i {
        placing_goes_on(v, t, from + 1, i);
    }
}

/// A further domain adds its own rows to those of a corpus.
pub proof fn rows_of_domains_add_up(domains: Seq<Domain>, d: Domain)
    ensures
        rows_upto(domains.push(d), (domains.len() + 1) as int) == rows_upto(domains, domains.len() as int)
            + d.row_count,
        rows_upto(domains, 0) == 0,
{
    rows_of_a_beginning(domains, d, domains.len() as int);
}

proof fn rows_of_a_beginning(domains: Seq<Domain>, d: Domain, n: int)
    requires
        0 <= n <= domains.len(),
    ensures
        rows_upto(domains.push(d), n) == rows_upto(domains, n),
    decreases n,
{
    if n > 0 {
        rows_of_a_beginning(domains, d, n - 1);
    }
}

} // verus!
