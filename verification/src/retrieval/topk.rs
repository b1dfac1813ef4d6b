//! A bounded collector of the best candidates.
//!
//! A scan streams millions of rows through it, so it holds no more than it was
//! made for and never the input.

use vstd::prelude::*;
use vstd::multiset::Multiset;

use crate::engine::factors::is_shuffle;
use crate::order::{arrange, arranged, Ordered};
use crate::score::Score;

verus! {

/// One scored candidate.
#[derive(Debug, PartialEq)]
pub struct Scored {
    pub id: String,
    pub score: Score,
}

/// A candidate, as what it says.
pub ghost struct Candidate {
    pub id: Seq<char>,
    pub score: Score,
}

impl Scored {
    pub open spec fn view(self) -> Candidate {
        Candidate { id: self.id@, score: self.score }
    }
}

/// The candidates of a list, as what they say.
pub open spec fn candidates(v: Seq<Scored>) -> Seq<Candidate> {
    v.map_values(|s: Scored| s@)
}

/// The higher score stands first.
impl Ordered for Scored {
    open spec fn ahead(&self, other: &Self) -> bool {
        self.score.rank() > other.score.rank()
    }

    proof fn ahead_is_an_order(a: &Self, b: &Self, c: &Self) {
    }

    fn is_ahead(&self, other: &Self) -> bool {
        other.score.rank_before(self.score)
    }
}

/// The place of the first of the worst candidates among the first `n`.
pub open spec fn worst_upto(s: Seq<Candidate>, n: int) -> int
    decreases n,
{
    if n <= 1 {
        0
    } else {
        let w = worst_upto(s, n - 1);
        if s[n - 1].score.rank() < s[w].score.rank() {
            n - 1
        } else {
            w
        }
    }
}

proof fn worst_is_worst(s: Seq<Candidate>, n: int)
    requires
        1 <= n <= s.len(),
    ensures
        0 <= worst_upto(s, n) < n,
        forall|i: int|
            0 <= i < n ==> s[worst_upto(s, n)].score.rank() <= (#[trigger] s[i]).score.rank(),
    decreases n,
{
    if n > 1 {
        worst_is_worst(s, n - 1);
    }
}

/// What a collector of `k` holds after one more candidate is offered: what is
/// not a number is refused; while there is room the candidate is kept; then it
/// takes the place of a worst one that it beats.
pub open spec fn offered(s: Seq<Candidate>, k: nat, c: Candidate) -> Seq<Candidate> {
    if k == 0 || c.score.nan() {
        s
    } else if s.len() < k {
        s.push(c)
    } else {
        let w = worst_upto(s, s.len() as int);
        if s[w].score.lt_spec(c.score) {
            s.remove(w).push(c)
        } else {
            s
        }
    }
}

/// Keeps the best `k` candidates seen, in room for `k`.
#[derive(Debug)]
pub struct TopK {
    k: usize,
    kept: Vec<Scored>,
}

impl TopK {
    #[verifier::type_invariant]
    spec fn bounded(self) -> bool {
        &&& self.kept@.len() <= self.k
        &&& forall|i: int| 0 <= i < self.kept@.len() ==> !(#[trigger] self.kept@[i]).score.nan()
    }

    /// How many candidates there is room for.
    pub closed spec fn width(self) -> nat {
        self.k as nat
    }

    /// The candidates that are held.
    pub closed spec fn view(self) -> Seq<Candidate> {
        candidates(self.kept@)
    }

    /// The candidates that are held, in memory.
    pub closed spec fn held(self) -> Seq<Scored> {
        self.kept@
    }

    /// A collector of that width.
    pub fn new(k: usize) -> (r: TopK)
        ensures
            r.width() == k,
            r@ == Seq::<Candidate>::empty(),
    {
        let r = TopK { k, kept: Vec::new() };
        assert(r@ =~= Seq::<Candidate>::empty());
        r
    }

    /// Offers a candidate. The id is copied only when the candidate is
    /// admitted.
    ///
    /// What is not a number is refused outright: once admitted, nothing would
    /// compare above it, and it would lock out every better candidate.
    pub fn offer(&mut self, id: &str, score: Score)
        ensures
            final(self).width() == old(self).width(),
            final(self)@ == offered(
                old(self)@,
                old(self).width(),
                (Candidate { id: id@, score }),
            ),
            final(self)@.len() <= final(self).width(),
    {
        proof {
            use_type_invariant(&*self);
        }
        let ghost before = candidates(self.kept@);
        let ghost c = Candidate { id: id@, score };
        if self.k == 0 || score.is_nan() {
            return;
        }
        let mut w: usize = 0;
        if self.kept.len() >= self.k {
            let mut i: usize = 1;
            while i < self.kept.len()
                invariant
                    1 <= i <= self.kept@.len(),
                    before == candidates(self.kept@),
                    w == worst_upto(before, i as int),
                    w < i,
                decreases self.kept@.len() - i,
            {
                assert(before[i as int] == self.kept@[i as int]@);
                assert(before[w as int] == self.kept@[w as int]@);
                if self.kept[i].score.rank_before(self.kept[w].score) {
                    w = i;
                }
                i = i + 1;
            }
            assert(before[w as int] == self.kept@[w as int]@);
            if !self.kept[w].score.lt(score) {
                return;
            }
        }
        let full = self.kept.len() >= self.k;
        let mut held = TopK { k: 0, kept: Vec::new() };
        core::mem::swap(self, &mut held);
        let k = held.k;
        let mut kept = held.kept;
        if full {
            kept.remove(w);
        }
        kept.push(Scored { id: id.to_owned(), score });
        proof {
            if full {
                assert(candidates(kept@) =~= before.remove(w as int).push(c));
            } else {
                assert(candidates(kept@) =~= before.push(c));
            }
        }
        *self = TopK { k, kept };
    }

    /// What was kept, best first.
    pub fn into_ranked(self) -> (r: Vec<Scored>)
        ensures
            r@ == arranged(self.held()),
            candidates(self.held()) == self@,
    {
        arrange(self.kept)
    }

    pub fn len(&self) -> (r: usize)
        ensures
            r == self@.len(),
            r <= self.width(),
    {
        proof {
            use_type_invariant(self);
        }
        self.kept.len()
    }

    pub fn is_empty(&self) -> (r: bool)
        ensures
            r == (self@.len() == 0),
    {
        self.kept.len() == 0
    }
}

/// What a collector holds after a stream of candidates.
pub open spec fn collected(k: nat, stream: Seq<Candidate>) -> Seq<Candidate>
    decreases stream.len(),
{
    if stream.len() == 0 {
        Seq::empty()
    } else {
        offered(collected(k, stream.drop_last()), k, stream.last())
    }
}

/// The candidates of a stream that have a number, counted.
pub open spec fn numbered(stream: Seq<Candidate>) -> Multiset<Candidate>
    decreases stream.len(),
{
    if stream.len() == 0 {
        Multiset::empty()
    } else if stream.last().score.nan() {
        numbered(stream.drop_last())
    } else {
        numbered(stream.drop_last()).insert(stream.last())
    }
}

/// However many candidates stream through, a collector holds at most as many
/// as it was made for; it holds them all while they fit; and what it let go is
/// no better than anything it holds.
pub proof fn a_collector_keeps_the_best(k: nat, stream: Seq<Candidate>)
    ensures
        ({
            let kept = collected(k, stream).to_multiset();
            let all = numbered(stream);
            &&& kept.subset_of(all)
            &&& kept.len() == if all.len() <= k {
                all.len()
            } else {
                k
            }
            &&& forall|x: Candidate, y: Candidate|
                #![trigger all.count(x), kept.count(y)]
                all.count(x) > kept.count(x) && kept.count(y) > 0 ==> x.score.rank()
                    <= y.score.rank()
        }),
        forall|i: int|
            0 <= i < collected(k, stream).len() ==> !(#[trigger] collected(k, stream)[i]).score.nan(),
    decreases stream.len(),
{
    broadcast use vstd::seq_lib::group_to_multiset_ensures;

    if stream.len() == 0 {
        assert(collected(k, stream).to_multiset() =~= Multiset::empty());
    } else {
        let rest = stream.drop_last();
        let c = stream.last();
        a_collector_keeps_the_best(k, rest);
        let s = collected(k, rest);
        let t = collected(k, stream);
        let all0 = numbered(rest);
        let all = numbered(stream);
        let kept0 = s.to_multiset();
        let kept = t.to_multiset();
        s.to_multiset_ensures();
        t.to_multiset_ensures();
        assert(kept0.len() == s.len());
        assert(kept.len() == t.len());
        if c.score.nan() {
        } else if k == 0 {
            assert(t == s);
            assert(kept.len() == 0);
        } else if s.len() < k {
            assert(t == s.push(c));
            assert(kept =~= kept0.insert(c));
            assert(all0.len() <= k);
            assert(all.len() == all0.len() + 1);
            assert(kept0.len() == all0.len());
            kept_all_means_equal(kept0, all0);
        } else {
            let w = worst_upto(s, s.len() as int);
            worst_is_worst(s, s.len() as int);
            assert(!s[w].score.nan());
            if s[w].score.lt_spec(c.score) {
                assert(t == s.remove(w).push(c));
                assert(kept =~= kept0.remove(s[w]).insert(c)) by {
                    assert(s.remove(w).to_multiset() =~= s.to_multiset().remove(s[w]));
                }
                assert forall|x: Candidate, y: Candidate|
                    #![trigger all.count(x), kept.count(y)]
                    all.count(x) > kept.count(x) && kept.count(y) > 0 implies x.score.rank()
                    <= y.score.rank() by {
                    // What is let go is the worst one, or was let go before.
                    let m = s[w].score.rank();
                    if y == c {
                    } else {
                        assert(kept0.count(y) > 0);
                        assert(s.contains(y));
                        let j = s.index_of(y);
                        assert(s[w].score.rank() <= s[j].score.rank());
                    }
                    assert(kept0.count(s[w]) > 0);
                    if x == s[w] {
                    } else if all0.count(x) > kept0.count(x) {
                        assert(x.score.rank() <= m);
                    } else {
                        assert(x == c);
                        assert(all.count(x) == all0.count(x) + 1);
                        assert(kept.count(x) == kept0.count(x) + 1);
                    }
                }
            } else {
                assert(t == s);
                assert forall|x: Candidate, y: Candidate|
                    #![trigger all.count(x), kept.count(y)]
                    all.count(x) > kept.count(x) && kept.count(y) > 0 implies x.score.rank()
                    <= y.score.rank() by {
                    assert(s.contains(y));
                    let j = s.index_of(y);
                    assert(s[w].score.rank() <= s[j].score.rank());
                    if x == c {
                        assert(c.score.rank() <= s[w].score.rank());
                    } else {
                        assert(all0.count(x) == all.count(x));
                    }
                }
            }
        }
    }
}

proof fn kept_all_means_equal(a: Multiset<Candidate>, b: Multiset<Candidate>)
    requires
        a.subset_of(b),
        a.len() == b.len(),
    ensures
        a == b,
{
    broadcast use vstd::multiset::group_multiset_axioms;

    let d = b.sub(a);
    assert(d.len() == 0);
    assert forall|x: Candidate| a.count(x) == b.count(x) by {
        if b.count(x) > a.count(x) {
            assert(d.count(x) > 0);
            assert(d.remove(x).len() == d.len() - 1);
        }
    }
    assert(a =~= b);
}

/// A stream's candidates that have a number are counted as often as they occur,
/// and those that have none are not.
pub proof fn every_number_of_a_stream_counts(stream: Seq<Candidate>, c: Candidate)
    ensures
        numbered(stream).count(c) == if c.score.nan() {
            0nat
        } else {
            stream.to_multiset().count(c)
        },
    decreases stream.len(),
{
    broadcast use vstd::seq_lib::group_to_multiset_ensures;

    if stream.len() > 0 {
        every_number_of_a_stream_counts(stream.drop_last(), c);
        assert(stream =~= stream.drop_last().push(stream.last()));
    } else {
        assert(stream.to_multiset().len() == 0);
        assert(stream.to_multiset().count(c) == 0);
    }
}

/// What was kept comes out best first: every candidate once, and no later one
/// with a higher score.
pub proof fn the_best_comes_out_first(held: Seq<Scored>) -> (p: Seq<int>)
    ensures
        is_shuffle(p, held.len()),
        arranged(held).len() == held.len(),
        forall|i: int| 0 <= i < p.len() ==> arranged(held)[i] == held[#[trigger] p[i]],
        forall|i: int, j: int|
            #![trigger p[i], p[j]]
            0 <= i < j < p.len() ==> held[p[i]].score.rank() > held[p[j]].score.rank() || (
            held[p[i]].score.rank() == held[p[j]].score.rank() && p[i] < p[j]),
{
    let p = crate::order::arranging_is_stable(held);
    crate::order::arranging_orders(held);
    crate::order::arranging_keeps_elements(held);
    let r = arranged(held);
    assert forall|i: int, j: int|
        #![trigger p[i], p[j]]
        0 <= i < j < p.len() implies held[p[i]].score.rank() > held[p[j]].score.rank() || (
    held[p[i]].score.rank() == held[p[j]].score.rank() && p[i] < p[j]) by {
        assert(!r[j].ahead(&r[i]));
    }
    p
}

} // verus!
