//! Putting a list in order: a stable sort, and what it promises.

use vstd::prelude::*;
use vstd::multiset::Multiset;

verus! {

/// Values that a list can be ordered by.
pub trait Ordered: Sized {
    /// Whether `self` has to stand strictly before `other`.
    spec fn ahead(&self, other: &Self) -> bool;

    /// The relation is a strict order whose ties are transitive.
    proof fn ahead_is_an_order(a: &Self, b: &Self, c: &Self)
        ensures
            !a.ahead(a),
            !b.ahead(a) && !c.ahead(b) ==> !c.ahead(a),
            a.ahead(b) ==> !b.ahead(a),
    ;

    fn is_ahead(&self, other: &Self) -> (r: bool)
        ensures
            r == self.ahead(other),
    ;
}

/// `x` put into a list before the first element that does not have to stand
/// before it.
pub open spec fn placed<T: Ordered>(x: T, s: Seq<T>) -> Seq<T>
    decreases s.len(),
{
    if s.len() > 0 && s[0].ahead(&x) {
        seq![s[0]] + placed(x, s.skip(1))
    } else {
        seq![x] + s
    }
}

/// The list in order, ties in the order in which they came.
pub open spec fn arranged<T: Ordered>(s: Seq<T>) -> Seq<T>
    decreases s.len(),
{
    if s.len() == 0 {
        s
    } else {
        placed(s[0], arranged(s.skip(1)))
    }
}

/// No element stands behind one that it has to stand before.
pub open spec fn in_order<T: Ordered>(s: Seq<T>) -> bool {
    forall|i: int, j: int| #![trigger s[i], s[j]] 0 <= i < j < s.len() ==> !s[j].ahead(&s[i])
}

/// `p` says from where in `s` each element of `t` came: every place once, and
/// among ties the earlier one first.
pub open spec fn stable_from<T: Ordered>(s: Seq<T>, t: Seq<T>, p: Seq<int>) -> bool {
    &&& p.len() == s.len()
    &&& t.len() == s.len()
    &&& p.no_duplicates()
    &&& forall|i: int| 0 <= i < p.len() ==> 0 <= #[trigger] p[i] < s.len() && t[i] == s[p[i]]
    &&& forall|i: int, j: int|
        0 <= i < j < p.len() && !t[i].ahead(&t[j]) && !t[j].ahead(&t[i]) ==> #[trigger] p[i]
            < #[trigger] p[j]
}

proof fn placed_keeps_elements<T: Ordered>(x: T, s: Seq<T>)
    ensures
        placed(x, s).to_multiset() == s.to_multiset().insert(x),
        placed(x, s).len() == s.len() + 1,
    decreases s.len(),
{
    broadcast use vstd::seq_lib::group_to_multiset_ensures;

    if s.len() > 0 && s[0].ahead(&x) {
        placed_keeps_elements(x, s.skip(1));
        let rest = placed(x, s.skip(1));
        vstd::seq_lib::lemma_multiset_commutative(seq![s[0]], rest);
        vstd::seq_lib::lemma_multiset_commutative(seq![s[0]], s.skip(1));
        assert(seq![s[0]] + s.skip(1) =~= s);
        assert(placed(x, s).to_multiset() =~= s.to_multiset().insert(x));
    } else {
        vstd::seq_lib::lemma_multiset_commutative(seq![x], s);
        assert(seq![x].to_multiset() =~= Multiset::empty().insert(x)) by {
            assert(seq![x] =~= Seq::<T>::empty().push(x));
        }
        assert(placed(x, s).to_multiset() =~= s.to_multiset().insert(x));
    }
}

/// Ordering a list keeps its elements, each as often as it was there.
pub proof fn arranging_keeps_elements<T: Ordered>(s: Seq<T>)
    ensures
        arranged(s).to_multiset() == s.to_multiset(),
        arranged(s).len() == s.len(),
    decreases s.len(),
{
    broadcast use vstd::seq_lib::group_to_multiset_ensures;

    if s.len() > 0 {
        arranging_keeps_elements(s.skip(1));
        placed_keeps_elements(s[0], arranged(s.skip(1)));
        vstd::seq_lib::lemma_multiset_commutative(seq![s[0]], s.skip(1));
        assert(seq![s[0]] + s.skip(1) =~= s);
        assert(seq![s[0]] =~= Seq::<T>::empty().push(s[0]));
        assert(arranged(s).to_multiset() =~= s.to_multiset());
    }
}

/// What `placed` holds: `x`, or an element of the list.
proof fn placed_members<T: Ordered>(x: T, s: Seq<T>)
    ensures
        placed(x, s).len() == s.len() + 1,
        forall|i: int|
            0 <= i < placed(x, s).len() ==> #[trigger] placed(x, s)[i] == x || s.contains(
                placed(x, s)[i],
            ),
    decreases s.len(),
{
    if s.len() > 0 && s[0].ahead(&x) {
        placed_members(x, s.skip(1));
        let rest = placed(x, s.skip(1));
        assert forall|i: int| 0 <= i < placed(x, s).len() implies #[trigger] placed(x, s)[i] == x
            || s.contains(placed(x, s)[i]) by {
            if i == 0 {
                assert(placed(x, s)[0] == s[0]);
                assert(s.contains(s[0]));
            } else {
                assert(placed(x, s)[i] == rest[i - 1]);
                if rest[i - 1] != x {
                    let k = choose|k: int| 0 <= k < s.skip(1).len() && s.skip(1)[k] == rest[i - 1];
                    assert(s[k + 1] == rest[i - 1]);
                }
            }
        }
    } else {
        assert forall|i: int| 0 <= i < placed(x, s).len() implies #[trigger] placed(x, s)[i] == x
            || s.contains(placed(x, s)[i]) by {
            if i > 0 {
                assert(placed(x, s)[i] == s[i - 1]);
            }
        }
    }
}

proof fn placed_in_order<T: Ordered>(x: T, s: Seq<T>)
    requires
        in_order(s),
    ensures
        in_order(placed(x, s)),
    decreases s.len(),
{
    let t = placed(x, s);
    placed_members(x, s);
    if s.len() > 0 && s[0].ahead(&x) {
        let rest = placed(x, s.skip(1));
        assert(in_order(s.skip(1))) by {
            assert forall|i: int, j: int|
                #![trigger s.skip(1)[i], s.skip(1)[j]]
                0 <= i < j < s.skip(1).len() implies !s.skip(1)[j].ahead(&s.skip(1)[i]) by {
                assert(!s[j + 1].ahead(&s[i + 1]));
            }
        }
        placed_in_order(x, s.skip(1));
        placed_members(x, s.skip(1));
        assert forall|i: int, j: int|
            #![trigger t[i], t[j]]
            0 <= i < j < t.len() implies !t[j].ahead(&t[i]) by {
            assert(t[j] == rest[j - 1]);
            if i > 0 {
                assert(t[i] == rest[i - 1]);
                assert(!rest[j - 1].ahead(&rest[i - 1]));
            } else {
                T::ahead_is_an_order(&s[0], &x, &x);
                if rest[j - 1] != x {
                    let k = choose|k: int| 0 <= k < s.skip(1).len() && s.skip(1)[k] == rest[j - 1];
                    assert(!s[k + 1].ahead(&s[0]));
                }
            }
        }
    } else {
        assert forall|i: int, j: int|
            #![trigger t[i], t[j]]
            0 <= i < j < t.len() implies !t[j].ahead(&t[i]) by {
            assert(t[j] == s[j - 1]);
            if i > 0 {
                assert(t[i] == s[i - 1]);
                assert(!s[j - 1].ahead(&s[i - 1]));
            } else {
                T::ahead_is_an_order(&x, &s[0], &s[j - 1]);
                if j > 1 {
                    assert(!s[j - 1].ahead(&s[0]));
                } else {
                    T::ahead_is_an_order(&s[0], &s[0], &s[0]);
                }
            }
        }
    }
}

/// Ordering a list puts it in order.
pub proof fn arranging_orders<T: Ordered>(s: Seq<T>)
    ensures
        in_order(arranged(s)),
    decreases s.len(),
{
    if s.len() > 0 {
        arranging_orders(s.skip(1));
        placed_in_order(s[0], arranged(s.skip(1)));
    }
}

/// Placing `x` is inserting it at the first place whose element does not have
/// to stand before it.
proof fn placed_at<T: Ordered>(x: T, s: Seq<T>, k: int)
    requires
        0 <= k <= s.len(),
        forall|i: int| 0 <= i < k ==> (#[trigger] s[i]).ahead(&x),
        k < s.len() ==> !s[k].ahead(&x),
    ensures
        placed(x, s) == s.insert(k, x),
    decreases s.len(),
{
    if k == 0 {
        assert(seq![x] + s =~= s.insert(0, x));
    } else {
        assert(s[0].ahead(&x));
        assert forall|i: int| 0 <= i < k - 1 implies (#[trigger] s.skip(1)[i]).ahead(&x) by {
            assert(s[i + 1].ahead(&x));
        }
        placed_at(x, s.skip(1), k - 1);
        assert(seq![s[0]] + s.skip(1).insert(k - 1, x) =~= s.insert(k, x));
    }
}

/// Ordering a list is stable: each element came from one place, and ties keep
/// the order in which they came.
pub proof fn arranging_is_stable<T: Ordered>(s: Seq<T>) -> (p: Seq<int>)
    ensures
        stable_from(s, arranged(s), p),
    decreases s.len(),
{
    if s.len() == 0 {
        Seq::empty()
    } else {
        let x = s[0];
        let r = arranged(s.skip(1));
        let q = arranging_is_stable(s.skip(1));
        arranging_orders(s.skip(1));
        let k = first_not_ahead(x, r);
        placed_at(x, r, k);
        let up = q.map_values(|i: int| i + 1);
        let p = up.insert(k, 0);
        let t = arranged(s);
        assert(t == r.insert(k, x));
        assert forall|i: int| 0 <= i < p.len() implies 0 <= #[trigger] p[i] < s.len() && t[i]
            == s[p[i]] by {
            if i < k {
                assert(p[i] == q[i] + 1);
            } else if i > k {
                assert(p[i] == q[i - 1] + 1);
            }
        }
        assert(p.no_duplicates()) by {
            assert forall|i: int, j: int| 0 <= i < p.len() && 0 <= j < p.len() && i != j implies p[i]
                != p[j] by {
                let a = if i < k {
                    i
                } else {
                    i - 1
                };
                let b = if j < k {
                    j
                } else {
                    j - 1
                };
                if i != k {
                    assert(p[i] == q[a] + 1);
                    assert(0 <= q[a]);
                }
                if j != k {
                    assert(p[j] == q[b] + 1);
                    assert(0 <= q[b]);
                }
            }
        }
        assert forall|i: int, j: int|
            0 <= i < j < p.len() && !t[i].ahead(&t[j]) && !t[j].ahead(&t[i]) implies #[trigger] p[i]
            < #[trigger] p[j] by {
            let a = if i < k {
                i
            } else {
                i - 1
            };
            let b = if j < k {
                j
            } else {
                j - 1
            };
            if i == k {
                assert(p[j] == q[b] + 1);
                assert(0 <= q[b]);
            } else if j == k {
                assert(r[i].ahead(&x));
            } else {
                assert(p[i] == q[a] + 1 && p[j] == q[b] + 1);
                assert(t[i] == r[a] && t[j] == r[b]);
                assert(q[a] < q[b]);
            }
        }
        p
    }
}

proof fn first_not_ahead<T: Ordered>(x: T, s: Seq<T>) -> (k: int)
    ensures
        0 <= k <= s.len(),
        forall|i: int| 0 <= i < k ==> (#[trigger] s[i]).ahead(&x),
        k < s.len() ==> !s[k].ahead(&x),
    decreases s.len(),
{
    if s.len() > 0 && s[0].ahead(&x) {
        let k = first_not_ahead(x, s.skip(1));
        assert forall|i: int| 0 <= i < k + 1 implies (#[trigger] s[i]).ahead(&x) by {
            if i > 0 {
                assert(s.skip(1)[i - 1].ahead(&x));
            }
        }
        k + 1
    } else {
        0
    }
}

/// A list that is in order stays as it is.
pub proof fn arranging_keeps_what_is_in_order<T: Ordered>(s: Seq<T>)
    requires
        in_order(s),
    ensures
        arranged(s) == s,
    decreases s.len(),
{
    if s.len() > 0 {
        assert(in_order(s.skip(1))) by {
            assert forall|i: int, j: int|
                #![trigger s.skip(1)[i], s.skip(1)[j]]
                0 <= i < j < s.skip(1).len() implies !s.skip(1)[j].ahead(&s.skip(1)[i]) by {
                assert(!s[j + 1].ahead(&s[i + 1]));
            }
        }
        arranging_keeps_what_is_in_order(s.skip(1));
        if s.len() > 1 {
            assert(!s[1].ahead(&s[0]));
        }
        assert(arranged(s) =~= s);
    }
}

/// Ordering a list twice is ordering it once.
pub proof fn arranging_is_idempotent<T: Ordered>(s: Seq<T>)
    ensures
        arranged(arranged(s)) == arranged(s),
{
    arranging_orders(s);
    arranging_keeps_what_is_in_order(arranged(s));
}

/// Whether `key` holds all that the order goes by.
pub open spec fn goes_by<T: Ordered, K>(key: spec_fn(T) -> K) -> bool {
    forall|a: T, b: T, c: T, d: T|
        #![trigger a.ahead(&b), key(c), key(d)]
        key(a) == key(c) && key(b) == key(d) ==> a.ahead(&b) == c.ahead(&d)
}

/// Whether an element of the one list that ties with one of the other has its
/// key.
pub open spec fn ties_agree<T: Ordered, K>(a: Seq<T>, b: Seq<T>, key: spec_fn(T) -> K) -> bool {
    forall|i: int, j: int|
        #![trigger a[i], b[j]]
        0 <= i < a.len() && 0 <= j < b.len() && !a[i].ahead(&b[j]) && !b[j].ahead(&a[i]) ==> key(
            a[i],
        ) == key(b[j])
}

proof fn placed_keeps_keys<T: Ordered, K>(x: T, s: Seq<T>, key: spec_fn(T) -> K)
    ensures
        placed(x, s).map_values(key).to_multiset() == s.map_values(key).to_multiset().insert(
            key(x),
        ),
    decreases s.len(),
{
    broadcast use vstd::seq_lib::group_to_multiset_ensures;

    let k = first_not_ahead(x, s);
    placed_at(x, s, k);
    assert(placed(x, s).map_values(key) =~= s.map_values(key).insert(k, key(x)));
}

proof fn arranging_keeps_keys<T: Ordered, K>(s: Seq<T>, key: spec_fn(T) -> K)
    ensures
        arranged(s).map_values(key).to_multiset() == s.map_values(key).to_multiset(),
    decreases s.len(),
{
    broadcast use vstd::seq_lib::group_to_multiset_ensures;

    if s.len() > 0 {
        arranging_keeps_keys(s.skip(1), key);
        placed_keeps_keys(s[0], arranged(s.skip(1)), key);
        assert(s.map_values(key) =~= s.skip(1).map_values(key).insert(0, key(s[0])));
    }
}

/// Two lists in order with the same keys have them in the same places.
proof fn one_order_of_keys<T: Ordered, K>(x: Seq<T>, y: Seq<T>, key: spec_fn(T) -> K)
    requires
        goes_by(key),
        ties_agree(x, y, key),
        in_order(x),
        in_order(y),
        x.map_values(key).to_multiset() == y.map_values(key).to_multiset(),
    ensures
        x.map_values(key) == y.map_values(key),
    decreases x.len(),
{
    broadcast use vstd::seq_lib::group_to_multiset_ensures;

    let xs = x.map_values(key);
    let ys = y.map_values(key);
    assert(xs.len() == xs.to_multiset().len());
    assert(ys.len() == ys.to_multiset().len());
    if x.len() > 0 {
        assert(xs.contains(xs[0]));
        assert(ys.contains(ys[0]));
        assert(xs.to_multiset().contains(ys[0]));
        assert(ys.to_multiset().contains(xs[0]));
        let i = xs.index_of(ys[0]);
        let j = ys.index_of(xs[0]);
        T::ahead_is_an_order(&x[0], &x[0], &x[0]);
        T::ahead_is_an_order(&y[0], &y[0], &y[0]);
        assert(key(x[i]) == key(y[0]) && key(y[j]) == key(x[0]));
        assert(!x[i].ahead(&x[0]));
        assert(!y[j].ahead(&y[0]));
        assert(x[i].ahead(&x[0]) == y[0].ahead(&x[0]));
        assert(y[j].ahead(&y[0]) == x[0].ahead(&y[0]));
        assert(key(x[0]) == key(y[0]));
        let xt = x.skip(1);
        let yt = y.skip(1);
        assert(in_order(xt)) by {
            assert forall|a: int, b: int|
                #![trigger xt[a], xt[b]]
                0 <= a < b < xt.len() implies !xt[b].ahead(&xt[a]) by {
                assert(!x[b + 1].ahead(&x[a + 1]));
            }
        }
        assert(in_order(yt)) by {
            assert forall|a: int, b: int|
                #![trigger yt[a], yt[b]]
                0 <= a < b < yt.len() implies !yt[b].ahead(&yt[a]) by {
                assert(!y[b + 1].ahead(&y[a + 1]));
            }
        }
        assert(ties_agree(xt, yt, key)) by {
            assert forall|a: int, b: int|
                #![trigger xt[a], yt[b]]
                0 <= a < xt.len() && 0 <= b < yt.len() && !xt[a].ahead(&yt[b]) && !yt[b].ahead(
                    &xt[a],
                ) implies key(xt[a]) == key(yt[b]) by {
                assert(xt[a] == x[a + 1] && yt[b] == y[b + 1]);
            }
        }
        assert(xs.remove(0) =~= xt.map_values(key));
        assert(ys.remove(0) =~= yt.map_values(key));
        one_order_of_keys(xt, yt, key);
        assert forall|a: int| 0 <= a < xs.len() implies xs[a] == ys[a] by {
            if a > 0 {
                assert(xt.map_values(key)[a - 1] == yt.map_values(key)[a - 1]);
            }
        }
        assert(xs =~= ys);
    }
}

proof fn arranged_came_from_the_list<T: Ordered>(s: Seq<T>, i: int)
    requires
        0 <= i < s.len(),
    ensures
        arranged(s).len() == s.len(),
        s.contains(arranged(s)[i]),
{
    let p = arranging_is_stable(s);
    assert(arranged(s)[i] == s[p[i]]);
}

/// Where ties have one key, the order in which a list arrives does not reach
/// its order: every arrangement of the same keys is put in the same order.
pub proof fn arranging_ignores_arrival<T: Ordered, K>(
    a: Seq<T>,
    b: Seq<T>,
    key: spec_fn(T) -> K,
)
    requires
        goes_by(key),
        ties_agree(a, b, key),
        a.map_values(key).to_multiset() == b.map_values(key).to_multiset(),
    ensures
        arranged(a).map_values(key) == arranged(b).map_values(key),
{
    arranging_orders(a);
    arranging_orders(b);
    arranging_keeps_keys(a, key);
    arranging_keeps_keys(b, key);
    arranging_keeps_elements(a);
    arranging_keeps_elements(b);
    let x = arranged(a);
    let y = arranged(b);
    assert(ties_agree(x, y, key)) by {
        assert forall|i: int, j: int|
            #![trigger x[i], y[j]]
            0 <= i < x.len() && 0 <= j < y.len() && !x[i].ahead(&y[j]) && !y[j].ahead(
                &x[i],
            ) implies key(x[i]) == key(y[j]) by {
            arranged_came_from_the_list(a, i);
            arranged_came_from_the_list(b, j);
            let p = a.index_of(x[i]);
            let q = b.index_of(y[j]);
            assert(a[p] == x[i] && b[q] == y[j]);
        }
    }
    one_order_of_keys(x, y, key);
}

/// Two lists in order woven into one: of ties, those of the first list come
/// first.
pub open spec fn woven<T: Ordered>(p: Seq<T>, q: Seq<T>) -> Seq<T>
    decreases p.len() + q.len(),
{
    if p.len() == 0 {
        q
    } else if q.len() == 0 {
        p
    } else if q[0].ahead(&p[0]) {
        seq![q[0]] + woven(p, q.skip(1))
    } else {
        seq![p[0]] + woven(p.skip(1), q)
    }
}

proof fn placing_into_woven<T: Ordered>(x: T, p: Seq<T>, q: Seq<T>)
    ensures
        placed(x, woven(p, q)) == woven(placed(x, p), q),
    decreases p.len() + q.len(),
{
    let xs = placed(x, p);
    if p.len() == 0 {
        assert(xs =~= seq![x]);
        assert(xs.skip(1) =~= Seq::<T>::empty());
        assert(woven(xs.skip(1), q) == q);
        if q.len() == 0 {
            assert(placed(x, q) =~= xs);
        } else if q[0].ahead(&x) {
            placing_into_woven(x, p, q.skip(1));
            assert(woven(p, q.skip(1)) == q.skip(1));
            assert(woven(xs, q) == seq![q[0]] + woven(xs, q.skip(1)));
        } else {
            assert(woven(xs, q) == seq![x] + q);
        }
    } else if q.len() > 0 {
        T::ahead_is_an_order(&p[0], &x, &q[0]);
        T::ahead_is_an_order(&x, &p[0], &q[0]);
        T::ahead_is_an_order(&p[0], &x, &x);
        let w = woven(p, q);
        if q[0].ahead(&p[0]) {
            placing_into_woven(x, p, q.skip(1));
            assert(w.skip(1) =~= woven(p, q.skip(1)));
            assert(xs[0] == p[0] || xs[0] == x);
            if !q[0].ahead(&x) {
                assert(xs.skip(1) =~= p);
            }
        } else {
            placing_into_woven(x, p.skip(1), q);
            assert(w.skip(1) =~= woven(p.skip(1), q));
            if p[0].ahead(&x) {
                assert(xs.skip(1) =~= placed(x, p.skip(1)));
            } else {
                assert(xs.skip(1) =~= p);
            }
        }
        assert(placed(x, w) =~= woven(xs, q));
    }
}

/// A list in order is its two parts, each in order, woven into one.
proof fn arranging_in_parts<T: Ordered>(a: Seq<T>, b: Seq<T>)
    ensures
        arranged(a + b) == woven(arranged(a), arranged(b)),
    decreases a.len(),
{
    if a.len() == 0 {
        assert(a + b =~= b);
    } else {
        arranging_in_parts(a.skip(1), b);
        assert((a + b).skip(1) =~= a.skip(1) + b);
        placing_into_woven(a[0], arranged(a.skip(1)), arranged(b));
    }
}

fn reversed<T>(list: Vec<T>) -> (r: Vec<T>)
    ensures
        r@ == list@.reverse(),
{
    let ghost all = list@;
    let mut rest = list;
    let mut out: Vec<T> = Vec::new();
    while rest.len() > 0
        invariant
            rest@ == all.take(rest@.len() as int),
            rest@.len() <= all.len(),
            out@ == all.skip(rest@.len() as int).reverse(),
        decreases rest@.len(),
    {
        let ghost n = rest@.len() as int;
        match rest.pop() {
            Some(x) => {
                out.push(x);
                assert(rest@ =~= all.take(n - 1));
                assert(out@ =~= all.skip(n - 1).reverse());
            },
            None => {},
        }
    }
    assert(all.skip(0) =~= all);
    out
}

fn weave<T: Ordered>(p: Vec<T>, q: Vec<T>) -> (r: Vec<T>)
    ensures
        r@ == woven(p@, q@),
{
    let ghost whole = woven(p@, q@);
    let mut left = reversed(p);
    let mut right = reversed(q);
    let mut out: Vec<T> = Vec::new();
    assert(left@.reverse() =~= p@);
    assert(right@.reverse() =~= q@);
    assert(out@ + whole =~= whole);
    while left.len() > 0 && right.len() > 0
        invariant
            out@ + woven(left@.reverse(), right@.reverse()) == whole,
        decreases left@.len() + right@.len(),
    {
        let ghost a = left@.reverse();
        let ghost b = right@.reverse();
        let ghost done = out@;
        let n = left.len();
        let m = right.len();
        assert(a[0] == left@[n - 1]);
        assert(b[0] == right@[m - 1]);
        if right[m - 1].is_ahead(&left[n - 1]) {
            match right.pop() {
                Some(x) => {
                    out.push(x);
                    assert(right@.reverse() =~= b.skip(1));
                    assert(out@ + woven(a, b.skip(1)) =~= done + woven(a, b));
                },
                None => {},
            }
        } else {
            match left.pop() {
                Some(x) => {
                    out.push(x);
                    assert(left@.reverse() =~= a.skip(1));
                    assert(out@ + woven(a.skip(1), b) =~= done + woven(a, b));
                },
                None => {},
            }
        }
    }
    let mut rest = if left.len() > 0 {
        left
    } else {
        right
    };
    assert(out@ + rest@.reverse() =~= whole);
    while rest.len() > 0
        invariant
            out@ + rest@.reverse() == whole,
        decreases rest@.len(),
    {
        let ghost a = rest@.reverse();
        let ghost done = out@;
        match rest.pop() {
            Some(x) => {
                out.push(x);
                assert(rest@.reverse() =~= a.skip(1));
                assert(out@ + a.skip(1) =~= done + a);
            },
            None => {},
        }
    }
    assert(out@ =~= whole);
    out
}

/// The list in order, ties in the order in which they came.
pub fn arrange<T: Ordered>(list: Vec<T>) -> (r: Vec<T>)
    ensures
        r@ == arranged(list@),
    decreases list@.len(),
{
    let ghost all = list@;
    let n = list.len();
    if n < 2 {
        proof {
            arranging_keeps_what_is_in_order(all);
        }
        return list;
    }
    let mut front = list;
    let back = front.split_off(n / 2);
    proof {
        assert(front@ + back@ =~= all);
        arranging_in_parts(front@, back@);
    }
    let a = arrange(front);
    let b = arrange(back);
    weave(a, b)
}

/// The lesser number stands first.
impl Ordered for u64 {
    open spec fn ahead(&self, other: &Self) -> bool {
        *self < *other
    }

    proof fn ahead_is_an_order(a: &Self, b: &Self, c: &Self) {
    }

    fn is_ahead(&self, other: &Self) -> bool {
        *self < *other
    }
}

/// Whether `q` is places below `n`, each greater than the one before.
pub open spec fn climbs(q: Seq<int>, n: int) -> bool {
    &&& forall|k: int| 0 <= k < q.len() ==> 0 <= #[trigger] q[k] < n
    &&& forall|k: int, l: int| #![trigger q[k], q[l]] 0 <= k < l < q.len() ==> q[k] < q[l]
}

/// Whether `q` is the places below `n` that have a property, all of them.
pub open spec fn picks(q: Seq<int>, n: int, p: spec_fn(int) -> bool) -> bool {
    &&& climbs(q, n)
    &&& forall|k: int| 0 <= k < q.len() ==> p(#[trigger] q[k])
    &&& forall|i: int| 0 <= i < n && #[trigger] p(i) ==> q.contains(i)
}

/// One place more: it is picked where it has the property.
pub proof fn picks_one_more(q: Seq<int>, n: int, p: spec_fn(int) -> bool) -> (r: Seq<int>)
    requires
        picks(q, n, p),
        0 <= n,
    ensures
        picks(r, n + 1, p),
        r == if p(n) {
            q.push(n)
        } else {
            q
        },
{
    if p(n) {
        let r = q.push(n);
        assert forall|i: int| 0 <= i < n + 1 && #[trigger] p(i) implies r.contains(i) by {
            if i < n {
                assert(q.contains(i));
                let k = q.index_of(i);
                assert(r[k] == i);
            } else {
                assert(r[q.len() as int] == i);
            }
        }
        r
    } else {
        q
    }
}

/// There is one list of the places with a property.
pub proof fn picks_agree(a: Seq<int>, b: Seq<int>, n: int, p: spec_fn(int) -> bool)
    requires
        picks(a, n, p),
        picks(b, n, p),
    ensures
        a == b,
    decreases a.len(),
{
    if a.len() > 0 {
        assert(p(a[a.len() - 1]));
        assert(b.contains(a.last()));
        let j = b.index_of(a.last());
        assert(p(b[b.len() - 1]));
        assert(a.contains(b.last()));
        let i = a.index_of(b.last());
        assert(a.last() == b.last());
        let m = a.last();
        assert forall|x: Seq<int>| picks(x, n, p) && x.len() > 0 && x.last() == m implies picks(
            #[trigger] x.drop_last(),
            m,
            p,
        ) by {
            let y = x.drop_last();
            assert forall|k: int| 0 <= k < y.len() implies 0 <= #[trigger] y[k] < m by {
                assert(x[k] < x[x.len() - 1]);
            }
            assert forall|k: int, l: int|
                #![trigger y[k], y[l]]
                0 <= k < l < y.len() implies y[k] < y[l] by {
                assert(x[k] < x[l]);
            }
            assert forall|k: int| 0 <= k < y.len() implies p(#[trigger] y[k]) by {
                assert(p(x[k]));
            }
            assert forall|i: int| 0 <= i < m && #[trigger] p(i) implies y.contains(i) by {
                assert(x.contains(i));
                let k = x.index_of(i);
                assert(y[k] == i);
            }
        }
        picks_agree(a.drop_last(), b.drop_last(), m, p);
        assert(a =~= a.drop_last().push(m));
        assert(b =~= b.drop_last().push(m));
    } else if b.len() > 0 {
        assert(p(b[0]));
        assert(a.contains(b[0]));
    }
}

// ---------------------------------------------------------------------------
// Taking what stands one behind the other
// ---------------------------------------------------------------------------

/// Whether an item begins at a place.
pub open spec fn begins(ends: Seq<Option<int>>, i: int) -> bool {
    0 <= i < ends.len() && ends[i] is Some
}

/// Where items are taken, from place `from` on, where `ends` says of each place
/// at which place an item that begins there ends, if one does. The next one is
/// looked for behind the end of one that was taken.
pub open spec fn taken(ends: Seq<Option<int>>, from: int) -> Seq<int>
    decreases ends.len() - from,
{
    if from >= ends.len() {
        Seq::empty()
    } else if begins(ends, from) && from <= ends[from]->0 < ends.len() {
        seq![from] + taken(ends, ends[from]->0 + 1)
    } else {
        taken(ends, from + 1)
    }
}

/// Whether items were taken at these places: one begins at each, each begins
/// behind the end of the one before, and every place where an item begins lies
/// within one that was taken.
pub open spec fn takes_all(q: Seq<int>, ends: Seq<Option<int>>, from: int) -> bool {
    &&& forall|k: int|
        0 <= k < q.len() ==> from <= #[trigger] q[k] < ends.len() && begins(ends, q[k])
    &&& forall|k: int, l: int|
        #![trigger q[k], q[l]]
        0 <= k < l < q.len() ==> ends[q[k]]->0 < q[l]
    &&& forall|i: int|
        from <= i && #[trigger] begins(ends, i) ==> exists|k: int|
            0 <= k < q.len() && (#[trigger] q[k]) <= i <= ends[q[k]]->0
}

/// Items that end no earlier than they begin are all taken.
pub proof fn taking_passes_nothing_over(ends: Seq<Option<int>>, from: int)
    requires
        0 <= from,
        forall|i: int| #[trigger] begins(ends, i) ==> i <= ends[i]->0 < ends.len(),
    ensures
        takes_all(taken(ends, from), ends, from),
    decreases ends.len() - from,
{
    if from < ends.len() {
        let q = taken(ends, from);
        if begins(ends, from) {
            let j = ends[from]->0;
            taking_passes_nothing_over(ends, j + 1);
            let rest = taken(ends, j + 1);
            assert forall|k: int| 0 <= k < q.len() implies from <= #[trigger] q[k] < ends.len()
                && begins(ends, q[k]) by {
                if k > 0 {
                    assert(q[k] == rest[k - 1]);
                }
            }
            assert forall|k: int, l: int|
                #![trigger q[k], q[l]]
                0 <= k < l < q.len() implies ends[q[k]]->0 < q[l] by {
                assert(q[l] == rest[l - 1]);
                if k > 0 {
                    assert(q[k] == rest[k - 1]);
                }
            }
            assert forall|i: int|
                from <= i && #[trigger] begins(ends, i) implies exists|k: int|
                0 <= k < q.len() && (#[trigger] q[k]) <= i <= ends[q[k]]->0 by {
                if i <= j {
                    assert(q[0] == from);
                } else {
                    let k = choose|k: int|
                        0 <= k < rest.len() && (#[trigger] rest[k]) <= i <= ends[rest[k]]->0;
                    assert(q[k + 1] == rest[k]);
                }
            }
        } else {
            taking_passes_nothing_over(ends, from + 1);
        }
    }
}

} // verus!
