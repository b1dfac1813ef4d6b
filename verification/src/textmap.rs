//! A map from texts to values that is walked in dictionary order.

use vstd::prelude::*;

use crate::text::{is_text_before, same, text_before, text_order_is_irreflexive, text_order_is_transitive, text_order_separates, texts};

verus! {

/// Every text comes strictly before every later one.
pub open spec fn increasing(s: Seq<Seq<char>>) -> bool {
    forall|i: int, j: int| #![trigger s[i], s[j]] 0 <= i < j < s.len() ==> text_before(s[i], s[j])
}

/// A strictly increasing list holds nothing twice.
pub proof fn increasing_has_no_duplicates(s: Seq<Seq<char>>)
    requires
        increasing(s),
    ensures
        s.no_duplicates(),
{
    assert forall|i: int, j: int| 0 <= i < s.len() && 0 <= j < s.len() && i != j implies s[i]
        != s[j] by {
        if i < j {
            text_order_is_irreflexive(s[i], 0);
        } else {
            text_order_is_irreflexive(s[j], 0);
        }
    }
}

/// A map from texts to values, walked in dictionary order of the texts.
#[derive(Debug, PartialEq)]
pub struct TextMap<V> {
    keys: Vec<String>,
    values: Vec<V>,
}

impl<V> TextMap<V> {
    #[verifier::type_invariant]
    spec fn sorted(self) -> bool {
        &&& increasing(texts(self.keys@))
        &&& self.keys@.len() == self.values@.len()
    }

    /// The texts, in dictionary order.
    pub closed spec fn keys(self) -> Seq<Seq<char>> {
        texts(self.keys@)
    }

    /// The values, in the order of their texts.
    pub closed spec fn values(self) -> Seq<V> {
        self.values@
    }

    /// Whether a text is mapped.
    pub open spec fn has(self, key: Seq<char>) -> bool {
        self.keys().contains(key)
    }

    /// The value of a text that is mapped.
    pub open spec fn at(self, key: Seq<char>) -> V {
        self.values()[self.keys().index_of(key)]
    }

    /// The map as a mathematical one.
    pub open spec fn view(self) -> Map<Seq<char>, V> {
        Map::new(|k: Seq<char>| self.has(k), |k: Seq<char>| self.at(k))
    }

    /// The map that holds nothing.
    pub fn new() -> (r: Self)
        ensures
            r.keys() == Seq::<Seq<char>>::empty(),
            r@ == Map::<Seq<char>, V>::empty(),
    {
        let r = TextMap { keys: Vec::new(), values: Vec::new() };
        assert(r.keys() =~= Seq::<Seq<char>>::empty());
        assert(r@ =~= Map::<Seq<char>, V>::empty());
        r
    }

    /// How many texts are mapped.
    pub fn len(&self) -> (r: usize)
        ensures
            r == self.keys().len(),
            r == self.values().len(),
            increasing(self.keys()),
            self.keys().no_duplicates(),
    {
        proof {
            use_type_invariant(self);
            increasing_has_no_duplicates(self.keys());
        }
        self.keys.len()
    }

    /// The text at a place in dictionary order.
    pub fn key(&self, i: usize) -> (r: &String)
        requires
            i < self.keys().len(),
        ensures
            r@ == self.keys()[i as int],
    {
        &self.keys[i]
    }

    /// The value at a place in dictionary order of the texts.
    pub fn value(&self, i: usize) -> (r: &V)
        requires
            i < self.keys().len(),
        ensures
            *r == self.values()[i as int],
            i < self.values().len(),
    {
        proof {
            use_type_invariant(self);
        }
        &self.values[i]
    }

    /// Where the text stands, or where it would have to be put.
    fn find(&self, key: &str) -> (r: (usize, bool))
        ensures
            r.0 <= self.keys().len(),
            self.keys().len() == self.values().len(),
            increasing(self.keys()),
            r.1 ==> r.0 < self.keys().len() && self.keys()[r.0 as int] == key@,
            !r.1 ==> !self.keys().contains(key@),
            forall|k: int| 0 <= k < r.0 ==> text_before(#[trigger] self.keys()[k], key@),
            !r.1 ==> forall|k: int|
                r.0 <= k < self.keys().len() ==> text_before(key@, #[trigger] self.keys()[k]),
    {
        proof {
            use_type_invariant(self);
        }
        let mut i: usize = 0;
        while i < self.keys.len() && is_text_before(self.keys[i].as_str(), key)
            invariant
                i <= self.keys@.len(),
                forall|k: int| 0 <= k < i ==> text_before(#[trigger] self.keys()[k], key@),
            decreases self.keys@.len() - i,
        {
            assert(self.keys()[i as int] == self.keys@[i as int]@);
            i = i + 1;
        }
        if i < self.keys.len() && same(self.keys[i].as_str(), key) {
            assert(self.keys()[i as int] == self.keys@[i as int]@);
            return (i, true);
        }
        proof {
            let s = self.keys();
            assert forall|k: int| i <= k < s.len() implies text_before(
                key@,
                #[trigger] s[k],
            ) by {
                assert(s[i as int] == self.keys@[i as int]@);
                assert(!text_before(s[i as int], key@));
                if !text_before(key@, s[i as int]) {
                    assert(s[i as int].take(0) =~= key@.take(0));
                    text_order_separates(s[i as int], key@, 0);
                }
                if k > i {
                    text_order_is_transitive(key@, s[i as int], s[k], 0);
                }
            }
            assert(!s.contains(key@)) by {
                text_order_is_irreflexive(key@, 0);
                if s.contains(key@) {
                    let k = choose|k: int| 0 <= k < s.len() && s[k] == key@;
                    assert(text_before(s[k], key@) || text_before(key@, s[k]));
                }
            }
        }
        (i, false)
    }

    /// Whether the text is mapped.
    pub fn contains_key(&self, key: &str) -> (r: bool)
        ensures
            r == self@.contains_key(key@),
            r == self.has(key@),
    {
        self.find(key).1
    }

    /// The value of a text, if it is mapped.
    pub fn get(&self, key: &str) -> (r: Option<&V>)
        ensures
            r is Some == self@.contains_key(key@),
            r is Some == self.has(key@),
            r is Some ==> *r->0 == self@[key@],
            r is Some ==> *r->0 == self.at(key@),
    {
        let (i, found) = self.find(key);
        if found {
            proof {
                increasing_has_no_duplicates(self.keys());
                assert(self.keys().index_of(key@) == i);
            }
            Some(&self.values[i])
        } else {
            None
        }
    }

    /// Maps the text to the value, in place of the one it had.
    pub fn insert(&mut self, key: String, value: V)
        ensures
            final(self)@ == old(self)@.insert(key@, value),
    {
        let (i, found) = self.find(key.as_str());
        let ghost was = *self;
        proof {
            increasing_has_no_duplicates(was.keys());
        }
        let ghost k0 = self.keys@;
        let ghost v0 = self.values@;
        let ghost text = key@;
        let mut held: TextMap<V> = TextMap::new();
        core::mem::swap(self, &mut held);
        let mut keys = held.keys;
        let mut values = held.values;
        if found {
            values.set(i, value);
        } else {
            keys.insert(i, key);
            values.insert(i, value);
        }
        proof {
            let s = texts(k0);
            let t = texts(keys@);
            if found {
                assert(t =~= s);
            } else {
                assert(t =~= s.insert(i as int, text));
                assert(increasing(t)) by {
                    assert forall|a: int, b: int| #![trigger t[a], t[b]] 0 <= a < b < t.len() implies text_before(
                        t[a],
                        t[b],
                    ) by {
                        let x = if a < i { a } else { a - 1 };
                        let y = if b < i { b } else { b - 1 };
                        if a != i { assert(t[a] == s[x]); }
                        if b != i { assert(t[b] == s[y]); }
                    }
                }
            }
        }
        *self = TextMap { keys, values };
        proof {
            let s = was.keys();
            let t = self.keys();
            increasing_has_no_duplicates(t);
            let m = was@.insert(text, value);
            assert forall|k: Seq<char>| self@.contains_key(k) == m.contains_key(k) by {
                if found {
                    assert(s[i as int] == text);
                } else {
                    assert(t =~= s.insert(i as int, text));
                    if s.contains(k) {
                        let a = s.index_of(k);
                        let b = if a < i { a } else { a + 1 };
                        assert(t[b] == k);
                    }
                    if t.contains(k) {
                        let b = t.index_of(k);
                        if b != i {
                            let a = if b < i { b } else { b - 1 };
                            assert(s[a] == k);
                        }
                    }
                    assert(t[i as int] == text);
                }
            }
            assert forall|k: Seq<char>| self@.contains_key(k) implies self@[k] == m[k] by {
                let b = t.index_of(k);
                if found {
                    if k == text {
                        assert(b == i);
                    } else {
                        assert(s[b] == k);
                        assert(s.index_of(k) == b);
                    }
                } else {
                    if k == text {
                        assert(t[i as int] == text);
                        assert(b == i);
                    } else {
                        let a = if b < i { b } else { b - 1 };
                        assert(s[a] == k);
                        assert(s.index_of(k) == a);
                    }
                }
            }
            assert(self@ =~= m);
        }
    }
}

/// Two maps that agree are walked alike: a strictly increasing list is fixed by
/// what it holds.
pub proof fn increasing_lists_agree(s: Seq<Seq<char>>, t: Seq<Seq<char>>)
    requires
        increasing(s),
        increasing(t),
        forall|k: Seq<char>| s.contains(k) == t.contains(k),
    ensures
        s == t,
    decreases s.len(),
{
    if s.len() == 0 {
        if t.len() > 0 {
            assert(t.contains(t[0]));
        }
        assert(s =~= t);
    } else if t.len() == 0 {
        assert(s.contains(s[0]));
    } else {
        increasing_has_no_duplicates(s);
        increasing_has_no_duplicates(t);
        let x = s.last();
        let y = t.last();
        assert(s.contains(x) && t.contains(y));
        let i = t.index_of(x);
        let j = s.index_of(y);
        if x != y {
            text_order_is_irreflexive(x, 0);
            assert(text_before(t[i], t[t.len() - 1]));
            assert(text_before(s[j], s[s.len() - 1]));
            text_order_is_transitive(x, y, x, 0);
        }
        let a = s.drop_last();
        let b = t.drop_last();
        assert forall|k: Seq<char>| a.contains(k) == b.contains(k) by {
            if a.contains(k) {
                let n = a.index_of(k);
                assert(s[n] == k);
                assert(t.contains(k));
                let m = t.index_of(k);
                assert(m != t.len() - 1);
                assert(b[m] == k);
            }
            if b.contains(k) {
                let n = b.index_of(k);
                assert(t[n] == k);
                assert(s.contains(k));
                let m = s.index_of(k);
                assert(m != s.len() - 1);
                assert(a[m] == k);
            }
        }
        increasing_lists_agree(a, b);
        assert(s =~= a.push(x));
        assert(t =~= b.push(y));
    }
}

} // verus!
