//! The lexical shape of a corpus, measured once at ingest.
//!
//! What is counted is how many rows a term reaches, not how often it is
//! repeated: a term that stands many times in one row is selective, and one
//! that stands once in every row is not.

use vstd::prelude::*;
use vstd::hash_map::StringHashMap;
use vstd::hash_set::StringHashSet;
use vstd::string::*;

use crate::order::{arrange, arranged, arranging_keeps_elements, arranging_orders, in_order, picks, picks_one_more, Ordered};
use crate::score::Score;
use crate::sample::{a_percentile_stands_at_the_least_place, nearest_place, percentile, percentile_of, percentiles_come_from_observed_values, sorted_sample};
use crate::text::{are_runs, ascii, ascii_lower, chars_of, decimal, is_text_before, lowercase_text, places, run_texts, runs_are_unique, show, spans, spans_are_runs, string_of, text_before, text_order_is_irreflexive, text_order_is_total, text_order_is_transitive, text_order_separates, texts, to_lowercase, word_spans};

verus! {

/// The tokens of a text: its alphanumeric runs, each made small.
pub open spec fn tokens_of(s: Seq<char>) -> Seq<Seq<char>> {
    spans(s, None).map_values(|p: (int, int)| lowercase_text(s.subrange(p.0, p.1)))
}

/// The tokens of a text, split as the keyword half of a search splits them.
pub fn tokenize(text: &str) -> (r: Vec<String>)
    ensures
        texts(r@) == tokens_of(text@),
        forall|p: Seq<(int, int)>|
            ascii(text@) && #[trigger] are_runs(text@, p, None) ==> texts(r@) == run_texts(
                text@,
                p,
            ),
{
    let chars = chars_of(text);
    let found = word_spans(&chars, None);
    let ghost all = tokens_of(chars@);
    let mut out: Vec<String> = Vec::new();
    let mut i: usize = 0;
    assert(places(found@).len() == found@.len());
    while i < found.len()
        invariant
            i <= found@.len(),
            places(found@) == spans(chars@, None),
            all == tokens_of(chars@),
            all.len() == found@.len(),
            forall|k: int|
                0 <= k < found@.len() ==> (#[trigger] found@[k]).start < found@[k].end
                    <= chars@.len(),
            out@.len() == i,
            forall|k: int| 0 <= k < i ==> (#[trigger] out@[k])@ == all[k],
            ascii(chars@) ==> forall|k: int|
                0 <= k < i ==> #[trigger] all[k] == chars@.subrange(
                    found@[k].start as int,
                    found@[k].end as int,
                ).map_values(|c: char| ascii_lower(c)),
        decreases found@.len() - i,
    {
        let p = found[i];
        assert(places(found@)[i as int] == (p.start as int, p.end as int));
        let word = string_of(&chars, p.start, p.end);
        proof {
            if ascii(chars@) {
                assert forall|k: int| 0 <= k < word@.len() implies (#[trigger] word@[k] as u32)
                    < 128 by {
                    assert(word@[k] == chars@[p.start + k]);
                }
            }
        }
        out.push(to_lowercase(word.as_str()));
        i = i + 1;
    }
    assert(texts(out@) =~= all);
    proof {
        if ascii(chars@) {
            let q = spans(chars@, None);
            spans_are_runs(chars@, None);
            assert(all =~= run_texts(chars@, q)) by {
                assert forall|k: int| 0 <= k < q.len() implies #[trigger] all[k] == chars@.subrange(
                    q[k].0,
                    q[k].1,
                ).map_values(|c: char| ascii_lower(c)) by {
                    assert(places(found@)[k] == (found@[k].start as int, found@[k].end as int));
                }
            }
            assert forall|p: Seq<(int, int)>| #[trigger] are_runs(chars@, p, None) implies all
                == run_texts(chars@, p) by {
                runs_are_unique(chars@, p, q, None);
            }
        }
    }
    out
}

/// A term, and how many rows it reaches.
#[derive(Debug, PartialEq, Eq)]
pub struct TermReach {
    pub term: String,
    pub rows: usize,
}

/// The term that reaches more rows stands first; ties go by the term.
impl Ordered for TermReach {
    open spec fn ahead(&self, other: &Self) -> bool {
        self.rows > other.rows || (self.rows == other.rows && text_before(
            self.term@,
            other.term@,
        ))
    }

    proof fn ahead_is_an_order(a: &Self, b: &Self, c: &Self) {
        text_order_is_irreflexive(a.term@, 0);
        if !text_before(b.term@, a.term@) && !text_before(c.term@, b.term@) {
            text_order_is_total(a.term@, b.term@, c.term@, 0);
        }
        if text_before(a.term@, b.term@) && text_before(b.term@, a.term@) {
            text_order_is_transitive(a.term@, b.term@, a.term@, 0);
        }
    }

    fn is_ahead(&self, other: &Self) -> bool {
        self.rows > other.rows || (self.rows == other.rows && is_text_before(
            self.term.as_str(),
            other.term.as_str(),
        ))
    }
}

/// What has been observed of a corpus.
pub ghost struct Observed {
    /// How many rows.
    pub rows: nat,
    /// How many tokens, repeats counted.
    pub tokens: nat,
    /// How many rows each term reaches.
    pub reach: Map<Seq<char>, nat>,
    /// How many tokens each row has.
    pub lengths: Seq<nat>,
    pub documents: Set<Seq<char>>,
    pub identifiers: Set<Seq<char>>,
    /// How many rows carry an identifier.
    pub identified: nat,
}

impl Observed {
    /// Before anything was observed.
    pub open spec fn nothing() -> Observed {
        Observed {
            rows: 0,
            tokens: 0,
            reach: Map::empty(),
            lengths: Seq::empty(),
            documents: Set::empty(),
            identifiers: Set::empty(),
            identified: 0,
        }
    }

    /// How many rows a term reaches.
    pub open spec fn reach_of(self, t: Seq<char>) -> nat {
        if self.reach.contains_key(t) {
            self.reach[t]
        } else {
            0
        }
    }

    /// What is known after one row more.
    pub open spec fn and(self, body: Seq<char>, document: Seq<char>, identifier: Option<Seq<char>>) -> Observed {
        let tokens = tokens_of(body);
        Observed {
            rows: self.rows + 1,
            tokens: self.tokens + tokens.len(),
            reach: Map::new(
                |t: Seq<char>| self.reach.contains_key(t) || tokens.contains(t),
                |t: Seq<char>|
                    self.reach_of(t) + if tokens.contains(t) {
                        1nat
                    } else {
                        0nat
                    },
            ),
            lengths: self.lengths.push(tokens.len()),
            documents: self.documents.insert(document),
            identifiers: match identifier {
                Some(id) => self.identifiers.insert(id),
                None => self.identifiers,
            },
            identified: match identifier {
                Some(_) => self.identified + 1,
                None => self.identified,
            },
        }
    }
}

/// Streaming profiler: every row is fed to it once.
pub struct ProfileBuilder {
    rows: usize,
    tokens: usize,
    terms: Vec<TermReach>,
    places: StringHashMap<usize>,
    lengths: Vec<u64>,
    documents: StringHashSet,
    identifiers: StringHashSet,
    identified: usize,
}

/// Whether the places say where each term stands, and each stands once.
spec fn indexed(terms: Seq<TermReach>, places: Map<Seq<char>, usize>) -> bool {
    &&& forall|t: Seq<char>| #[trigger]
        places.contains_key(t) ==> places[t] < terms.len() && terms[places[t] as int].term@ == t
    &&& forall|i: int|
        0 <= i < terms.len() ==> places.contains_key((#[trigger] terms[i]).term@)
            && places[terms[i].term@] == i
}

/// How many rows each term reaches.
spec fn reach_map(terms: Seq<TermReach>, places: Map<Seq<char>, usize>) -> Map<Seq<char>, nat> {
    Map::new(
        |t: Seq<char>| places.contains_key(t),
        |t: Seq<char>| terms[places[t] as int].rows as nat,
    )
}

/// Counts one row more for a term.
fn count_row(terms: &mut Vec<TermReach>, places: &mut StringHashMap<usize>, term: String)
    requires
        indexed(old(terms)@, old(places)@),
        old(places)@.contains_key(term@) ==> old(terms)@[old(places)@[term@] as int].rows
            < usize::MAX,
    ensures
        indexed(final(terms)@, final(places)@),
        reach_map(final(terms)@, final(places)@) == reach_map(old(terms)@, old(places)@).insert(
            term@,
            (if old(places)@.contains_key(term@) {
                old(terms)@[old(places)@[term@] as int].rows as nat
            } else {
                0
            }) + 1,
        ),
{
    let ghost before = reach_map(terms@, places@);
    let place: Option<usize> = match places.get(term.as_str()) {
        Some(i) => Some(*i),
        None => None,
    };
    match place {
        Some(i) => {
            let rows: usize = terms[i].rows + 1;
            let ghost name = term@;
            terms.set(i, TermReach { term, rows });
            assert(indexed(terms@, places@)) by {
                assert forall|k: int| 0 <= k < terms@.len() implies places@.contains_key(
                    (#[trigger] terms@[k]).term@,
                ) && places@[terms@[k].term@] == k by {
                    assert(places@.contains_key(old(terms)@[k].term@));
                }
            }
            assert(reach_map(terms@, places@) =~= before.insert(name, rows as nat));
        },
        None => {
            let i = terms.len();
            let ghost name = term@;
            places.insert(term.clone(), i);
            terms.push(TermReach { term, rows: 1 });
            assert(indexed(terms@, places@)) by {
                assert forall|k: int| 0 <= k < terms@.len() implies places@.contains_key(
                    (#[trigger] terms@[k]).term@,
                ) && places@[terms@[k].term@] == k by {
                    if k < i {
                        assert(places@.contains_key(old(terms)@[k].term@));
                        assert(old(terms)@[k].term@ != name);
                    }
                }
            }
            assert(reach_map(terms@, places@) =~= before.insert(name, 1));
        },
    }
}

/// What the profile of a corpus is drawn up from: its counts. The shares and
/// means of a profile are quotients of these.
#[derive(Debug, PartialEq, Eq)]
pub struct ProfileCounts {
    pub rows: usize,
    pub distinct_documents: usize,
    pub tokens_total: usize,
    /// Every term with its reach, the commonest first.
    pub by_frequency: Vec<TermReach>,
    /// How many terms reach a single row.
    pub hapax: usize,
    pub p50_doc_tokens: u64,
    pub p95_doc_tokens: u64,
    pub rows_with_identifier: usize,
    pub distinct_identifiers: usize,
}

/// How many of the first `n` terms reach a single row.
pub open spec fn hapax_upto(v: Seq<TermReach>, n: int) -> nat
    decreases n,
{
    if n <= 0 {
        0
    } else if v[n - 1].rows == 1 {
        hapax_upto(v, n - 1) + 1
    } else {
        hapax_upto(v, n - 1)
    }
}

/// Whether a list holds every term once, with its reach.
pub open spec fn lists_reach(v: Seq<TermReach>, reach: Map<Seq<char>, nat>) -> bool {
    &&& forall|i: int|
        0 <= i < v.len() ==> reach.contains_key((#[trigger] v[i]).term@) && reach[v[i].term@]
            == v[i].rows
    &&& forall|t: Seq<char>| #[trigger]
        reach.contains_key(t) ==> exists|i: int| 0 <= i < v.len() && (#[trigger] v[i]).term@ == t
    &&& forall|i: int, j: int|
        #![trigger v[i], v[j]]
        0 <= i < j < v.len() ==> v[i].term@ != v[j].term@
}

/// The lengths as machine numbers.
pub open spec fn are_lengths(v: Seq<u64>, lengths: Seq<nat>) -> bool {
    v.len() == lengths.len() && forall|i: int| 0 <= i < v.len() ==> #[trigger] v[i] == lengths[i]
}

/// Whether counts are those of what was observed.
pub open spec fn profiles(c: ProfileCounts, o: Observed) -> bool {
    &&& c.rows == o.rows
    &&& c.distinct_documents == o.documents.len()
    &&& c.tokens_total == o.tokens
    &&& in_order(c.by_frequency@)
    &&& lists_reach(c.by_frequency@, o.reach)
    &&& c.hapax == hapax_upto(c.by_frequency@, c.by_frequency@.len() as int)
    &&& exists|lengths: Seq<u64>| #[trigger]
        are_lengths(lengths, o.lengths) && c.p50_doc_tokens == percentile_of(
            arranged(lengths),
            50,
        ) && c.p95_doc_tokens == percentile_of(arranged(lengths), 95)
    &&& c.rows_with_identifier == o.identified
    &&& c.distinct_identifiers == o.identifiers.len()
}

impl ProfileBuilder {
    /// What has been observed.
    pub closed spec fn view(self) -> Observed {
        Observed {
            rows: self.rows as nat,
            tokens: self.tokens as nat,
            reach: reach_map(self.terms@, self.places@),
            lengths: self.lengths@.map_values(|n: u64| n as nat),
            documents: self.documents@,
            identifiers: self.identifiers@,
            identified: self.identified as nat,
        }
    }

    /// Whether the profiler's parts agree with each other.
    pub closed spec fn wf(self) -> bool {
        &&& indexed(self.terms@, self.places@)
        &&& self.lengths@.len() == self.rows
        &&& self.identified <= self.rows
        &&& forall|i: int|
            0 <= i < self.terms@.len() ==> 1 <= (#[trigger] self.terms@[i]).rows <= self.rows
    }

    /// A profiler that has observed nothing.
    pub fn new() -> (r: ProfileBuilder)
        ensures
            r.wf(),
            r@ == Observed::nothing(),
    {
        let r = ProfileBuilder {
            rows: 0,
            tokens: 0,
            terms: Vec::new(),
            places: StringHashMap::new(),
            lengths: Vec::new(),
            documents: StringHashSet::new(),
            identifiers: StringHashSet::new(),
            identified: 0,
        };
        assert(r@.reach =~= Map::empty());
        assert(r@.lengths =~= Seq::empty());
        r
    }

    /// Records one row. `document` is whatever groups chunks into a source
    /// document.
    pub fn observe(&mut self, body: &str, document: &str, identifier: Option<&str>)
        requires
            old(self).wf(),
            old(self)@.rows < usize::MAX,
            old(self)@.tokens + tokens_of(body@).len() <= usize::MAX,
        ensures
            final(self).wf(),
            final(self)@ == old(self)@.and(
                body@,
                document@,
                match identifier {
                    Some(id) => Some(id@),
                    None => None,
                },
            ),
    {
        let tokens = tokenize(body);
        let ghost all = tokens_of(body@);
        assert(all.len() == tokens@.len());
        let ghost before = self@.reach;
        let ghost rows = self.rows;
        let mut seen = StringHashSet::new();
        let mut i: usize = 0;
        assert(forall|t: Seq<char>| !all.take(0).contains(t));
        while i < tokens.len()
            invariant
                i <= tokens@.len(),
                texts(tokens@) == all,
                all.len() == tokens@.len(),
                indexed(self.terms@, self.places@),
                self.rows == rows,
                rows == old(self).rows,
                rows < usize::MAX,
                before == old(self)@.reach,
                self.tokens == old(self).tokens,
                self.lengths == old(self).lengths,
                self.documents == old(self).documents,
                self.identifiers == old(self).identifiers,
                self.identified == old(self).identified,
                forall|t: Seq<char>| #[trigger]
                    before.contains_key(t) ==> 1 <= before[t] <= rows,
                forall|t: Seq<char>| #[trigger] seen@.contains(t) == all.take(i as int).contains(t),
                forall|t: Seq<char>| #[trigger]
                    reach_map(self.terms@, self.places@).contains_key(t) == (
                    before.contains_key(t) || seen@.contains(t)),
                forall|t: Seq<char>| #[trigger]
                    reach_map(self.terms@, self.places@).contains_key(t) ==> reach_map(
                        self.terms@,
                        self.places@,
                    )[t] == (if before.contains_key(t) {
                        before[t]
                    } else {
                        0
                    }) + (if seen@.contains(t) {
                        1nat
                    } else {
                        0nat
                    }),
            decreases tokens@.len() - i,
        {
            let ghost name = tokens@[i as int]@;
            assert(all[i as int] == name);
            let ghost had = seen@;
            let ghost map = reach_map(self.terms@, self.places@);
            assert forall|t: Seq<char>| #[trigger]
                all.take(i + 1).contains(t) == (all.take(i as int).contains(t) || t == name) by {
                let now = all.take(i + 1);
                let past = all.take(i as int);
                if past.contains(t) {
                    let k = past.index_of(t);
                    assert(now[k] == t);
                }
                if now.contains(t) {
                    let k = now.index_of(t);
                    if k < i {
                        assert(past[k] == t);
                    }
                }
                assert(now[i as int] == name);
            }
            if !seen.contains(tokens[i].as_str()) {
                assert(self.places@.contains_key(name) ==> map.contains_key(name));
                count_row(&mut self.terms, &mut self.places, tokens[i].clone());
                seen.insert(tokens[i].clone());
                let ghost next = reach_map(self.terms@, self.places@);
                assert(seen@ == had.insert(name));
                assert forall|t: Seq<char>| #[trigger] next.contains_key(t) == (before.contains_key(
                    t,
                ) || seen@.contains(t)) by {
                    assert(map.contains_key(t) == (before.contains_key(t) || had.contains(t)));
                }
                assert forall|t: Seq<char>| #[trigger] next.contains_key(t) implies next[t] == (
                if before.contains_key(t) {
                    before[t]
                } else {
                    0
                }) + (if seen@.contains(t) {
                    1nat
                } else {
                    0nat
                }) by {
                    assert(map.contains_key(t) == (before.contains_key(t) || had.contains(t)));
                    if t != name {
                        assert(map.contains_key(t));
                        assert(next[t] == map[t]);
                        assert(seen@.contains(t) == had.contains(t));
                    }
                }
            }
            i = i + 1;
        }
        assert(all.take(i as int) =~= all);
        self.rows = self.rows + 1;
        self.tokens = self.tokens + tokens.len();
        self.lengths.push(tokens.len() as u64);
        self.documents.insert(document.to_owned());
        match identifier {
            Some(id) => {
                self.identified = self.identified + 1;
                self.identifiers.insert(id.to_owned());
            },
            None => {},
        }
        let ghost want = old(self)@.and(
            body@,
            document@,
            match identifier {
                Some(id) => Some(id@),
                None => None,
            },
        );
        assert(self@.reach =~= want.reach);
        assert(self@.lengths =~= want.lengths);
        assert forall|k: int| 0 <= k < self.terms@.len() implies 1 <= (
        #[trigger] self.terms@[k]).rows <= self.rows by {
            let t = self.terms@[k].term@;
            assert(self@.reach.contains_key(t));
            assert(self@.reach[t] == self.terms@[k].rows);
        }
    }

    /// Collapses the observations into the counts of a profile. Ties in reach
    /// are broken by the term, so a profile is the same in every run.
    pub fn finish(self) -> (r: ProfileCounts)
        requires
            self.wf(),
        ensures
            profiles(r, self@),
    {
        let ghost o = self@;
        let ghost list = self.terms@;
        let ghost raw = self.lengths@;
        let rows = self.rows;
        let tokens_total = self.tokens;
        let distinct_documents = self.documents.len();
        let distinct_identifiers = self.identifiers.len();
        let rows_with_identifier = self.identified;
        proof {
            assert(lists_reach(list, o.reach)) by {
                assert forall|t: Seq<char>| #[trigger] o.reach.contains_key(t) implies exists|i: int|
                    0 <= i < list.len() && (#[trigger] list[i]).term@ == t by {
                    let k = self.places@[t] as int;
                    assert(list[k].term@ == t);
                }
                assert forall|i: int, j: int|
                    #![trigger list[i], list[j]]
                    0 <= i < j < list.len() implies list[i].term@ != list[j].term@ by {
                    assert(self.places@[list[i].term@] == i);
                    assert(self.places@[list[j].term@] == j);
                }
            }
            arranging_keeps_elements(list);
            arranging_orders(list);
            ordered_list_keeps_reach(list, arranged(list), o.reach);
        }
        let by_frequency = arrange(self.terms);
        let mut hapax: usize = 0;
        let mut i: usize = 0;
        while i < by_frequency.len()
            invariant
                i <= by_frequency@.len(),
                hapax == hapax_upto(by_frequency@, i as int),
                hapax <= i,
            decreases by_frequency@.len() - i,
        {
            if by_frequency[i].rows == 1 {
                hapax = hapax + 1;
            }
            i = i + 1;
        }
        let sorted = sorted_sample(self.lengths);
        assert(are_lengths(raw, o.lengths));
        ProfileCounts {
            rows,
            distinct_documents,
            tokens_total,
            by_frequency,
            hapax,
            p50_doc_tokens: percentile(&sorted, 50),
            p95_doc_tokens: percentile(&sorted, 95),
            rows_with_identifier,
            distinct_identifiers,
        }
    }
}

proof fn ordered_list_keeps_reach(a: Seq<TermReach>, b: Seq<TermReach>, reach: Map<Seq<char>, nat>)
    requires
        lists_reach(a, reach),
        a.to_multiset() == b.to_multiset(),
    ensures
        lists_reach(b, reach),
{
    broadcast use vstd::seq_lib::group_to_multiset_ensures;

    assert forall|i: int| 0 <= i < b.len() implies reach.contains_key((#[trigger] b[i]).term@)
        && reach[b[i].term@] == b[i].rows by {
        assert(b.to_multiset().count(b[i]) > 0);
        assert(a.contains(b[i]));
        let k = a.index_of(b[i]);
        assert(a[k] == b[i]);
    }
    assert forall|t: Seq<char>| #[trigger] reach.contains_key(t) implies exists|i: int|
        0 <= i < b.len() && (#[trigger] b[i]).term@ == t by {
        let k = choose|i: int| 0 <= i < a.len() && (#[trigger] a[i]).term@ == t;
        assert(a.to_multiset().count(a[k]) > 0);
        assert(b.contains(a[k]));
        let m = b.index_of(a[k]);
        assert(b[m].term@ == t);
    }
    assert(a.no_duplicates()) by {
        assert forall|i: int, j: int| 0 <= i < a.len() && 0 <= j < a.len() && i != j implies a[i]
            != a[j] by {
            if i < j {
                assert(a[i].term@ != a[j].term@);
            } else {
                assert(a[j].term@ != a[i].term@);
            }
        }
    }
    a.lemma_multiset_has_no_duplicates();
    b.lemma_multiset_has_no_duplicates_conv();
    assert forall|i: int, j: int|
        #![trigger b[i], b[j]]
        0 <= i < j < b.len() implies b[i].term@ != b[j].term@ by {
        assert(b[i] != b[j]);
        assert(b.to_multiset().count(b[i]) > 0);
        assert(b.to_multiset().count(b[j]) > 0);
        assert(a.contains(b[i]) && a.contains(b[j]));
        let p = a.index_of(b[i]);
        let q = a.index_of(b[j]);
        assert(a[p] == b[i] && a[q] == b[j]);
        if p < q {
            assert(a[p].term@ != a[q].term@);
        } else {
            assert(a[q].term@ != a[p].term@);
        }
    }
}

/// How many of the commonest terms a profile lists.
pub const HEAD_TERMS: usize = 32;

/// One of the commonest terms, with the share of rows that it reaches: so many
/// of so many.
#[derive(Debug, PartialEq, Eq)]
pub struct HeadTerm {
    pub term: String,
    pub rows: usize,
    pub of: usize,
}

/// Whether these are the commonest terms of a profile, in its order.
pub open spec fn is_head(h: Seq<HeadTerm>, c: ProfileCounts) -> bool {
    let n = c.by_frequency@.len();
    &&& h.len() == if n < HEAD_TERMS {
        n
    } else {
        HEAD_TERMS as nat
    }
    &&& forall|i: int|
        0 <= i < h.len() ==> (#[trigger] h[i]).term@ == c.by_frequency@[i].term@ && h[i].rows
            == c.by_frequency@[i].rows && h[i].of == c.rows
}

impl ProfileCounts {
    /// The commonest terms, and the share of rows that each reaches.
    pub fn head(&self) -> (r: Vec<HeadTerm>)
        ensures
            is_head(r@, *self),
    {
        let mut out: Vec<HeadTerm> = Vec::new();
        let mut i: usize = 0;
        while i < self.by_frequency.len() && i < HEAD_TERMS
            invariant
                i <= self.by_frequency@.len(),
                i <= HEAD_TERMS,
                out@.len() == i,
                forall|k: int|
                    0 <= k < i ==> (#[trigger] out@[k]).term@ == self.by_frequency@[k].term@
                        && out@[k].rows == self.by_frequency@[k].rows && out@[k].of == self.rows,
            decreases self.by_frequency@.len() - i,
        {
            let t = &self.by_frequency[i];
            out.push(HeadTerm { term: t.term.clone(), rows: t.rows, of: self.rows });
            i = i + 1;
        }
        out
    }
}

/// The numbers that say whether keyword measurements on a corpus can be
/// believed.
#[derive(Debug, Clone, Copy, PartialEq)]
pub struct KeywordFigures {
    /// Distinct terms.
    pub vocabulary: usize,
    /// The slope of reach against rank, both as logarithms.
    pub zipf_slope: Score,
    /// The share of rows that a query of eight terms reaches.
    pub reach: Score,
}

/// Whether keyword measurements on a corpus can be believed: it has a
/// vocabulary, the vocabulary has a head and a tail, and a query still prunes.
pub open spec fn representative(f: KeywordFigures) -> bool {
    &&& f.vocabulary >= 1_000
    &&& f.zipf_slope.le_spec(Score { bits: 0xbf00_0000 })
    &&& f.reach.le_spec(Score { bits: 0x3e80_0000 })
}

/// Whether keyword measurements on a corpus can be believed. The failure that
/// is caught is a keyword half that degenerates into a full scan.
pub fn keyword_metrics_are_representative(f: &KeywordFigures) -> (r: bool)
    ensures
        r == representative(*f),
{
    f.vocabulary >= 1_000 && f.zipf_slope.le(Score { bits: 0xbf00_0000 }) && f.reach.le(
        Score { bits: 0x3e80_0000 },
    )
}

/// Those numbers in writing, with the commonest term and the share of rows it
/// is in, where there is one.
#[derive(Debug)]
pub struct KeywordTexts {
    pub zipf_slope: String,
    pub weighted_idf: String,
    pub reach: String,
    pub commonest: Option<(String, String)>,
}

/// Why the keyword measurements on a corpus do not transfer.
pub open spec fn caveat_text(f: KeywordFigures, t: KeywordTexts) -> Seq<char> {
    "vocabulary "@ + decimal(f.vocabulary as nat) + " terms · Zipf slope "@ + t.zipf_slope@
        + " · weighted IDF "@ + t.weighted_idf@ + " → an 8-term OR reaches ~"@ + t.reach@
        + "% of rows"@ + match t.commonest {
        Some((term, share)) => " (commonest term '"@ + term@ + "' alone is in "@ + share@ + "%)"@,
        None => Seq::empty(),
    }
        + " · BM25 latency measured here describes a scan, ✗ an index lookup, and does not transfer"@
}

/// One line of reason where keyword measurements on a corpus cannot be
/// believed.
pub fn keyword_caveat(f: &KeywordFigures, t: &KeywordTexts) -> (r: Option<String>)
    ensures
        match r {
            Some(s) => !representative(*f) && s@ == caveat_text(*f, *t),
            None => representative(*f),
        },
{
    if keyword_metrics_are_representative(f) {
        return None;
    }
    let mut s = "vocabulary ".to_owned();
    let n = show(f.vocabulary as u64);
    s.append(n.as_str());
    s.append(" terms · Zipf slope ");
    s.append(t.zipf_slope.as_str());
    s.append(" · weighted IDF ");
    s.append(t.weighted_idf.as_str());
    s.append(" → an 8-term OR reaches ~");
    s.append(t.reach.as_str());
    s.append("% of rows");
    let ghost head = s@;
    match &t.commonest {
        Some((term, share)) => {
            s.append(" (commonest term '");
            s.append(term.as_str());
            s.append("' alone is in ");
            s.append(share.as_str());
            s.append("%)");
        },
        None => {},
    }
    assert(s@ =~= head + match t.commonest {
        Some((term, share)) => " (commonest term '"@ + term@ + "' alone is in "@ + share@ + "%)"@,
        None => Seq::empty(),
    });
    s.append(
        " · BM25 latency measured here describes a scan, ✗ an index lookup, and does not transfer",
    );
    Some(s)
}

/// A row counts once for a term, however often the term stands in it, and no
/// term reaches more rows than there are.
pub proof fn reach_counts_rows(
    o: Observed,
    body: Seq<char>,
    document: Seq<char>,
    identifier: Option<Seq<char>>,
    t: Seq<char>,
)
    requires
        o.reach_of(t) <= o.rows,
    ensures
        o.and(body, document, identifier).reach_of(t) == o.reach_of(t) + if tokens_of(
            body,
        ).contains(t) {
            1nat
        } else {
            0nat
        },
        o.and(body, document, identifier).reach_of(t) <= o.and(body, document, identifier).rows,
{
}

// ---------------------------------------------------------------------------
// The profile of rows
// ---------------------------------------------------------------------------

/// A row, as a profiler is fed it.
pub ghost struct RowView {
    pub body: Seq<char>,
    pub document: Seq<char>,
    pub identifier: Option<Seq<char>>,
}

impl Observed {
    /// What is known after one row more.
    pub open spec fn with(self, row: RowView) -> Observed {
        self.and(row.body, row.document, row.identifier)
    }
}

/// What is known after rows were observed one after the other.
pub open spec fn observed(rows: Seq<RowView>) -> Observed
    decreases rows.len(),
{
    if rows.len() == 0 {
        Observed::nothing()
    } else {
        observed(rows.drop_last()).with(rows.last())
    }
}

/// How many rows a term stands in.
pub open spec fn rows_with(rows: Seq<RowView>, t: Seq<char>) -> nat
    decreases rows.len(),
{
    if rows.len() == 0 {
        0
    } else {
        rows_with(rows.drop_last(), t) + if tokens_of(rows.last().body).contains(t) {
            1nat
        } else {
            0nat
        }
    }
}

proof fn reach_is_a_count_of_rows(rows: Seq<RowView>, t: Seq<char>)
    ensures
        observed(rows).rows == rows.len(),
        observed(rows).reach_of(t) == rows_with(rows, t),
        observed(rows).reach.contains_key(t) == (rows_with(rows, t) > 0),
    decreases rows.len(),
{
    if rows.len() > 0 {
        reach_is_a_count_of_rows(rows.drop_last(), t);
    }
}

proof fn one_text_comes_first(a: Seq<char>, b: Seq<char>)
    ensures
        a == b || text_before(a, b) || text_before(b, a),
{
    if !text_before(a, b) && !text_before(b, a) {
        assert(a.take(0) =~= b.take(0));
        text_order_separates(a, b, 0);
    }
}

/// The head of a profile is its commonest terms, up to a bound: each once, with
/// the number of rows it stands in out of all rows, the commonest first and
/// equally common ones in dictionary order. No term outside it stands in more
/// rows than one inside.
pub proof fn the_head_is_the_commonest_terms(
    rows: Seq<RowView>,
    c: ProfileCounts,
    h: Seq<HeadTerm>,
)
    requires
        profiles(c, observed(rows)),
        is_head(h, c),
    ensures
        c.rows == rows.len(),
        c.by_frequency@.len() == observed(rows).reach.dom().len(),
        h.len() == if observed(rows).reach.dom().len() < HEAD_TERMS {
            observed(rows).reach.dom().len()
        } else {
            HEAD_TERMS as nat
        },
        forall|i: int|
            0 <= i < h.len() ==> (#[trigger] h[i]).rows == rows_with(rows, h[i].term@) && h[i].of
                == rows.len(),
        forall|i: int, j: int|
            #![trigger h[i], h[j]]
            0 <= i < j < h.len() ==> h[i].term@ != h[j].term@ && (h[i].rows > h[j].rows || (
            h[i].rows == h[j].rows && text_before(h[i].term@, h[j].term@))),
        forall|i: int, t: Seq<char>|
            #![trigger h[i], rows_with(rows, t)]
            0 <= i < h.len() && (forall|k: int| 0 <= k < h.len() ==> (#[trigger] h[k]).term@ != t)
                ==> rows_with(rows, t) <= h[i].rows,
{
    let v = c.by_frequency@;
    let o = observed(rows);
    reach_is_a_count_of_rows(rows, Seq::empty());
    let names = Seq::new(v.len(), |i: int| v[i].term@);
    assert(names.no_duplicates()) by {
        assert forall|i: int, j: int|
            0 <= i < names.len() && 0 <= j < names.len() && i != j implies names[i]
            != names[j] by {
            if i < j {
                assert(v[i].term@ != v[j].term@);
            } else {
                assert(v[j].term@ != v[i].term@);
            }
        }
    }
    names.unique_seq_to_set();
    assert(names.to_set() =~= o.reach.dom()) by {
        assert forall|t: Seq<char>| names.to_set().contains(t) == #[trigger] o.reach.dom().contains(
            t,
        ) by {
            if names.contains(t) {
                let i = names.index_of(t);
                assert(o.reach.contains_key(v[i].term@));
            }
            if o.reach.contains_key(t) {
                let i = choose|i: int| 0 <= i < v.len() && (#[trigger] v[i]).term@ == t;
                assert(names[i] == t);
            }
        }
    }
    assert forall|i: int| 0 <= i < h.len() implies (#[trigger] h[i]).rows == rows_with(
        rows,
        h[i].term@,
    ) && h[i].of == rows.len() by {
        reach_is_a_count_of_rows(rows, h[i].term@);
        assert(o.reach.contains_key(v[i].term@) && o.reach[v[i].term@] == v[i].rows);
    }
    assert forall|i: int, j: int|
        #![trigger h[i], h[j]]
        0 <= i < j < h.len() implies h[i].term@ != h[j].term@ && (h[i].rows > h[j].rows || (
    h[i].rows == h[j].rows && text_before(h[i].term@, h[j].term@))) by {
        assert(v[i].term@ != v[j].term@);
        assert(!v[j].ahead(&v[i]));
        one_text_comes_first(h[i].term@, h[j].term@);
    }
    assert forall|i: int, t: Seq<char>|
        #![trigger h[i], rows_with(rows, t)]
        0 <= i < h.len() && (forall|k: int| 0 <= k < h.len() ==> (#[trigger] h[k]).term@
            != t) implies rows_with(rows, t) <= h[i].rows by {
        reach_is_a_count_of_rows(rows, t);
        if rows_with(rows, t) > 0 {
            let k = choose|k: int| 0 <= k < v.len() && (#[trigger] v[k]).term@ == t;
            if k < h.len() {
                assert(h[k].term@ == t);
            }
            assert(!v[k].ahead(&v[i]));
            assert(o.reach[v[k].term@] == v[k].rows);
        }
    }
}

// ---------------------------------------------------------------------------
// The order of the rows
// ---------------------------------------------------------------------------

/// The lengths as machine numbers.
spec fn machine(lengths: Seq<nat>) -> Seq<u64> {
    lengths.map_values(|n: nat| n as u64)
}

/// Whether the same was observed, if not in the same order.
spec fn alike(a: Observed, b: Observed) -> bool {
    &&& a.rows == b.rows
    &&& a.tokens == b.tokens
    &&& a.reach == b.reach
    &&& machine(a.lengths).to_multiset() == machine(b.lengths).to_multiset()
    &&& a.documents == b.documents
    &&& a.identifiers == b.identifiers
    &&& a.identified == b.identified
}

proof fn one_length_more(lengths: Seq<nat>, n: nat)
    ensures
        machine(lengths.push(n)).to_multiset() == machine(lengths).to_multiset().insert(n as u64),
{
    broadcast use vstd::seq_lib::group_to_multiset_ensures;

    assert(machine(lengths.push(n)) =~= machine(lengths).push(n as u64));
}

proof fn one_row_more_keeps_alike(a: Observed, b: Observed, row: RowView)
    requires
        alike(a, b),
    ensures
        alike(a.with(row), b.with(row)),
{
    one_length_more(a.lengths, tokens_of(row.body).len());
    one_length_more(b.lengths, tokens_of(row.body).len());
    assert(a.with(row).reach =~= b.with(row).reach);
}

proof fn two_rows_commute(o: Observed, x: RowView, y: RowView)
    ensures
        alike(o.with(x).with(y), o.with(y).with(x)),
{
    let a = tokens_of(x.body).len();
    let b = tokens_of(y.body).len();
    one_length_more(o.lengths, a);
    one_length_more(o.lengths, b);
    one_length_more(o.lengths.push(a), b);
    one_length_more(o.lengths.push(b), a);
    let m = machine(o.lengths).to_multiset();
    assert(m.insert(a as u64).insert(b as u64) =~= m.insert(b as u64).insert(a as u64));
    let p = o.with(x).with(y);
    let q = o.with(y).with(x);
    assert(p.reach =~= q.reach) by {
        assert forall|t: Seq<char>| #[trigger] p.reach.contains_key(t) == q.reach.contains_key(t) by {}
        assert forall|t: Seq<char>| #[trigger] p.reach.contains_key(t) implies p.reach[t]
            == q.reach[t] by {
            assert(o.with(x).reach_of(t) == o.reach_of(t) + if tokens_of(x.body).contains(t) {
                1nat
            } else {
                0nat
            });
            assert(o.with(y).reach_of(t) == o.reach_of(t) + if tokens_of(y.body).contains(t) {
                1nat
            } else {
                0nat
            });
        }
    }
    assert(p.documents =~= q.documents);
    assert(p.identifiers =~= q.identifiers);
}

proof fn a_row_may_come_last(rows: Seq<RowView>, i: int)
    requires
        0 <= i < rows.len(),
    ensures
        alike(observed(rows), observed(rows.remove(i)).with(rows[i])),
    decreases rows.len(),
{
    let last = rows.last();
    let front = rows.drop_last();
    if i == rows.len() - 1 {
        assert(rows.remove(i) =~= front);
    } else {
        a_row_may_come_last(front, i);
        assert(front[i] == rows[i]);
        one_row_more_keeps_alike(
            observed(front),
            observed(front.remove(i)).with(rows[i]),
            last,
        );
        two_rows_commute(observed(front.remove(i)), rows[i], last);
        assert(rows.remove(i).drop_last() =~= front.remove(i));
        assert(rows.remove(i).last() == last);
    }
}

proof fn the_order_of_rows_does_not_tell(a: Seq<RowView>, b: Seq<RowView>)
    requires
        a.to_multiset() == b.to_multiset(),
    ensures
        alike(observed(a), observed(b)),
    decreases a.len(),
{
    broadcast use vstd::seq_lib::group_to_multiset_ensures;

    assert(a.len() == a.to_multiset().len());
    assert(b.len() == b.to_multiset().len());
    if a.len() > 0 {
        let x = a.last();
        let front = a.drop_last();
        assert(a =~= front.push(x));
        assert(a.to_multiset().count(x) > 0);
        assert(b.contains(x));
        let i = b.index_of(x);
        assert(a.remove(a.len() - 1) =~= front);
        assert(front.to_multiset() == a.to_multiset().remove(x));
        assert(b.remove(i).to_multiset() == b.to_multiset().remove(x));
        the_order_of_rows_does_not_tell(front, b.remove(i));
        one_row_more_keeps_alike(observed(front), observed(b.remove(i)), x);
        a_row_may_come_last(b, i);
    }
}

/// Terms with their reach, as what they say.
pub open spec fn reach_views(v: Seq<TermReach>) -> Seq<(Seq<char>, usize)> {
    v.map_values(|t: TermReach| (t.term@, t.rows))
}

/// The order of a profile's terms, on what they say.
spec fn not_behind(a: (Seq<char>, usize), b: (Seq<char>, usize)) -> bool {
    a == b || a.1 > b.1 || (a.1 == b.1 && text_before(a.0, b.0))
}

proof fn not_behind_is_total()
    ensures
        vstd::relations::total_ordering(|a, b| not_behind(a, b)),
{
    let leq = |a: (Seq<char>, usize), b: (Seq<char>, usize)| not_behind(a, b);
    assert forall|a: (Seq<char>, usize), b: (Seq<char>, usize)|
        #[trigger] leq(a, b) && #[trigger] leq(b, a) implies a == b by {
        if text_before(a.0, b.0) && text_before(b.0, a.0) {
            text_order_is_transitive(a.0, b.0, a.0, 0);
            text_order_is_irreflexive(a.0, 0);
        }
    }
    assert forall|a: (Seq<char>, usize), b: (Seq<char>, usize), c: (Seq<char>, usize)|
        #[trigger] leq(a, b) && #[trigger] leq(b, c) implies leq(a, c) by {
        if text_before(a.0, b.0) && text_before(b.0, c.0) {
            text_order_is_transitive(a.0, b.0, c.0, 0);
        }
    }
    assert forall|a: (Seq<char>, usize), b: (Seq<char>, usize)| #[trigger] leq(a, b) || leq(
        b,
        a,
    ) by {
        one_text_comes_first(a.0, b.0);
    }
}

proof fn views_are_listed_once(v: Seq<TermReach>, reach: Map<Seq<char>, nat>, x: (Seq<char>, usize))
    requires
        lists_reach(v, reach),
        in_order(v),
    ensures
        vstd::relations::sorted_by(reach_views(v), |a, b| not_behind(a, b)),
        reach_views(v).to_multiset().count(x) == if reach.contains_key(x.0) && reach[x.0] == x.1 {
            1nat
        } else {
            0nat
        },
{
    broadcast use vstd::seq_lib::group_to_multiset_ensures;

    let w = reach_views(v);
    assert forall|i: int, j: int| 0 <= i < j < w.len() implies #[trigger] not_behind(
        w[i],
        w[j],
    ) by {
        assert(v[i].term@ != v[j].term@);
        assert(!v[j].ahead(&v[i]));
        one_text_comes_first(v[i].term@, v[j].term@);
    }
    assert(w.no_duplicates()) by {
        assert forall|i: int, j: int| 0 <= i < w.len() && 0 <= j < w.len() && i != j implies w[i]
            != w[j] by {
            if i < j {
                assert(v[i].term@ != v[j].term@);
            } else {
                assert(v[j].term@ != v[i].term@);
            }
        }
    }
    w.lemma_multiset_has_no_duplicates();
    if w.contains(x) {
        let i = w.index_of(x);
        assert(w[i] == (v[i].term@, v[i].rows));
        assert(reach.contains_key(v[i].term@));
        assert(w.to_multiset().contains(x));
    } else if reach.contains_key(x.0) && reach[x.0] == x.1 {
        let i = choose|i: int| 0 <= i < v.len() && (#[trigger] v[i]).term@ == x.0;
        assert(reach[v[i].term@] == v[i].rows);
        assert(w[i] == x);
    }
}

/// Two ordered lists of the same terms say the same.
proof fn ordered_lists_agree(a: Seq<TermReach>, b: Seq<TermReach>, reach: Map<Seq<char>, nat>)
    requires
        lists_reach(a, reach),
        lists_reach(b, reach),
        in_order(a),
        in_order(b),
    ensures
        reach_views(a) == reach_views(b),
        hapax_upto(a, a.len() as int) == hapax_upto(b, b.len() as int),
{
    let leq = |x: (Seq<char>, usize), y: (Seq<char>, usize)| not_behind(x, y);
    let nothing: (Seq<char>, usize) = (Seq::empty(), 0usize);
    views_are_listed_once(a, reach, nothing);
    views_are_listed_once(b, reach, nothing);
    assert(reach_views(a).to_multiset() =~= reach_views(b).to_multiset()) by {
        assert forall|x: (Seq<char>, usize)| reach_views(a).to_multiset().count(x)
            == #[trigger] reach_views(b).to_multiset().count(x) by {
            views_are_listed_once(a, reach, x);
            views_are_listed_once(b, reach, x);
        }
    }
    not_behind_is_total();
    vstd::seq_lib::lemma_sorted_unique(reach_views(a), reach_views(b), leq);
    hapax_goes_by_reach(a, b, a.len() as int);
}

proof fn hapax_goes_by_reach(a: Seq<TermReach>, b: Seq<TermReach>, n: int)
    requires
        reach_views(a) == reach_views(b),
        n <= a.len(),
    ensures
        hapax_upto(a, n) == hapax_upto(b, n),
        a.len() == b.len(),
    decreases n,
{
    assert(reach_views(a).len() == a.len());
    assert(reach_views(b).len() == b.len());
    if n > 0 {
        hapax_goes_by_reach(a, b, n - 1);
        assert(reach_views(a)[n - 1] == reach_views(b)[n - 1]);
    }
}

proof fn arranged_lengths_agree(a: Seq<u64>, b: Seq<u64>)
    requires
        a.to_multiset() == b.to_multiset(),
    ensures
        arranged(a) == arranged(b),
{
    let leq = |x: u64, y: u64| x <= y;
    arranging_keeps_elements(a);
    arranging_keeps_elements(b);
    arranging_orders(a);
    arranging_orders(b);
    assert(vstd::relations::total_ordering(leq));
    assert(vstd::relations::sorted_by(arranged(a), leq)) by {
        assert forall|i: int, j: int| 0 <= i < j < arranged(a).len() implies #[trigger] leq(
            arranged(a)[i],
            arranged(a)[j],
        ) by {
            assert(!arranged(a)[j].ahead(&arranged(a)[i]));
        }
    }
    assert(vstd::relations::sorted_by(arranged(b), leq)) by {
        assert forall|i: int, j: int| 0 <= i < j < arranged(b).len() implies #[trigger] leq(
            arranged(b)[i],
            arranged(b)[j],
        ) by {
            assert(!arranged(b)[j].ahead(&arranged(b)[i]));
        }
    }
    vstd::seq_lib::lemma_sorted_unique(arranged(a), arranged(b), leq);
}

/// A profile depends on what rows there are, and not on their order.
pub proof fn a_profile_ignores_the_order_of_its_rows(
    a: Seq<RowView>,
    b: Seq<RowView>,
    p: ProfileCounts,
    q: ProfileCounts,
)
    requires
        a.to_multiset() == b.to_multiset(),
        profiles(p, observed(a)),
        profiles(q, observed(b)),
    ensures
        p.rows == q.rows,
        p.distinct_documents == q.distinct_documents,
        p.tokens_total == q.tokens_total,
        reach_views(p.by_frequency@) == reach_views(q.by_frequency@),
        p.hapax == q.hapax,
        p.p50_doc_tokens == q.p50_doc_tokens,
        p.p95_doc_tokens == q.p95_doc_tokens,
        p.rows_with_identifier == q.rows_with_identifier,
        p.distinct_identifiers == q.distinct_identifiers,
{
    the_order_of_rows_does_not_tell(a, b);
    ordered_lists_agree(p.by_frequency@, q.by_frequency@, observed(a).reach);
    let x = choose|lengths: Seq<u64>| #[trigger]
        are_lengths(lengths, observed(a).lengths) && p.p50_doc_tokens == percentile_of(
            arranged(lengths),
            50,
        ) && p.p95_doc_tokens == percentile_of(arranged(lengths), 95);
    let y = choose|lengths: Seq<u64>| #[trigger]
        are_lengths(lengths, observed(b).lengths) && q.p50_doc_tokens == percentile_of(
            arranged(lengths),
            50,
        ) && q.p95_doc_tokens == percentile_of(arranged(lengths), 95);
    assert(x =~= machine(observed(a).lengths));
    assert(y =~= machine(observed(b).lengths));
    arranged_lengths_agree(x, y);
}

// ---------------------------------------------------------------------------
// What rows show
// ---------------------------------------------------------------------------

/// What is observed of rows: the length of each in its place, every document
/// and every identifier that one of them has, and no others.
pub proof fn every_row_is_observed(rows: Seq<RowView>)
    ensures
        observed(rows).rows == rows.len(),
        observed(rows).lengths.len() == rows.len(),
        forall|i: int|
            0 <= i < rows.len() ==> #[trigger] observed(rows).lengths[i] == tokens_of(
                rows[i].body,
            ).len(),
        forall|d: Seq<char>| #[trigger]
            observed(rows).documents.contains(d) <==> exists|i: int|
                0 <= i < rows.len() && (#[trigger] rows[i]).document == d,
        forall|d: Seq<char>| #[trigger]
            observed(rows).identifiers.contains(d) <==> exists|i: int|
                0 <= i < rows.len() && (#[trigger] rows[i]).identifier == Some(d),
    decreases rows.len(),
{
    if rows.len() > 0 {
        let front = rows.drop_last();
        every_row_is_observed(front);
        let o = observed(rows);
        let b = observed(front);
        let last = rows.last();
        assert forall|i: int| 0 <= i < rows.len() implies #[trigger] o.lengths[i] == tokens_of(
            rows[i].body,
        ).len() by {
            if i < front.len() {
                assert(b.lengths[i] == tokens_of(front[i].body).len());
            }
        }
        assert forall|d: Seq<char>| #[trigger] o.documents.contains(d) <==> exists|i: int|
            0 <= i < rows.len() && (#[trigger] rows[i]).document == d by {
            if b.documents.contains(d) {
                let i = choose|i: int| 0 <= i < front.len() && (#[trigger] front[i]).document == d;
                assert(rows[i].document == d);
            }
            if d == last.document {
                assert(rows[rows.len() - 1].document == d);
            }
            if exists|i: int| 0 <= i < rows.len() && (#[trigger] rows[i]).document == d {
                let i = choose|i: int| 0 <= i < rows.len() && (#[trigger] rows[i]).document == d;
                if i < front.len() {
                    assert(front[i].document == d);
                }
            }
        }
        assert forall|d: Seq<char>| #[trigger] o.identifiers.contains(d) <==> exists|i: int|
            0 <= i < rows.len() && (#[trigger] rows[i]).identifier == Some(d) by {
            if b.identifiers.contains(d) {
                let i = choose|i: int|
                    0 <= i < front.len() && (#[trigger] front[i]).identifier == Some(d);
                assert(rows[i].identifier == Some(d));
            }
            if last.identifier == Some(d) {
                assert(rows[rows.len() - 1].identifier == Some(d));
            }
            if exists|i: int| 0 <= i < rows.len() && (#[trigger] rows[i]).identifier == Some(d) {
                let i = choose|i: int|
                    0 <= i < rows.len() && (#[trigger] rows[i]).identifier == Some(d);
                if i < front.len() {
                    assert(front[i].identifier == Some(d));
                }
            }
        }
    }
}

/// The rows that carry an identifier are counted one by one.
pub proof fn identified_rows_are_counted(rows: Seq<RowView>) -> (q: Seq<int>)
    ensures
        picks(q, rows.len() as int, |i: int| rows[i].identifier is Some),
        observed(rows).identified == q.len(),
    decreases rows.len(),
{
    if rows.len() == 0 {
        Seq::empty()
    } else {
        let front = rows.drop_last();
        let p = identified_rows_are_counted(front);
        let f = |i: int| front[i].identifier is Some;
        let g = |i: int| rows[i].identifier is Some;
        assert(picks(p, front.len() as int, g)) by {
            assert forall|k: int| 0 <= k < p.len() implies g(#[trigger] p[k]) by {
                assert(f(p[k]));
            }
            assert forall|i: int| 0 <= i < front.len() && #[trigger] g(i) implies p.contains(i) by {
                assert(f(i));
            }
        }
        picks_one_more(p, front.len() as int, g)
    }
}

/// How many rows a term stands in: one for each row that has it among its
/// tokens, however often.
pub proof fn the_rows_of_a_term_are_counted(rows: Seq<RowView>, t: Seq<char>) -> (q: Seq<int>)
    ensures
        picks(q, rows.len() as int, |i: int| tokens_of(rows[i].body).contains(t)),
        rows_with(rows, t) == q.len(),
        observed(rows).reach_of(t) == q.len(),
    decreases rows.len(),
{
    if rows.len() == 0 {
        Seq::empty()
    } else {
        let front = rows.drop_last();
        let p = the_rows_of_a_term_are_counted(front, t);
        let f = |i: int| tokens_of(front[i].body).contains(t);
        let g = |i: int| tokens_of(rows[i].body).contains(t);
        assert(picks(p, front.len() as int, g)) by {
            assert forall|k: int| 0 <= k < p.len() implies g(#[trigger] p[k]) by {
                assert(f(p[k]));
            }
            assert forall|i: int| 0 <= i < front.len() && #[trigger] g(i) implies p.contains(i) by {
                assert(f(i));
            }
        }
        picks_one_more(p, front.len() as int, g)
    }
}

/// The tokens of two lots of rows add up, and those of one row are its own,
/// repeats counted.
pub proof fn tokens_add_up(a: Seq<RowView>, b: Seq<RowView>, row: RowView)
    ensures
        observed(a + b).tokens == observed(a).tokens + observed(b).tokens,
        observed(seq![row]).tokens == tokens_of(row.body).len(),
    decreases b.len(),
{
    assert(seq![row].drop_last() =~= Seq::<RowView>::empty());
    reveal_with_fuel(observed, 2);
    if b.len() > 0 {
        tokens_add_up(a, b.drop_last(), row);
        assert((a + b).drop_last() =~= a + b.drop_last());
        assert((a + b).last() == b.last());
    } else {
        assert(a + b =~= a);
    }
}

/// The terms that reach a single row are counted one by one.
pub proof fn single_row_terms_are_counted(v: Seq<TermReach>, n: int) -> (q: Seq<int>)
    requires
        0 <= n <= v.len(),
    ensures
        picks(q, n, |i: int| v[i].rows == 1),
        hapax_upto(v, n) == q.len(),
    decreases n,
{
    if n <= 0 {
        Seq::empty()
    } else {
        let q = single_row_terms_are_counted(v, n - 1);
        picks_one_more(q, n - 1, |i: int| v[i].rows == 1)
    }
}

/// A corpus is representative with a thousand terms or more, a slope of minus
/// one half or steeper, and a reach of a quarter of the rows or less.
pub proof fn a_representative_corpus_prunes(f: KeywordFigures)
    ensures
        representative(f) <==> {
            &&& f.vocabulary >= 1000
            &&& 0xbf00_0000 <= f.zipf_slope.bits <= 0xff80_0000
            &&& f.reach.bits <= 0x3e80_0000 || 0x8000_0000 <= f.reach.bits <= 0xff80_0000
        },
{
}

/// The typical and the long row of a profile are lengths of rows: of the rows by
/// length, the one at the least place such that half of them, or 95 of a
/// hundred, stand at it or before it.
pub proof fn a_profile_tells_the_typical_and_the_long_row(rows: Seq<RowView>, c: ProfileCounts) -> (p: (
    Seq<u64>,
    int,
    int,
))
    requires
        rows.len() > 0,
        profiles(c, observed(rows)),
    ensures
        p.0.len() == rows.len(),
        forall|i: int|
            0 <= i < rows.len() ==> #[trigger] p.0[i] == tokens_of(rows[i].body).len(),
        0 <= p.1 < rows.len() && 0 <= p.2 < rows.len(),
        c.p50_doc_tokens == arranged(p.0)[p.1] && c.p95_doc_tokens == arranged(p.0)[p.2],
        100 * (p.1 + 1) >= 50 * rows.len() && (p.1 == 0 || 100 * p.1 < 50 * rows.len()),
        100 * (p.2 + 1) >= 95 * rows.len() && (p.2 == 0 || 100 * p.2 < 95 * rows.len()),
        c.p50_doc_tokens <= c.p95_doc_tokens,
{
    every_row_is_observed(rows);
    let lengths = choose|lengths: Seq<u64>| #[trigger]
        are_lengths(lengths, observed(rows).lengths) && c.p50_doc_tokens == percentile_of(
            arranged(lengths),
            50,
        ) && c.p95_doc_tokens == percentile_of(arranged(lengths), 95);
    let n = rows.len();
    arranging_keeps_elements(lengths);
    a_percentile_stands_at_the_least_place(n, 50);
    a_percentile_stands_at_the_least_place(n, 95);
    percentiles_come_from_observed_values(lengths, 50, 95);
    assert forall|i: int| 0 <= i < n implies #[trigger] lengths[i] == tokens_of(
        rows[i].body,
    ).len() by {
        assert(observed(rows).lengths[i] == tokens_of(rows[i].body).len());
    }
    (lengths, nearest_place(n, 50), nearest_place(n, 95))
}

/// A profile lists its 32 commonest terms, or all where there are fewer.
pub proof fn a_profile_lists_no_more_than_its_head(c: ProfileCounts, h: Seq<HeadTerm>)
    requires
        is_head(h, c),
    ensures
        h.len() == if c.by_frequency@.len() < 32 {
            c.by_frequency@.len()
        } else {
            32
        },
        forall|i: int|
            0 <= i < h.len() ==> (#[trigger] h[i]).term@ == c.by_frequency@[i].term@ && h[i].rows
                == c.by_frequency@[i].rows && h[i].of == c.rows,
{
}

} // verus!
