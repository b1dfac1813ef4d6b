//! The text of a synthetic corpus.
//!
//! Terms are drawn by rank, so that their frequencies follow Zipf's law: most
//! terms are rare, and a query term prunes.

use vstd::prelude::*;
use vstd::hash_set::StringHashSet;
use vstd::string::*;

use crate::engine::factors::HALF_BITS;
use crate::order::{picks, picks_one_more};
use crate::score::Score;
use crate::server::answer::{collapse, collapsed};
use crate::text::{all_digits, chars_of, decimal, decimal_is_injective, decimal_reads_back, is_digit, join, joined, number_of, show, slices, string_of, texts};

verus! {

/// The roots that terms are built from.
pub open spec fn roots() -> Seq<Seq<char>> {
    seq![
        "wajib"@,
        "pajak"@,
        "sanksi"@,
        "administrasi"@,
        "ketentuan"@,
        "umum"@,
        "tata"@,
        "cara"@,
        "perpajakan"@,
        "penghasilan"@,
        "badan"@,
        "orang"@,
        "pribadi"@,
        "tarif"@,
        "pengenaan"@,
        "pemungutan"@,
        "penyetoran"@,
        "pelaporan"@,
        "keberatan"@,
        "banding"@,
        "surat"@,
        "teguran"@,
        "denda"@,
        "bunga"@,
        "kenaikan"@,
        "restitusi"@,
        "kompensasi"@,
        "pemeriksaan"@,
        "penyidikan"@,
        "daerah"@,
        "pusat"@,
        "menteri"@,
        "keuangan"@,
        "direktorat"@,
        "jenderal"@,
        "peraturan"@,
        "pelaksanaan"@,
        "perubahan"@,
        "pencabutan"@,
        "berlaku"@,
        "kewajiban"@,
        "hak"@,
        "subjek"@,
        "objek"@,
        "dasar"@,
        "pengurangan"@,
        "fasilitas"@,
        "insentif"@,
        "pembukuan"@,
        "pencatatan"@,
        "putusan"@,
        "gugatan"@,
        "sengketa"@,
        "pengadilan"@,
        "hakim"@,
        "saksi"@,
        "bukti"@,
        "dakwaan"@,
        "kontrak"@,
        "perjanjian"@,
        "pihak"@,
        "klausul"@,
        "wanprestasi"@,
        "ganti"@,
        "rugi"@,
        "somasi"@,
    ]
}

/// What may stand before a root.
pub open spec fn prefixes() -> Seq<Seq<char>> {
    seq![
        ""@,
        "me"@,
        "pe"@,
        "ber"@,
        "ter"@,
        "di"@,
        "ke"@,
        "se"@,
        "peng"@,
        "meng"@,
    ]
}

/// What may stand behind a root.
pub open spec fn suffixes() -> Seq<Seq<char>> {
    seq![
        ""@,
        "an"@,
        "kan"@,
        "nya"@,
        "i"@,
        "annya"@,
    ]
}

/// The document types that a row may cite.
pub open spec fn cited_types() -> Seq<Seq<char>> {
    seq![
        "UU"@,
        "PP"@,
        "PERPRES"@,
        "PMK"@,
        "PERMEN"@,
    ]
}

fn root_list() -> (r: Vec<&'static str>)
    ensures
        slices(r@) == roots(),
{
    let r = vec![
        "wajib",
        "pajak",
        "sanksi",
        "administrasi",
        "ketentuan",
        "umum",
        "tata",
        "cara",
        "perpajakan",
        "penghasilan",
        "badan",
        "orang",
        "pribadi",
        "tarif",
        "pengenaan",
        "pemungutan",
        "penyetoran",
        "pelaporan",
        "keberatan",
        "banding",
        "surat",
        "teguran",
        "denda",
        "bunga",
        "kenaikan",
        "restitusi",
        "kompensasi",
        "pemeriksaan",
        "penyidikan",
        "daerah",
        "pusat",
        "menteri",
        "keuangan",
        "direktorat",
        "jenderal",
        "peraturan",
        "pelaksanaan",
        "perubahan",
        "pencabutan",
        "berlaku",
        "kewajiban",
        "hak",
        "subjek",
        "objek",
        "dasar",
        "pengurangan",
        "fasilitas",
        "insentif",
        "pembukuan",
        "pencatatan",
        "putusan",
        "gugatan",
        "sengketa",
        "pengadilan",
        "hakim",
        "saksi",
        "bukti",
        "dakwaan",
        "kontrak",
        "perjanjian",
        "pihak",
        "klausul",
        "wanprestasi",
        "ganti",
        "rugi",
        "somasi",
    ];
    assert(slices(r@) =~= roots());
    r
}

fn prefix_list() -> (r: Vec<&'static str>)
    ensures
        slices(r@) == prefixes(),
{
    let r = vec![
        "",
        "me",
        "pe",
        "ber",
        "ter",
        "di",
        "ke",
        "se",
        "peng",
        "meng",
    ];
    assert(slices(r@) =~= prefixes());
    r
}

fn suffix_list() -> (r: Vec<&'static str>)
    ensures
        slices(r@) == suffixes(),
{
    let r = vec![
        "",
        "an",
        "kan",
        "nya",
        "i",
        "annya",
    ];
    assert(slices(r@) =~= suffixes());
    r
}

fn type_list() -> (r: Vec<&'static str>)
    ensures
        slices(r@) == cited_types(),
{
    let r = vec![
        "UU",
        "PP",
        "PERPRES",
        "PMK",
        "PERMEN",
    ];
    assert(slices(r@) =~= cited_types());
    r
}

/// Whether a text ends in something that is no digit.
spec fn ends_plain(s: Seq<char>) -> bool {
    s.len() > 0 && !is_digit(s.last())
}

proof fn roots_end_plain(i: int)
    requires
        0 <= i < roots().len(),
    ensures
        ends_plain(roots()[i]),
{
    reveal_strlit("wajib");
    reveal_strlit("pajak");
    reveal_strlit("sanksi");
    reveal_strlit("administrasi");
    reveal_strlit("ketentuan");
    reveal_strlit("umum");
    reveal_strlit("tata");
    reveal_strlit("cara");
    reveal_strlit("perpajakan");
    reveal_strlit("penghasilan");
    reveal_strlit("badan");
    reveal_strlit("orang");
    reveal_strlit("pribadi");
    reveal_strlit("tarif");
    reveal_strlit("pengenaan");
    reveal_strlit("pemungutan");
    reveal_strlit("penyetoran");
    reveal_strlit("pelaporan");
    reveal_strlit("keberatan");
    reveal_strlit("banding");
    reveal_strlit("surat");
    reveal_strlit("teguran");
    reveal_strlit("denda");
    reveal_strlit("bunga");
    reveal_strlit("kenaikan");
    reveal_strlit("restitusi");
    reveal_strlit("kompensasi");
    reveal_strlit("pemeriksaan");
    reveal_strlit("penyidikan");
    reveal_strlit("daerah");
    reveal_strlit("pusat");
    reveal_strlit("menteri");
    reveal_strlit("keuangan");
    reveal_strlit("direktorat");
    reveal_strlit("jenderal");
    reveal_strlit("peraturan");
    reveal_strlit("pelaksanaan");
    reveal_strlit("perubahan");
    reveal_strlit("pencabutan");
    reveal_strlit("berlaku");
    reveal_strlit("kewajiban");
    reveal_strlit("hak");
    reveal_strlit("subjek");
    reveal_strlit("objek");
    reveal_strlit("dasar");
    reveal_strlit("pengurangan");
    reveal_strlit("fasilitas");
    reveal_strlit("insentif");
    reveal_strlit("pembukuan");
    reveal_strlit("pencatatan");
    reveal_strlit("putusan");
    reveal_strlit("gugatan");
    reveal_strlit("sengketa");
    reveal_strlit("pengadilan");
    reveal_strlit("hakim");
    reveal_strlit("saksi");
    reveal_strlit("bukti");
    reveal_strlit("dakwaan");
    reveal_strlit("kontrak");
    reveal_strlit("perjanjian");
    reveal_strlit("pihak");
    reveal_strlit("klausul");
    reveal_strlit("wanprestasi");
    reveal_strlit("ganti");
    reveal_strlit("rugi");
    reveal_strlit("somasi");
}

proof fn suffixes_end_plain(i: int)
    requires
        0 <= i < suffixes().len(),
    ensures
        suffixes()[i].len() == 0 || ends_plain(suffixes()[i]),
{
    reveal_strlit("");
    reveal_strlit("an");
    reveal_strlit("kan");
    reveal_strlit("nya");
    reveal_strlit("i");
    reveal_strlit("annya");
}

/// How many terms are composed of a prefix, a root and a suffix.
pub const COMPOSED: u64 = 3960;

/// The terms in the order in which they are tried: every composition, roots
/// running fastest; then roots with a number.
pub open spec fn term_at(k: int) -> Seq<char> {
    if k < COMPOSED {
        prefixes()[(k % 660) / 66] + roots()[k % 66] + suffixes()[k / 660]
    } else {
        roots()[(k - COMPOSED) % 66] + decimal((k - COMPOSED) as nat)
    }
}

/// The first `k` terms, each only once.
pub open spec fn terms_upto(k: int) -> Seq<Seq<char>>
    decreases k,
{
    if k <= 0 {
        Seq::empty()
    } else {
        let before = terms_upto(k - 1);
        if before.contains(term_at(k - 1)) {
            before
        } else {
            before.push(term_at(k - 1))
        }
    }
}

fn build_term(
    k: u128,
    root: &Vec<&'static str>,
    prefix: &Vec<&'static str>,
    suffix: &Vec<&'static str>,
) -> (r: String)
    requires
        slices(root@) == roots(),
        slices(prefix@) == prefixes(),
        slices(suffix@) == suffixes(),
        k < COMPOSED + u64::MAX,
    ensures
        r@ == term_at(k as int),
{
    assert(slices(root@).len() == root@.len());
    assert(slices(prefix@).len() == prefix@.len());
    assert(slices(suffix@).len() == suffix@.len());
    if k < COMPOSED as u128 {
        let n: usize = k as usize;
        let a: usize = (n % 660) / 66;
        let b: usize = n % 66;
        let c: usize = n / 660;
        assert(slices(prefix@)[a as int] == prefix@[a as int]@);
        assert(slices(root@)[b as int] == root@[b as int]@);
        assert(slices(suffix@)[c as int] == suffix@[c as int]@);
        let mut s = prefix[a].to_owned();
        s.append(root[b]);
        s.append(suffix[c]);
        s
    } else {
        let i: u64 = (k - COMPOSED as u128) as u64;
        let b: usize = (i % 66) as usize;
        assert(slices(root@)[b as int] == root@[b as int]@);
        let mut s = root[b].to_owned();
        let n = show(i);
        s.append(n.as_str());
        s
    }
}

/// A numbered term is none of the terms before it.
proof fn numbered_terms_are_new(j: int, k: int)
    requires
        0 <= j < k,
        COMPOSED <= k,
    ensures
        term_at(j) != term_at(k),
{
    let i = (k - COMPOSED) as nat;
    let d = decimal(i);
    decimal_reads_back(i);
    let a = roots()[(k - COMPOSED) % 66];
    roots_end_plain((k - COMPOSED) % 66);
    let t = term_at(k);
    assert(t.last() == d.last());
    assert(is_digit(d[d.len() - 1]));
    if j < COMPOSED {
        let s = suffixes()[j / 660];
        let r = roots()[j % 66];
        suffixes_end_plain(j / 660);
        roots_end_plain(j % 66);
        let u = term_at(j);
        assert(u.last() == if s.len() == 0 {
            r.last()
        } else {
            s.last()
        });
    } else {
        let m = (j - COMPOSED) as nat;
        let e = decimal(m);
        decimal_reads_back(m);
        let b = roots()[(j - COMPOSED) % 66];
        roots_end_plain((j - COMPOSED) % 66);
        let u = term_at(j);
        if u == t {
            assert(a.len() + d.len() == b.len() + e.len());
            if d.len() == e.len() {
                assert(d =~= t.skip(a.len() as int));
                assert(e =~= u.skip(b.len() as int));
                decimal_is_injective(i, m);
            } else if d.len() < e.len() {
                let p = a.len() - 1;
                assert(t[p] == a.last());
                assert(u[p] == e[p - b.len()]);
                assert(is_digit(e[p - b.len()]));
            } else {
                let p = b.len() - 1;
                assert(u[p] == b.last());
                assert(t[p] == d[p - a.len()]);
                assert(is_digit(d[p - a.len()]));
            }
        }
    }
}

proof fn terms_are_tried(k: int, i: int) -> (j: int)
    requires
        0 <= k,
        0 <= i < terms_upto(k).len(),
    ensures
        0 <= j < k,
        terms_upto(k)[i] == term_at(j),
    decreases k,
{
    let before = terms_upto(k - 1);
    if i < before.len() {
        terms_are_tried(k - 1, i)
    } else {
        k - 1
    }
}

/// No term stands twice, and every further number brings a new one.
pub proof fn terms_are_distinct(k: int)
    requires
        0 <= k,
    ensures
        terms_upto(k).no_duplicates(),
        terms_upto(k).len() <= k,
        COMPOSED <= k ==> !terms_upto(k).contains(term_at(k)),
        COMPOSED <= k ==> terms_upto(k + 1).len() == terms_upto(k).len() + 1,
    decreases k,
{
    if k > 0 {
        terms_are_distinct(k - 1);
    }
    if COMPOSED <= k && terms_upto(k).contains(term_at(k)) {
        let i = terms_upto(k).index_of(term_at(k));
        let j = terms_are_tried(k, i);
        numbered_terms_are_new(j, k);
    }
}

/// Whether terms are the vocabulary of a size: the first ones that are
/// different from each other, that many.
pub open spec fn is_vocabulary(terms: Seq<Seq<char>>, size: nat) -> bool {
    &&& terms.len() == size
    &&& terms.no_duplicates()
    &&& exists|k: int| 0 <= k && terms == #[trigger] terms_upto(k)
}

/// How many terms a vocabulary has: one at least.
pub open spec fn size_of(size: usize) -> nat {
    if size == 0 {
        1
    } else {
        size as nat
    }
}

/// The terms of a vocabulary: exactly the requested number, all different.
pub fn zipf_terms(size: usize) -> (r: Vec<String>)
    ensures
        is_vocabulary(texts(r@), size_of(size)),
{
    let size: usize = if size == 0 {
        1
    } else {
        size
    };
    let root = root_list();
    let prefix = prefix_list();
    let suffix = suffix_list();
    let mut terms: Vec<String> = Vec::new();
    let mut seen = StringHashSet::new();
    let mut k: u128 = 0;
    assert(texts(terms@) =~= terms_upto(0));
    while terms.len() < size
        invariant
            slices(root@) == roots(),
            slices(prefix@) == prefixes(),
            slices(suffix@) == suffixes(),
            terms@.len() <= size,
            texts(terms@) == terms_upto(k as int),
            forall|t: Seq<char>| #[trigger] seen@.contains(t) == terms_upto(k as int).contains(t),
            COMPOSED <= k ==> k - COMPOSED <= terms@.len(),
        decreases
                (if k < COMPOSED {
                    COMPOSED - k
                } else {
                    0
                }),
                size - terms@.len(),
    {
        let term = build_term(k, &root, &prefix, &suffix);
        let ghost name = term@;
        let ghost before = terms_upto(k as int);
        proof {
            terms_are_distinct(k as int);
        }
        assert(before.len() == terms@.len());
        if !seen.contains(term.as_str()) {
            seen.insert(term.clone());
            terms.push(term);
            assert(texts(terms@) =~= before.push(name));
            assert forall|t: Seq<char>| #[trigger] seen@.contains(t) == before.push(
                name,
            ).contains(t) by {
                let now = before.push(name);
                if before.contains(t) {
                    let i = before.index_of(t);
                    assert(now[i] == t);
                }
                assert(now[before.len() as int] == name);
                if now.contains(t) {
                    let i = now.index_of(t);
                    if i < before.len() {
                        assert(before[i] == t);
                    }
                }
            }
        }
        k = k + 1;
    }
    proof {
        terms_are_distinct(k as int);
    }
    terms
}

/// Whether no number is followed by a lower one, and all are numbers.
pub open spec fn rises(v: Seq<Score>) -> bool {
    forall|i: int, j: int| #![trigger v[i], v[j]] 0 <= i <= j < v.len() ==> v[i].le_spec(v[j])
}

/// A vocabulary whose terms are drawn by cumulative weight.
#[derive(Debug)]
pub struct Vocabulary {
    terms: Vec<String>,
    cdf: Vec<Score>,
}

/// The place of the first weight from `i` on that a draw does not exceed.
pub open spec fn draw_from(cdf: Seq<Score>, u: Score, i: int) -> int
    decreases cdf.len() - i,
{
    if i >= cdf.len() || !cdf[i].lt_spec(u) {
        i
    } else {
        draw_from(cdf, u, i + 1)
    }
}

/// Where a draw falls: at the first weight that it does not exceed, and at the
/// last one where it exceeds them all.
pub open spec fn drawn(cdf: Seq<Score>, u: Score) -> int {
    let i = draw_from(cdf, u, 0);
    if i >= cdf.len() {
        cdf.len() - 1
    } else {
        i
    }
}

proof fn draw_is_first(cdf: Seq<Score>, u: Score, i: int, p: int)
    requires
        0 <= i <= p <= cdf.len(),
        forall|k: int| i <= k < p ==> (#[trigger] cdf[k]).lt_spec(u),
        p < cdf.len() ==> !cdf[p].lt_spec(u),
    ensures
        draw_from(cdf, u, i) == p,
    decreases p - i,
{
    if i < p {
        assert(cdf[i].lt_spec(u));
        draw_is_first(cdf, u, i + 1, p);
    }
}

impl Vocabulary {
    #[verifier::type_invariant]
    spec fn inv(self) -> bool {
        &&& self.terms@.len() > 0
        &&& self.terms@.len() == self.cdf@.len()
        &&& rises(self.cdf@)
    }

    /// The terms, the commonest first.
    pub closed spec fn terms(self) -> Seq<Seq<char>> {
        texts(self.terms@)
    }

    /// The cumulative weights.
    pub closed spec fn weights(self) -> Seq<Score> {
        self.cdf@
    }

    /// A vocabulary of `size` terms with these cumulative weights, or `None`
    /// where there is not one weight for each term or they do not rise.
    pub fn new(size: usize, cdf: Vec<Score>) -> (r: Option<Vocabulary>)
        ensures
            match r {
                Some(v) => is_vocabulary(v.terms(), size_of(size)) && v.weights() == cdf@
                    && cdf@.len() == size_of(size) && rises(cdf@),
                None => cdf@.len() != size_of(size) || !rises(cdf@),
            },
    {
        let terms = zipf_terms(size);
        assert(texts(terms@).len() == terms@.len());
        if cdf.len() != terms.len() {
            return None;
        }
        let mut i: usize = 0;
        while i < cdf.len()
            invariant
                i <= cdf@.len(),
                forall|a: int, b: int|
                    #![trigger cdf@[a], cdf@[b]]
                    0 <= a <= b < i ==> cdf@[a].le_spec(cdf@[b]),
            decreases cdf@.len() - i,
        {
            if !cdf[i].le(cdf[i]) {
                assert(!cdf@[i as int].le_spec(cdf@[i as int]));
                return None;
            }
            if i > 0 && !cdf[i - 1].le(cdf[i]) {
                assert(!cdf@[i - 1].le_spec(cdf@[i as int]));
                return None;
            }
            assert forall|a: int, b: int|
                #![trigger cdf@[a], cdf@[b]]
                0 <= a <= b < i + 1 implies cdf@[a].le_spec(cdf@[b]) by {
                if b == i && a < b {
                    assert(cdf@[a].le_spec(cdf@[i - 1]));
                    assert(cdf@[i - 1].le_spec(cdf@[i as int]));
                }
            }
            i = i + 1;
        }
        Some(Vocabulary { terms, cdf })
    }

    /// The number of the term that a draw from the unit interval falls on.
    pub fn sample(&self, u: Score) -> (r: usize)
        ensures
            r == drawn(self.weights(), u),
            r < self.terms().len(),
    {
        proof {
            use_type_invariant(self);
        }
        let n = self.cdf.len();
        let mut lo: usize = 0;
        let mut hi: usize = n;
        while lo < hi
            invariant
                lo <= hi <= n,
                n == self.cdf@.len(),
                rises(self.cdf@),
                forall|k: int| 0 <= k < lo ==> (#[trigger] self.cdf@[k]).lt_spec(u),
                forall|k: int| hi <= k < n ==> !(#[trigger] self.cdf@[k]).lt_spec(u),
            decreases hi - lo,
        {
            let mid: usize = lo + (hi - lo) / 2;
            if self.cdf[mid].lt(u) {
                assert forall|k: int| 0 <= k < mid + 1 implies (#[trigger] self.cdf@[k]).lt_spec(
                    u,
                ) by {
                    assert(self.cdf@[k].le_spec(self.cdf@[mid as int]));
                }
                lo = mid + 1;
            } else {
                assert forall|k: int| mid <= k < n implies !(#[trigger] self.cdf@[k]).lt_spec(
                    u,
                ) by {
                    assert(self.cdf@[mid as int].le_spec(self.cdf@[k]));
                }
                hi = mid;
            }
        }
        proof {
            draw_is_first(self.cdf@, u, 0, lo as int);
            assert(self.terms().len() == self.terms@.len());
        }
        if lo >= n {
            n - 1
        } else {
            lo
        }
    }

    /// The term of a number, or the last one where there are fewer.
    pub fn term(&self, i: usize) -> (r: &str)
        ensures
            r@ == if i < self.terms().len() {
                self.terms()[i as int]
            } else {
                self.terms().last()
            },
    {
        proof {
            use_type_invariant(self);
        }
        let n = self.terms.len();
        assert(self.terms().len() == n);
        let place: usize = if i < n {
            i
        } else {
            n - 1
        };
        self.terms[place].as_str()
    }

    /// How many terms there are.
    pub fn len(&self) -> (r: usize)
        ensures
            r == self.terms().len(),
    {
        self.terms.len()
    }
}

/// Shape of a synthetic corpus.
#[derive(Debug, Clone, Copy, PartialEq)]
pub struct SynthConfig {
    pub rows: usize,
    pub dim: usize,
    /// Latent topics that the vectors are drawn around.
    pub topics: usize,
    /// How far a row drifts from its topic center.
    pub spread: Score,
    /// How narrow a cone the whole corpus occupies.
    pub anisotropy: Score,
    /// Distinct terms.
    pub vocabulary: usize,
    /// The exponent of the frequencies: one is natural language, zero is
    /// uniform.
    pub zipf: Score,
    /// Tokens per body.
    pub body_tokens: usize,
    /// Terms that characterise one topic.
    pub topic_terms: usize,
    pub seed: u64,
}

impl Default for SynthConfig {
    fn default() -> (r: SynthConfig)
        ensures
            r == (SynthConfig {
                rows: 200_000,
                dim: 1024,
                topics: 200,
                spread: Score { bits: 0x3eb3_3333 },
                anisotropy: Score { bits: 0x3f33_3333 },
                vocabulary: 20_000,
                zipf: Score { bits: 0x3f80_0000 },
                body_tokens: 18,
                topic_terms: 64,
                seed: 0xC0_FFEE,
            }),
    {
        SynthConfig {
            rows: 200_000,
            dim: 1024,
            topics: 200,
            spread: Score { bits: 0x3eb3_3333 },
            anisotropy: Score { bits: 0x3f33_3333 },
            vocabulary: 20_000,
            zipf: Score { bits: 0x3f80_0000 },
            body_tokens: 18,
            topic_terms: 64,
            seed: 0xC0_FFEE,
        }
    }
}

/// Which term a token is: half of them come from the topic's own list, half
/// from the whole corpus.
pub fn pick_term(coin: Score, of_topic: usize, of_corpus: usize) -> (r: usize)
    ensures
        r == if coin.lt_spec(Score { bits: HALF_BITS }) {
            of_topic
        } else {
            of_corpus
        },
{
    if coin.lt(Score { bits: HALF_BITS }) {
        of_topic
    } else {
        of_corpus
    }
}

/// The term of a number, or the last one where there are fewer.
pub open spec fn term_of(terms: Seq<Seq<char>>, i: usize) -> Seq<char> {
    if i < terms.len() {
        terms[i as int]
    } else {
        terms.last()
    }
}

/// The body that picked terms make: nothing but those terms.
pub fn body_of(vocabulary: &Vocabulary, picks: &Vec<usize>) -> (r: String)
    ensures
        r@ == joined(
            picks@.map_values(|i: usize| term_of(vocabulary.terms(), i)),
            " "@,
        ),
{
    let ghost want = picks@.map_values(|i: usize| term_of(vocabulary.terms(), i));
    let mut words: Vec<String> = Vec::new();
    let mut i: usize = 0;
    while i < picks.len()
        invariant
            i <= picks@.len(),
            words@.len() == i,
            want == picks@.map_values(|i: usize| term_of(vocabulary.terms(), i)),
            forall|k: int| 0 <= k < i ==> (#[trigger] words@[k])@ == want[k],
        decreases picks@.len() - i,
    {
        words.push(vocabulary.term(picks[i]).to_owned());
        i = i + 1;
    }
    assert(texts(words@) =~= want);
    join(&words, " ")
}

/// Where the `n`-th word from `i` on ends: at the blank behind it, or at the
/// end of the text.
pub open spec fn words_end(s: Seq<char>, n: nat, i: int) -> int
    decreases s.len() - i,
{
    if i >= s.len() {
        s.len() as int
    } else if s[i] != ' ' {
        words_end(s, n, i + 1)
    } else if n <= 1 {
        i
    } else {
        words_end(s, (n - 1) as nat, i + 1)
    }
}

/// The first `n` words of a text, one blank between them: a realistic query is
/// shorter than the document it should find.
pub fn opening_words(text: &str, n: usize) -> (r: String)
    ensures
        r@ == if n == 0 {
            Seq::empty()
        } else {
            collapsed(text@).take(words_end(collapsed(text@), n as nat, 0))
        },
{
    if n == 0 {
        return String::new();
    }
    let chars = chars_of(text);
    let flat = collapse(&chars);
    let mut left: usize = n;
    let mut i: usize = 0;
    while i < flat.len() && (flat[i] != ' ' || left > 1)
        invariant
            i <= flat@.len(),
            left > 0,
            flat@ == collapsed(text@),
            words_end(flat@, left as nat, i as int) == words_end(flat@, n as nat, 0),
        decreases flat@.len() - i,
    {
        if flat[i] == ' ' {
            left = left - 1;
        }
        i = i + 1;
    }
    assert(flat@.take(i as int) =~= flat@.subrange(0, i as int));
    string_of(&flat, 0, i)
}

/// A row of a synthetic corpus.
#[derive(Debug, PartialEq, Eq)]
pub struct IngestRow {
    pub id: String,
    pub body: String,
    pub source_title: String,
    pub source_url: String,
    pub locator_page: Option<i32>,
    pub locator_section: Option<String>,
    pub heading_path: Option<String>,
    pub identifier: Option<String>,
}

/// A text with zeros put before it up to a width.
pub open spec fn zero_padded(s: Seq<char>, width: nat) -> Seq<char>
    decreases width - s.len(),
{
    if s.len() >= width {
        s
    } else {
        zero_padded(seq!['0'] + s, width)
    }
}

fn pad(s: String, width: usize) -> (r: String)
    ensures
        r@ == zero_padded(s@, width as nat),
{
    let v = chars_of(s.as_str());
    let mut out = s;
    let mut n: usize = v.len();
    while n < width
        invariant
            n == out@.len(),
            zero_padded(s@, width as nat) == zero_padded(out@, width as nat),
        decreases width - n,
    {
        let mut longer = "0".to_owned();
        longer.append(out.as_str());
        proof {
            reveal_strlit("0");
            assert(longer@ =~= seq!['0'] + out@);
        }
        out = longer;
        n = n + 1;
    }
    out
}

/// The id of a row.
pub open spec fn row_id(i: nat) -> Seq<char> {
    "chunk-"@ + zero_padded(decimal(i), 8)
}

/// The identifier of a row: one row in fifty carries a citable one.
pub open spec fn row_identifier(i: nat, topic: nat) -> Option<Seq<char>> {
    if i % 50 == 0 {
        Some(
            cited_types()[(topic % 5) as int] + " "@ + decimal((i / 50) % 200 + 1) + "/"@ + decimal(
                1990 + topic % 35,
            ),
        )
    } else {
        None
    }
}

/// The identifier of a row.
pub fn identifier_of(i: usize, topic: usize) -> (r: Option<String>)
    ensures
        match r {
            Some(s) => row_identifier(i as nat, topic as nat) == Some(s@),
            None => row_identifier(i as nat, topic as nat) is None,
        },
{
    if i % 50 != 0 {
        return None;
    }
    let types = type_list();
    assert(slices(types@).len() == types@.len());
    let t: usize = topic % 5;
    assert(slices(types@)[t as int] == types@[t as int]@);
    let mut s = types[t].to_owned();
    s.append(" ");
    let number = show(((i / 50) % 200 + 1) as u64);
    s.append(number.as_str());
    s.append("/");
    let year = show((1990 + topic % 35) as u64);
    s.append(year.as_str());
    Some(s)
}

/// The row of a number and a topic, with its body.
pub fn row_of(i: usize, topic: usize, body: String) -> (r: IngestRow)
    ensures
        r.id@ == row_id(i as nat),
        r.body == body,
        r.source_title@ == "Dokumen "@ + decimal(topic as nat),
        r.source_url@ == "https://peraturan.example/doc-"@ + decimal(topic as nat) + ".pdf"@,
        r.locator_page == Some((i % 400 + 1) as i32),
        r.locator_section is Some && (r.locator_section->0)@ == "Pasal "@ + decimal(
            (i % 90 + 1) as nat,
        ),
        r.heading_path is None,
        match r.identifier {
            Some(s) => row_identifier(i as nat, topic as nat) == Some(s@),
            None => row_identifier(i as nat, topic as nat) is None,
        },
{
    let mut id = "chunk-".to_owned();
    let number = pad(show(i as u64), 8);
    id.append(number.as_str());
    let t = show(topic as u64);
    let mut source_title = "Dokumen ".to_owned();
    source_title.append(t.as_str());
    let mut source_url = "https://peraturan.example/doc-".to_owned();
    source_url.append(t.as_str());
    source_url.append(".pdf");
    let mut section = "Pasal ".to_owned();
    let s = show((i % 90 + 1) as u64);
    section.append(s.as_str());
    IngestRow {
        id,
        body,
        source_title,
        source_url,
        locator_page: Some((i % 400 + 1) as i32),
        locator_section: Some(section),
        heading_path: None,
        identifier: identifier_of(i, topic),
    }
}

proof fn zeros_keep_the_number(s: Seq<char>, width: nat)
    requires
        all_digits(s),
    ensures
        number_of(zero_padded(s, width)) == number_of(s),
    decreases width - s.len(),
{
    if s.len() < width {
        let t = seq!['0'] + s;
        assert(all_digits(t)) by {
            assert forall|i: int| 0 <= i < t.len() implies is_digit(#[trigger] t[i]) by {
                if i > 0 {
                    assert(t[i] == s[i - 1]);
                }
            }
        }
        zeros_keep_the_number(t, width);
        a_leading_zero_keeps_the_number(s);
    }
}

proof fn a_leading_zero_keeps_the_number(s: Seq<char>)
    ensures
        number_of(seq!['0'] + s) == number_of(s),
    decreases s.len(),
{
    let t = seq!['0'] + s;
    if s.len() == 0 {
        assert(t.drop_last() =~= s);
        assert(t.last() == '0');
    } else {
        a_leading_zero_keeps_the_number(s.drop_last());
        assert(t.drop_last() =~= seq!['0'] + s.drop_last());
        assert(t.last() == s.last());
    }
}

/// No two rows have the same id.
pub proof fn row_ids_are_unique(i: nat, j: nat)
    requires
        i != j,
    ensures
        row_id(i) != row_id(j),
{
    if row_id(i) == row_id(j) {
        let n = "chunk-"@.len() as int;
        let a = zero_padded(decimal(i), 8);
        let b = zero_padded(decimal(j), 8);
        assert(a =~= row_id(i).skip(n));
        assert(b =~= row_id(j).skip(n));
        decimal_reads_back(i);
        decimal_reads_back(j);
        zeros_keep_the_number(decimal(i), 8);
        zeros_keep_the_number(decimal(j), 8);
    }
}

// ---------------------------------------------------------------------------
// What terms, draws and rows satisfy
// ---------------------------------------------------------------------------

/// Every prefix, root and suffix is composed, roots running fastest and
/// suffixes slowest; behind the compositions the roots come in turn, numbered
/// from zero.
pub proof fn every_composition_has_its_place(suffix: int, prefix: int, root: int, n: nat)
    requires
        0 <= suffix < 6,
        0 <= prefix < 10,
        0 <= root < 66,
    ensures
        term_at(suffix * 660 + prefix * 66 + root) == prefixes()[prefix] + roots()[root]
            + suffixes()[suffix],
        term_at(3960 + n * 66 + root) == roots()[root] + decimal((n * 66 + root) as nat),
{
    let k = suffix * 660 + prefix * 66 + root;
    assert(k < COMPOSED);
    assert(k % 660 == prefix * 66 + root);
    assert((k % 660) / 66 == prefix);
    assert(k % 66 == root);
    assert(k / 660 == suffix);
    assert((n * 66 + root) % 66 == root);
}

/// The terms that were kept are those that were tried, all of them.
pub proof fn every_tried_term_is_kept(k: int, t: Seq<char>)
    requires
        0 <= k,
    ensures
        terms_upto(k).contains(t) <==> exists|j: int| 0 <= j < k && #[trigger] term_at(j) == t,
    decreases k,
{
    if k > 0 {
        every_tried_term_is_kept(k - 1, t);
        let before = terms_upto(k - 1);
        let after = terms_upto(k);
        if before.contains(t) {
            let i = before.index_of(t);
            assert(after[i] == t);
        }
        if term_at(k - 1) == t && !before.contains(t) {
            assert(after[before.len() as int] == t);
        }
        if after.contains(t) {
            let i = after.index_of(t);
            if i < before.len() {
                assert(before[i] == t);
                assert(before.contains(t));
            } else {
                assert(term_at(k - 1) == t);
            }
        }
    }
}

/// A draw falls on the first term whose cumulative weight is not below it, and
/// on the last one where every weight is below it.
pub proof fn a_draw_falls_on_the_first_weight_that_holds_it(cdf: Seq<Score>, u: Score)
    requires
        cdf.len() > 0,
    ensures
        0 <= drawn(cdf, u) < cdf.len(),
        forall|k: int| 0 <= k < drawn(cdf, u) ==> (#[trigger] cdf[k]).lt_spec(u),
        drawn(cdf, u) < cdf.len() - 1 ==> !cdf[drawn(cdf, u)].lt_spec(u),
{
    a_draw_stops(cdf, u, 0);
}

proof fn a_draw_stops(cdf: Seq<Score>, u: Score, i: int)
    requires
        0 <= i <= cdf.len(),
    ensures
        i <= draw_from(cdf, u, i) <= cdf.len(),
        forall|k: int| i <= k < draw_from(cdf, u, i) ==> (#[trigger] cdf[k]).lt_spec(u),
        draw_from(cdf, u, i) < cdf.len() ==> !cdf[draw_from(cdf, u, i)].lt_spec(u),
    decreases cdf.len() - i,
{
    if i < cdf.len() && cdf[i].lt_spec(u) {
        a_draw_stops(cdf, u, i + 1);
    }
}

/// The opening of a text holds so many words: it ends at a blank with one blank
/// fewer before it than there are words, or it is the whole text with fewer
/// blanks than that.
pub proof fn an_opening_has_so_many_words(s: Seq<char>, n: nat) -> (q: Seq<int>)
    requires
        n > 0,
    ensures
        0 <= words_end(s, n, 0) <= s.len(),
        picks(q, words_end(s, n, 0), |i: int| s[i] == ' '),
        words_end(s, n, 0) < s.len() ==> s[words_end(s, n, 0)] == ' ' && q.len() == n - 1,
        words_end(s, n, 0) == s.len() ==> q.len() < n,
{
    blanks_are_counted(s, n, 0, Seq::empty())
}

proof fn blanks_are_counted(s: Seq<char>, n: nat, i: int, past: Seq<int>) -> (q: Seq<int>)
    requires
        n > 0,
        0 <= i <= s.len(),
        picks(past, i, |k: int| s[k] == ' '),
    ensures
        i <= words_end(s, n, i) <= s.len(),
        picks(q, words_end(s, n, i), |k: int| s[k] == ' '),
        words_end(s, n, i) < s.len() ==> s[words_end(s, n, i)] == ' ' && q.len() == past.len() + n
            - 1,
        words_end(s, n, i) == s.len() ==> q.len() < past.len() + n,
    decreases s.len() - i,
{
    let f = |k: int| s[k] == ' ';
    if i >= s.len() {
        past
    } else if s[i] != ' ' {
        let r = picks_one_more(past, i, f);
        blanks_are_counted(s, n, i + 1, r)
    } else if n <= 1 {
        past
    } else {
        let r = picks_one_more(past, i, f);
        blanks_are_counted(s, (n - 1) as nat, i + 1, r)
    }
}

/// A padded text has the width, ends in the text, and has zeros before it.
pub proof fn zeros_stand_before_a_padded_text(s: Seq<char>, width: nat)
    ensures
        s.len() >= width ==> zero_padded(s, width) == s,
        s.len() < width ==> {
            let t = zero_padded(s, width);
            &&& t.len() == width
            &&& t.skip(width - s.len()) == s
            &&& forall|i: int| 0 <= i < width - s.len() ==> #[trigger] t[i] == '0'
        },
    decreases width - s.len(),
{
    if s.len() < width {
        let longer = seq!['0'] + s;
        zeros_stand_before_a_padded_text(longer, width);
        let t = zero_padded(s, width);
        if longer.len() < width {
            let m = width - longer.len();
            assert(t.skip(m) == longer);
            assert(t.skip(m + 1) =~= t.skip(m).skip(1));
            assert(longer.skip(1) =~= s);
            assert forall|i: int| 0 <= i < width - s.len() implies #[trigger] t[i] == '0' by {
                if i == m {
                    assert(t.skip(m)[0] == '0');
                }
            }
        } else {
            assert(t == longer);
            assert(t.skip(1) =~= s);
        }
    }
}

/// One row in fifty can be cited: its number counts those rows from one up to
/// two hundred and round again, its type and its year go by its topic.
pub proof fn one_row_in_fifty_can_be_cited(round: nat, k: nat, topic: nat, rest: nat)
    requires
        k < 200,
        0 < rest < 50,
    ensures
        row_identifier((round * 200 + k) * 50, topic) == Some(
            cited_types()[(topic % 5) as int] + " "@ + decimal(k + 1) + "/"@ + decimal(
                1990 + topic % 35,
            ),
        ),
        row_identifier((round * 200 + k) * 50 + rest, topic) is None,
{
    let n = (round * 200 + k) as nat;
    assert((n * 50) % 50 == 0 && (n * 50) / 50 == n);
    assert((n * 50 + rest) % 50 == rest);
    assert(n % 200 == k);
}

} // verus!
