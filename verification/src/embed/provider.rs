//! Validating what an embedding provider returns.
//!
//! Corpus and query must land in the same vector space, so a vector from
//! another model or of another width is rejected at the boundary.

use vstd::prelude::*;
use vstd::string::*;

use crate::score::Score;
use crate::space::config::EmbeddingSpace;
use crate::text::{decimal, has_prefix, same, show};

verus! {

/// The pinned model.
pub const MODEL_ID: &'static str = "qwen/qwen3-embedding-8b";

/// The production model. A default, not the only permitted value.
pub const DEFAULT_MODEL_ID: &'static str = "qwen/qwen3-embedding-8b";

/// Instruction prepended to queries only.
pub const QUERY_INSTRUCTION: &'static str =
    "Instruct: Given a legal or regulatory question, retrieve passages that answer it\nQuery: ";

/// Why there is no query embedding.
#[derive(Debug, PartialEq)]
pub enum EmbedError {
    Transport(String),
    ModelMismatch { expected: String, returned: String },
    DimensionMismatch { expected: usize, got: usize },
    Empty,
    /// The provider has drifted out of the corpus's space.
    CanaryDrift { cosine: Score, threshold: Score },
}

/// An error, as what it says.
pub ghost enum EmbedErrorView {
    Transport(Seq<char>),
    ModelMismatch { expected: Seq<char>, returned: Seq<char> },
    DimensionMismatch { expected: usize, got: usize },
    Empty,
    CanaryDrift { cosine: Score, threshold: Score },
}

/// What is said of an error, with the numbers of a drift written as `cosine`
/// and `threshold`.
pub open spec fn embed_error_text(
    e: EmbedErrorView,
    cosine: Seq<char>,
    threshold: Seq<char>,
) -> Seq<char> {
    match e {
        EmbedErrorView::Transport(why) => "embedding provider transport: "@ + why,
        EmbedErrorView::ModelMismatch { expected, returned } => "provider returned model '"@
            + returned + "' but this corpus was embedded with '"@ + expected
            + "' · vectors would not share a space · refusing"@,
        EmbedErrorView::DimensionMismatch { expected, got } => "provider returned "@ + decimal(
            got as nat,
        ) + " dimensions, expected "@ + decimal(expected as nat),
        EmbedErrorView::Empty => "provider returned no embedding for the query"@,
        EmbedErrorView::CanaryDrift { cosine: _, threshold: _ } => "startup canary: cosine "@
            + cosine + " against the stored reference is below "@ + threshold
            + " · the provider has drifted out of the corpus space · refusing to serve"@,
    }
}

impl EmbedError {
    pub open spec fn view(self) -> EmbedErrorView {
        match self {
            EmbedError::Transport(why) => EmbedErrorView::Transport(why@),
            EmbedError::ModelMismatch { expected, returned } => EmbedErrorView::ModelMismatch {
                expected: expected@,
                returned: returned@,
            },
            EmbedError::DimensionMismatch { expected, got } => EmbedErrorView::DimensionMismatch {
                expected,
                got,
            },
            EmbedError::Empty => EmbedErrorView::Empty,
            EmbedError::CanaryDrift { cosine, threshold } => EmbedErrorView::CanaryDrift {
                cosine,
                threshold,
            },
        }
    }

    /// The message for the operator, with the numbers of a drift written as
    /// `cosine` and `threshold`.
    pub fn message(&self, cosine: &str, threshold: &str) -> (r: String)
        ensures
            r@ == embed_error_text(self@, cosine@, threshold@),
    {
        let mut s = String::new();
        match self {
            EmbedError::Transport(why) => {
                s = "embedding provider transport: ".to_owned();
                s.append(why.as_str());
            },
            EmbedError::ModelMismatch { expected, returned } => {
                s = "provider returned model '".to_owned();
                s.append(returned.as_str());
                s.append("' but this corpus was embedded with '");
                s.append(expected.as_str());
                s.append("' · vectors would not share a space · refusing");
            },
            EmbedError::DimensionMismatch { expected, got } => {
                s = "provider returned ".to_owned();
                let a = show(*got as u64);
                s.append(a.as_str());
                s.append(" dimensions, expected ");
                let b = show(*expected as u64);
                s.append(b.as_str());
            },
            EmbedError::Empty => {
                s = "provider returned no embedding for the query".to_owned();
            },
            EmbedError::CanaryDrift { cosine: _, threshold: _ } => {
                s = "startup canary: cosine ".to_owned();
                s.append(cosine);
                s.append(" against the stored reference is below ");
                s.append(threshold);
                s.append(
                    " · the provider has drifted out of the corpus space · refusing to serve",
                );
            },
        }
        s
    }
}

/// What is wrong with a response, held against the space the corpus declares.
pub open spec fn response_fault(
    expected_model: Seq<char>,
    expected_dim: usize,
    model: Seq<char>,
    width: nat,
) -> Option<EmbedErrorView> {
    if model != expected_model {
        Some(EmbedErrorView::ModelMismatch { expected: expected_model, returned: model })
    } else if width == 0 {
        Some(EmbedErrorView::Empty)
    } else if width != expected_dim {
        Some(EmbedErrorView::DimensionMismatch { expected: expected_dim, got: width as usize })
    } else {
        None
    }
}

/// Validates a response against the space that the corpus declares. A vector
/// that passes is handed on as it came.
pub fn validate_against(
    expected_model: &str,
    expected_dim: usize,
    model: &str,
    vector: Vec<Score>,
) -> (r: Result<Vec<Score>, EmbedError>)
    ensures
        match r {
            Ok(v) => v == vector && response_fault(
                expected_model@,
                expected_dim,
                model@,
                vector@.len(),
            ) is None,
            Err(e) => response_fault(expected_model@, expected_dim, model@, vector@.len()) == Some(
                e@,
            ),
        },
{
    if !same(model, expected_model) {
        return Err(
            EmbedError::ModelMismatch {
                expected: expected_model.to_owned(),
                returned: model.to_owned(),
            },
        );
    }
    if vector.len() == 0 {
        return Err(EmbedError::Empty);
    }
    if vector.len() != expected_dim {
        return Err(EmbedError::DimensionMismatch { expected: expected_dim, got: vector.len() });
    }
    Ok(vector)
}

/// Validates a response against a configured space.
pub fn validate_response(space: &EmbeddingSpace, model: &str, vector: Vec<Score>) -> (r: Result<
    Vec<Score>,
    EmbedError,
>)
    ensures
        match r {
            Ok(v) => v == vector && response_fault(
                space.model_id@,
                space.dim,
                model@,
                vector@.len(),
            ) is None,
            Err(e) => response_fault(space.model_id@, space.dim, model@, vector@.len()) == Some(
                e@,
            ),
        },
{
    validate_against(space.model_id.as_str(), space.dim, model, vector)
}

/// What is wrong with a fresh embedding of the canary, held against the vector
/// that the corpus recorded for it.
pub open spec fn canary_fault(
    fresh: usize,
    reference: usize,
    cosine: Score,
    threshold: Score,
) -> Option<EmbedErrorView> {
    if fresh != reference {
        Some(EmbedErrorView::DimensionMismatch { expected: reference, got: fresh })
    } else if cosine.lt_spec(threshold) {
        Some(EmbedErrorView::CanaryDrift { cosine, threshold })
    } else {
        None
    }
}

/// The startup canary: the widths of the fresh and of the stored vector, and
/// their cosine, held against the threshold. Serving on a drifted provider is
/// worse than not serving.
pub fn canary_check(fresh: usize, reference: usize, cosine: Score, threshold: Score) -> (r: Result<
    Score,
    EmbedError,
>)
    ensures
        match r {
            Ok(c) => c == cosine && canary_fault(fresh, reference, cosine, threshold) is None,
            Err(e) => canary_fault(fresh, reference, cosine, threshold) == Some(e@),
        },
{
    if fresh != reference {
        return Err(EmbedError::DimensionMismatch { expected: reference, got: fresh });
    }
    if cosine.lt(threshold) {
        return Err(EmbedError::CanaryDrift { cosine, threshold });
    }
    Ok(cosine)
}

/// The bytes of a text folded into a number, up to the `n`-th: 64-bit FNV-1a.
pub open spec fn fnv_upto(seed: u64, bytes: Seq<u8>, n: int) -> u64
    decreases n,
{
    if n <= 0 {
        seed ^ 0xcbf2_9ce4_8422_2325u64
    } else {
        let h = fnv_upto(seed, bytes, n - 1) ^ (bytes[n - 1] as u64);
        ((h * 0x0000_0100_0000_01b3) % 0x1_0000_0000_0000_0000) as u64
    }
}

/// A deterministic stand-in for an embedding provider. It carries no meaning
/// and must never be used against a real corpus.
#[derive(Debug, PartialEq, Eq)]
pub struct StubProvider {
    pub model: String,
    pub dim: usize,
}

impl StubProvider {
    /// A stand-in for `model` at `dim` dimensions.
    pub fn new(model: &str, dim: usize) -> (r: StubProvider)
        ensures
            r.model@ == model@,
            r.dim == dim,
    {
        StubProvider { model: model.to_owned(), dim }
    }

    /// The model this stand-in claims to serve.
    pub fn model(&self) -> (r: &str)
        ensures
            r@ == self.model@,
    {
        self.model.as_str()
    }

    /// FNV-1a: small, and the same on every platform and in every run.
    pub fn hash(seed: u64, bytes: &[u8]) -> (r: u64)
        ensures
            r == fnv_upto(seed, bytes@, bytes@.len() as int),
    {
        let mut h: u64 = seed ^ 0xcbf2_9ce4_8422_2325u64;
        let mut i: usize = 0;
        while i < bytes.len()
            invariant
                i <= bytes@.len(),
                h == fnv_upto(seed, bytes@, i as int),
            decreases bytes@.len() - i,
        {
            let x: u64 = h ^ (bytes[i] as u64);
            h = x.wrapping_mul(0x0000_0100_0000_01b3u64);
            i = i + 1;
        }
        h
    }

    /// The 53 leading bits of a text's hash for each dimension, seeded with the
    /// number of the dimension. Divided by two to the 53rd they lie in the unit
    /// interval.
    pub fn draws_for(text: &str, dim: usize) -> (r: Vec<u64>)
        ensures
            r@.len() == dim,
            forall|i: int|
                0 <= i < dim ==> #[trigger] r@[i] == fnv_upto(
                    i as u64,
                    text.spec_bytes(),
                    text.spec_bytes().len() as int,
                ) >> 11u64,
    {
        let bytes = text.as_bytes();
        let mut out: Vec<u64> = Vec::new();
        let mut i: usize = 0;
        while i < dim
            invariant
                i <= dim,
                bytes@ == text.spec_bytes(),
                out@.len() == i,
                forall|k: int|
                    0 <= k < i ==> #[trigger] out@[k] == fnv_upto(
                        k as u64,
                        text.spec_bytes(),
                        text.spec_bytes().len() as int,
                    ) >> 11u64,
            decreases dim - i,
        {
            let h = StubProvider::hash(i as u64, bytes);
            out.push(h >> 11u64);
            i = i + 1;
        }
        out
    }

    /// Identifier for logs and for the explanation of a route.
    pub fn describe(&self) -> (r: String)
        ensures
            r@ == "stub(deterministic, model="@ + self.model@ + ", dim="@ + decimal(
                self.dim as nat,
            ) + ")"@,
    {
        let mut s = "stub(deterministic, model=".to_owned();
        s.append(self.model.as_str());
        s.append(", dim=");
        let d = show(self.dim as u64);
        s.append(d.as_str());
        s.append(")");
        s
    }
}

/// Every draw lies below two to the 53rd.
pub proof fn draws_stay_in_range(h: u64)
    ensures
        h >> 11u64 < 0x20_0000_0000_0000u64,
{
    assert(h >> 11u64 < 0x20_0000_0000_0000u64) by (bit_vector);
}

/// How a provider that is reached over HTTP is named.
pub fn describe_http(endpoint: &str, model: &str, dim: usize) -> (r: String)
    ensures
        r@ == "http("@ + endpoint@ + ", model="@ + model@ + ", dim="@ + decimal(dim as nat) + ")"@,
{
    let mut s = "http(".to_owned();
    s.append(endpoint);
    s.append(", model=");
    s.append(model);
    s.append(", dim=");
    let d = show(dim as u64);
    s.append(d.as_str());
    s.append(")");
    s
}

/// How a provider is named that says nothing of itself but its space.
pub fn describe_space(space: &EmbeddingSpace) -> (r: String)
    ensures
        r@ == space.model_id@ + "(dim="@ + decimal(space.dim as nat) + ")"@,
{
    let mut s = space.model_id.clone();
    s.append("(dim=");
    let d = show(space.dim as u64);
    s.append(d.as_str());
    s.append(")");
    s
}

/// The embedding of the query: the first of those that a provider returned.
pub fn first_embedding(reply: Vec<Vec<Score>>) -> (r: Result<Vec<Score>, EmbedError>)
    ensures
        match r {
            Ok(v) => reply@.len() > 0 && v == reply@[0],
            Err(e) => reply@.len() == 0 && e@ == EmbedErrorView::Empty,
        },
{
    let mut rest = reply;
    if rest.len() == 0 {
        return Err(EmbedError::Empty);
    }
    Ok(rest.swap_remove(0))
}

/// A text without the slashes at its end.
pub open spec fn without_slashes(s: Seq<char>) -> Seq<char>
    decreases s.len(),
{
    if s.len() > 0 && s.last() == '/' {
        without_slashes(s.drop_last())
    } else {
        s
    }
}

/// An endpoint without the slashes at its end, so that a path can follow it.
pub fn endpoint_of(text: &str) -> (r: String)
    ensures
        r@ == without_slashes(text@),
{
    let v = crate::text::chars_of(text);
    let mut n: usize = v.len();
    assert(v@.take(n as int) =~= text@);
    while n > 0 && v[n - 1] == '/'
        invariant
            n <= v@.len(),
            without_slashes(v@.take(n as int)) == without_slashes(text@),
        decreases n,
    {
        assert(v@.take(n as int).drop_last() =~= v@.take(n - 1));
        assert(v@.take(n as int).last() == v@[n - 1]);
        n = n - 1;
    }
    assert(v@.subrange(0, n as int) =~= v@.take(n as int));
    crate::text::string_of(&v, 0, n)
}

// ---------------------------------------------------------------------------
// What is accepted
// ---------------------------------------------------------------------------

/// A response passes exactly where it comes from the model of the corpus and
/// has its width, and that is not zero. What is wrong is said of the model
/// first.
pub proof fn a_response_passes_where_it_fits_the_space(
    expected_model: Seq<char>,
    expected_dim: usize,
    model: Seq<char>,
    width: nat,
)
    ensures
        response_fault(expected_model, expected_dim, model, width) is None <==> model
            == expected_model && width == expected_dim && width > 0,
        model != expected_model ==> response_fault(expected_model, expected_dim, model, width)
            == Some(EmbedErrorView::ModelMismatch { expected: expected_model, returned: model }),
        model == expected_model && width == 0 ==> response_fault(
            expected_model,
            expected_dim,
            model,
            width,
        ) == Some(EmbedErrorView::Empty),
        model == expected_model && 0 < width <= usize::MAX && width != expected_dim
            ==> response_fault(expected_model, expected_dim, model, width) == Some(
            EmbedErrorView::DimensionMismatch { expected: expected_dim, got: width as usize },
        ),
{
}

/// The canary passes exactly where the two vectors are equally wide and their
/// cosine is not below the threshold.
pub proof fn the_canary_passes_where_it_has_not_drifted(
    fresh: usize,
    reference: usize,
    cosine: Score,
    threshold: Score,
)
    ensures
        canary_fault(fresh, reference, cosine, threshold) is None <==> fresh == reference && !(
        cosine.lt_spec(threshold)),
        fresh != reference ==> canary_fault(fresh, reference, cosine, threshold) == Some(
            EmbedErrorView::DimensionMismatch { expected: reference, got: fresh },
        ),
        fresh == reference && cosine.lt_spec(threshold) ==> canary_fault(
            fresh,
            reference,
            cosine,
            threshold,
        ) == Some(EmbedErrorView::CanaryDrift { cosine, threshold }),
{
}

/// Each further byte of a text is folded into its hash: the hash so far and the
/// byte, bit by bit exclusive, times the prime, within 64 bits.
pub proof fn a_further_byte_is_folded_in(seed: u64, bytes: Seq<u8>, b: u8)
    ensures
        fnv_upto(seed, Seq::empty(), 0) == seed ^ 14695981039346656037u64,
        ({
            let h = fnv_upto(seed, bytes, bytes.len() as int) ^ (b as u64);
            fnv_upto(seed, bytes.push(b), (bytes.len() + 1) as int) == (h * 1099511628211)
                % 18446744073709551616
        }),
{
    a_hash_is_of_its_beginning(seed, bytes, b, bytes.len() as int);
}

proof fn a_hash_is_of_its_beginning(seed: u64, bytes: Seq<u8>, b: u8, n: int)
    requires
        0 <= n <= bytes.len(),
    ensures
        fnv_upto(seed, bytes.push(b), n) == fnv_upto(seed, bytes, n),
    decreases n,
{
    if n > 0 {
        a_hash_is_of_its_beginning(seed, bytes, b, n - 1);
    }
}

/// An endpoint is a beginning of what was given: what is gone is slashes, and
/// none is left at its end.
pub proof fn only_slashes_are_taken_off(s: Seq<char>) -> (n: int)
    ensures
        0 <= n <= s.len(),
        without_slashes(s) == s.take(n),
        forall|i: int| n <= i < s.len() ==> #[trigger] s[i] == '/',
        n > 0 ==> s[n - 1] != '/',
    decreases s.len(),
{
    if s.len() > 0 && s.last() == '/' {
        let t = s.drop_last();
        let n = only_slashes_are_taken_off(t);
        assert(t.take(n) =~= s.take(n));
        assert forall|i: int| n <= i < s.len() implies #[trigger] s[i] == '/' by {
            if i < t.len() {
                assert(t[i] == '/');
            }
        }
        if n > 0 {
            assert(t[n - 1] == s[n - 1]);
        }
        n
    } else {
        assert(s.take(s.len() as int) =~= s);
        s.len() as int
    }
}

/// A message says which of two things was returned and which was expected: what
/// the provider returned comes first.
pub proof fn a_message_says_what_was_returned_first(
    expected: Seq<char>,
    returned: Seq<char>,
    want: usize,
    got: usize,
    cosine: Score,
    threshold: Score,
    a: Seq<char>,
    b: Seq<char>,
)
    ensures
        has_prefix(
            embed_error_text(EmbedErrorView::ModelMismatch { expected, returned }, a, b),
            "provider returned model '"@ + returned
                + "' but this corpus was embedded with '"@ + expected,
        ),
        embed_error_text(EmbedErrorView::DimensionMismatch { expected: want, got }, a, b)
            == "provider returned "@ + decimal(got as nat) + " dimensions, expected "@ + decimal(
            want as nat,
        ),
        has_prefix(
            embed_error_text(EmbedErrorView::CanaryDrift { cosine, threshold }, a, b),
            "startup canary: cosine "@ + a + " against the stored reference is below "@ + b,
        ),
{
    let x = "provider returned model '"@ + returned + "' but this corpus was embedded with '"@
        + expected;
    let m = embed_error_text(EmbedErrorView::ModelMismatch { expected, returned }, a, b);
    assert(m.take(x.len() as int) =~= x);
    let y = "startup canary: cosine "@ + a + " against the stored reference is below "@ + b;
    let n = embed_error_text(EmbedErrorView::CanaryDrift { cosine, threshold }, a, b);
    assert(n.take(y.len() as int) =~= y);
}

} // verus!
