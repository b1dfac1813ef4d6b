//! Tool calls: what a request asks for, and the replies.

use vstd::prelude::*;
use vstd::string::*;

use crate::contract::algorithms::{Algorithm, Registry};
use crate::json::{Json, JsonView, Numeral};
use crate::order::{picks, picks_one_more};
use crate::score::Score;
use crate::server::answer::{said, RouteExplain};
use crate::engine::routing::ClusterMatch;
use crate::server::protocol::{object_at, read_object, read_text, text_at};
use crate::server::tools::{error, failure_view};
use crate::store::search::ChunkRow;
use crate::text::{decimal, is_space, same, show, show_signed, signed_decimal, texts, trim, trimmed, trimming_takes_away_only_space};

verus! {

/// Caps on what one reply may contain.
#[derive(Debug, Clone, Copy, PartialEq, Eq)]
pub struct Limits {
    pub read_chunk_chars: usize,
    pub max_provenance_ids: usize,
}

/// What a tool call asks for.
#[derive(Debug, PartialEq)]
pub enum Call {
    ListDomains,
    Search { query: String },
    ListAlgorithms,
    ReadChunk { id: String, max_chars: usize },
    GetProvenance { ids: Vec<String> },
    ExplainRouting { query: String },
    /// Nothing is asked: this is the reply.
    Refused(Json),
}

/// What a tool call asks for, as what it says.
pub ghost enum CallView {
    ListDomains,
    Search { query: Seq<char> },
    ListAlgorithms,
    ReadChunk { id: Seq<char>, max_chars: usize },
    GetProvenance { ids: Seq<Seq<char>> },
    ExplainRouting { query: Seq<char> },
    Refused(JsonView),
}

impl Call {
    pub open spec fn view(self) -> CallView {
        match self {
            Call::ListDomains => CallView::ListDomains,
            Call::Search { query } => CallView::Search { query: query@ },
            Call::ListAlgorithms => CallView::ListAlgorithms,
            Call::ReadChunk { id, max_chars } => CallView::ReadChunk { id: id@, max_chars },
            Call::GetProvenance { ids } => CallView::GetProvenance { ids: texts(ids@) },
            Call::ExplainRouting { query } => CallView::ExplainRouting { query: query@ },
            Call::Refused(v) => CallView::Refused(v@),
        }
    }
}

/// The texts among the first `n` values, at most `max` of them.
pub open spec fn texts_upto(items: Seq<JsonView>, max: nat, n: int) -> Seq<Seq<char>>
    decreases n,
{
    if n <= 0 {
        Seq::empty()
    } else {
        let before = texts_upto(items, max, n - 1);
        match items[n - 1] {
            JsonView::Text(s) => if before.len() < max {
                before.push(s)
            } else {
                before
            },
            _ => before,
        }
    }
}

/// The ids that a request lists: the texts of its list, up to the cap.
pub open spec fn listed_ids(args: JsonView, max: nat) -> Seq<Seq<char>> {
    match args.field("ids"@) {
        Some(JsonView::List(items)) => texts_upto(items, max, items.len() as int),
        _ => Seq::empty(),
    }
}

/// How many characters a read gives back: what was asked, within the cap.
pub open spec fn asked_chars(args: JsonView, cap: usize) -> usize {
    match args.field("max_chars"@) {
        Some(JsonView::Number(Numeral::Unsigned(n))) => if n < cap {
            n as usize
        } else {
            cap
        },
        _ => cap,
    }
}

/// What a tool call asks for.
pub open spec fn call_of(params: JsonView, limits: Limits) -> CallView {
    let name = match text_at(params, "name"@) {
        Some(s) => s,
        None => Seq::empty(),
    };
    let args = object_at(params, "arguments"@);
    if name == "list_domains"@ {
        CallView::ListDomains
    } else if name == "list_algorithms"@ {
        CallView::ListAlgorithms
    } else if name == "search_knowledge"@ {
        match text_at(args, "query"@) {
            Some(q) => if trimmed(q).len() == 0 {
                CallView::Refused(
                    failure_view(
                        "search_knowledge"@,
                        "empty `query`"@,
                        "describe what you are looking for, or name a regulation"@,
                    ),
                )
            } else {
                CallView::Search { query: q }
            },
            None => CallView::Refused(
                failure_view(
                    "search_knowledge"@,
                    "missing `query`"@,
                    "pass {\"query\": \"...\"} · this tool takes a query and nothing else"@,
                ),
            ),
        }
    } else if name == "read_chunk"@ {
        match text_at(args, "id"@) {
            Some(id) => CallView::ReadChunk {
                id,
                max_chars: asked_chars(args, limits.read_chunk_chars),
            },
            None => CallView::Refused(
                failure_view(
                    "read_chunk"@,
                    "missing `id`"@,
                    "use an id from search_knowledge results"@,
                ),
            ),
        }
    } else if name == "get_provenance"@ {
        let ids = listed_ids(args, limits.max_provenance_ids as nat);
        if ids.len() > 0 {
            CallView::GetProvenance { ids }
        } else {
            CallView::Refused(
                failure_view(
                    "get_provenance"@,
                    "missing `ids`"@,
                    "pass {\"ids\": [\"...\"]} from search_knowledge results"@,
                ),
            )
        }
    } else if name == "explain_routing"@ {
        match text_at(args, "query"@) {
            Some(query) => CallView::ExplainRouting { query },
            None => CallView::Refused(
                failure_view("explain_routing"@, "missing `query`"@, "pass a query"@),
            ),
        }
    } else {
        CallView::Refused(
            failure_view(
                "tools/call"@,
                "unknown tool: "@ + name,
                "call tools/list to see the available tools"@,
            ),
        )
    }
}

fn read_ids(args: &Json, max: usize) -> (r: Vec<String>)
    ensures
        texts(r@) == listed_ids(args@, max as nat),
{
    let mut out: Vec<String> = Vec::new();
    assert(texts(out@) =~= Seq::<Seq<char>>::empty());
    match args.get("ids") {
        Some(v) => {
            match v {
                Json::List(items) => {
                    let ghost all = v@->List_0;
                    let mut i: usize = 0;
                    while i < items.len()
                        invariant
                            i <= items@.len(),
                            *v == Json::List(*items),
                            all == v@->List_0,
                            all.len() == items@.len(),
                            texts(out@) == texts_upto(all, max as nat, i as int),
                        decreases items@.len() - i,
                    {
                        assert(all[i as int] == items@[i as int]@);
                        assert(texts(out@).len() == out@.len());
                        match &items[i] {
                            Json::Text(s) => {
                                if out.len() < max {
                                    let ghost before = texts(out@);
                                    out.push(s.clone());
                                    assert(texts(out@) =~= before.push(s@));
                                }
                            },
                            _ => {},
                        }
                        i = i + 1;
                    }
                },
                _ => {},
            }
        },
        None => {},
    }
    out
}

fn read_chars(args: &Json, cap: usize) -> (r: usize)
    ensures
        r == asked_chars(args@, cap),
{
    match args.get("max_chars") {
        Some(Json::Number(Numeral::Unsigned(n))) => if *n < cap as u64 {
            *n as usize
        } else {
            cap
        },
        _ => cap,
    }
}

/// Reads what a tool call asks for. What cannot be served is answered right
/// here, with what to do about it.
pub fn dispatch(params: &Json, limits: Limits) -> (r: Call)
    ensures
        r@ == call_of(params@, limits),
{
    let name = match read_text(params, "name") {
        Some(s) => s,
        None => {
            proof {
                reveal_strlit("");
            }
            ""
        },
    };
    assert(name@ =~= match text_at(params@, "name"@) {
        Some(s) => s,
        None => Seq::empty(),
    });
    let args = read_object(params, "arguments");
    if same(name, "list_domains") {
        Call::ListDomains
    } else if same(name, "list_algorithms") {
        Call::ListAlgorithms
    } else if same(name, "search_knowledge") {
        match read_text(&args, "query") {
            Some(q) => {
                let bare = trim(q);
                if bare.as_str().is_empty() {
                    Call::Refused(
                        error(
                            "search_knowledge",
                            "empty `query`",
                            "describe what you are looking for, or name a regulation",
                        ),
                    )
                } else {
                    Call::Search { query: q.to_owned() }
                }
            },
            None => Call::Refused(
                error(
                    "search_knowledge",
                    "missing `query`",
                    "pass {\"query\": \"...\"} · this tool takes a query and nothing else",
                ),
            ),
        }
    } else if same(name, "read_chunk") {
        match read_text(&args, "id") {
            Some(id) => Call::ReadChunk {
                id: id.to_owned(),
                max_chars: read_chars(&args, limits.read_chunk_chars),
            },
            None => Call::Refused(
                error("read_chunk", "missing `id`", "use an id from search_knowledge results"),
            ),
        }
    } else if same(name, "get_provenance") {
        let ids = read_ids(&args, limits.max_provenance_ids);
        assert(texts(ids@).len() == ids@.len());
        if ids.len() > 0 {
            Call::GetProvenance { ids }
        } else {
            Call::Refused(
                error(
                    "get_provenance",
                    "missing `ids`",
                    "pass {\"ids\": [\"...\"]} from search_knowledge results",
                ),
            )
        }
    } else if same(name, "explain_routing") {
        match read_text(&args, "query") {
            Some(q) => Call::ExplainRouting { query: q.to_owned() },
            None => Call::Refused(error("explain_routing", "missing `query`", "pass a query")),
        }
    } else {
        let mut message = "unknown tool: ".to_owned();
        message.append(name);
        Call::Refused(
            error("tools/call", message.as_str(), "call tools/list to see the available tools"),
        )
    }
}

/// A request for provenance never looks up more ids than the cap, and a read
/// never gives back more characters than the cap.
pub proof fn a_call_stays_within_its_limits(params: JsonView, limits: Limits)
    ensures
        match call_of(params, limits) {
            CallView::GetProvenance { ids } => 0 < ids.len() <= limits.max_provenance_ids,
            CallView::ReadChunk { id, max_chars } => max_chars <= limits.read_chunk_chars,
            _ => true,
        },
{
    let args = object_at(params, "arguments"@);
    match args.field("ids"@) {
        Some(JsonView::List(items)) => {
            listed_ids_are_capped(items, limits.max_provenance_ids as nat, items.len() as int);
        },
        _ => {},
    }
}

proof fn listed_ids_are_capped(items: Seq<JsonView>, max: nat, n: int)
    ensures
        texts_upto(items, max, n).len() <= max,
    decreases n,
{
    if n > 0 {
        listed_ids_are_capped(items, max, n - 1);
    }
}

// ---------------------------------------------------------------------------
// Replies
// ---------------------------------------------------------------------------

/// The head of a reply that succeeded.
pub open spec fn success_view(op: Seq<char>) -> JsonView {
    JsonView::object().put("success"@, JsonView::Bool(true)).put("op"@, JsonView::Text(op))
}

fn success(op: &str) -> (r: Json)
    ensures
        r@ == success_view(op@),
{
    Json::object().put("success", Json::Bool(true)).put("op", Json::text(op))
}

/// What is said of the corpus.
pub open spec fn domain_text(id: Seq<char>, model: Seq<char>, dim: i32, clusters: nat) -> Seq<char> {
    id + " embedded with "@ + model + " at "@ + signed_decimal(dim as int) + " dims · "@ + decimal(
        clusters,
    ) + " clusters"@
}

/// The knowledge bases that are served. Its cost is filled in afterwards, as
/// that of every reply here.
pub fn list_domains(id: &str, model: &str, dim: i32, clusters: usize) -> (r: Json)
    ensures
        r@ == success_view("list_domains"@).put(
            "domains"@,
            JsonView::list().add(
                JsonView::object().put("id"@, JsonView::Text(id@)).put(
                    "description"@,
                    JsonView::Text(domain_text(id@, model@, dim, clusters as nat)),
                ),
            ),
        ).put("progress"@, JsonView::texts(seq!["listed 1 domain"@])).put(
            "token_estimate"@,
            JsonView::number(0),
        ),
{
    let mut text = id.to_owned();
    text.append(" embedded with ");
    text.append(model);
    text.append(" at ");
    let d = show_signed(dim as i64);
    text.append(d.as_str());
    text.append(" dims · ");
    let c = show(clusters as u64);
    text.append(c.as_str());
    text.append(" clusters");
    let domain = Json::object().put("id", Json::text(id)).put(
        "description",
        Json::text(text.as_str()),
    );
    let note = vec!["listed 1 domain"];
    assert(crate::text::slices(note@) =~= seq!["listed 1 domain"@]);
    success("list_domains").put("domains", Json::list().add(domain)).put(
        "progress",
        Json::texts(&note),
    ).put("token_estimate", Json::number(0))
}

/// What is said of an algorithm: its name, and what it is for.
pub open spec fn algorithm_view(name: Seq<char>, a: Algorithm) -> JsonView {
    JsonView::object().put("name"@, JsonView::Text(name)).put(
        "description"@,
        JsonView::Text(a.description@),
    )
}

/// What is said of the first `n` algorithms.
pub open spec fn algorithms_upto(registry: Registry, n: int) -> JsonView
    decreases n,
{
    if n <= 0 {
        JsonView::list()
    } else {
        algorithms_upto(registry, n - 1).add(
            algorithm_view(
                registry.algorithms.keys()[n - 1],
                registry.algorithms.values()[n - 1],
            ),
        )
    }
}

/// The ranking algorithms that are served, and what each is for, in dictionary
/// order of their names.
pub fn list_algorithms(registry: &Registry) -> (r: Json)
    ensures
        ({
            let n = registry.algorithms.keys().len();
            r@ == success_view("list_algorithms"@).put(
                "algorithms"@,
                algorithms_upto(*registry, n as int),
            ).put(
                "progress"@,
                JsonView::texts(seq!["listed "@ + decimal(n) + " algorithms"@]),
            ).put("token_estimate"@, JsonView::number(0))
        }),
{
    let n = registry.algorithms.len();
    let mut list = Json::list();
    let mut i: usize = 0;
    while i < n
        invariant
            i <= n,
            n == registry.algorithms.keys().len(),
            list@ == algorithms_upto(*registry, i as int),
        decreases n - i,
    {
        let item = Json::object().put("name", Json::text(registry.algorithms.key(i).as_str())).put(
            "description",
            Json::text(registry.algorithms.value(i).description.as_str()),
        );
        list = list.add(item);
        i = i + 1;
    }
    let mut note = "listed ".to_owned();
    let shown = show(n as u64);
    note.append(shown.as_str());
    note.append(" algorithms");
    let notes = vec![note.as_str()];
    assert(crate::text::slices(notes@) =~= seq![note@]);
    success("list_algorithms").put("algorithms", list).put("progress", Json::texts(&notes)).put(
        "token_estimate",
        Json::number(0),
    )
}

/// The reply to a bounded read: what was read of the chunk, and its source.
pub fn chunk_reply(row: &ChunkRow, body: &str, truncated: bool) -> (r: Json)
    ensures
        r@ == success_view("read_chunk"@).put("id"@, JsonView::Text(row.id@)).put(
            "body"@,
            JsonView::Text(body@),
        ).put("truncated"@, JsonView::Bool(truncated)).put(
            "truncated_at_source"@,
            JsonView::Bool(row.truncated_at_source),
        ).put(
            "source"@,
            JsonView::object().put("title"@, JsonView::Text(row.source_title@)).put(
                "url"@,
                JsonView::optional(said(row.source_url)),
            ),
        ).put("progress"@, JsonView::texts(seq!["read 1 chunk"@])).put(
            "token_estimate"@,
            JsonView::number(0),
        ),
{
    let source = Json::object().put("title", Json::text(row.source_title.as_str())).put(
        "url",
        Json::optional(&row.source_url),
    );
    let note = vec!["read 1 chunk"];
    assert(crate::text::slices(note@) =~= seq!["read 1 chunk"@]);
    success("read_chunk").put("id", Json::text(row.id.as_str())).put("body", Json::text(body)).put(
        "truncated",
        Json::Bool(truncated),
    ).put("truncated_at_source", Json::Bool(row.truncated_at_source)).put("source", source).put(
        "progress",
        Json::texts(&note),
    ).put("token_estimate", Json::number(0))
}

/// The reply where there is no such chunk.
pub fn no_chunk(id: &str) -> (r: Json)
    ensures
        r@ == failure_view(
            "read_chunk"@,
            "no chunk "@ + id@,
            "ids come from search_knowledge · they are not guessable"@,
        ),
{
    let mut message = "no chunk ".to_owned();
    message.append(id);
    error(
        "read_chunk",
        message.as_str(),
        "ids come from search_knowledge · they are not guessable",
    )
}

/// What is said of the source of a chunk.
pub open spec fn source_view(row: ChunkRow) -> JsonView {
    JsonView::object().put("id"@, JsonView::Text(row.id@)).put(
        "title"@,
        JsonView::Text(row.source_title@),
    ).put("url"@, JsonView::optional(said(row.source_url))).put(
        "chapter"@,
        JsonView::optional(said(row.chapter)),
    ).put("article"@, JsonView::optional(said(row.article))).put(
        "truncated_at_source"@,
        JsonView::Bool(row.truncated_at_source),
    ).put("provenance_complete"@, JsonView::Bool(row.source_url is Some))
}

/// What is said of the sources of the first `n` chunks.
pub open spec fn sources_upto(rows: Seq<ChunkRow>, n: int) -> JsonView
    decreases n,
{
    if n <= 0 {
        JsonView::list()
    } else {
        sources_upto(rows, n - 1).add(source_view(rows[n - 1]))
    }
}

/// How many of the first `n` chunks have no address to open.
pub open spec fn incomplete_upto(rows: Seq<ChunkRow>, n: int) -> nat
    decreases n,
{
    if n <= 0 {
        0
    } else if rows[n - 1].source_url is None {
        incomplete_upto(rows, n - 1) + 1
    } else {
        incomplete_upto(rows, n - 1)
    }
}

/// The verification bundle of the chunks that were found. Where some have no
/// address, the hint says how many.
pub fn provenance_reply(rows: &Vec<ChunkRow>) -> (r: Json)
    ensures
        ({
            let n = rows@.len();
            let incomplete = incomplete_upto(rows@, n as int);
            r@ == success_view("get_provenance"@).put("sources"@, sources_upto(rows@, n as int)).put(
                "progress"@,
                JsonView::texts(seq!["resolved "@ + decimal(n) + " ids"@]),
            ).put("token_estimate"@, JsonView::number(0)).put(
                "hint"@,
                JsonView::optional(
                    if incomplete > 0 {
                        Some(
                            decimal(incomplete) + " of "@ + decimal(n)
                                + " have no source_url · cite by title and locator"@,
                        )
                    } else {
                        None
                    },
                ),
            )
        }),
{
    let n = rows.len();
    let mut incomplete: usize = 0;
    let mut list = Json::list();
    let mut i: usize = 0;
    while i < n
        invariant
            i <= n,
            n == rows@.len(),
            incomplete == incomplete_upto(rows@, i as int),
            incomplete <= i,
            list@ == sources_upto(rows@, i as int),
        decreases n - i,
    {
        let row = &rows[i];
        let complete = row.provenance_complete();
        if !complete {
            incomplete = incomplete + 1;
        }
        let item = Json::object().put("id", Json::text(row.id.as_str())).put(
            "title",
            Json::text(row.source_title.as_str()),
        ).put("url", Json::optional(&row.source_url)).put(
            "chapter",
            Json::optional(&row.chapter),
        ).put("article", Json::optional(&row.article)).put(
            "truncated_at_source",
            Json::Bool(row.truncated_at_source),
        ).put("provenance_complete", Json::Bool(complete));
        list = list.add(item);
        i = i + 1;
    }
    let mut note = "resolved ".to_owned();
    let shown = show(n as u64);
    note.append(shown.as_str());
    note.append(" ids");
    let notes = vec![note.as_str()];
    assert(crate::text::slices(notes@) =~= seq![note@]);
    let hint = if incomplete > 0 {
        let mut s = show(incomplete as u64);
        s.append(" of ");
        s.append(shown.as_str());
        s.append(" have no source_url · cite by title and locator");
        Some(s)
    } else {
        None
    };
    success("get_provenance").put("sources", list).put("progress", Json::texts(&notes)).put(
        "token_estimate",
        Json::number(0),
    ).put("hint", Json::optional(&hint))
}

/// A single-precision number.
pub open spec fn single(s: Score) -> JsonView {
    JsonView::Number(Numeral::Single(s.bits))
}

/// The first `n` whole numbers of a list.
pub open spec fn integers_upto(v: Seq<i32>, n: int) -> JsonView
    decreases n,
{
    if n <= 0 {
        JsonView::list()
    } else {
        integers_upto(v, n - 1).add(JsonView::integer(v[n - 1] as i64))
    }
}

/// What is said of the first `n` clusters that were probed.
pub open spec fn clusters_upto(v: Seq<ClusterMatch>, n: int) -> JsonView
    decreases n,
{
    if n <= 0 {
        JsonView::list()
    } else {
        clusters_upto(v, n - 1).add(
            JsonView::object().put("cluster"@, JsonView::integer(v[n - 1].id as i64)).put(
                "similarity"@,
                single(v[n - 1].similarity),
            ),
        )
    }
}

/// The first `n` texts of a list.
pub open spec fn strings_upto(v: Seq<Seq<char>>, n: int) -> JsonView
    decreases n,
{
    if n <= 0 {
        JsonView::list()
    } else {
        strings_upto(v, n - 1).add(JsonView::Text(v[n - 1]))
    }
}

/// The reply to a question about routing.
pub fn explain_reply(e: &RouteExplain) -> (r: Json)
    ensures
        r@ == success_view("explain_routing"@).put(
            "detected_domain"@,
            JsonView::optional(said(e.domain)),
        ).put(
            "clusters_probed"@,
            integers_upto(e.clusters_probed@, e.clusters_probed@.len() as int),
        ).put(
            "cluster_scores"@,
            clusters_upto(e.cluster_scores@, e.cluster_scores@.len() as int),
        ).put("total_clusters"@, JsonView::number(e.total_clusters as u64)).put(
            "identifiers_detected"@,
            strings_upto(texts(e.identifiers@), e.identifiers@.len() as int),
        ).put("routing_bypass"@, JsonView::Bool(e.identifiers@.len() > 0)).put(
            "provider"@,
            JsonView::Text(e.provider@),
        ).put("progress"@, JsonView::texts(seq!["routed"@])).put(
            "token_estimate"@,
            JsonView::number(0),
        ),
{
    let mut ids = Json::list();
    let mut i: usize = 0;
    while i < e.clusters_probed.len()
        invariant
            i <= e.clusters_probed@.len(),
            ids@ == integers_upto(e.clusters_probed@, i as int),
        decreases e.clusters_probed@.len() - i,
    {
        ids = ids.add(Json::integer(e.clusters_probed[i] as i64));
        i = i + 1;
    }
    let mut scores = Json::list();
    let mut k: usize = 0;
    while k < e.cluster_scores.len()
        invariant
            k <= e.cluster_scores@.len(),
            scores@ == clusters_upto(e.cluster_scores@, k as int),
        decreases e.cluster_scores@.len() - k,
    {
        let c = e.cluster_scores[k];
        scores = scores.add(
            Json::object().put("cluster", Json::integer(c.id as i64)).put(
                "similarity",
                Json::Number(Numeral::Single(c.similarity.bits)),
            ),
        );
        k = k + 1;
    }
    let mut named = Json::list();
    let mut m: usize = 0;
    while m < e.identifiers.len()
        invariant
            m <= e.identifiers@.len(),
            named@ == strings_upto(texts(e.identifiers@), m as int),
        decreases e.identifiers@.len() - m,
    {
        assert(texts(e.identifiers@)[m as int] == e.identifiers@[m as int]@);
        named = named.add(Json::text(e.identifiers[m].as_str()));
        m = m + 1;
    }
    let note = vec!["routed"];
    assert(crate::text::slices(note@) =~= seq!["routed"@]);
    success("explain_routing").put("detected_domain", Json::optional(&e.domain)).put(
        "clusters_probed",
        ids,
    ).put("cluster_scores", scores).put(
        "total_clusters",
        Json::number(e.total_clusters as u64),
    ).put("identifiers_detected", named).put(
        "routing_bypass",
        Json::Bool(e.identifiers.len() > 0),
    ).put("provider", Json::text(e.provider.as_str())).put("progress", Json::texts(&note)).put(
        "token_estimate",
        Json::number(0),
    )
}

/// Liveness, and enough state to tell a busy server from a wedged one.
pub fn health_reply(clusters: usize, permits: usize, version: &str) -> (r: Json)
    ensures
        r@ == JsonView::object().put("success"@, JsonView::Bool(true)).put(
            "clusters"@,
            JsonView::number(clusters as u64),
        ).put("permits_available"@, JsonView::number(permits as u64)).put(
            "version"@,
            JsonView::Text(version@),
        ),
{
    Json::object().put("success", Json::Bool(true)).put(
        "clusters",
        Json::number(clusters as u64),
    ).put("permits_available", Json::number(permits as u64)).put("version", Json::text(version))
}

// ---------------------------------------------------------------------------
// What calls and replies satisfy
// ---------------------------------------------------------------------------

/// The ids of a request are the texts of its list, in order, and what is no
/// text is passed over. Of more than the cap the first are taken. `q` says
/// where in the list each id stands.
pub proof fn the_first_texts_of_a_list_are_its_ids(args: JsonView, items: Seq<JsonView>, max: nat) -> (q:
    Seq<int>)
    requires
        args.field("ids"@) == Some(JsonView::List(items)),
    ensures
        picks(q, items.len() as int, |i: int| items[i] is Text),
        listed_ids(args, max).len() == if q.len() < max {
            q.len()
        } else {
            max
        },
        forall|k: int|
            0 <= k < listed_ids(args, max).len() ==> items[#[trigger] q[k]] == JsonView::Text(
                listed_ids(args, max)[k],
            ),
{
    text_places(items, max, items.len() as int)
}

proof fn text_places(items: Seq<JsonView>, max: nat, n: int) -> (q: Seq<int>)
    requires
        0 <= n <= items.len(),
    ensures
        picks(q, n, |i: int| items[i] is Text),
        texts_upto(items, max, n).len() == if q.len() < max {
            q.len()
        } else {
            max
        },
        forall|k: int|
            0 <= k < texts_upto(items, max, n).len() ==> items[#[trigger] q[k]] == JsonView::Text(
                texts_upto(items, max, n)[k],
            ),
    decreases n,
{
    if n <= 0 {
        Seq::empty()
    } else {
        let q = text_places(items, max, n - 1);
        let r = picks_one_more(q, n - 1, |i: int| items[i] is Text);
        let before = texts_upto(items, max, n - 1);
        let after = texts_upto(items, max, n);
        assert forall|k: int| 0 <= k < after.len() implies items[#[trigger] r[k]]
            == JsonView::Text(after[k]) by {
            if k < before.len() {
                assert(r[k] == q[k]);
                assert(after[k] == before[k]);
            }
        }
        r
    }
}

/// A read gives back as many characters as were asked for, within the cap; a
/// request that names no whole number from zero on gets the cap.
pub proof fn a_read_is_as_long_as_asked(args: JsonView, cap: usize, n: u64)
    ensures
        args.field("max_chars"@) == Some(JsonView::Number(Numeral::Unsigned(n))) && n <= cap
            ==> asked_chars(args, cap) == n,
        args.field("max_chars"@) == Some(JsonView::Number(Numeral::Unsigned(n))) && n > cap
            ==> asked_chars(args, cap) == cap,
        args.field("max_chars"@) is None ==> asked_chars(args, cap) == cap,
        args.field("max_chars"@) is Some && !(args.field("max_chars"@)->0 is Number)
            ==> asked_chars(args, cap) == cap,
        args.field("max_chars"@) is Some && args.field("max_chars"@)->0 is Number && !(
        args.field("max_chars"@)->0->Number_0 is Unsigned) ==> asked_chars(args, cap) == cap,
{
}

/// A call of a tool that has what it needs is served: it asks for that tool,
/// with the query, the id or the ids that it carries.
pub proof fn a_complete_call_is_served(params: JsonView, args: JsonView, s: Seq<char>, limits: Limits)
    requires
        params.field("arguments"@) == Some(args),
    ensures
        text_at(params, "name"@) == Some("list_domains"@) ==> call_of(params, limits)
            == CallView::ListDomains,
        text_at(params, "name"@) == Some("list_algorithms"@) ==> call_of(params, limits)
            == CallView::ListAlgorithms,
        text_at(params, "name"@) == Some("search_knowledge"@) && args.field("query"@) == Some(
            JsonView::Text(s),
        ) && (exists|i: int| 0 <= i < s.len() && !is_space(#[trigger] s[i])) ==> call_of(
            params,
            limits,
        ) == (CallView::Search { query: s }),
        text_at(params, "name"@) == Some("read_chunk"@) && args.field("id"@) == Some(
            JsonView::Text(s),
        ) ==> call_of(params, limits) == (CallView::ReadChunk {
            id: s,
            max_chars: asked_chars(args, limits.read_chunk_chars),
        }),
        text_at(params, "name"@) == Some("get_provenance"@) && listed_ids(
            args,
            limits.max_provenance_ids as nat,
        ).len() > 0 ==> call_of(params, limits) == (CallView::GetProvenance {
            ids: listed_ids(args, limits.max_provenance_ids as nat),
        }),
        text_at(params, "name"@) == Some("explain_routing"@) && args.field("query"@) == Some(
            JsonView::Text(s),
        ) ==> call_of(params, limits) == (CallView::ExplainRouting { query: s }),
{
    tool_names_differ();
    if exists|i: int| 0 <= i < s.len() && !is_space(#[trigger] s[i]) {
        let i = choose|i: int| 0 <= i < s.len() && !is_space(#[trigger] s[i]);
        let p = trimming_takes_away_only_space(s);
        if trimmed(s).len() == 0 {
            assert(is_space(s[i]));
        }
    }
}

proof fn tool_names_differ()
    ensures
        "list_domains"@ != "list_algorithms"@,
        "list_domains"@ != "search_knowledge"@,
        "list_domains"@ != "read_chunk"@,
        "list_domains"@ != "get_provenance"@,
        "list_domains"@ != "explain_routing"@,
        "list_algorithms"@ != "search_knowledge"@,
        "list_algorithms"@ != "read_chunk"@,
        "list_algorithms"@ != "get_provenance"@,
        "list_algorithms"@ != "explain_routing"@,
        "search_knowledge"@ != "read_chunk"@,
        "search_knowledge"@ != "get_provenance"@,
        "search_knowledge"@ != "explain_routing"@,
        "read_chunk"@ != "get_provenance"@,
        "read_chunk"@ != "explain_routing"@,
        "get_provenance"@ != "explain_routing"@,
{
    reveal_strlit("list_domains");
    reveal_strlit("list_algorithms");
    reveal_strlit("search_knowledge");
    reveal_strlit("read_chunk");
    reveal_strlit("get_provenance");
    reveal_strlit("explain_routing");
    assert("list_domains"@.len() == 12 && "list_algorithms"@.len() == 15
        && "search_knowledge"@.len() == 16 && "read_chunk"@.len() == 10
        && "get_provenance"@.len() == 14 && "explain_routing"@.len() == 15);
    assert("list_algorithms"@[0] == 'l');
    assert("explain_routing"@[0] == 'e');
}

/// A call that lacks what its tool needs, or names no tool, is refused.
pub proof fn an_incomplete_call_is_refused(params: JsonView, limits: Limits)
    requires
        params.field("arguments"@) is None,
        text_at(params, "name"@) != Some("list_domains"@),
        text_at(params, "name"@) != Some("list_algorithms"@),
    ensures
        call_of(params, limits) is Refused,
{
    reveal_strlit("list_domains");
    reveal_strlit("list_algorithms");
    let args = object_at(params, "arguments"@);
    assert(args.field("query"@) is None);
    assert(args.field("id"@) is None);
    assert(args.field("ids"@) is None);
}

/// Every algorithm is listed, in its place, with its own description.
pub proof fn every_algorithm_is_listed(registry: Registry, n: int)
    requires
        0 <= n <= registry.algorithms.keys().len(),
    ensures
        algorithms_upto(registry, n) is List,
        algorithms_upto(registry, n)->List_0.len() == n,
        forall|i: int|
            0 <= i < n ==> #[trigger] algorithms_upto(registry, n)->List_0[i] == JsonView::Object(
                seq![
                    ("name"@, JsonView::Text(registry.algorithms.keys()[i])),
                    ("description"@, JsonView::Text(registry.algorithms.values()[i].description@)),
                ],
            ),
    decreases n,
{
    if n > 0 {
        every_algorithm_is_listed(registry, n - 1);
        let name = registry.algorithms.keys()[n - 1];
        let a = registry.algorithms.values()[n - 1];
        assert(algorithm_view(name, a)->Object_0 =~= seq![
            ("name"@, JsonView::Text(name)),
            ("description"@, JsonView::Text(a.description@)),
        ]);
        let before = algorithms_upto(registry, n - 1)->List_0;
        let after = algorithms_upto(registry, n)->List_0;
        assert forall|i: int| 0 <= i < n implies #[trigger] after[i] == JsonView::Object(
            seq![
                ("name"@, JsonView::Text(registry.algorithms.keys()[i])),
                ("description"@, JsonView::Text(registry.algorithms.values()[i].description@)),
            ],
        ) by {
            if i < n - 1 {
                assert(after[i] == before[i]);
            }
        }
    }
}

/// What a value is on the wire: a text, or null where there is none.
pub open spec fn wire(v: Option<String>) -> JsonView {
    if v is Some {
        JsonView::Text(v->0@)
    } else {
        JsonView::Null
    }
}

/// Every chunk's source is told, in its place, in its own words: it is complete
/// where it has an address.
pub proof fn every_source_is_told(rows: Seq<ChunkRow>, n: int)
    requires
        0 <= n <= rows.len(),
    ensures
        sources_upto(rows, n) is List,
        sources_upto(rows, n)->List_0.len() == n,
        forall|i: int|
            0 <= i < n ==> #[trigger] sources_upto(rows, n)->List_0[i] == JsonView::Object(
                seq![
                    ("id"@, JsonView::Text(rows[i].id@)),
                    ("title"@, JsonView::Text(rows[i].source_title@)),
                    ("url"@, wire(rows[i].source_url)),
                    ("chapter"@, wire(rows[i].chapter)),
                    ("article"@, wire(rows[i].article)),
                    ("truncated_at_source"@, JsonView::Bool(rows[i].truncated_at_source)),
                    ("provenance_complete"@, JsonView::Bool(rows[i].source_url is Some)),
                ],
            ),
    decreases n,
{
    if n > 0 {
        every_source_is_told(rows, n - 1);
        let row = rows[n - 1];
        assert(source_view(row)->Object_0 =~= seq![
            ("id"@, JsonView::Text(row.id@)),
            ("title"@, JsonView::Text(row.source_title@)),
            ("url"@, wire(row.source_url)),
            ("chapter"@, wire(row.chapter)),
            ("article"@, wire(row.article)),
            ("truncated_at_source"@, JsonView::Bool(row.truncated_at_source)),
            ("provenance_complete"@, JsonView::Bool(row.source_url is Some)),
        ]);
        let before = sources_upto(rows, n - 1)->List_0;
        let after = sources_upto(rows, n)->List_0;
        assert(after == before.push(source_view(row)));
        assert(forall|i: int| 0 <= i < n - 1 ==> after[i] == #[trigger] before[i]);
        assert(after[n - 1] == source_view(row));
    }
}

/// How many chunks have no address: the number of places where there is none.
pub proof fn chunks_without_an_address_are_counted(rows: Seq<ChunkRow>, n: int) -> (q: Seq<int>)
    requires
        0 <= n <= rows.len(),
    ensures
        picks(q, n, |i: int| rows[i].source_url is None),
        incomplete_upto(rows, n) == q.len(),
    decreases n,
{
    if n <= 0 {
        Seq::empty()
    } else {
        let q = chunks_without_an_address_are_counted(rows, n - 1);
        picks_one_more(q, n - 1, |i: int| rows[i].source_url is None)
    }
}

/// The probed clusters, their scores and the detected identifiers are told one
/// for one, in their order.
pub proof fn a_route_is_told_one_for_one(
    ids: Seq<i32>,
    scores: Seq<ClusterMatch>,
    named: Seq<Seq<char>>,
    n: int,
)
    requires
        0 <= n,
    ensures
        n <= ids.len() ==> integers_upto(ids, n) is List && integers_upto(ids, n)->List_0.len() == n
            && forall|i: int|
            0 <= i < n ==> #[trigger] integers_upto(ids, n)->List_0[i] == JsonView::Number(
                if ids[i] < 0 {
                    Numeral::Negative(ids[i] as i64)
                } else {
                    Numeral::Unsigned(ids[i] as u64)
                },
            ),
        n <= scores.len() ==> clusters_upto(scores, n) is List && clusters_upto(
            scores,
            n,
        )->List_0.len() == n && forall|i: int|
            0 <= i < n ==> #[trigger] clusters_upto(scores, n)->List_0[i] == JsonView::Object(
                seq![
                    ("cluster"@, JsonView::integer(scores[i].id as i64)),
                    ("similarity"@, JsonView::Number(Numeral::Single(scores[i].similarity.bits))),
                ],
            ),
        n <= named.len() ==> strings_upto(named, n) is List && strings_upto(named, n)->List_0.len()
            == n && forall|i: int|
            0 <= i < n ==> #[trigger] strings_upto(named, n)->List_0[i] == JsonView::Text(named[i]),
    decreases n,
{
    if n > 0 {
        a_route_is_told_one_for_one(ids, scores, named, n - 1);
        if n <= scores.len() {
            let c = scores[n - 1];
            let item = JsonView::object().put("cluster"@, JsonView::integer(c.id as i64)).put(
                "similarity"@,
                single(c.similarity),
            );
            assert(item->Object_0 =~= seq![
                ("cluster"@, JsonView::integer(c.id as i64)),
                ("similarity"@, JsonView::Number(Numeral::Single(c.similarity.bits))),
            ]);
            let before = clusters_upto(scores, n - 1)->List_0;
            assert(clusters_upto(scores, n)->List_0 == before.push(item));
            assert(forall|i: int|
                0 <= i < n - 1 ==> clusters_upto(scores, n)->List_0[i] == #[trigger] before[i]);
        }
        if n <= ids.len() {
            let before = integers_upto(ids, n - 1)->List_0;
            assert(forall|i: int|
                0 <= i < n - 1 ==> integers_upto(ids, n)->List_0[i] == #[trigger] before[i]);
        }
        if n <= named.len() {
            let before = strings_upto(named, n - 1)->List_0;
            assert(forall|i: int|
                0 <= i < n - 1 ==> strings_upto(named, n)->List_0[i] == #[trigger] before[i]);
        }
    }
}

} // verus!
