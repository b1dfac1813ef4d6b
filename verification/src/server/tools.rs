//! The agent-facing tool surface: six read-only tools.
//!
//! A search takes a query and narrowing options, and never a domain: letting
//! an agent assert one would make the engine's own detection meaningless.

use vstd::prelude::*;
use vstd::string::*;

use crate::contract::algorithms::Registry;
use crate::contract::response::{estimate, tokens_of};
use crate::json::{Json, JsonView, Numeral};
use crate::text::slices;

verus! {

/// What every tool declares of itself: it reads, repeats safely, and reaches
/// nothing outside the deployment.
pub open spec fn annotations_view(title: Seq<char>) -> JsonView {
    JsonView::object().put("title"@, JsonView::Text(title)).put(
        "readOnlyHint"@,
        JsonView::Bool(true),
    ).put("destructiveHint"@, JsonView::Bool(false)).put("idempotentHint"@, JsonView::Bool(true)).put(
        "openWorldHint"@,
        JsonView::Bool(false),
    )
}

fn annotations(title: &str) -> (r: Json)
    ensures
        r@ == annotations_view(title@),
{
    Json::object().put("title", Json::text(title)).put("readOnlyHint", Json::Bool(true)).put(
        "destructiveHint",
        Json::Bool(false),
    ).put("idempotentHint", Json::Bool(true)).put("openWorldHint", Json::Bool(false))
}

/// A closed object schema: properties that are not listed are refused.
pub open spec fn schema_view(properties: JsonView, required: Seq<Seq<char>>) -> JsonView {
    let open = JsonView::object().put("type"@, JsonView::Text("object"@)).put(
        "properties"@,
        properties,
    );
    let named = if required.len() > 0 {
        open.put("required"@, JsonView::texts(required))
    } else {
        open
    };
    named.put("additionalProperties"@, JsonView::Bool(false))
}

fn schema(properties: Json, required: &Vec<&str>) -> (r: Json)
    ensures
        r@ == schema_view(properties@, slices(required@)),
{
    let open = Json::object().put("type", Json::text("object")).put("properties", properties);
    assert(slices(required@).len() == required@.len());
    let named = if required.len() > 0 {
        open.put("required", Json::texts(required))
    } else {
        open
    };
    named.put("additionalProperties", Json::Bool(false))
}

/// One tool.
pub open spec fn tool_view(
    name: Seq<char>,
    description: Seq<char>,
    schema: JsonView,
    title: Seq<char>,
) -> JsonView {
    JsonView::object().put("name"@, JsonView::Text(name)).put(
        "description"@,
        JsonView::Text(description),
    ).put("inputSchema"@, schema).put("annotations"@, annotations_view(title))
}

fn tool(name: &str, description: &str, schema: Json, title: &str) -> (r: Json)
    ensures
        r@ == tool_view(name@, description@, schema@, title@),
{
    Json::object().put("name", Json::text(name)).put("description", Json::text(description)).put(
        "inputSchema",
        schema,
    ).put("annotations", annotations(title))
}

/// A property of a type.
pub open spec fn typed(kind: Seq<char>) -> JsonView {
    JsonView::object().put("type"@, JsonView::Text(kind))
}

fn typed_json(kind: &str) -> (r: Json)
    ensures
        r@ == typed(kind@),
{
    Json::object().put("type", Json::text(kind))
}

/// A property with a description.
pub open spec fn described(property: JsonView, description: Seq<char>) -> JsonView {
    property.put("description"@, JsonView::Text(description))
}

fn describe(property: Json, description: &str) -> (r: Json)
    ensures
        r@ == described(property@, description@),
{
    property.put("description", Json::text(description))
}

/// The names of the factor weights.
pub open spec fn weight_names() -> Seq<Seq<char>> {
    seq![
        "relevance_floor"@,
        "authority"@,
        "structural"@,
        "temporal"@,
        "completeness"@,
        "topical"@,
    ]
}

/// The schema of raw factor weights.
pub open spec fn weights_view() -> JsonView {
    let number = typed("number"@);
    described(
        typed("object"@),
        "EXPERIMENTAL. Raw factor weights, unfitted. Prefer `profile`. The effective weights are echoed in `applied`."@,
    ).put(
        "properties"@,
        JsonView::object().put("relevance_floor"@, number).put("authority"@, number).put(
            "structural"@,
            number,
        ).put("temporal"@, number).put("completeness"@, number).put("topical"@, number),
    ).put("required"@, JsonView::texts(weight_names())).put(
        "additionalProperties"@,
        JsonView::Bool(false),
    )
}

fn weights_schema() -> (r: Json)
    ensures
        r@ == weights_view(),
{
    let names = vec![
        "relevance_floor",
        "authority",
        "structural",
        "temporal",
        "completeness",
        "topical",
    ];
    assert(slices(names@) =~= weight_names());
    let properties = Json::object().put("relevance_floor", typed_json("number")).put(
        "authority",
        typed_json("number"),
    ).put("structural", typed_json("number")).put("temporal", typed_json("number")).put(
        "completeness",
        typed_json("number"),
    ).put("topical", typed_json("number"));
    describe(
        typed_json("object"),
        "EXPERIMENTAL. Raw factor weights, unfitted. Prefer `profile`. The effective weights are echoed in `applied`.",
    ).put("properties", properties).put("required", Json::texts(&names)).put(
        "additionalProperties",
        Json::Bool(false),
    )
}

/// What a search takes, given the algorithms that are offered.
pub open spec fn search_properties(offered: Seq<Seq<char>>) -> JsonView {
    JsonView::object().put(
        "query"@,
        described(typed("string"@), "Natural-language question or regulation reference."@),
    ).put(
        "mode"@,
        described(
            typed("string"@).put(
                "enum"@,
                JsonView::texts(seq!["hybrid"@, "keyword"@, "semantic"@]),
            ),
            "Which arms run. hybrid (default) fuses all three; keyword is sparse+text; semantic is the dense arm alone and scores 0.0% on this corpus."@,
        ),
    ).put(
        "top_k"@,
        described(
            typed("integer"@).put("minimum"@, JsonView::number(1)),
            "Results returned. The server's ceiling still applies."@,
        ),
    ).put(
        "candidate_pool"@,
        described(
            typed("integer"@).put("minimum"@, JsonView::number(1)),
            "Candidates ranked before the cut. Wider finds more and costs more; the server's ceiling still applies."@,
        ),
    ).put(
        "profile"@,
        described(
            typed("string"@).put("enum"@, JsonView::texts(offered)),
            "Fitted ranking intent. Pick intent, not numbers — call list_algorithms for what each one is for. If a ranking does not fit the question, call again with a different one rather than reinterpreting these results."@,
        ),
    ).put(
        "expand"@,
        described(
            typed("array"@).put(
                "items"@,
                typed("string"@).put("enum"@, JsonView::texts(seq!["siblings"@])),
            ),
            "Pull in neighbours of the results. `siblings` admits other clauses of the same regulation when they are relevant on their own; they are marked `expanded_from` because no arm retrieved them. Costs one extra query per distinct regulation among the top results."@,
        ),
    ).put("factor_weights"@, weights_view())
}

fn search_schema(offered: &Vec<&str>) -> (r: Json)
    ensures
        r@ == search_properties(slices(offered@)),
{
    let modes = vec!["hybrid", "keyword", "semantic"];
    assert(slices(modes@) =~= seq!["hybrid"@, "keyword"@, "semantic"@]);
    let expansions = vec!["siblings"];
    assert(slices(expansions@) =~= seq!["siblings"@]);
    let query = describe(
        typed_json("string"),
        "Natural-language question or regulation reference.",
    );
    let mode = describe(
        typed_json("string").put("enum", Json::texts(&modes)),
        "Which arms run. hybrid (default) fuses all three; keyword is sparse+text; semantic is the dense arm alone and scores 0.0% on this corpus.",
    );
    let top_k = describe(
        typed_json("integer").put("minimum", Json::number(1)),
        "Results returned. The server's ceiling still applies.",
    );
    let pool = describe(
        typed_json("integer").put("minimum", Json::number(1)),
        "Candidates ranked before the cut. Wider finds more and costs more; the server's ceiling still applies.",
    );
    let profile = describe(
        typed_json("string").put("enum", Json::texts(offered)),
        "Fitted ranking intent. Pick intent, not numbers — call list_algorithms for what each one is for. If a ranking does not fit the question, call again with a different one rather than reinterpreting these results.",
    );
    let expand = describe(
        typed_json("array").put(
            "items",
            typed_json("string").put("enum", Json::texts(&expansions)),
        ),
        "Pull in neighbours of the results. `siblings` admits other clauses of the same regulation when they are relevant on their own; they are marked `expanded_from` because no arm retrieved them. Costs one extra query per distinct regulation among the top results.",
    );
    Json::object().put("query", query).put("mode", mode).put("top_k", top_k).put(
        "candidate_pool",
        pool,
    ).put("profile", profile).put("expand", expand).put("factor_weights", weights_schema())
}

/// The whole surface, given the algorithms that are offered.
pub open spec fn surface(offered: Seq<Seq<char>>) -> Seq<JsonView> {
    seq![
        tool_view(
            "list_domains"@,
            "List knowledge bases this engine serves. No content."@,
            schema_view(JsonView::object(), Seq::empty()),
            "List domains"@,
        ),
        tool_view(
            "search_knowledge"@,
            "Routed hybrid search. Returns ranked, cited evidence."@,
            schema_view(search_properties(offered), seq!["query"@]),
            "Search knowledge"@,
        ),
        tool_view(
            "list_algorithms"@,
            "Ranking algorithms this engine serves, and what each is for."@,
            schema_view(JsonView::object(), Seq::empty()),
            "List algorithms"@,
        ),
        tool_view(
            "read_chunk"@,
            "Read one chunk in full, size-capped."@,
            schema_view(
                JsonView::object().put(
                    "id"@,
                    described(typed("string"@), "Chunk id from search_knowledge."@),
                ).put(
                    "max_chars"@,
                    described(
                        typed("integer"@),
                        "Cap on characters. The server's own cap still applies."@,
                    ),
                ),
                seq!["id"@],
            ),
            "Read chunk"@,
        ),
        tool_view(
            "get_provenance"@,
            "Verification bundle: source and locator for result ids."@,
            schema_view(
                JsonView::object().put(
                    "ids"@,
                    described(
                        typed("array"@).put("items"@, typed("string"@)),
                        "Chunk ids to resolve."@,
                    ),
                ),
                seq!["ids"@],
            ),
            "Get provenance"@,
        ),
        tool_view(
            "explain_routing"@,
            "Which clusters a query probes, and why."@,
            schema_view(JsonView::object().put("query"@, typed("string"@)), seq!["query"@]),
            "Explain routing"@,
        ),
    ]
}

/// JSON values, as what they say.
pub open spec fn json_views(v: Seq<Json>) -> Seq<JsonView> {
    v.map_values(|j: Json| j@)
}

/// Every tool's schema. The algorithms offered come from the loaded registry,
/// so that what an agent reads and what the engine accepts are one list.
pub fn definitions(registry: &Registry) -> (r: Vec<Json>)
    ensures
        json_views(r@) == surface(registry.offered_names()),
{
    let offered = registry.offered();
    let none: Vec<&str> = Vec::new();
    assert(slices(none@) =~= Seq::<Seq<char>>::empty());
    let query_only = vec!["query"];
    assert(slices(query_only@) =~= seq!["query"@]);
    let id_only = vec!["id"];
    assert(slices(id_only@) =~= seq!["id"@]);
    let ids_only = vec!["ids"];
    assert(slices(ids_only@) =~= seq!["ids"@]);
    let list_domains = tool(
        "list_domains",
        "List knowledge bases this engine serves. No content.",
        schema(Json::object(), &none),
        "List domains",
    );
    let search = tool(
        "search_knowledge",
        "Routed hybrid search. Returns ranked, cited evidence.",
        schema(search_schema(&offered), &query_only),
        "Search knowledge",
    );
    let list_algorithms = tool(
        "list_algorithms",
        "Ranking algorithms this engine serves, and what each is for.",
        schema(Json::object(), &none),
        "List algorithms",
    );
    let read_properties = Json::object().put(
        "id",
        describe(typed_json("string"), "Chunk id from search_knowledge."),
    ).put(
        "max_chars",
        describe(
            typed_json("integer"),
            "Cap on characters. The server's own cap still applies.",
        ),
    );
    let read_chunk = tool(
        "read_chunk",
        "Read one chunk in full, size-capped.",
        schema(read_properties, &id_only),
        "Read chunk",
    );
    let provenance_properties = Json::object().put(
        "ids",
        describe(
            typed_json("array").put("items", typed_json("string")),
            "Chunk ids to resolve.",
        ),
    );
    let get_provenance = tool(
        "get_provenance",
        "Verification bundle: source and locator for result ids.",
        schema(provenance_properties, &ids_only),
        "Get provenance",
    );
    let explain_properties = Json::object().put("query", typed_json("string"));
    let explain_routing = tool(
        "explain_routing",
        "Which clusters a query probes, and why.",
        schema(explain_properties, &query_only),
        "Explain routing",
    );
    let r = vec![
        list_domains,
        search,
        list_algorithms,
        read_chunk,
        get_provenance,
        explain_routing,
    ];
    assert(json_views(r@) =~= surface(registry.offered_names()));
    r
}

/// The cost that a response reports.
pub open spec fn reported_cost(serialized: Option<&str>) -> u64 {
    match serialized {
        Some(text) => if tokens_of(text@) > usize::MAX {
            usize::MAX as u64
        } else {
            tokens_of(text@) as u64
        },
        None => 0,
    }
}

/// Fills in what a response costs, written out as `serialized`, by measuring
/// it: an agent budgets its own context with this number.
pub fn sized(out: Json, serialized: Option<&str>) -> (r: Json)
    ensures
        r@ == out@.set("token_estimate"@, JsonView::number(reported_cost(serialized))),
{
    let n: u64 = match serialized {
        Some(text) => estimate(text) as u64,
        None => 0,
    };
    out.set("token_estimate", Json::number(n))
}

/// A failure: `success` first, and always a hint to act on.
pub open spec fn failure_view(op: Seq<char>, message: Seq<char>, hint: Seq<char>) -> JsonView {
    JsonView::object().put("success"@, JsonView::Bool(false)).put("op"@, JsonView::Text(op)).put(
        "error"@,
        JsonView::Text(message),
    ).put("hint"@, JsonView::Text(hint)).put("token_estimate"@, JsonView::number(0)).put(
        "progress"@,
        JsonView::list(),
    )
}

/// The uniform failure envelope. Its cost is filled in by [`sized`].
pub fn error(op: &str, message: &str, hint: &str) -> (r: Json)
    ensures
        r@ == failure_view(op@, message@, hint@),
{
    Json::object().put("success", Json::Bool(false)).put("op", Json::text(op)).put(
        "error",
        Json::text(message),
    ).put("hint", Json::text(hint)).put("token_estimate", Json::number(0)).put(
        "progress",
        Json::list(),
    )
}

/// The surface is the same whatever is offered but for the names in the search
/// schema, it has six tools, and every one refuses properties it does not
/// list.
pub proof fn every_tool_is_closed(offered: Seq<Seq<char>>, i: int)
    requires
        0 <= i < surface(offered).len(),
    ensures
        surface(offered).len() == 6,
        ({
            let s = surface(offered)[i].field("inputSchema"@);
            s is Some && (s->0).field("additionalProperties"@) == Some(JsonView::Bool(false))
        }),
{
    reveal_strlit("name");
    reveal_strlit("description");
    reveal_strlit("inputSchema");
    reveal_strlit("annotations");
    reveal_strlit("type");
    reveal_strlit("properties");
    reveal_strlit("required");
    reveal_strlit("additionalProperties");
    reveal_with_fuel(JsonView::field_from, 5);
    assert("name"@.len() == 4 && "description"@.len() == 11 && "inputSchema"@.len() == 11);
    assert("description"@[0] == 'd' && "inputSchema"@[0] == 'i');
    assert("type"@.len() == 4 && "properties"@.len() == 10 && "required"@.len() == 8
        && "additionalProperties"@.len() == 20);
}

/// Every tool says of itself that it only reads: it destroys nothing, can be
/// repeated, and reaches nothing outside the deployment.
pub proof fn every_tool_only_reads(offered: Seq<Seq<char>>, i: int)
    requires
        0 <= i < surface(offered).len(),
    ensures
        ({
            let a = surface(offered)[i].field("annotations"@);
            &&& a is Some
            &&& (a->0).field("readOnlyHint"@) == Some(JsonView::Bool(true))
            &&& (a->0).field("destructiveHint"@) == Some(JsonView::Bool(false))
            &&& (a->0).field("idempotentHint"@) == Some(JsonView::Bool(true))
            &&& (a->0).field("openWorldHint"@) == Some(JsonView::Bool(false))
        }),
{
    reveal_strlit("name");
    reveal_strlit("description");
    reveal_strlit("inputSchema");
    reveal_strlit("annotations");
    reveal_strlit("title");
    reveal_strlit("readOnlyHint");
    reveal_strlit("destructiveHint");
    reveal_strlit("idempotentHint");
    reveal_strlit("openWorldHint");
    reveal_with_fuel(JsonView::field_from, 6);
    assert("name"@.len() == 4 && "description"@.len() == 11 && "inputSchema"@.len() == 11
        && "annotations"@.len() == 11);
    assert("description"@[0] == 'd' && "inputSchema"@[0] == 'i' && "annotations"@[0] == 'a');
    assert("title"@.len() == 5 && "readOnlyHint"@.len() == 12 && "destructiveHint"@.len() == 15
        && "idempotentHint"@.len() == 14 && "openWorldHint"@.len() == 13);
}

/// A search takes no domain, and nothing but the query has to be given.
pub proof fn a_search_never_takes_a_domain(offered: Seq<Seq<char>>)
    ensures
        search_properties(offered).field("domain"@) is None,
        search_properties(offered).field("query"@) is Some,
        schema_view(search_properties(offered), seq!["query"@]).field("required"@) == Some(
            JsonView::texts(seq!["query"@]),
        ),
{
    reveal_strlit("domain");
    reveal_strlit("query");
    reveal_strlit("mode");
    reveal_strlit("top_k");
    reveal_strlit("candidate_pool");
    reveal_strlit("profile");
    reveal_strlit("expand");
    reveal_strlit("factor_weights");
    reveal_strlit("type");
    reveal_strlit("properties");
    reveal_strlit("required");
    reveal_with_fuel(JsonView::field_from, 8);
    assert("domain"@.len() == 6 && "query"@.len() == 5 && "mode"@.len() == 4 && "top_k"@.len() == 5
        && "candidate_pool"@.len() == 14 && "profile"@.len() == 7 && "factor_weights"@.len() == 14);
    assert("expand"@.len() == 6 && "expand"@[0] == 'e' && "domain"@[0] == 'd');
    assert("type"@.len() == 4 && "properties"@.len() == 10 && "required"@.len() == 8);
}

/// The profiles that a search may name are those that are offered, in their
/// order.
pub proof fn a_search_offers_what_is_served(offered: Seq<Seq<char>>)
    ensures
        ({
            let p = search_properties(offered).field("profile"@);
            &&& p is Some
            &&& (p->0).field("enum"@) is Some
            &&& (p->0).field("enum"@)->0 is List
            &&& (p->0).field("enum"@)->0->List_0.len() == offered.len()
            &&& forall|i: int|
                0 <= i < offered.len() ==> #[trigger] (p->0).field("enum"@)->0->List_0[i]
                    == JsonView::Text(offered[i])
        }),
{
    reveal_strlit("query");
    reveal_strlit("mode");
    reveal_strlit("top_k");
    reveal_strlit("candidate_pool");
    reveal_strlit("profile");
    reveal_strlit("type");
    reveal_strlit("enum");
    reveal_with_fuel(JsonView::field_from, 8);
    assert("query"@.len() == 5 && "mode"@.len() == 4 && "top_k"@.len() == 5
        && "candidate_pool"@.len() == 14 && "profile"@.len() == 7);
    assert("type"@[0] == 't' && "enum"@[0] == 'e');
}

/// A failure says so, names the operation, what went wrong and what to do about
/// it, and costs nothing until it is measured.
pub proof fn a_failure_says_what_to_do(op: Seq<char>, message: Seq<char>, hint: Seq<char>)
    ensures
        failure_view(op, message, hint) == JsonView::Object(
            seq![
                ("success"@, JsonView::Bool(false)),
                ("op"@, JsonView::Text(op)),
                ("error"@, JsonView::Text(message)),
                ("hint"@, JsonView::Text(hint)),
                ("token_estimate"@, JsonView::Number(Numeral::Unsigned(0))),
                ("progress"@, JsonView::List(Seq::empty())),
            ],
        ),
{
    assert(failure_view(op, message, hint)->Object_0 =~= seq![
        ("success"@, JsonView::Bool(false)),
        ("op"@, JsonView::Text(op)),
        ("error"@, JsonView::Text(message)),
        ("hint"@, JsonView::Text(hint)),
        ("token_estimate"@, JsonView::Number(Numeral::Unsigned(0))),
        ("progress"@, JsonView::List(Seq::empty())),
    ]);
}

} // verus!
