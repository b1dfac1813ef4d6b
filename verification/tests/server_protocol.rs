//! The wire: requests, replies, tools, and the settings a server starts with.

use serde_json::{Map as Object, Number, Value};
use vera::contract::algorithms::{Algorithm, Fitted, Registry};
use vera::contract::options::FactorWeights;
use vera::json::{Json, Numeral};
use vera::score::Score;
use vera::server::config::Config;
use vera::server::protocol::{busy, initialize_result, method_not_found, ok, route, status_for, tool_content, Route, BUSY_CODE, METHOD_NOT_FOUND, PROTOCOL_VERSION};
use vera::server::settings::{ConfigError, Settings, Transport, Var};
use vera::server::tools::{definitions, error, sized};

fn s(x: f32) -> Score {
    Score { bits: x.to_bits() }
}

fn from(v: &Value) -> Json {
    match v {
        Value::Null => Json::Null,
        Value::Bool(b) => Json::Bool(*b),
        Value::Number(n) => Json::Number(if let Some(u) = n.as_u64() {
            Numeral::Unsigned(u)
        } else if let Some(i) = n.as_i64() {
            Numeral::Negative(i)
        } else {
            Numeral::Float(n.as_f64().unwrap_or_default().to_bits())
        }),
        Value::String(t) => Json::Text(t.clone()),
        Value::Array(a) => Json::List(a.iter().map(from).collect()),
        Value::Object(o) => Json::Object(o.iter().map(|(k, v)| (k.clone(), from(v))).collect()),
    }
}

fn to(j: &Json) -> Value {
    match j {
        Json::Null => Value::Null,
        Json::Bool(b) => Value::Bool(*b),
        Json::Number(Numeral::Unsigned(u)) => Value::Number((*u).into()),
        Json::Number(Numeral::Negative(i)) => Value::Number((*i).into()),
        Json::Number(Numeral::Float(b)) => {
            Value::Number(Number::from_f64(f64::from_bits(*b)).expect("finite"))
        }
        Json::Number(Numeral::Single(b)) => {
            Value::Number(Number::from_f64(f64::from(f32::from_bits(*b))).expect("finite"))
        }
        Json::Text(t) => Value::String(t.clone()),
        Json::List(a) => Value::Array(a.iter().map(to).collect()),
        Json::Object(o) => {
            let mut out = Object::new();
            for (k, v) in o {
                out.insert(k.clone(), to(v));
            }
            Value::Object(out)
        }
    }
}

/// A JSON text as a value of the library.
fn json(text: &str) -> Json {
    from(&serde_json::from_str(text).expect("valid"))
}

/// A JSON text as a value.
fn value(text: &str) -> Value {
    serde_json::from_str(text).expect("valid")
}

fn req(method: &str, id: &str) -> Json {
    json(&format!(r#"{{"jsonrpc":"2.0","id":{id},"method":"{method}"}}"#))
}

fn measured(j: Json) -> Value {
    let text = to(&j).to_string();
    to(&sized(j, Some(&text)))
}

// ---------------------------------------------------------------------------
// Requests and replies
// ---------------------------------------------------------------------------

#[test]
fn the_four_methods_route_to_themselves() {
    assert_eq!(route(&req("initialize", "1")), Route::Initialize);
    assert_eq!(route(&req("tools/list", "1")), Route::ToolsList);
    assert!(matches!(route(&req("tools/call", "1")), Route::ToolsCall(_)));
}

#[test]
fn every_notification_is_a_notification_not_just_the_known_ones() {
    for m in [
        "notifications/initialized",
        "notifications/cancelled",
        "notifications/something/nobody/has/written/yet",
    ] {
        assert_eq!(route(&req(m, "null")), Route::Notification, "{m}");
    }
}

#[test]
fn an_unknown_method_is_named_in_the_route() {
    assert_eq!(route(&req("resources/list", "1")), Route::Unknown("resources/list".into()));
}

#[test]
fn a_request_without_a_method_does_not_panic() {
    assert_eq!(route(&json(r#"{"id":1}"#)), Route::Unknown(String::new()));
    assert_eq!(route(&json("{}")), Route::Unknown(String::new()));
    assert_eq!(route(&json(r#"{"method":42}"#)), Route::Unknown(String::new()));
}

#[test]
fn tools_call_without_params_yields_an_empty_object_not_a_panic() {
    let Route::ToolsCall(p) = route(&req("tools/call", "1")) else {
        panic!("expected ToolsCall");
    };
    assert_eq!(p, json("{}"));
}

#[test]
fn an_integer_id_comes_back_as_an_integer() {
    let r = ok(Some(&json("7")), &json("{}"));
    assert_eq!(to(&r)["id"], value("7"));
}

#[test]
fn a_string_id_comes_back_as_a_string() {
    let r = ok(Some(&json(r#""abc-123""#)), &json("{}"));
    assert_eq!(to(&r)["id"], value(r#""abc-123""#));
}

#[test]
fn a_null_id_is_preserved_rather_than_dropped() {
    let r = ok(Some(&Json::Null), &json("{}"));
    assert!(r.get("id").is_some(), "id key must be present");
    assert_eq!(to(&r)["id"], Value::Null);
}

#[test]
fn every_envelope_declares_jsonrpc_two() {
    let envelopes = [
        ok(Some(&json("1")), &json("{}")),
        method_not_found(Some(&json("1")), "nope"),
        busy(Some(&json("1")), Some(2000)),
    ];
    for e in envelopes {
        assert_eq!(to(&e)["jsonrpc"], value(r#""2.0""#), "{e:?}");
    }
}

#[test]
fn a_response_is_either_a_result_or_an_error_never_both() {
    let good = ok(Some(&json("1")), &json(r#"{"x":1}"#));
    assert!(good.get("result").is_some() && good.get("error").is_none());

    let bad = method_not_found(Some(&json("1")), "nope");
    assert!(bad.get("error").is_some() && bad.get("result").is_none());
}

#[test]
fn method_not_found_names_the_method_the_caller_used() {
    let e = to(&method_not_found(Some(&json("1")), "resources/list"));
    assert_eq!(e["error"]["code"], Value::from(METHOD_NOT_FOUND));
    assert!(e["error"]["message"].as_str().unwrap_or_default().contains("resources/list"));
}

#[test]
fn busy_says_it_was_never_attempted_and_is_retryable() {
    let b = to(&busy(Some(&json("1")), Some(2000)));
    assert_eq!(b["error"]["code"], Value::from(BUSY_CODE));
    assert_eq!(b["error"]["data"]["retry"], Value::Bool(true));
    assert!(b["error"]["message"].as_str().unwrap_or_default().contains("2000ms"));
}

#[test]
fn busy_without_a_wait_reports_zero_rather_than_omitting_it() {
    let b = to(&busy(Some(&json("1")), None));
    assert!(b["error"]["message"].as_str().unwrap_or_default().contains("0ms"));
}

#[test]
fn initialize_announces_the_pinned_protocol_version() {
    let r = to(&initialize_result("0.1.0"));
    assert_eq!(r["protocolVersion"], Value::from(PROTOCOL_VERSION));
    assert_eq!(r["serverInfo"]["name"], Value::from("vera"));
    // Tools are the only capability.
    assert!(r["capabilities"].get("tools").is_some());
    assert!(r["capabilities"].get("resources").is_none());
    assert!(r["capabilities"].get("prompts").is_none());
}

#[test]
fn initialize_reports_the_crate_version_not_a_literal() {
    assert_eq!(
        to(&initialize_result("7.8.9"))["serverInfo"]["version"],
        Value::from("7.8.9")
    );
}

#[test]
fn a_tool_result_is_wrapped_as_mcp_text_content() {
    let payload = json(r#"{"success":true}"#);
    let c = to(&tool_content(&to(&payload).to_string()));
    assert_eq!(c["content"][0]["type"], Value::from("text"));
    // The payload is a JSON string, which is what MCP text content is.
    let text = c["content"][0]["text"].as_str().expect("text");
    assert_eq!(value(text)["success"], Value::Bool(true));
}

#[test]
fn every_envelope_serialises_to_one_line() {
    // The stdio transport is newline-framed.
    let envelopes = [
        ok(Some(&json("1")), &initialize_result("0.1.0")),
        tool_content(&value(r#"{"hint":"line one\nline two"}"#).to_string()),
        method_not_found(Some(&json("1")), "a\nb"),
    ];
    for e in envelopes {
        let text = to(&e).to_string();
        assert!(!text.contains('\n'), "envelope must be one line: {text}");
    }
}

#[test]
fn a_refusal_says_it_is_retryable() {
    let v = to(&busy(Some(&json("7")), Some(1500)));
    assert_eq!(v["error"]["code"], Value::from(BUSY_CODE));
    assert_eq!(v["id"], Value::from(7), "a refusal must answer the id it refused");
    assert_eq!(v["error"]["data"]["retry"], Value::Bool(true));
    assert!(
        v["error"]["message"].as_str().unwrap().contains("1500ms"),
        "say how long it waited, so an operator can tune the ceiling"
    );
}

#[test]
fn a_busy_server_answers_with_its_own_status() {
    let busy_reply = busy(Some(&json("1")), None);
    assert_eq!(status_for(Some(&busy_reply)).code, 503);
    assert!(status_for(Some(&busy_reply)).retry_after);
    let fine = ok(Some(&json("1")), &json("{}"));
    assert_eq!(status_for(Some(&fine)).code, 200);
    assert!(!status_for(Some(&fine)).retry_after);
    assert_eq!(status_for(None).code, 202);
}

// ---------------------------------------------------------------------------
// Tools
// ---------------------------------------------------------------------------

#[test]
fn sized_measures_the_response_rather_than_guessing_it() {
    let small = measured(json(r#"{"op":"a","token_estimate":0}"#));
    let big = measured(json(&format!(
        r#"{{"op":"a","token_estimate":0,"body":"{}"}}"#,
        "x".repeat(4_000)
    )));
    let n = |v: &Value| v["token_estimate"].as_u64().unwrap();
    assert!(n(&small) > 0, "an unset estimate is a broken budget");
    assert!(
        n(&big) > n(&small) + 900,
        "4,000 more characters must move the estimate: {} vs {}",
        n(&big),
        n(&small)
    );
}

#[test]
fn sized_counts_the_envelope_and_not_just_the_payload() {
    let body = "x".repeat(400);
    let v = measured(json(&format!(
        r#"{{"op":"read_chunk","token_estimate":0,"source":{{"title":"a fairly long source title here","url":null}},"body":"{body}"}}"#
    )));
    assert!(
        usize::try_from(v["token_estimate"].as_u64().unwrap()).unwrap() > body.len() / 4,
        "the envelope is not free"
    );
}

#[test]
fn an_error_carries_an_estimate_too() {
    let e = measured(error("search_knowledge", "boom", "try again"));
    assert!(e["token_estimate"].as_u64().unwrap() > 0);
    assert_eq!(e["success"], Value::Bool(false));
}

fn weights() -> FactorWeights {
    FactorWeights {
        relevance_floor: s(0.3),
        authority: s(0.5),
        structural: s(0.25),
        temporal: s(0.0),
        completeness: s(0.0),
        topical: s(0.25),
    }
}

fn unmeasured(fitted: Option<Fitted>) -> Algorithm {
    Algorithm {
        note: None,
        description: "Not fitted.".to_owned(),
        fitted,
        factors: weights(),
        composition: None,
        expand: vec![],
    }
}

/// A registry with one measured algorithm and one that is not.
fn reg() -> Registry {
    let mut r = Registry::builtin(weights());
    r.algorithms.insert("unmeasured".to_owned(), unmeasured(None));
    r
}

fn tools(r: &Registry) -> Vec<Value> {
    definitions(r).iter().map(to).collect()
}

fn tool(name: &str) -> Value {
    tools(&reg())
        .into_iter()
        .find(|t| t["name"] == name)
        .unwrap_or_else(|| panic!("{name} missing"))
}

#[test]
fn the_surface_stays_within_eight_tools() {
    let n = definitions(&reg()).len();
    assert!(n <= 8, "{n}");
}

#[test]
fn search_knowledge_never_accepts_a_domain() {
    let t = tool("search_knowledge");
    let schema = &t["inputSchema"];
    assert_eq!(schema["additionalProperties"], Value::Bool(false));
    assert!(schema["properties"].get("domain").is_none(), "domain must not be accepted");
    assert_eq!(schema["required"], value(r#"["query"]"#));
    assert!(schema["properties"].get("query").is_some());
}

#[test]
fn every_search_option_is_optional() {
    let t = tool("search_knowledge");
    let schema = &t["inputSchema"];
    assert_eq!(schema["required"], value(r#"["query"]"#));
    for opt in ["mode", "top_k", "candidate_pool", "expand", "profile", "factor_weights"] {
        assert!(schema["properties"].get(opt).is_some(), "{opt} missing");
    }
}

#[test]
fn only_fitted_profiles_are_offered() {
    let t = tool("search_knowledge");
    assert_eq!(
        t["inputSchema"]["properties"]["profile"]["enum"],
        value(r#"["balanced"]"#)
    );
}

#[test]
fn the_offered_profiles_come_from_the_registry_not_a_literal() {
    let mut r = reg();
    let fitted = Fitted {
        recall_at_5: s(0.6),
        recall_at_10: None,
        mrr: None,
        n: 44,
        harness: "dev_tools/eval/e2e.py".to_owned(),
        note: None,
    };
    r.algorithms.insert("unmeasured".to_owned(), unmeasured(Some(fitted)));
    let defs = tools(&r);
    let schema = &defs
        .iter()
        .find(|t| t["name"] == "search_knowledge")
        .expect("search_knowledge")["inputSchema"];
    assert_eq!(
        schema["properties"]["profile"]["enum"],
        value(r#"["balanced","unmeasured"]"#)
    );
}

#[test]
fn the_schema_tells_the_agent_to_retry_rather_than_reinterpret() {
    let t = tool("search_knowledge");
    let d = t["inputSchema"]["properties"]["profile"]["description"].as_str().unwrap_or("");
    assert!(d.contains("call again"), "{d}");
    assert!(d.contains("list_algorithms"), "{d}");
}

#[test]
fn the_non_contributing_mode_is_labelled_in_its_own_description() {
    let t = tool("search_knowledge");
    let d = t["inputSchema"]["properties"]["mode"]["description"].as_str().unwrap_or("");
    assert!(d.contains("0.0%"), "semantic must declare itself: {d}");
}

#[test]
fn raw_weights_are_marked_experimental_in_the_schema() {
    let t = tool("search_knowledge");
    let d = t["inputSchema"]["properties"]["factor_weights"]["description"]
        .as_str()
        .unwrap_or("");
    assert!(d.contains("EXPERIMENTAL"), "{d}");
}

#[test]
fn every_tool_forbids_unknown_properties() {
    for t in tools(&reg()) {
        assert_eq!(
            t["inputSchema"]["additionalProperties"],
            Value::Bool(false),
            "{} accepts unknown properties",
            t["name"]
        );
    }
}

#[test]
fn every_tool_has_a_short_description() {
    for t in tools(&reg()) {
        let d = t["description"].as_str().expect("description");
        assert!(!d.is_empty());
        assert!(d.len() <= 80, "{} description is {} chars", t["name"], d.len());
    }
}

#[test]
fn the_error_envelope_leads_with_success_and_carries_a_hint() {
    let e = to(&error("search_knowledge", "boom", "try a shorter query"));
    assert_eq!(e["success"], Value::Bool(false));
    assert_eq!(e["op"], Value::from("search_knowledge"));
    assert!(e["hint"].as_str().unwrap().contains("shorter"));
    let text = e.to_string();
    assert!(text.starts_with(r#"{"success":false"#), "{text}");
}

// ---------------------------------------------------------------------------
// Settings
// ---------------------------------------------------------------------------

/// Settings that are valid, so that a test can change one field.
fn settings() -> Settings {
    Settings {
        database_url: "host=db dbname=vera".into(),
        embed_endpoint: "http://embed:80".into(),
        bm25_vocab: "/vocab/corpus.bm25.json".into(),
        max_concurrency: 4,
        transport: Transport::Http,
        http_addr: "0.0.0.0:8081".into(),
        queue_wait_ms: 2000,
        read_chunk_chars: 4000,
        max_provenance_ids: 50,
        pipeline: Config::default(),
    }
}

fn validate(x: &Settings) -> Result<(), ConfigError> {
    let f = |w: Score| f32::from_bits(w.bits);
    let sum = f(x.pipeline.dense_weight) + f(x.pipeline.sparse_weight) + f(x.pipeline.text_weight);
    x.validate(s(sum), &format!("{sum}"))
}

#[test]
fn the_shipped_defaults_are_a_valid_configuration() {
    assert!(validate(&settings()).is_ok());
}

#[test]
fn a_ceiling_of_zero_is_refused_rather_than_served() {
    let mut x = settings();
    x.max_concurrency = 0;
    let e = validate(&x).unwrap_err();
    assert!(e.message().contains("MAX_CONCURRENCY"), "{e:?}");
}

#[test]
fn probing_zero_clusters_is_refused() {
    let mut x = settings();
    x.pipeline.clusters_probed = 0;
    assert!(validate(&x).is_err());
}

#[test]
fn weights_that_sum_to_nothing_are_refused() {
    let mut x = settings();
    x.pipeline.dense_weight = s(0.0);
    x.pipeline.sparse_weight = s(0.0);
    x.pipeline.text_weight = s(0.0);
    let e = validate(&x).unwrap_err();
    assert!(e.message().contains("WEIGHT"), "{e:?}");
}

#[test]
fn one_live_arm_is_enough() {
    let mut x = settings();
    x.pipeline.dense_weight = s(0.0);
    x.pipeline.text_weight = s(0.0);
    assert!(validate(&x).is_ok());
}

#[test]
fn a_transport_it_cannot_serve_is_a_parse_failure() {
    assert_eq!("stdio".parse::<Transport>(), Ok(Transport::Stdio));
    assert_eq!("http".parse::<Transport>(), Ok(Transport::Http));
    assert!("grpc".parse::<Transport>().is_err());
    // Not case-folded.
    assert!("HTTP".parse::<Transport>().is_err());
}

#[test]
fn a_missing_variable_names_itself_and_where_to_look() {
    let e = ConfigError::Missing("DATABASE_URL").message();
    assert!(e.contains("DATABASE_URL"), "{e}");
    assert!(e.contains(".env.example"), "{e}");
}

#[test]
fn an_unparseable_value_is_quoted_back_at_the_operator() {
    let e = ConfigError::Invalid {
        key: "MAX_CONCURRENCY",
        value: "four".into(),
        kind: "positive integer",
    }
    .message();
    assert!(e.contains("MAX_CONCURRENCY"), "{e}");
    assert!(e.contains("four"), "{e}");
}

fn var(key: &str, text: &str) -> Var {
    Var {
        key: key.to_owned(),
        value: text.to_owned(),
        number: text.trim().parse::<f32>().ok().map(s),
    }
}

fn environment(more: &[(&str, &str)]) -> Vec<Var> {
    let mut out = vec![
        var("DATABASE_URL", "host=db dbname=vera"),
        var("EMBED_ENDPOINT", "http://embed:80"),
        var("BM25_VOCAB", "/vocab/corpus.bm25.json"),
    ];
    for (k, v) in more {
        out.retain(|x| x.key != *k);
        out.push(var(k, v));
    }
    out
}

#[test]
fn an_environment_with_the_required_variables_is_the_default_configuration() {
    let x = Settings::from_env(&environment(&[])).expect("the rest has defaults");
    assert_eq!(x.database_url, "host=db dbname=vera");
    assert_eq!(x.max_concurrency, 4);
    assert_eq!(x.transport, Transport::Stdio);
    assert_eq!(x.pipeline, Config::default());
    assert!(validate(&x).is_ok());
}

#[test]
fn what_the_environment_says_is_what_is_served() {
    let x = Settings::from_env(&environment(&[
        ("MAX_CONCURRENCY", "9"),
        ("TRANSPORT", "http"),
        ("DENSE_WEIGHT", "0.5"),
        ("TOP_K", "3"),
    ]))
    .expect("valid");
    assert_eq!(x.max_concurrency, 9);
    assert_eq!(x.transport, Transport::Http);
    assert_eq!(x.pipeline.dense_weight, s(0.5));
    assert_eq!(x.pipeline.top_k, 3);
}

#[test]
fn a_variable_that_is_missing_or_wrong_is_named() {
    let mut without = environment(&[]);
    without.remove(0);
    assert_eq!(
        Settings::from_env(&without).unwrap_err(),
        ConfigError::Missing("DATABASE_URL")
    );
    let e = Settings::from_env(&environment(&[("MAX_CONCURRENCY", "four")])).unwrap_err();
    assert!(
        matches!(&e, ConfigError::Invalid { key: "MAX_CONCURRENCY", value, .. } if value == "four"),
        "{e:?}"
    );
    let e = Settings::from_env(&environment(&[("TRANSPORT", "grpc")])).unwrap_err();
    assert!(matches!(e, ConfigError::Invalid { key: "TRANSPORT", .. }), "{e:?}");
}

#[test]
fn a_count_of_zero_is_refused_with_the_environment() {
    for key in [
        "MAX_CONCURRENCY",
        "READ_CHUNK_CHARS",
        "MAX_PROVENANCE_IDS",
        "CLUSTERS_PROBED",
        "TOP_K",
        "SNIPPET_CHARS",
        "GATE_SAMPLE",
    ] {
        let e = Settings::from_env(&environment(&[(key, "0")])).unwrap_err();
        assert_eq!(
            e,
            ConfigError::Invalid { key, value: "0".to_owned(), kind: "positive integer" }
        );
    }
    // What does not parse is named before what is zero.
    let e = Settings::from_env(&environment(&[("TOP_K", "0"), ("GATE_SAMPLE", "x")])).unwrap_err();
    assert!(matches!(e, ConfigError::Invalid { key: "GATE_SAMPLE", .. }), "{e:?}");
}

#[test]
fn every_tool_is_read_only() {
    for t in tools(&reg()) {
        let a = &t["annotations"];
        assert_eq!(a["readOnlyHint"], true, "{}", t["name"]);
        assert_eq!(a["destructiveHint"], false, "{}", t["name"]);
        assert_eq!(a["idempotentHint"], true, "{}", t["name"]);
        assert_eq!(a["openWorldHint"], false, "{}", t["name"]);
    }
}
