//! JSON-RPC framing: the half of the server that needs no corpus.

use vstd::prelude::*;
use vstd::string::*;

use crate::json::{Json, JsonView, Numeral};
use crate::text::{decimal, has_prefix, same, show, starts_with};

verus! {

/// The protocol revision this server speaks.
pub const PROTOCOL_VERSION: &'static str = "2024-11-05";

/// The method does not exist.
pub const METHOD_NOT_FOUND: i64 = -32601;

/// The concurrency ceiling is full and nothing was attempted.
pub const BUSY_CODE: i64 = -32000;

/// What a request asks for.
#[derive(Debug, PartialEq)]
pub enum Route {
    Initialize,
    ToolsList,
    /// Tool execution, with its parameters.
    ToolsCall(Json),
    /// A notification: carries no id and must not be answered.
    Notification,
    Unknown(String),
}

/// What a request asks for, as what it says.
pub ghost enum RouteView {
    Initialize,
    ToolsList,
    ToolsCall(JsonView),
    Notification,
    Unknown(Seq<char>),
}

impl Route {
    pub open spec fn view(self) -> RouteView {
        match self {
            Route::Initialize => RouteView::Initialize,
            Route::ToolsList => RouteView::ToolsList,
            Route::ToolsCall(params) => RouteView::ToolsCall(params@),
            Route::Notification => RouteView::Notification,
            Route::Unknown(m) => RouteView::Unknown(m@),
        }
    }
}

/// The text under a key, where there is one.
pub open spec fn text_at(v: JsonView, key: Seq<char>) -> Option<Seq<char>> {
    match v.field(key) {
        Some(f) => f.text(),
        None => None,
    }
}

/// The text under a key, where there is one.
pub fn read_text<'a>(v: &'a Json, key: &str) -> (r: Option<&'a str>)
    ensures
        match r {
            Some(s) => text_at(v@, key@) == Some(s@),
            None => text_at(v@, key@) is None,
        },
{
    match v.get(key) {
        Some(f) => f.as_str(),
        None => None,
    }
}

/// The method of a request: empty where it is missing or no text.
pub open spec fn method_of(req: JsonView) -> Seq<char> {
    match text_at(req, "method"@) {
        Some(m) => m,
        None => Seq::empty(),
    }
}

/// The value under a key, or the empty object.
pub open spec fn object_at(v: JsonView, key: Seq<char>) -> JsonView {
    match v.field(key) {
        Some(f) => f,
        None => JsonView::object(),
    }
}

/// The value under a key, or the empty object.
pub fn read_object(v: &Json, key: &str) -> (r: Json)
    ensures
        r@ == object_at(v@, key@),
{
    match v.get(key) {
        Some(f) => f.copy(),
        None => Json::object(),
    }
}

/// What a request asks for.
pub open spec fn route_of(req: JsonView) -> RouteView {
    let m = method_of(req);
    if m == "initialize"@ {
        RouteView::Initialize
    } else if m == "tools/list"@ {
        RouteView::ToolsList
    } else if m == "tools/call"@ {
        RouteView::ToolsCall(object_at(req, "params"@))
    } else if has_prefix(m, "notifications/"@) {
        RouteView::Notification
    } else {
        RouteView::Unknown(m)
    }
}

/// Classifies one request. Anything may arrive; a missing method is an unknown
/// one.
pub fn route(req: &Json) -> (r: Route)
    ensures
        r@ == route_of(req@),
{
    let method = match read_text(req, "method") {
        Some(m) => m.to_owned(),
        None => String::new(),
    };
    assert(method@ =~= method_of(req@));
    if same(method.as_str(), "initialize") {
        Route::Initialize
    } else if same(method.as_str(), "tools/list") {
        Route::ToolsList
    } else if same(method.as_str(), "tools/call") {
        Route::ToolsCall(read_object(req, "params"))
    } else if starts_with(method.as_str(), "notifications/") {
        Route::Notification
    } else {
        Route::Unknown(method)
    }
}

/// A request is answered unless it is a notification, and every notification
/// is one, known or not.
pub proof fn notifications_are_never_answered(req: JsonView)
    requires
        has_prefix(method_of(req), "notifications/"@),
    ensures
        route_of(req) == RouteView::Notification,
{
    reveal_strlit("initialize");
    reveal_strlit("tools/list");
    reveal_strlit("tools/call");
    reveal_strlit("notifications/");
    let m = method_of(req);
    assert(m.take("notifications/"@.len() as int)[0] == 'n');
    assert(m[0] == 'n');
    assert("initialize"@[0] == 'i');
    assert("tools/list"@[0] == 't');
    assert("tools/call"@[0] == 't');
}

/// The result of `initialize`. Tools are the only capability.
pub open spec fn initialize_view(version: Seq<char>) -> JsonView {
    JsonView::object().put("protocolVersion"@, JsonView::Text(PROTOCOL_VERSION@)).put(
        "serverInfo"@,
        JsonView::object().put("name"@, JsonView::Text("vera"@)).put(
            "version"@,
            JsonView::Text(version),
        ),
    ).put("capabilities"@, JsonView::object().put("tools"@, JsonView::object()))
}

/// The result of `initialize`, for this version of the server.
pub fn initialize_result(version: &str) -> (r: Json)
    ensures
        r@ == initialize_view(version@),
{
    let info = Json::object().put("name", Json::text("vera")).put("version", Json::text(version));
    let capabilities = Json::object().put("tools", Json::object());
    Json::object().put("protocolVersion", Json::text(PROTOCOL_VERSION)).put(
        "serverInfo",
        info,
    ).put("capabilities", capabilities)
}

/// An id as it goes back: exactly as it came, or null where there was none.
pub open spec fn echoed(id: Option<&Json>) -> JsonView {
    match id {
        Some(v) => v@,
        None => JsonView::Null,
    }
}

fn echo(id: Option<&Json>) -> (r: Json)
    ensures
        r@ == echoed(id),
{
    match id {
        Some(v) => v.copy(),
        None => Json::Null,
    }
}

/// An envelope around a result.
pub open spec fn ok_view(id: JsonView, result: JsonView) -> JsonView {
    JsonView::object().put("jsonrpc"@, JsonView::Text("2.0"@)).put("id"@, id).put(
        "result"@,
        result,
    )
}

/// A successful envelope. The id is echoed exactly as it arrived: a client
/// that matches replies by id cannot match one that changed its type.
pub fn ok(id: Option<&Json>, result: &Json) -> (r: Json)
    ensures
        r@ == ok_view(echoed(id), result@),
{
    Json::object().put("jsonrpc", Json::text("2.0")).put("id", echo(id)).put(
        "result",
        result.copy(),
    )
}

/// An error, with what else there is to say of it.
pub open spec fn fault_view(code: i64, message: Seq<char>, data: Option<JsonView>) -> JsonView {
    let plain = JsonView::object().put("code"@, JsonView::integer(code)).put(
        "message"@,
        JsonView::Text(message),
    );
    match data {
        Some(d) => plain.put("data"@, d),
        None => plain,
    }
}

/// An envelope around an error.
pub open spec fn error_view(
    id: JsonView,
    code: i64,
    message: Seq<char>,
    data: Option<JsonView>,
) -> JsonView {
    JsonView::object().put("jsonrpc"@, JsonView::Text("2.0"@)).put("id"@, id).put(
        "error"@,
        fault_view(code, message, data),
    )
}

/// An error envelope.
pub fn error(id: Option<&Json>, code: i64, message: &str, data: Option<Json>) -> (r: Json)
    ensures
        r@ == error_view(
            echoed(id),
            code,
            message@,
            match data {
                Some(d) => Some(d@),
                None => None,
            },
        ),
{
    let plain = Json::object().put("code", Json::integer(code)).put("message", Json::text(message));
    let fault = match data {
        Some(d) => plain.put("data", d),
        None => plain,
    };
    Json::object().put("jsonrpc", Json::text("2.0")).put("id", echo(id)).put("error", fault)
}

/// The reply to a method that does not exist.
pub fn method_not_found(id: Option<&Json>, method: &str) -> (r: Json)
    ensures
        r@ == error_view(
            echoed(id),
            METHOD_NOT_FOUND,
            "method not found: "@ + method@,
            None,
        ),
{
    let mut message = "method not found: ".to_owned();
    message.append(method);
    error(id, METHOD_NOT_FOUND, message.as_str(), None)
}

/// The milliseconds that a caller waited: zero where no wait was bounded.
pub open spec fn waited_ms(waited: Option<u64>) -> u64 {
    match waited {
        Some(ms) => ms,
        None => 0,
    }
}

/// The reply at capacity.
pub open spec fn busy_view(id: JsonView, waited: Option<u64>) -> JsonView {
    error_view(
        id,
        BUSY_CODE,
        "at capacity · waited "@ + decimal(waited_ms(waited) as nat) + "ms for a slot · retry"@,
        Some(JsonView::object().put("retry"@, JsonView::Bool(true))),
    )
}

/// The reply at capacity. It states that the request was never attempted,
/// which is what makes a retry safe.
pub fn busy(id: Option<&Json>, waited: Option<u64>) -> (r: Json)
    ensures
        r@ == busy_view(echoed(id), waited),
{
    let ms: u64 = match waited {
        Some(n) => n,
        None => 0,
    };
    let mut message = "at capacity · waited ".to_owned();
    let shown = show(ms);
    message.append(shown.as_str());
    message.append("ms for a slot · retry");
    let data = Json::object().put("retry", Json::Bool(true));
    error(id, BUSY_CODE, message.as_str(), Some(data))
}

/// A tool's result as text content.
pub open spec fn content_view(text: Seq<char>) -> JsonView {
    JsonView::object().put(
        "content"@,
        JsonView::list().add(
            JsonView::object().put("type"@, JsonView::Text("text"@)).put(
                "text"@,
                JsonView::Text(text),
            ),
        ),
    )
}

/// Wraps a tool's result, written out as `text`, in the content envelope.
pub fn tool_content(text: &str) -> (r: Json)
    ensures
        r@ == content_view(text@),
{
    let item = Json::object().put("type", Json::text("text")).put("text", Json::text(text));
    Json::object().put("content", Json::list().add(item))
}

/// A reply holds a result or an error, never both, and always the id and the
/// protocol.
pub proof fn a_reply_is_a_result_or_an_error(
    id: JsonView,
    result: JsonView,
    code: i64,
    message: Seq<char>,
    data: Option<JsonView>,
)
    ensures
        ok_view(id, result).field("result"@) == Some(result),
        ok_view(id, result).field("error"@) is None,
        ok_view(id, result).field("id"@) == Some(id),
        ok_view(id, result).field("jsonrpc"@) == Some(JsonView::Text("2.0"@)),
        error_view(id, code, message, data).field("error"@) == Some(
            fault_view(code, message, data),
        ),
        error_view(id, code, message, data).field("result"@) is None,
        error_view(id, code, message, data).field("id"@) == Some(id),
        error_view(id, code, message, data).field("jsonrpc"@) == Some(JsonView::Text("2.0"@)),
{
    reveal_strlit("jsonrpc");
    reveal_strlit("id");
    reveal_strlit("result");
    reveal_strlit("error");
    reveal_with_fuel(JsonView::field_from, 4);
    assert("jsonrpc"@.len() == 7 && "id"@.len() == 2 && "result"@.len() == 6 && "error"@.len() == 5);
}

// ---------------------------------------------------------------------------
// The transport's own answer
// ---------------------------------------------------------------------------

/// How a transport answers: the status, and whether it tells the client when
/// to come back.
#[derive(Debug, Clone, Copy, PartialEq, Eq)]
pub struct Status {
    pub code: u16,
    pub retry_after: bool,
}

/// Whether a reply says that the server is at capacity.
pub open spec fn says_busy(reply: JsonView) -> bool {
    match reply.field("error"@) {
        Some(e) => match e.field("code"@) {
            Some(c) => c == JsonView::integer(BUSY_CODE),
            None => false,
        },
        None => false,
    }
}

/// The status for a reply: accepted where there is nothing to send, unavailable
/// with a time to retry at capacity, and fine otherwise, since an error that
/// stands in the envelope is not the transport's.
pub fn status_for(reply: Option<&Json>) -> (r: Status)
    ensures
        r == match reply {
            None => (Status { code: 202, retry_after: false }),
            Some(v) => if says_busy(v@) {
                Status { code: 503, retry_after: true }
            } else {
                Status { code: 200, retry_after: false }
            },
        },
{
    match reply {
        None => Status { code: 202, retry_after: false },
        Some(v) => {
            let busy_reply = match v.get("error") {
                Some(e) => match e.get("code") {
                    Some(Json::Number(Numeral::Negative(n))) => *n == BUSY_CODE,
                    _ => false,
                },
                None => false,
            };
            if busy_reply {
                Status { code: 503, retry_after: true }
            } else {
                Status { code: 200, retry_after: false }
            }
        },
    }
}

/// The reply at capacity, and no reply with a result, is answered as
/// unavailable.
pub proof fn only_a_full_server_is_unavailable(id: JsonView, waited: Option<u64>, result: JsonView)
    ensures
        says_busy(busy_view(id, waited)),
        !says_busy(ok_view(id, result)),
        !says_busy(error_view(id, METHOD_NOT_FOUND, Seq::empty(), None)),
{
    reveal_strlit("jsonrpc");
    reveal_strlit("id");
    reveal_strlit("result");
    reveal_strlit("error");
    reveal_strlit("code");
    reveal_strlit("message");
    reveal_strlit("data");
    reveal_with_fuel(JsonView::field_from, 4);
    assert("jsonrpc"@.len() == 7 && "id"@.len() == 2 && "result"@.len() == 6 && "error"@.len() == 5);
    assert("code"@.len() == 4 && "message"@.len() == 7);
}

/// A request is routed by its method and by nothing else: a tool call keeps its
/// parameters, and a request without a method is an unknown one without a name.
pub proof fn a_request_is_routed_by_its_method(req: JsonView)
    ensures
        text_at(req, "method"@) == Some("initialize"@) ==> route_of(req) == RouteView::Initialize,
        text_at(req, "method"@) == Some("tools/list"@) ==> route_of(req) == RouteView::ToolsList,
        text_at(req, "method"@) == Some("tools/call"@) && req.field("params"@) is Some
            ==> route_of(req) == RouteView::ToolsCall(req.field("params"@)->0),
        text_at(req, "method"@) == Some("tools/call"@) && req.field("params"@) is None
            ==> route_of(req) == RouteView::ToolsCall(JsonView::Object(Seq::empty())),
        text_at(req, "method"@) is None ==> route_of(req) == RouteView::Unknown(Seq::empty()),
        route_of(req) is Initialize ==> text_at(req, "method"@) == Some("initialize"@),
        route_of(req) is ToolsList ==> text_at(req, "method"@) == Some("tools/list"@),
        route_of(req) is ToolsCall ==> text_at(req, "method"@) == Some("tools/call"@),
        route_of(req) is Notification ==> has_prefix(method_of(req), "notifications/"@),
        route_of(req) is Unknown && text_at(req, "method"@) is Some ==> route_of(req)
            == RouteView::Unknown(text_at(req, "method"@)->0),
{
    reveal_strlit("initialize");
    reveal_strlit("tools/list");
    reveal_strlit("tools/call");
    reveal_strlit("notifications/");
    assert("initialize"@[0] == 'i');
    assert("tools/list"@[6] == 'l');
    assert("tools/call"@[6] == 'c');
    assert("tools/list"@[0] == 't');
    assert("tools/call"@[0] == 't');
}

/// A text is read under a key exactly where the first field of that name holds
/// one.
pub proof fn a_text_is_read_where_the_field_holds_one(v: JsonView, key: Seq<char>, s: Seq<char>)
    ensures
        text_at(v, key) == Some(s) <==> v.field(key) == Some(JsonView::Text(s)),
{
}

/// The reply at capacity says how long the caller waited, and that a retry is
/// safe.
pub proof fn a_full_server_says_how_long_was_waited(id: JsonView, ms: u64)
    ensures
        busy_view(id, Some(ms)) == JsonView::Object(
            seq![
                ("jsonrpc"@, JsonView::Text("2.0"@)),
                ("id"@, id),
                (
                    "error"@,
                    JsonView::Object(
                        seq![
                            ("code"@, JsonView::Number(Numeral::Negative((-32000) as i64))),
                            (
                                "message"@,
                                JsonView::Text(
                                    "at capacity · waited "@ + decimal(ms as nat)
                                        + "ms for a slot · retry"@,
                                ),
                            ),
                            ("data"@, JsonView::Object(seq![("retry"@, JsonView::Bool(true))])),
                        ],
                    ),
                ),
            ],
        ),
        busy_view(id, None) == busy_view(id, Some(0)),
{
    let retry = JsonView::object().put("retry"@, JsonView::Bool(true));
    assert(retry->Object_0 =~= seq![("retry"@, JsonView::Bool(true))]);
    let message = "at capacity · waited "@ + decimal(ms as nat) + "ms for a slot · retry"@;
    let fault = fault_view(BUSY_CODE, message, Some(retry));
    assert(fault->Object_0 =~= seq![
        ("code"@, JsonView::Number(Numeral::Negative((-32000) as i64))),
        ("message"@, JsonView::Text(message)),
        ("data"@, retry),
    ]);
    assert(busy_view(id, Some(ms))->Object_0 =~= seq![
        ("jsonrpc"@, JsonView::Text("2.0"@)),
        ("id"@, id),
        ("error"@, fault),
    ]);
}

} // verus!
