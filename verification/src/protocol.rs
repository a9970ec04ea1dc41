//! Messages of JSON-RPC 2.0.
use vstd::prelude::*;

use crate::json;
use crate::json::{Json, JsonView};

verus! {

/// A request, or a notification where it has no identifier.
pub struct JsonRpcRequest {
    pub jsonrpc: String,
    pub id: Option<serde_json::Value>,
    pub method: String,
    pub params: Option<Json>,
}

/// An answer.
pub struct JsonRpcResponse {
    pub jsonrpc: String,
    pub id: Option<serde_json::Value>,
    pub result: Option<Json>,
    pub error: Option<JsonRpcError>,
}

/// Why a request was refused.
pub struct JsonRpcError {
    pub code: i32,
    pub message: String,
}

/// What an answer is.
pub struct ResponseView {
    pub jsonrpc: Seq<char>,
    pub id: Option<serde_json::Value>,
    pub result: Option<JsonView>,
    pub error: Option<(int, Seq<char>)>,
}

impl View for JsonRpcResponse {
    type V = ResponseView;

    open spec fn view(&self) -> ResponseView {
        ResponseView {
            jsonrpc: self.jsonrpc@,
            id: self.id,
            result: match self.result {
                Some(v) => Some(v@),
                None => None,
            },
            error: match self.error {
                Some(e) => Some((e.code as int, e.message@)),
                None => None,
            },
        }
    }
}

// ---------------------------------------------------------------------------
// Answers
// ---------------------------------------------------------------------------

/// The answer to a request that was served.
pub open spec fn served(id: Option<serde_json::Value>, result: JsonView) -> ResponseView {
    ResponseView { jsonrpc: "2.0"@, id, result: Some(result), error: None }
}

/// The answer to a request that was refused.
pub open spec fn refused(
    id: Option<serde_json::Value>,
    code: int,
    message: Seq<char>,
) -> ResponseView {
    ResponseView { jsonrpc: "2.0"@, id, result: None, error: Some((code, message)) }
}

/// The result of a tool that answers with a text.
pub open spec fn text_content(output: Seq<char>) -> JsonView {
    JsonView::object().plus(
        "content"@,
        JsonView::list().item(
            JsonView::object().plus("type"@, JsonView::Text("text"@)).plus(
                "text"@,
                JsonView::Text(output),
            ),
        ),
    )
}

/// The answer to a request that was served.
pub fn success(id: Option<serde_json::Value>, result: Json) -> (r: JsonRpcResponse)
    ensures
        r@ == served(id, result@),
{
    JsonRpcResponse { jsonrpc: "2.0".to_owned(), id, result: Some(result), error: None }
}

/// The answer to a request that was refused.
pub fn error(id: Option<serde_json::Value>, code: i32, message: String) -> (r: JsonRpcResponse)
    ensures
        r@ == refused(id, code as int, message@),
{
    JsonRpcResponse {
        jsonrpc: "2.0".to_owned(),
        id,
        result: None,
        error: Some(JsonRpcError { code, message }),
    }
}

/// The result of a tool that answers with a text.
pub fn text_result(output: &str) -> (r: Json)
    ensures
        r@ == text_content(output@),
{
    Json::object().with(
        "content",
        Json::list().and(
            Json::object().with("type", Json::text("text")).with("text", Json::text(output)),
        ),
    )
}

// ---------------------------------------------------------------------------
// Laws
// ---------------------------------------------------------------------------

/// Whether a result is one item of content, which is just this text.
pub open spec fn holds_text(result: JsonView, output: Seq<char>) -> bool {
    &&& result is Object && result->Object_0.len() == 1
    &&& json::member(result, "content"@) matches Some(JsonView::List(items)) && items.len() == 1
        && {
        &&& items[0] is Object && items[0]->Object_0.len() == 2
        &&& json::member(items[0], "type"@) == Some(JsonView::Text("text"@))
        &&& json::member(items[0], "text"@) == Some(JsonView::Text(output))
    }
}

/// A tool answers with its text as it is, and with nothing else.
pub proof fn law_text_is_answered_as_it_is(output: Seq<char>)
    ensures
        holds_text(text_content(output), output),
{
    reveal_strlit("type");
    reveal_strlit("text");
    assert("type"@[1] != "text"@[1]);
    let outer = text_content(output)->Object_0;
    json::lemma_member_at(outer, 0);
    let inner = outer[0].1->List_0[0]->Object_0;
    json::lemma_member_at(inner, 0);
    json::lemma_member_at(inner, 1);
}

/// An answer is of the version 2.0, carries the identifier that it is given, and holds
/// either the result or the error, as they are.
pub proof fn law_answers_hold_what_they_are_given(
    id: Option<serde_json::Value>,
    result: JsonView,
    code: int,
    message: Seq<char>,
)
    ensures
        served(id, result).jsonrpc == "2.0"@ && served(id, result).id == id,
        served(id, result).result == Some(result) && served(id, result).error is None,
        refused(id, code, message).jsonrpc == "2.0"@ && refused(id, code, message).id == id,
        refused(id, code, message).error == Some((code, message)),
        refused(id, code, message).result is None,
{
}

/// An answer is viewed as it is.
pub proof fn law_answers_are_viewed_as_they_are(r: JsonRpcResponse)
    ensures
        r@.jsonrpc == r.jsonrpc@ && r@.id == r.id,
        r@.result is Some <==> r.result is Some,
        r.result matches Some(v) ==> r@.result == Some(v@),
        r@.error is Some <==> r.error is Some,
        r.error matches Some(e) ==> r@.error == Some((e.code as int, e.message@)),
{
}

} // verus!
