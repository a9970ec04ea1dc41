//! What the server says of itself and of its tools.
use vstd::prelude::*;

use crate::json;
use crate::json::{Json, JsonView};
use crate::protocol;
use crate::protocol::{success, JsonRpcResponse};
use crate::text;

verus! {

/// What the server says when it is initialized.
pub open spec fn server_description() -> JsonView {
    JsonView::object().plus("protocolVersion"@, JsonView::Text("2025-03-26"@)).plus(
        "serverInfo"@,
        JsonView::object().plus("name"@, JsonView::Text("rush-qdrant"@)).plus(
            "version"@,
            JsonView::Text("0.2.0"@),
        ),
    ).plus("capabilities"@, JsonView::object().plus("tools"@, JsonView::object()))
}

/// What is said of the catalogs that can be searched.
pub open spec fn catalogs_description(catalogs: Seq<Seq<char>>) -> Seq<char> {
    if catalogs.len() == 1 {
        "Searches the '"@ + catalogs[0] + "' catalog."@
    } else if catalogs.len() == 0 {
        "No catalogs configured."@
    } else {
        "Available catalogs: "@ + text::joined(catalogs, ", "@) + ". Omit to search all."@
    }
}

/// The schema of a parameter: its type, and what it is for.
pub open spec fn parameter(kind: Seq<char>, description: Seq<char>) -> JsonView {
    JsonView::object().plus("type"@, JsonView::Text(kind)).plus(
        "description"@,
        JsonView::Text(description),
    )
}

/// The schema of the parameters of a tool, of which one is required.
pub open spec fn input_schema(properties: JsonView, required: Seq<char>) -> JsonView {
    JsonView::object().plus("type"@, JsonView::Text("object"@)).plus(
        "properties"@,
        properties,
    ).plus("required"@, JsonView::list().item(JsonView::Text(required)))
}

/// What the server says of a tool.
pub open spec fn tool(name: Seq<char>, description: Seq<char>, schema: JsonView) -> JsonView {
    JsonView::object().plus("name"@, JsonView::Text(name)).plus(
        "description"@,
        JsonView::Text(description),
    ).plus("inputSchema"@, schema)
}

/// What the server says of its search tool.
pub open spec fn search_tool(catalogs: Seq<Seq<char>>) -> JsonView {
    tool(
        "semantic_search"@,
        "Search indexed code and documentation using semantic similarity. Returns file IDs, similarity scores, breadcrumbs, and code previews. "@
            + catalogs_description(catalogs),
        input_schema(
            JsonView::object().plus(
                "query"@,
                parameter("string"@, "Natural language search query"@),
            ).plus(
                "limit"@,
                parameter("integer"@, "Max results (default 10)"@).plus(
                    "default"@,
                    JsonView::Unsigned(10),
                ),
            ).plus(
                "catalog"@,
                parameter("string"@, "Filter to a specific catalog (optional)"@),
            ),
            "query"@,
        ),
    )
}

/// What the server says of its view tool.
pub open spec fn view_tool() -> JsonView {
    tool(
        "view_chunks"@,
        "Retrieve full chunk content by file ID. Use IDs from semantic_search results. Supports selectors: '700a4ba232fe9ddc' (all), '700a4ba232fe9ddc:3' (chunk 3), '700a4ba232fe9ddc:2-3' (range), '700a4ba232fe9ddc:3-end' (to end)."@,
        input_schema(
            JsonView::object().plus(
                "ids"@,
                JsonView::object().plus("type"@, JsonView::Text("array"@)).plus(
                    "items"@,
                    JsonView::object().plus("type"@, JsonView::Text("string"@)),
                ).plus(
                    "description"@,
                    JsonView::Text("File IDs with optional chunk selectors"@),
                ),
            ),
            "ids"@,
        ),
    )
}

/// What the server says of its tools.
pub open spec fn tools_description(catalogs: Seq<Seq<char>>) -> JsonView {
    JsonView::object().plus(
        "tools"@,
        JsonView::list().item(search_tool(catalogs)).item(view_tool()),
    )
}

/// Answers `initialize`.
pub fn handle_initialize(id: Option<serde_json::Value>) -> (r: JsonRpcResponse)
    ensures
        r@ == protocol::served(id, server_description()),
{
    let info = Json::object().with("name", Json::text("rush-qdrant")).with(
        "version",
        Json::text("0.2.0"),
    );
    let capabilities = Json::object().with("tools", Json::object());
    success(
        id,
        Json::object().with("protocolVersion", Json::text("2025-03-26")).with(
            "serverInfo",
            info,
        ).with("capabilities", capabilities),
    )
}

/// What is said of the catalogs that can be searched.
fn describe_catalogs(catalogs: &Vec<String>) -> (r: String)
    ensures
        r@ == catalogs_description(catalogs@.map_values(|c: String| c@)),
{
    if catalogs.len() == 1 {
        let mut r = "Searches the '".to_owned();
        r.append(catalogs[0].as_str());
        r.append("' catalog.");
        r
    } else if catalogs.len() == 0 {
        "No catalogs configured.".to_owned()
    } else {
        let mut r = "Available catalogs: ".to_owned();
        r.append(text::join(catalogs, ", ").as_str());
        r.append(". Omit to search all.");
        r
    }
}

/// The schema of a parameter.
fn parameter_json(kind: &str, description: &str) -> (r: Json)
    ensures
        r@ == parameter(kind@, description@),
{
    Json::object().with("type", Json::text(kind)).with("description", Json::text(description))
}

/// The schema of the parameters of a tool.
fn input_schema_json(properties: Json, required: &str) -> (r: Json)
    ensures
        r@ == input_schema(properties@, required@),
{
    Json::object().with("type", Json::text("object")).with("properties", properties).with(
        "required",
        Json::list().and(Json::text(required)),
    )
}

/// What the server says of a tool.
fn tool_json(name: &str, description: &str, schema: Json) -> (r: Json)
    ensures
        r@ == tool(name@, description@, schema@),
{
    Json::object().with("name", Json::text(name)).with(
        "description",
        Json::text(description),
    ).with("inputSchema", schema)
}

/// What the server says of its search tool.
fn search_tool_json(catalogs: &Vec<String>) -> (r: Json)
    ensures
        r@ == search_tool(catalogs@.map_values(|c: String| c@)),
{
    let mut description =
        "Search indexed code and documentation using semantic similarity. Returns file IDs, similarity scores, breadcrumbs, and code previews. ".to_owned();
    description.append(describe_catalogs(catalogs).as_str());
    let properties = Json::object().with(
        "query",
        parameter_json("string", "Natural language search query"),
    ).with(
        "limit",
        parameter_json("integer", "Max results (default 10)").with(
            "default",
            Json::unsigned(10),
        ),
    ).with("catalog", parameter_json("string", "Filter to a specific catalog (optional)"));
    tool_json("semantic_search", description.as_str(), input_schema_json(properties, "query"))
}

/// What the server says of its view tool.
fn view_tool_json() -> (r: Json)
    ensures
        r@ == view_tool(),
{
    let ids = Json::object().with("type", Json::text("array")).with(
        "items",
        Json::object().with("type", Json::text("string")),
    ).with("description", Json::text("File IDs with optional chunk selectors"));
    tool_json(
        "view_chunks",
        "Retrieve full chunk content by file ID. Use IDs from semantic_search results. Supports selectors: '700a4ba232fe9ddc' (all), '700a4ba232fe9ddc:3' (chunk 3), '700a4ba232fe9ddc:2-3' (range), '700a4ba232fe9ddc:3-end' (to end).",
        input_schema_json(Json::object().with("ids", ids), "ids"),
    )
}

/// Answers `tools/list`.
pub fn handle_tools_list(id: Option<serde_json::Value>, catalogs: &Vec<String>) -> (r:
    JsonRpcResponse)
    ensures
        r@ == protocol::served(id, tools_description(catalogs@.map_values(|c: String| c@))),
{
    let tools = Json::list().and(search_tool_json(catalogs)).and(view_tool_json());
    success(id, Json::object().with("tools", tools))
}

// ---------------------------------------------------------------------------
// Laws
// ---------------------------------------------------------------------------

/// The catalogs that can be searched are all named, in their order.
pub proof fn law_catalogs_are_named(catalogs: Seq<Seq<char>>)
    ensures
        catalogs.len() == 0 ==> catalogs_description(catalogs) == "No catalogs configured."@,
        catalogs.len() == 1 ==> catalogs_description(catalogs) == "Searches the '"@ + catalogs[0]
            + "' catalog."@,
        catalogs.len() > 1 ==> catalogs_description(catalogs) == "Available catalogs: "@
            + text::joined(catalogs, ", "@) + ". Omit to search all."@,
{
}

/// There are two tools, whatever the catalogs. What is said of the search ends in what is
/// said of the catalogs; nothing else depends on them.
pub proof fn law_two_tools_are_described(a: Seq<Seq<char>>, b: Seq<Seq<char>>)
    ensures
        json::member(tools_description(a), "tools"@) matches Some(JsonView::List(tools))
            && tools.len() == 2 && {
            &&& json::member(tools[0], "name"@) == Some(JsonView::Text("semantic_search"@))
            &&& json::member(tools[1], "name"@) == Some(JsonView::Text("view_chunks"@))
            &&& json::member(tools[0], "description"@) == Some(
                JsonView::Text(
                    "Search indexed code and documentation using semantic similarity. Returns file IDs, similarity scores, breadcrumbs, and code previews. "@
                        + catalogs_description(a),
                ),
            )
            &&& json::member(tools_description(b), "tools"@) matches Some(JsonView::List(others))
                && others.len() == 2 && others[1] == tools[1] && json::member(
                others[0],
                "inputSchema"@,
            ) == json::member(tools[0], "inputSchema"@) && json::member(tools[0], "inputSchema"@)
                is Some
            &&& tools[0]->Object_0.len() == 3
        },
{
    reveal_strlit("name");
    reveal_strlit("description");
    reveal_strlit("inputSchema");
    assert("name"@.len() == 4 && "description"@.len() == 11 && "inputSchema"@.len() == 11);
    assert("description"@[0] != "inputSchema"@[0]);
    json::lemma_member_at(search_tool(a)->Object_0, 2);
    json::lemma_member_at(search_tool(b)->Object_0, 2);
    json::lemma_member_at(tools_description(a)->Object_0, 0);
    json::lemma_member_at(tools_description(b)->Object_0, 0);
    json::lemma_member_at(search_tool(a)->Object_0, 0);
    json::lemma_member_at(search_tool(a)->Object_0, 1);
    json::lemma_member_at(view_tool()->Object_0, 0);
}

} // verus!
