use rush_qdrant::api_client::{ApiClient, HttpRequest, Method, SearchResult, ViewChunk};
use rush_qdrant::json::Json;
use rush_qdrant::protocol::{JsonRpcRequest, JsonRpcResponse};
use rush_qdrant::report::{report_search, report_selector};
use rush_qdrant::selector::parse_view_selector;
use rush_qdrant::stdio::{
    handle_request, handle_search, handle_view, message_in, parse_failure, SearchJob, Step, ViewJob,
};

fn id(n: u64) -> Option<serde_json::Value> {
    Some(serde_json::Value::from(n))
}

fn as_value(json: &Json) -> serde_json::Value {
    match json {
        Json::Null => serde_json::Value::Null,
        Json::Bool(b) => serde_json::Value::from(*b),
        Json::Unsigned(n) => serde_json::Value::from(*n),
        Json::Signed(n) => serde_json::Value::from(*n),
        Json::Real(s) => serde_json::from_str(s).unwrap(),
        Json::Text(s) => serde_json::Value::from(s.as_str()),
        Json::List(items) => serde_json::Value::Array(items.iter().map(as_value).collect()),
        Json::Object(members) => serde_json::Value::Object(
            members.iter().map(|(k, v)| (k.clone(), as_value(v))).collect(),
        ),
    }
}

fn as_json(value: &serde_json::Value) -> Json {
    match value {
        serde_json::Value::Null => Json::Null,
        serde_json::Value::Bool(b) => Json::Bool(*b),
        serde_json::Value::Number(n) => match (n.as_u64(), n.as_i64()) {
            (Some(u), _) => Json::Unsigned(u),
            (None, Some(i)) => Json::Signed(i),
            (None, None) => Json::Real(n.to_string()),
        },
        serde_json::Value::String(s) => Json::Text(s.clone()),
        serde_json::Value::Array(items) => Json::List(items.iter().map(as_json).collect()),
        serde_json::Value::Object(members) => {
            Json::Object(members.iter().map(|(k, v)| (k.clone(), as_json(v))).collect())
        }
    }
}

fn json(text: &str) -> Json {
    as_json(&serde_json::from_str(text).unwrap())
}

fn request(number: Option<serde_json::Value>, method: &str, params: Option<&str>) -> JsonRpcRequest {
    JsonRpcRequest {
        jsonrpc: "2.0".to_string(),
        id: number,
        method: method.to_string(),
        params: params.map(json),
    }
}

fn client() -> ApiClient {
    ApiClient::new("http://host", "t")
}

fn reply(step: Step) -> JsonRpcResponse {
    match step {
        Step::Reply(r) => r,
        _ => panic!("no reply"),
    }
}

fn search(step: Step) -> SearchJob {
    match step {
        Step::Search(job) => job,
        _ => panic!("no search"),
    }
}

fn view(step: Step) -> ViewJob {
    match step {
        Step::View(job) => job,
        _ => panic!("no view"),
    }
}

fn body(request: &HttpRequest) -> String {
    as_value(request.body.as_ref().unwrap()).to_string()
}

/// The text that an answer carries.
fn text_of(response: &JsonRpcResponse) -> String {
    assert_eq!(response.jsonrpc, "2.0");
    assert!(response.error.is_none());
    let result = as_value(response.result.as_ref().unwrap());
    let content = result["content"][0].clone();
    assert_eq!(content["type"], "text");
    let text = content["text"].as_str().unwrap().to_string();
    assert_eq!(result["content"].as_array().unwrap().len(), 1);
    text
}

fn refusal(response: &JsonRpcResponse) -> (i32, String) {
    assert!(response.result.is_none());
    let e = response.error.as_ref().unwrap();
    (e.code, e.message.clone())
}

fn hit(file: Option<&str>, text: Option<&str>) -> SearchResult {
    SearchResult {
        score: "0.912".to_string(),
        file_id: file.map(|s| s.to_string()),
        relative_path: None,
        catalog: None,
        breadcrumb: file.map(|_| "a > b".to_string()),
        chunk_number: file.map(|_| 3),
        chunk_count: None,
        start_line: None,
        end_line: None,
        symbol_name: None,
        chunk_type: None,
        text: text.map(|s| s.to_string()),
    }
}

fn bare_chunk() -> ViewChunk {
    ViewChunk {
        file_id: None,
        relative_path: Some("p.ts".to_string()),
        catalog: None,
        breadcrumb: None,
        chunk_number: None,
        chunk_count: None,
        start_line: None,
        end_line: None,
        chunk_type: None,
        text: None,
    }
}

fn full_chunk() -> ViewChunk {
    ViewChunk {
        file_id: Some("other".to_string()),
        relative_path: Some("p.ts".to_string()),
        catalog: Some("cat".to_string()),
        breadcrumb: Some("a > b".to_string()),
        chunk_number: Some(2),
        chunk_count: Some(5),
        start_line: Some(10),
        end_line: Some(12),
        chunk_type: Some("function".to_string()),
        text: Some("one\r\n\nthree\n".to_string()),
    }
}

#[test]
fn blank_lines_hold_no_message() {
    assert_eq!(message_in(""), None);
    assert_eq!(message_in(" \t\r"), None);
    assert_eq!(message_in(" {} \r"), Some("{}".to_string()));
}

#[test]
fn what_cannot_be_read_is_refused() {
    let r = parse_failure("expected value at line 1 column 1");
    assert!(r.id.is_none());
    assert_eq!(r.jsonrpc, "2.0");
    let expected = "Parse error: expected value at line 1 column 1".to_string();
    assert_eq!(refusal(&r), (-32700, expected));
}

#[test]
fn server_presents_itself() {
    let r = reply(handle_request(request(id(1), "initialize", None), &vec![], "main"));
    assert_eq!(r.id, id(1));
    let expected = concat_text(&[
        r#"{"protocolVersion":"2025-03-26","#,
        r#""serverInfo":{"name":"rush-qdrant","version":"0.2.0"},"#,
        r#""capabilities":{"tools":{}}}"#,
    ]);
    let expected: serde_json::Value = serde_json::from_str(&expected).unwrap();
    assert_eq!(as_value(&r.result.unwrap()), expected);
}

fn concat_text(parts: &[&str]) -> String {
    parts.join("")
}

#[test]
fn tools_are_listed() {
    let names = |n: usize| -> Vec<String> { (0..n).map(|i| format!("c{}", i)).collect() };
    let said = |n: usize| -> serde_json::Value {
        let r = reply(handle_request(request(id(2), "tools/list", None), &names(n), "main"));
        assert_eq!(r.id, id(2));
        as_value(&r.result.unwrap())
    };
    let start = "Search indexed code and documentation using semantic similarity. Returns file IDs, similarity scores, breadcrumbs, and code previews. ";
    let of = |n: usize| said(n)["tools"][0]["description"].as_str().unwrap().to_string();
    assert_eq!(of(0), format!("{}No catalogs configured.", start));
    assert_eq!(of(1), format!("{}Searches the 'c0' catalog.", start));
    assert_eq!(of(3), format!("{}Available catalogs: c0, c1, c2. Omit to search all.", start));
    let schema = concat_text(&[
        r#"{"type":"object","properties":{"#,
        r#""query":{"type":"string","description":"Natural language search query"},"#,
        r#""limit":{"type":"integer","description":"Max results (default 10)","default":10},"#,
        r#""catalog":{"type":"string","description":"Filter to a specific catalog (optional)"}},"#,
        r#""required":["query"]}"#,
    ]);
    let schema: serde_json::Value = serde_json::from_str(&schema).unwrap();
    let tools = said(1)["tools"].clone();
    assert_eq!(tools.as_array().unwrap().len(), 2);
    assert_eq!(tools[0]["name"], "semantic_search");
    assert_eq!(tools[0]["inputSchema"], schema);
    let second = concat_text(&[
        r#"{"name":"view_chunks","description":"Retrieve full chunk content by file ID. "#,
        r#"Use IDs from semantic_search results. Supports selectors: "#,
        r#"'700a4ba232fe9ddc' (all), '700a4ba232fe9ddc:3' (chunk 3), "#,
        r#"'700a4ba232fe9ddc:2-3' (range), '700a4ba232fe9ddc:3-end' (to end).","#,
        r#""inputSchema":{"type":"object","properties":{"ids":{"type":"array","#,
        r#""items":{"type":"string"},"description":"File IDs with optional chunk selectors"}},"#,
        r#""required":["ids"]}}"#,
    ]);
    let second: serde_json::Value = serde_json::from_str(&second).unwrap();
    assert_eq!(tools[1], second);
}

#[test]
fn only_requests_are_answered() {
    let step = |n: Option<serde_json::Value>, m: &str| {
        handle_request(request(n, m, None), &vec![], "main")
    };
    assert!(matches!(step(None, "notifications/initialized"), Step::Silent));
    assert!(matches!(step(id(1), "notifications/initialized"), Step::Silent));
    assert!(matches!(step(None, "notifications/cancelled"), Step::Silent));
    let r = reply(step(id(9), "resources/list"));
    assert_eq!(r.id, id(9));
    assert_eq!(refusal(&r), (-32601, "Method not found: resources/list".to_string()));
    // Without an identifier a known method is answered all the same.
    assert!(reply(step(None, "initialize")).id.is_none());
}

#[test]
fn unknown_tools_are_refused() {
    let call = |params: Option<&str>| {
        refusal(&reply(handle_request(request(id(1), "tools/call", params), &vec![], "main")))
    };
    assert_eq!(call(Some(r#"{"name":"nope"}"#)), (-32601, "Unknown tool: nope".to_string()));
    assert_eq!(call(Some(r#"{"name":1}"#)), (-32601, "Unknown tool: ".to_string()));
    assert_eq!(call(Some("[]")), (-32601, "Unknown tool: ".to_string()));
    assert_eq!(call(None), (-32601, "Unknown tool: ".to_string()));
}

#[test]
fn search_needs_a_query() {
    let no_query = (-32602, "Missing required parameter: query".to_string());
    for args in ["{}", r#"{"query":""}"#, r#"{"query":5}"#, "null"] {
        assert_eq!(refusal(&reply(handle_search(id(1), &json(args), "main"))), no_query);
    }
    let call = r#"{"name":"semantic_search"}"#;
    let r = reply(handle_request(request(id(4), "tools/call", Some(call)), &vec![], "main"));
    assert_eq!(refusal(&r), no_query);
    assert_eq!(r.id, id(4));
}

#[test]
fn search_is_asked_for() {
    let call = r#"{"name":"semantic_search","arguments":{"query":"q","limit":3,"catalog":"c"}}"#;
    let job = search(handle_request(request(id(4), "tools/call", Some(call)), &vec![], "dev"));
    let r = job.request(&client());
    assert_eq!(r.url, "http://host/v1/search");
    assert!(r.method == Method::Post);
    assert_eq!(body(&r), r#"{"catalog":"c","label":"dev","limit":3,"query":"q"}"#);
    for args in [r#"{"query":"q"}"#, r#"{"query":"q","limit":-1}"#, r#"{"query":"q","limit":1.5}"#] {
        let job = search(handle_search(id(1), &json(args), "main"));
        assert_eq!(body(&job.request(&client())), r#"{"label":"main","limit":10,"query":"q"}"#);
    }
}

#[test]
fn search_falls_back_to_the_main_branch_once() {
    let begin = |label: &str| search(handle_search(id(1), &json(r#"{"query":"q"}"#), label));
    // Found on the branch.
    let r = reply(begin("dev").resume(Ok(vec![hit(Some("f"), None)])));
    assert_eq!(text_of(&r), "f:3  0.912  a > b\n\n");
    // Nothing on the branch: the main branch is searched.
    let second = search(begin("dev").resume(Ok(vec![])));
    assert_eq!(body(&second.request(&client())), r#"{"label":"main","limit":10,"query":"q"}"#);
    let r = reply(second.resume(Ok(vec![hit(Some("g"), None)])));
    assert_eq!(text_of(&r), "g:3  0.912  a > b\n\n");
    assert_eq!(r.id, id(1));
    // A search that fails found nothing.
    let second = search(begin("dev").resume(Err("down".to_string())));
    let r = reply(second.resume(Err("down".to_string())));
    assert_eq!(text_of(&r), "No results found.\n");
    // On the main branch there is no second search.
    let r = reply(begin("main").resume(Ok(vec![])));
    assert_eq!(text_of(&r), "No results found.\n");
}

#[test]
fn hits_are_reported() {
    let begin = || search(handle_search(id(1), &json(r#"{"query":"q"}"#), "main"));
    let hits = vec![hit(Some("f"), Some("1\n2\r\n\n4\n")), hit(None, Some("")), hit(None, Some("x"))];
    assert_eq!(
        text_of(&reply(begin().resume(Ok(hits)))),
        "f:3  0.912  a > b\n> 1\n> 2\n> \n\n?:0  0.912  unknown\n\n?:0  0.912  unknown\n> x\n\n"
    );
}

#[test]
fn name_of_a_hit_selects_it() {
    let report = report_search(&vec![hit(Some("700a4ba232fe9ddc"), None)]);
    let name = report.split("  ").next().unwrap();
    assert_eq!(name, "700a4ba232fe9ddc:3");
    assert_eq!(
        parse_view_selector(name),
        ("700a4ba232fe9ddc".to_string(), Some(3), Some(3))
    );
}

#[test]
fn selectors_are_reported() {
    assert_eq!(report_selector("f:1", &Ok(vec![])), "f:1 ERROR: CHUNK NOT FOUND\n\n");
    assert_eq!(report_selector("f:1", &Err("down".to_string())), "f:1 ERROR: down\n\n");
    assert_eq!(
        report_selector("f:9", &Ok(vec![bare_chunk()])),
        "f:0 (0/0) unknown\nLines: 0-0\nType: ?\n\n\n"
    );
}

#[test]
fn view_needs_selectors() {
    let no_ids = (-32602, "Missing required parameter: ids".to_string());
    for args in ["{}", r#"{"ids":[]}"#, r#"{"ids":"f"}"#, r#"{"ids":[1,null]}"#] {
        assert_eq!(refusal(&reply(handle_view(id(1), &json(args)))), no_ids);
    }
}

#[test]
fn view_answers_every_selector() {
    let call = r#"{"name":"view_chunks","arguments":{"ids":["f:2-3",7,"g","h:x"]}}"#;
    let job = view(handle_request(request(id(8), "tools/call", Some(call)), &vec![], "main"));
    let r = job.request(&client());
    assert_eq!(r.url, "http://host/v1/view");
    assert_eq!(body(&r), r#"{"chunk_end":3,"chunk_start":2,"file_id":"f"}"#);
    let job = view(job.resume(Ok(vec![full_chunk(), bare_chunk()])));
    assert_eq!(body(&job.request(&client())), r#"{"file_id":"g"}"#);
    let job = view(job.resume(Err("View failed: HTTP 404 Not Found".to_string())));
    assert_eq!(body(&job.request(&client())), r#"{"chunk_end":1,"chunk_start":1,"file_id":"h"}"#);
    let r = reply(job.resume(Ok(vec![])));
    assert_eq!(r.id, id(8));
    assert_eq!(
        text_of(&r),
        concat_text(&[
            "f:2 (2/5) a > b\nSource: cat:p.ts\nLines: 10-12\nType: function\n\n",
            "> one\n> \n> three\n\n",
            "f:0 (0/0) unknown\nLines: 0-0\nType: ?\n\n\n",
            "g ERROR: View failed: HTTP 404 Not Found\n\n",
            "h:x ERROR: CHUNK NOT FOUND\n\n",
        ])
    );
}
