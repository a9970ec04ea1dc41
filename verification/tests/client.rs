use rush_qdrant::api_client::{
    delete_accepted, files_accepted, ingest_accepted, ingest_refusal, refusal, search_accepted,
    view_accepted, ApiClient, Chunk, HttpRequest, Method,
};
use rush_qdrant::json::Json;

/// A value as compact text, members in their order.
fn show(value: &Json) -> String {
    match value {
        Json::Null => "null".to_string(),
        Json::Bool(b) => b.to_string(),
        Json::Unsigned(n) => n.to_string(),
        Json::Signed(n) => n.to_string(),
        Json::Real(s) => s.clone(),
        Json::Text(s) => format!("{:?}", s),
        Json::List(items) => {
            let parts: Vec<String> = items.iter().map(show).collect();
            format!("[{}]", parts.join(","))
        }
        Json::Object(members) => {
            let parts: Vec<String> =
                members.iter().map(|(k, v)| format!("{:?}:{}", k, show(v))).collect();
            format!("{{{}}}", parts.join(","))
        }
    }
}

fn body(request: &HttpRequest) -> String {
    match &request.body {
        Some(b) => show(b),
        None => String::new(),
    }
}

fn client() -> ApiClient {
    ApiClient::new("https://host/api//", "secret")
}

fn chunk(n: usize, symbol: Option<&str>) -> Chunk {
    Chunk {
        catalog: "cat".to_string(),
        file_id: format!("id{}", n),
        relative_path: "src/a.ts".to_string(),
        content_hash: "sha256:00".to_string(),
        text: format!("text{}", n),
        source_uri: "file:///a".to_string(),
        source_type: "code".to_string(),
        start_line: n,
        end_line: n + 1,
        symbol_name: symbol.map(|s| s.to_string()),
        chunk_type: "fn".to_string(),
        chunk_kind: "ast".to_string(),
        breadcrumb: "a > b".to_string(),
        chunk_number: n,
        chunk_count: 2,
    }
}

#[test]
fn requests_carry_address_and_token() {
    let r = client().request(Method::Get, "/v1/x", None);
    assert_eq!(r.url, "https://host/api/v1/x");
    assert_eq!(r.bearer, Some("secret".to_string()));
    assert!(r.method == Method::Get && r.body.is_none());
    assert_eq!(ApiClient::new("///", "t").request(Method::Get, "/p", None).url, "/p");
}

#[test]
fn search_request() {
    let r = client().search("how", 5, Some("cat"), Some("main"));
    assert!(r.method == Method::Post);
    assert_eq!(r.url, "https://host/api/v1/search");
    assert_eq!(body(&r), r#"{"query":"how","limit":5,"catalog":"cat","label":"main"}"#);
    let r = client().search("how", 5, None, None);
    assert_eq!(body(&r), r#"{"query":"how","limit":5}"#);
}

#[test]
fn view_request() {
    let r = client().view("id", None, Some(2), Some(3));
    assert_eq!(r.url, "https://host/api/v1/view");
    assert_eq!(body(&r), r#"{"file_id":"id","chunk_start":2,"chunk_end":3}"#);
    let r = client().view("id", Some("c"), None, None);
    assert_eq!(body(&r), r#"{"file_id":"id","catalog":"c"}"#);
}

#[test]
fn ingest_request() {
    assert!(client().ingest(&Vec::new(), "main").is_none());
    let chunks = vec![chunk(1, Some("f")), chunk(2, None)];
    let r = client().ingest(&chunks, "dev").unwrap();
    assert_eq!(r.url, "https://host/api/v1/ingest");
    assert_eq!(
        body(&r),
        concat_text(&[
            r#"{"catalog":"cat","label":"dev","file_id":"id1","relative_path":"src/a.ts","#,
            r#""content_hash":"sha256:00","chunks":["#,
            r#"{"text":"text1","source_uri":"file:///a","source_type":"code","start_line":1,"#,
            r#""end_line":2,"symbol_name":"f","chunk_type":"fn","chunk_kind":"ast","#,
            r#""breadcrumb":"a > b","chunk_number":1,"chunk_count":2},"#,
            r#"{"text":"text2","source_uri":"file:///a","source_type":"code","start_line":2,"#,
            r#""end_line":3,"chunk_type":"fn","chunk_kind":"ast","#,
            r#""breadcrumb":"a > b","chunk_number":2,"chunk_count":2}]}"#,
        ])
    );
}

fn concat_text(parts: &[&str]) -> String {
    parts.join("")
}

#[test]
fn file_requests_are_encoded() {
    let r = client().delete_file("cat", "src/a b/\u{e9}.ts");
    assert!(r.method == Method::Delete);
    assert_eq!(r.url, "https://host/api/v1/files/cat/src%2Fa%20b%2F%C3%A9.ts");
    let r = client().get_catalog_files("my cat", Some("feature/x"));
    assert!(r.method == Method::Get);
    assert_eq!(r.url, "https://host/api/v1/files/my%20cat?label=feature%2Fx");
    let r = client().get_catalog_files("a-b_c.d~e", None);
    assert_eq!(r.url, "https://host/api/v1/files/a-b_c.d~e");
}

#[test]
fn encoded_paths_differ_where_paths_differ() {
    let a = client().delete_file("c", "a/b").url;
    let b = client().delete_file("c", "a%2Fb").url;
    assert_eq!(a, "https://host/api/v1/files/c/a%2Fb");
    assert_eq!(b, "https://host/api/v1/files/c/a%252Fb");
}

#[test]
fn statuses_decide() {
    for code in [200u16, 201, 299] {
        assert_eq!(search_accepted(code), Ok(()));
        assert_eq!(ingest_accepted(code, "\u{e9}"), Ok(()));
    }
    let err = |s: &str| Err(s.to_string());
    assert_eq!(search_accepted(199), err("Search failed: HTTP 199 <unknown status code>"));
    assert_eq!(search_accepted(300), err("Search failed: HTTP 300 Multiple Choices"));
    assert_eq!(view_accepted(404), err("View failed: HTTP 404 Not Found"));
    assert_eq!(delete_accepted(500), err("Delete failed: HTTP 500 Internal Server Error"));
    assert_eq!(files_accepted(401), err("Get files failed: HTTP 401 Unauthorized"));
    assert_eq!(ingest_accepted(400, "bad"), err("Ingest failed: HTTP 400 Bad Request - bad"));
    let long = "x".repeat(400);
    let cut = "x".repeat(300);
    assert_eq!(
        ingest_accepted(413, &long),
        Err(format!("Ingest failed: HTTP 413 Payload Too Large - {}", cut))
    );
}

#[test]
fn refusals_repeat_the_status() {
    assert_eq!(refusal("Search", "418 I'm a teapot"), "Search failed: HTTP 418 I'm a teapot");
    let long = "x".repeat(301);
    assert_eq!(
        ingest_refusal("500 Oops", &long),
        format!("Ingest failed: HTTP 500 Oops - {}", "x".repeat(300))
    );
}
