//! Requests to the hosted code index, and what its answers mean.
use vstd::prelude::*;

use crate::json;
use crate::json::{Json, JsonView};
use crate::outside;
use crate::text;
use crate::url;

verus! {

/// The method of an HTTP request.
#[derive(Clone, Copy, Debug, PartialEq, Eq, Structural)]
pub enum Method {
    Get,
    Post,
    Delete,
}

/// An HTTP request that is ready to be sent.
pub struct HttpRequest {
    pub method: Method,
    pub url: String,
    /// The token for bearer authentication.
    pub bearer: Option<String>,
    /// The value that is sent as the body.
    pub body: Option<Json>,
}

/// What an HTTP request is.
pub struct RequestView {
    pub method: Method,
    pub url: Seq<char>,
    pub bearer: Option<Seq<char>>,
    pub body: Option<JsonView>,
}

impl View for HttpRequest {
    type V = RequestView;

    open spec fn view(&self) -> RequestView {
        RequestView {
            method: self.method,
            url: self.url@,
            bearer: text::opt_string(self.bearer),
            body: match self.body {
                Some(b) => Some(b@),
                None => None,
            },
        }
    }
}

/// A chunk of a source file, ready for the index.
pub struct Chunk {
    pub catalog: String,
    /// The identifier of the file, as it is shown.
    pub file_id: String,
    pub relative_path: String,
    pub content_hash: String,
    pub text: String,
    pub source_uri: String,
    pub source_type: String,
    pub start_line: usize,
    pub end_line: usize,
    pub symbol_name: Option<String>,
    pub chunk_type: String,
    pub chunk_kind: String,
    pub breadcrumb: String,
    pub chunk_number: usize,
    pub chunk_count: usize,
}

/// What a chunk is.
pub struct ChunkView {
    pub catalog: Seq<char>,
    pub file_id: Seq<char>,
    pub relative_path: Seq<char>,
    pub content_hash: Seq<char>,
    pub text: Seq<char>,
    pub source_uri: Seq<char>,
    pub source_type: Seq<char>,
    pub start_line: usize,
    pub end_line: usize,
    pub symbol_name: Option<Seq<char>>,
    pub chunk_type: Seq<char>,
    pub chunk_kind: Seq<char>,
    pub breadcrumb: Seq<char>,
    pub chunk_number: usize,
    pub chunk_count: usize,
}

impl View for Chunk {
    type V = ChunkView;

    open spec fn view(&self) -> ChunkView {
        ChunkView {
            catalog: self.catalog@,
            file_id: self.file_id@,
            relative_path: self.relative_path@,
            content_hash: self.content_hash@,
            text: self.text@,
            source_uri: self.source_uri@,
            source_type: self.source_type@,
            start_line: self.start_line,
            end_line: self.end_line,
            symbol_name: text::opt_string(self.symbol_name),
            chunk_type: self.chunk_type@,
            chunk_kind: self.chunk_kind@,
            breadcrumb: self.breadcrumb@,
            chunk_number: self.chunk_number,
            chunk_count: self.chunk_count,
        }
    }
}

/// What some chunks are.
pub open spec fn chunks_of(chunks: Seq<Chunk>) -> Seq<ChunkView> {
    chunks.map_values(|c: Chunk| c@)
}

/// A chunk that a search found.
pub struct SearchResult {
    /// The similarity score, with three decimals.
    pub score: String,
    pub file_id: Option<String>,
    pub relative_path: Option<String>,
    pub catalog: Option<String>,
    pub breadcrumb: Option<String>,
    pub chunk_number: Option<usize>,
    pub chunk_count: Option<usize>,
    pub start_line: Option<usize>,
    pub end_line: Option<usize>,
    pub symbol_name: Option<String>,
    pub chunk_type: Option<String>,
    pub text: Option<String>,
}

/// A chunk that was asked for by its identifier.
pub struct ViewChunk {
    pub file_id: Option<String>,
    pub relative_path: Option<String>,
    pub catalog: Option<String>,
    pub breadcrumb: Option<String>,
    pub chunk_number: Option<usize>,
    pub chunk_count: Option<usize>,
    pub start_line: Option<usize>,
    pub end_line: Option<usize>,
    pub chunk_type: Option<String>,
    pub text: Option<String>,
}

/// What the index knows of a file.
pub struct FileSyncInfo {
    pub content_hash: String,
    pub file_complete: bool,
}

// ---------------------------------------------------------------------------
// Models
// ---------------------------------------------------------------------------

/// The body of a search.
pub open spec fn search_body(
    query: Seq<char>,
    limit: usize,
    catalog: Option<Seq<char>>,
    label: Option<Seq<char>>,
) -> JsonView {
    JsonView::object().plus("query"@, JsonView::Text(query)).plus(
        "limit"@,
        JsonView::Unsigned(limit as u64),
    ).plus_text("catalog"@, catalog).plus_text("label"@, label)
}

/// The body of a view of chunks.
pub open spec fn view_body(
    file_id: Seq<char>,
    catalog: Option<Seq<char>>,
    chunk_start: Option<usize>,
    chunk_end: Option<usize>,
) -> JsonView {
    JsonView::object().plus("file_id"@, JsonView::Text(file_id)).plus_text(
        "catalog"@,
        catalog,
    ).plus_number("chunk_start"@, chunk_start).plus_number("chunk_end"@, chunk_end)
}

/// How one chunk is sent.
pub open spec fn chunk_body(c: ChunkView) -> JsonView {
    JsonView::object().plus("text"@, JsonView::Text(c.text)).plus(
        "source_uri"@,
        JsonView::Text(c.source_uri),
    ).plus("source_type"@, JsonView::Text(c.source_type)).plus(
        "start_line"@,
        JsonView::Unsigned(c.start_line as u64),
    ).plus("end_line"@, JsonView::Unsigned(c.end_line as u64)).plus_text(
        "symbol_name"@,
        c.symbol_name,
    ).plus("chunk_type"@, JsonView::Text(c.chunk_type)).plus(
        "chunk_kind"@,
        JsonView::Text(c.chunk_kind),
    ).plus("breadcrumb"@, JsonView::Text(c.breadcrumb)).plus(
        "chunk_number"@,
        JsonView::Unsigned(c.chunk_number as u64),
    ).plus("chunk_count"@, JsonView::Unsigned(c.chunk_count as u64))
}

/// The body that hands the chunks of a file to the index. What belongs to the file is
/// taken from its first chunk.
pub open spec fn ingest_body(chunks: Seq<ChunkView>, label: Seq<char>) -> JsonView {
    let first = chunks[0];
    JsonView::object().plus("catalog"@, JsonView::Text(first.catalog)).plus(
        "label"@,
        JsonView::Text(label),
    ).plus("file_id"@, JsonView::Text(first.file_id)).plus(
        "relative_path"@,
        JsonView::Text(first.relative_path),
    ).plus("content_hash"@, JsonView::Text(first.content_hash)).plus(
        "chunks"@,
        JsonView::List(chunks.map_values(|c: ChunkView| chunk_body(c))),
    )
}

/// The path of a file of a catalog.
pub open spec fn file_path(catalog: Seq<char>, relative_path: Seq<char>) -> Seq<char> {
    "/v1/files/"@ + catalog + "/"@ + url::percent_text(relative_path)
}

/// The path of the files of a catalog, of one label where one is given.
pub open spec fn files_path(catalog: Seq<char>, label: Option<Seq<char>>) -> Seq<char> {
    let all = "/v1/files/"@ + url::percent_text(catalog);
    match label {
        Some(l) => all + ("?label="@ + url::percent_text(l)),
        None => all,
    }
}

/// Whether a status code means success.
pub open spec fn succeeded(status: u16) -> bool {
    200 <= status < 300
}

/// How a status code reads.
pub open spec fn status_line(status: u16) -> Seq<char> {
    text::decimal(status as nat) + " "@ + outside::status_reason(status)
}

/// What is said of a request that was refused with a status that reads `status`.
pub open spec fn failure(what: Seq<char>, status: Seq<char>) -> Seq<char> {
    what + " failed: HTTP "@ + status
}

/// What is said of chunks that were refused: the status, and the first 300 bytes of
/// what came with it.
pub open spec fn ingest_failure(status: Seq<char>, answer: Seq<char>) -> Seq<char> {
    failure("Ingest"@, status) + " - "@ + text::byte_prefix(answer, 300)
}

// ---------------------------------------------------------------------------
// The client
// ---------------------------------------------------------------------------

/// A client of the hosted index: where it is, and the token that opens it.
pub struct ApiClient {
    base_url: String,
    token: String,
}

impl ApiClient {
    /// The address that every path is appended to.
    pub closed spec fn base(&self) -> Seq<char> {
        self.base_url@
    }

    /// The token.
    pub closed spec fn secret(&self) -> Seq<char> {
        self.token@
    }

    /// A request of this client.
    pub open spec fn asks(
        &self,
        method: Method,
        path: Seq<char>,
        body: Option<JsonView>,
    ) -> RequestView {
        RequestView { method, url: self.base() + path, bearer: Some(self.secret()), body }
    }

    /// A client for an address, whose trailing slashes are dropped.
    pub fn new(base_url: &str, token: &str) -> (r: ApiClient)
        ensures
            r.base() == text::trim_back(base_url@, |c: char| c == '/'),
            r.base().len() > 0 ==> r.base().last() != '/',
            r.secret() == token@,
    {
        proof {
            text::lemma_trim_back_stops(base_url@, |c: char| c == '/');
        }
        ApiClient { base_url: text::trim_end_of(base_url, '/'), token: token.to_owned() }
    }

    /// A request for a path, with this client's token.
    pub fn request(&self, method: Method, path: &str, body: Option<Json>) -> (r: HttpRequest)
        ensures
            r@ == self.asks(
                method,
                path@,
                match body {
                    Some(b) => Some(b@),
                    None => None,
                },
            ),
    {
        let mut url = self.base_url.clone();
        url.append(path);
        HttpRequest { method, url, bearer: Some(self.token.clone()), body }
    }

    /// The request that searches the index.
    pub fn search(
        &self,
        query: &str,
        limit: usize,
        catalog: Option<&str>,
        label: Option<&str>,
    ) -> (r: HttpRequest)
        ensures
            r@ == self.asks(
                Method::Post,
                "/v1/search"@,
                Some(search_body(query@, limit, text::opt_text(catalog), text::opt_text(label))),
            ),
            r@.body is Some,
            json::member(r@.body->Some_0, "query"@) == Some(JsonView::Text(query@)),
            json::member(r@.body->Some_0, "limit"@) == Some(JsonView::Unsigned(limit as u64)),
            json::member(r@.body->Some_0, "catalog"@) == text_value(text::opt_text(catalog)),
            json::member(r@.body->Some_0, "label"@) == text_value(text::opt_text(label)),
    {
        proof {
            law_search_carries_what_is_asked(
                query@,
                limit,
                text::opt_text(catalog),
                text::opt_text(label),
            );
        }
        let body = Json::object().with("query", Json::text(query)).with(
            "limit",
            Json::unsigned(limit),
        ).with_text("catalog", catalog).with_text("label", label);
        self.request(Method::Post, "/v1/search", Some(body))
    }

    /// The request for the chunks of a file.
    pub fn view(
        &self,
        file_id: &str,
        catalog: Option<&str>,
        chunk_start: Option<usize>,
        chunk_end: Option<usize>,
    ) -> (r: HttpRequest)
        ensures
            r@ == self.asks(
                Method::Post,
                "/v1/view"@,
                Some(view_body(file_id@, text::opt_text(catalog), chunk_start, chunk_end)),
            ),
            r@.body is Some,
            json::member(r@.body->Some_0, "file_id"@) == Some(JsonView::Text(file_id@)),
            json::member(r@.body->Some_0, "catalog"@) == text_value(text::opt_text(catalog)),
            json::member(r@.body->Some_0, "chunk_start"@) == number_value(chunk_start),
            json::member(r@.body->Some_0, "chunk_end"@) == number_value(chunk_end),
    {
        proof {
            law_view_carries_what_is_asked(
                file_id@,
                text::opt_text(catalog),
                chunk_start,
                chunk_end,
            );
        }
        let body = Json::object().with("file_id", Json::text(file_id)).with_text(
            "catalog",
            catalog,
        ).with_number("chunk_start", chunk_start).with_number("chunk_end", chunk_end);
        self.request(Method::Post, "/v1/view", Some(body))
    }

    /// The request that hands the chunks of a file to the index; none where there are
    /// no chunks, of which nothing is ingested.
    pub fn ingest(&self, chunks: &Vec<Chunk>, label: &str) -> (r: Option<HttpRequest>)
        ensures
            r is None <==> chunks@.len() == 0,
            r matches Some(q) ==> q@ == self.asks(
                Method::Post,
                "/v1/ingest"@,
                Some(ingest_body(chunks_of(chunks@), label@)),
            ),
            r matches Some(q) ==> q@.body is Some && json::member(q@.body->Some_0, "label"@) == Some(
                JsonView::Text(label@),
            ) && (json::member(q@.body->Some_0, "chunks"@) matches Some(JsonView::List(items))
                && items.len() == chunks@.len() && (forall|i: int|
                0 <= i < chunks@.len() ==> tells_all_of(#[trigger] items[i], chunks@[i]@))),
    {
        if chunks.len() == 0 {
            return None;
        }
        proof {
            law_ingest_carries_every_chunk(chunks_of(chunks@), label@);
        }
        let mut list = Json::list();
        let ghost all = chunks_of(chunks@);
        let ghost bodies = all.map_values(|c: ChunkView| chunk_body(c));
        let mut i: usize = 0;
        assert(bodies.take(0) == Seq::<JsonView>::empty());
        while i < chunks.len()
            invariant
                i <= chunks@.len(),
                all == chunks_of(chunks@),
                bodies == all.map_values(|c: ChunkView| chunk_body(c)),
                list@ == JsonView::List(bodies.take(i as int)),
            decreases chunks@.len() - i,
        {
            list = list.and(chunk_json(&chunks[i]));
            assert(bodies.take(i + 1) == bodies.take(i as int).push(
                chunk_body(chunks@[i as int]@),
            ));
            i += 1;
        }
        assert(bodies.take(i as int) == bodies);
        let first = &chunks[0];
        let body = Json::object().with("catalog", Json::text(first.catalog.as_str())).with(
            "label",
            Json::text(label),
        ).with("file_id", Json::text(first.file_id.as_str())).with(
            "relative_path",
            Json::text(first.relative_path.as_str()),
        ).with("content_hash", Json::text(first.content_hash.as_str())).with("chunks", list);
        Some(self.request(Method::Post, "/v1/ingest", Some(body)))
    }

    /// The request that takes a file out of a catalog.
    pub fn delete_file(&self, catalog: &str, relative_path: &str) -> (r: HttpRequest)
        ensures
            r@ == self.asks(Method::Delete, file_path(catalog@, relative_path@), None),
    {
        let mut path = "/v1/files/".to_owned();
        path.append(catalog);
        path.append("/");
        path.append(outside::url_encode(relative_path).as_str());
        self.request(Method::Delete, path.as_str(), None)
    }

    /// The request for what the index knows of the files of a catalog.
    pub fn get_catalog_files(&self, catalog: &str, label: Option<&str>) -> (r: HttpRequest)
        ensures
            r@ == self.asks(Method::Get, files_path(catalog@, text::opt_text(label)), None),
    {
        let mut path = "/v1/files/".to_owned();
        path.append(outside::url_encode(catalog).as_str());
        if let Some(l) = label {
            let mut query = "?label=".to_owned();
            query.append(outside::url_encode(l).as_str());
            path.append(query.as_str());
        }
        self.request(Method::Get, path.as_str(), None)
    }
}

/// How one chunk is sent.
fn chunk_json(c: &Chunk) -> (r: Json)
    ensures
        r@ == chunk_body(c@),
{
    let symbol = match &c.symbol_name {
        Some(s) => Some(s.as_str()),
        None => None,
    };
    Json::object().with("text", Json::text(c.text.as_str())).with(
        "source_uri",
        Json::text(c.source_uri.as_str()),
    ).with("source_type", Json::text(c.source_type.as_str())).with(
        "start_line",
        Json::unsigned(c.start_line),
    ).with("end_line", Json::unsigned(c.end_line)).with_text("symbol_name", symbol).with(
        "chunk_type",
        Json::text(c.chunk_type.as_str()),
    ).with("chunk_kind", Json::text(c.chunk_kind.as_str())).with(
        "breadcrumb",
        Json::text(c.breadcrumb.as_str()),
    ).with("chunk_number", Json::unsigned(c.chunk_number)).with(
        "chunk_count",
        Json::unsigned(c.chunk_count),
    )
}

// ---------------------------------------------------------------------------
// Answers
// ---------------------------------------------------------------------------

/// What is said of a request that was refused with a status that reads `status`.
pub fn refusal(what: &str, status: &str) -> (r: String)
    ensures
        r@ == failure(what@, status@),
{
    let mut r = what.to_owned();
    r.append(" failed: HTTP ");
    r.append(status);
    r
}

/// What is said of chunks that were refused with a status that reads `status`. The part
/// of the answer that is repeated must end between two characters.
pub fn ingest_refusal(status: &str, answer: &str) -> (r: String)
    requires
        text::cuts_cleanly(answer@, 300),
    ensures
        r@ == ingest_failure(status@, answer@),
{
    let mut r = refusal("Ingest", status);
    r.append(" - ");
    r.append(text::cut_to_bytes(answer, 300).as_str());
    r
}

/// Whether a request was accepted.
fn accepted(what: &str, status: u16) -> (r: Result<(), String>)
    requires
        100 <= status <= 999,
    ensures
        r is Ok <==> succeeded(status),
        r matches Err(e) ==> e@ == failure(what@, status_line(status)),
{
    if outside::status_is_success(status) {
        Ok(())
    } else {
        Err(refusal(what, outside::status_text(status).as_str()))
    }
}

/// Whether a search was accepted.
pub fn search_accepted(status: u16) -> (r: Result<(), String>)
    requires
        100 <= status <= 999,
    ensures
        r is Ok <==> succeeded(status),
        r matches Err(e) ==> e@ == failure("Search"@, status_line(status)),
{
    accepted("Search", status)
}

/// Whether a view of chunks was accepted.
pub fn view_accepted(status: u16) -> (r: Result<(), String>)
    requires
        100 <= status <= 999,
    ensures
        r is Ok <==> succeeded(status),
        r matches Err(e) ==> e@ == failure("View"@, status_line(status)),
{
    accepted("View", status)
}

/// Whether a deletion was accepted.
pub fn delete_accepted(status: u16) -> (r: Result<(), String>)
    requires
        100 <= status <= 999,
    ensures
        r is Ok <==> succeeded(status),
        r matches Err(e) ==> e@ == failure("Delete"@, status_line(status)),
{
    accepted("Delete", status)
}

/// Whether the files of a catalog were given.
pub fn files_accepted(status: u16) -> (r: Result<(), String>)
    requires
        100 <= status <= 999,
    ensures
        r is Ok <==> succeeded(status),
        r matches Err(e) ==> e@ == failure("Get files"@, status_line(status)),
{
    accepted("Get files", status)
}

/// Whether chunks were accepted. `answer` is the text that came with the status; the
/// part of it that is repeated must end between two characters.
pub fn ingest_accepted(status: u16, answer: &str) -> (r: Result<(), String>)
    requires
        100 <= status <= 999,
        !succeeded(status) ==> text::cuts_cleanly(answer@, 300),
    ensures
        r is Ok <==> succeeded(status),
        r matches Err(e) ==> e@ == ingest_failure(status_line(status), answer@),
{
    if outside::status_is_success(status) {
        return Ok(());
    }
    Err(ingest_refusal(outside::status_text(status).as_str(), answer))
}

// ---------------------------------------------------------------------------
// Laws
// ---------------------------------------------------------------------------

/// Requests to delete two files of a catalog go to different addresses.
pub proof fn law_files_have_their_own_address(
    client: ApiClient,
    catalog: Seq<char>,
    a: Seq<char>,
    b: Seq<char>,
)
    requires
        client.asks(Method::Delete, file_path(catalog, a), None).url == client.asks(
            Method::Delete,
            file_path(catalog, b),
            None,
        ).url,
    ensures
        a == b,
{
    let front = client.base() + ("/v1/files/"@ + catalog + "/"@);
    let x = url::percent_text(a);
    let y = url::percent_text(b);
    assert(client.base() + file_path(catalog, a) == front + x);
    assert(client.base() + file_path(catalog, b) == front + y);
    assert((front + x).skip(front.len() as int) == x);
    assert((front + y).skip(front.len() as int) == y);
    url::law_encoding_is_injective(a, b);
}

/// A search is asked for with its query, its limit, and the catalog and the label where
/// they are given, and with nothing else.
pub proof fn law_search_carries_what_is_asked(
    query: Seq<char>,
    limit: usize,
    catalog: Option<Seq<char>>,
    label: Option<Seq<char>>,
)
    ensures
        ({
            let body = search_body(query, limit, catalog, label);
            &&& json::member(body, "query"@) == Some(JsonView::Text(query))
            &&& json::member(body, "limit"@) == Some(JsonView::Unsigned(limit as u64))
            &&& json::member(body, "catalog"@) == text_value(catalog)
            &&& json::member(body, "label"@) == text_value(label)
            &&& body is Object
            &&& body->Object_0.len() == 2 + given(catalog is Some) + given(label is Some)
        }),
{
    lemma_names_differ();
    let body = search_body(query, limit, catalog, label);
    let members = body->Object_0;
    json::lemma_member_at(members, 0);
    json::lemma_member_at(members, 1);
    if catalog is Some {
        json::lemma_member_at(members, 2);
    } else {
        json::lemma_no_member(members, "catalog"@);
    }
    if label is Some {
        json::lemma_member_at(members, members.len() - 1);
    } else {
        json::lemma_no_member(members, "label"@);
    }
}

/// A view is asked for with the file, and with the catalog and the chunks where they are
/// given, and with nothing else.
pub proof fn law_view_carries_what_is_asked(
    file_id: Seq<char>,
    catalog: Option<Seq<char>>,
    chunk_start: Option<usize>,
    chunk_end: Option<usize>,
)
    ensures
        ({
            let body = view_body(file_id, catalog, chunk_start, chunk_end);
            &&& json::member(body, "file_id"@) == Some(JsonView::Text(file_id))
            &&& json::member(body, "catalog"@) == text_value(catalog)
            &&& json::member(body, "chunk_start"@) == number_value(chunk_start)
            &&& json::member(body, "chunk_end"@) == number_value(chunk_end)
            &&& body is Object
            &&& body->Object_0.len() == 1 + given(catalog is Some) + given(chunk_start is Some)
                + given(chunk_end is Some)
        }),
{
    lemma_names_differ();
    let body = view_body(file_id, catalog, chunk_start, chunk_end);
    let members = body->Object_0;
    json::lemma_member_at(members, 0);
    if catalog is Some {
        json::lemma_member_at(members, 1);
    } else {
        json::lemma_no_member(members, "catalog"@);
    }
    if chunk_start is Some {
        json::lemma_member_at(members, 1 + given(catalog is Some));
    } else {
        json::lemma_no_member(members, "chunk_start"@);
    }
    if chunk_end is Some {
        json::lemma_member_at(members, members.len() - 1);
    } else {
        json::lemma_no_member(members, "chunk_end"@);
    }
}

/// A text as a value, where there is one.
pub open spec fn text_value(s: Option<Seq<char>>) -> Option<JsonView> {
    match s {
        Some(t) => Some(JsonView::Text(t)),
        None => None,
    }
}

/// A number as a value, where there is one.
pub open spec fn number_value(n: Option<usize>) -> Option<JsonView> {
    match n {
        Some(v) => Some(JsonView::Unsigned(v as u64)),
        None => None,
    }
}

/// One for what is given, else zero.
pub open spec fn given(b: bool) -> int {
    if b {
        1
    } else {
        0
    }
}

/// Whether `item` is an object that tells each thing of a chunk under its own name, and
/// nothing else.
pub open spec fn tells_all_of(item: JsonView, c: ChunkView) -> bool {
    &&& json::member(item, "text"@) == Some(JsonView::Text(c.text))
    &&& json::member(item, "source_uri"@) == Some(JsonView::Text(c.source_uri))
    &&& json::member(item, "source_type"@) == Some(JsonView::Text(c.source_type))
    &&& json::member(item, "start_line"@) == Some(JsonView::Unsigned(c.start_line as u64))
    &&& json::member(item, "end_line"@) == Some(JsonView::Unsigned(c.end_line as u64))
    &&& json::member(item, "symbol_name"@) == text_value(c.symbol_name)
    &&& json::member(item, "chunk_type"@) == Some(JsonView::Text(c.chunk_type))
    &&& json::member(item, "chunk_kind"@) == Some(JsonView::Text(c.chunk_kind))
    &&& json::member(item, "breadcrumb"@) == Some(JsonView::Text(c.breadcrumb))
    &&& json::member(item, "chunk_number"@) == Some(JsonView::Unsigned(c.chunk_number as u64))
    &&& json::member(item, "chunk_count"@) == Some(JsonView::Unsigned(c.chunk_count as u64))
    &&& item is Object
    &&& item->Object_0.len() == 10 + given(c.symbol_name is Some)
}

/// The chunks of a file are handed over one for one, in their order, each with all that
/// there is to tell of it; with them go the label and, from the first of them, what
/// belongs to the file.
pub proof fn law_ingest_carries_every_chunk(chunks: Seq<ChunkView>, label: Seq<char>)
    requires
        chunks.len() > 0,
    ensures
        ({
            let body = ingest_body(chunks, label);
            &&& json::member(body, "catalog"@) == Some(JsonView::Text(chunks[0].catalog))
            &&& json::member(body, "label"@) == Some(JsonView::Text(label))
            &&& json::member(body, "file_id"@) == Some(JsonView::Text(chunks[0].file_id))
            &&& json::member(body, "relative_path"@) == Some(
                JsonView::Text(chunks[0].relative_path),
            )
            &&& json::member(body, "content_hash"@) == Some(JsonView::Text(chunks[0].content_hash))
            &&& json::member(body, "chunks"@) matches Some(JsonView::List(items)) && items.len()
                == chunks.len() && (forall|i: int|
                0 <= i < chunks.len() ==> tells_all_of(#[trigger] items[i], chunks[i]))
            &&& body is Object
            &&& body->Object_0.len() == 6
        }),
{
    lemma_names_differ();
    let members = ingest_body(chunks, label)->Object_0;
    json::lemma_member_at(members, 0);
    json::lemma_member_at(members, 1);
    json::lemma_member_at(members, 2);
    json::lemma_member_at(members, 3);
    json::lemma_member_at(members, 4);
    json::lemma_member_at(members, 5);
    let items = members[5].1->List_0;
    assert forall|i: int| 0 <= i < chunks.len() implies tells_all_of(
        #[trigger] items[i],
        chunks[i],
    ) by {
        lemma_chunk_is_told(chunks[i]);
    }
}

proof fn lemma_chunk_is_told(c: ChunkView)
    ensures
        tells_all_of(chunk_body(c), c),
{
    lemma_names_differ();
    let members = chunk_body(c)->Object_0;
    let shift = given(c.symbol_name is Some);
    json::lemma_member_at(members, 0);
    json::lemma_member_at(members, 1);
    json::lemma_member_at(members, 2);
    json::lemma_member_at(members, 3);
    json::lemma_member_at(members, 4);
    if c.symbol_name is Some {
        json::lemma_member_at(members, 5);
    } else {
        json::lemma_no_member(members, "symbol_name"@);
    }
    json::lemma_member_at(members, 5 + shift);
    json::lemma_member_at(members, 6 + shift);
    json::lemma_member_at(members, 7 + shift);
    json::lemma_member_at(members, 8 + shift);
    json::lemma_member_at(members, 9 + shift);
}

/// The names of the members differ.
proof fn lemma_names_differ()
    ensures
        "query"@ != "limit"@,
        "query"@ != "catalog"@,
        "query"@ != "label"@,
        "limit"@ != "catalog"@,
        "limit"@ != "label"@,
        "catalog"@ != "label"@,
        "file_id"@ != "catalog"@,
        "file_id"@ != "chunk_start"@,
        "file_id"@ != "chunk_end"@,
        "catalog"@ != "chunk_start"@,
        "catalog"@ != "chunk_end"@,
        "chunk_start"@ != "chunk_end"@,
        "text"@ != "source_uri"@,
        "text"@ != "source_type"@,
        "text"@ != "start_line"@,
        "text"@ != "end_line"@,
        "text"@ != "symbol_name"@,
        "text"@ != "chunk_type"@,
        "text"@ != "chunk_kind"@,
        "text"@ != "breadcrumb"@,
        "text"@ != "chunk_number"@,
        "text"@ != "chunk_count"@,
        "source_uri"@ != "source_type"@,
        "source_uri"@ != "start_line"@,
        "source_uri"@ != "end_line"@,
        "source_uri"@ != "symbol_name"@,
        "source_uri"@ != "chunk_type"@,
        "source_uri"@ != "chunk_kind"@,
        "source_uri"@ != "breadcrumb"@,
        "source_uri"@ != "chunk_number"@,
        "source_uri"@ != "chunk_count"@,
        "source_type"@ != "start_line"@,
        "source_type"@ != "end_line"@,
        "source_type"@ != "symbol_name"@,
        "source_type"@ != "chunk_type"@,
        "source_type"@ != "chunk_kind"@,
        "source_type"@ != "breadcrumb"@,
        "source_type"@ != "chunk_number"@,
        "source_type"@ != "chunk_count"@,
        "start_line"@ != "end_line"@,
        "start_line"@ != "symbol_name"@,
        "start_line"@ != "chunk_type"@,
        "start_line"@ != "chunk_kind"@,
        "start_line"@ != "breadcrumb"@,
        "start_line"@ != "chunk_number"@,
        "start_line"@ != "chunk_count"@,
        "end_line"@ != "symbol_name"@,
        "end_line"@ != "chunk_type"@,
        "end_line"@ != "chunk_kind"@,
        "end_line"@ != "breadcrumb"@,
        "end_line"@ != "chunk_number"@,
        "end_line"@ != "chunk_count"@,
        "symbol_name"@ != "chunk_type"@,
        "symbol_name"@ != "chunk_kind"@,
        "symbol_name"@ != "breadcrumb"@,
        "symbol_name"@ != "chunk_number"@,
        "symbol_name"@ != "chunk_count"@,
        "chunk_type"@ != "chunk_kind"@,
        "chunk_type"@ != "breadcrumb"@,
        "chunk_type"@ != "chunk_number"@,
        "chunk_type"@ != "chunk_count"@,
        "chunk_kind"@ != "breadcrumb"@,
        "chunk_kind"@ != "chunk_number"@,
        "chunk_kind"@ != "chunk_count"@,
        "breadcrumb"@ != "chunk_number"@,
        "breadcrumb"@ != "chunk_count"@,
        "chunk_number"@ != "chunk_count"@,
        "catalog"@ != "file_id"@,
        "catalog"@ != "relative_path"@,
        "catalog"@ != "content_hash"@,
        "catalog"@ != "chunks"@,
        "label"@ != "file_id"@,
        "label"@ != "relative_path"@,
        "label"@ != "content_hash"@,
        "label"@ != "chunks"@,
        "file_id"@ != "relative_path"@,
        "file_id"@ != "content_hash"@,
        "file_id"@ != "chunks"@,
        "relative_path"@ != "content_hash"@,
        "relative_path"@ != "chunks"@,
        "content_hash"@ != "chunks"@,
{
    reveal_strlit("query");
    reveal_strlit("limit");
    reveal_strlit("catalog");
    reveal_strlit("label");
    reveal_strlit("file_id");
    reveal_strlit("chunk_start");
    reveal_strlit("chunk_end");
    reveal_strlit("text");
    reveal_strlit("source_uri");
    reveal_strlit("source_type");
    reveal_strlit("start_line");
    reveal_strlit("end_line");
    reveal_strlit("symbol_name");
    reveal_strlit("chunk_type");
    reveal_strlit("chunk_kind");
    reveal_strlit("breadcrumb");
    reveal_strlit("chunk_number");
    reveal_strlit("chunk_count");
    reveal_strlit("relative_path");
    reveal_strlit("content_hash");
    reveal_strlit("chunks");
    assert("query"@[0] != "limit"@[0]);
    assert("query"@[0] != "label"@[0]);
    assert("limit"@[1] != "label"@[1]);
    assert("file_id"@[0] != "catalog"@[0]);
    assert("source_uri"@[1] != "start_line"@[1]);
    assert("source_uri"@[0] != "chunk_type"@[0]);
    assert("source_uri"@[0] != "chunk_kind"@[0]);
    assert("source_uri"@[0] != "breadcrumb"@[0]);
    assert("source_type"@[1] != "symbol_name"@[1]);
    assert("source_type"@[0] != "chunk_count"@[0]);
    assert("start_line"@[0] != "chunk_type"@[0]);
    assert("start_line"@[0] != "chunk_kind"@[0]);
    assert("start_line"@[0] != "breadcrumb"@[0]);
    assert("symbol_name"@[0] != "chunk_count"@[0]);
    assert("chunk_type"@[6] != "chunk_kind"@[6]);
    assert("chunk_type"@[0] != "breadcrumb"@[0]);
    assert("chunk_kind"@[0] != "breadcrumb"@[0]);
    assert("catalog"@[0] != "file_id"@[0]);
    assert("breadcrumb"@.len() == 10);
    assert("catalog"@.len() == 7);
    assert("chunk_count"@.len() == 11);
    assert("chunk_end"@.len() == 9);
    assert("chunk_kind"@.len() == 10);
    assert("chunk_number"@.len() == 12);
    assert("chunk_start"@.len() == 11);
    assert("chunk_type"@.len() == 10);
    assert("chunks"@.len() == 6);
    assert("content_hash"@.len() == 12);
    assert("end_line"@.len() == 8);
    assert("file_id"@.len() == 7);
    assert("label"@.len() == 5);
    assert("limit"@.len() == 5);
    assert("query"@.len() == 5);
    assert("relative_path"@.len() == 13);
    assert("source_type"@.len() == 11);
    assert("source_uri"@.len() == 10);
    assert("start_line"@.len() == 10);
    assert("symbol_name"@.len() == 11);
    assert("text"@.len() == 4);
}

/// What belongs to the view of a chunk is what belongs to the chunk, field by field, and
/// the views of some chunks are those of each.
pub proof fn law_chunks_are_viewed_as_they_are(chunks: Seq<Chunk>, i: int)
    requires
        0 <= i < chunks.len(),
    ensures
        chunks_of(chunks).len() == chunks.len(),
        ({
            let c = chunks[i];
            let v = chunks_of(chunks)[i];
            &&& v.catalog == c.catalog@ && v.file_id == c.file_id@
            &&& v.relative_path == c.relative_path@ && v.content_hash == c.content_hash@
            &&& v.text == c.text@ && v.source_uri == c.source_uri@
            &&& v.source_type == c.source_type@
            &&& v.start_line == c.start_line && v.end_line == c.end_line
            &&& v.symbol_name == match c.symbol_name {
                Some(s) => Some(s@),
                None => None,
            }
            &&& v.chunk_type == c.chunk_type@ && v.chunk_kind == c.chunk_kind@
            &&& v.breadcrumb == c.breadcrumb@
            &&& v.chunk_number == c.chunk_number && v.chunk_count == c.chunk_count
        }),
{
}

/// The address of a file ends in its path, encoded as one segment, behind the catalog; the
/// address of a catalog's files ends in the catalog, encoded as one segment, or behind
/// that in the label, encoded too.
pub proof fn law_paths_end_in_encoded_segments(
    catalog: Seq<char>,
    path: Seq<char>,
    label: Seq<char>,
)
    ensures
        text::after_last(file_path(catalog, path), '/') == url::percent_text(path),
        text::before_last(file_path(catalog, path), '/') == "/v1/files/"@ + catalog,
        text::after_last(files_path(catalog, None), '/') == url::percent_text(catalog),
        text::before_last(files_path(catalog, None), '/') == "/v1/files"@,
        text::before_last(files_path(catalog, Some(label)), '?') == files_path(catalog, None),
        text::after_last(files_path(catalog, Some(label)), '?') == "label="@ + url::percent_text(
            label,
        ),
{
    reveal_strlit("/v1/files/");
    reveal_strlit("/v1/files");
    reveal_strlit("/");
    reveal_strlit("?label=");
    reveal_strlit("label=");
    url::law_encoding_stays_in_segment(path);
    url::law_encoding_stays_in_segment(catalog);
    url::law_encoding_stays_in_segment(label);
    let front = "/v1/files/"@ + catalog;
    text::law_parts_at_the_last(front, '/', url::percent_text(path));
    assert(file_path(catalog, path) == front.push('/') + url::percent_text(path));
    text::law_parts_at_the_last("/v1/files"@, '/', url::percent_text(catalog));
    let all = files_path(catalog, None);
    assert(all == "/v1/files"@.push('/') + url::percent_text(catalog));
    let tail = "label="@ + url::percent_text(label);
    assert forall|i: int| 0 <= i < tail.len() implies tail[i] != '?' by {
        if i >= 6 {
            assert(tail[i] == url::percent_text(label)[i - 6]);
            assert(url::percent_text(label).contains(url::percent_text(label)[i - 6]));
        }
    }
    text::law_parts_at_the_last(all, '?', tail);
    assert(files_path(catalog, Some(label)) == all.push('?') + tail);
}

/// Every request of a client goes to its address and carries its token.
pub proof fn law_requests_are_the_clients(
    client: ApiClient,
    method: Method,
    path: Seq<char>,
    body: Option<JsonView>,
)
    ensures
        ({
            let r = client.asks(method, path, body);
            &&& r.method == method && r.url == client.base() + path
            &&& r.bearer == Some(client.secret()) && r.body == body
        }),
{
}

/// The codes of success are those whose first digit of three is a two.
pub proof fn law_success_is_two_hundred(status: u16)
    ensures
        succeeded(status) <==> status / 100 == 2,
{
}

/// What is said of a refusal ends in the status as it reads. Of chunks that were refused
/// it ends in what came with the status, as many bytes of it as three hundred: all of it
/// where there are no more.
pub proof fn law_refusals_repeat_what_came(
    what: Seq<char>,
    status: Seq<char>,
    answer: Seq<char>,
)
    requires
        text::cuts_cleanly(answer, 300),
    ensures
        failure(what, status) == what + " failed: HTTP "@ + status,
        failure("Ingest"@, status).is_prefix_of(ingest_failure(status, answer)),
        ({
            let repeated = ingest_failure(status, answer).skip(
                failure("Ingest"@, status).len() as int + 3,
            );
            &&& repeated.is_prefix_of(answer)
            &&& vstd::utf8::encode_utf8(answer).len() <= 300 ==> repeated == answer
            &&& vstd::utf8::encode_utf8(answer).len() >= 300 ==> vstd::utf8::encode_utf8(
                repeated,
            ).len() == 300
        }),
{
    text::law_first_bytes(answer, 300);
    reveal_strlit(" - ");
    let head = failure("Ingest"@, status);
    let all = ingest_failure(status, answer);
    assert(all.subrange(0, head.len() as int) == head);
    assert(all.skip(head.len() as int + 3) == text::byte_prefix(answer, 300));
}

/// A request is viewed as it is.
pub proof fn law_requests_are_viewed_as_they_are(r: HttpRequest)
    ensures
        r@.method == r.method && r@.url == r.url@,
        r@.bearer is Some <==> r.bearer is Some,
        r.bearer matches Some(t) ==> r@.bearer == Some(t@),
        r@.body is Some <==> r.body is Some,
        r.body matches Some(b) ==> r@.body == Some(b@),
{
}

} // verus!
