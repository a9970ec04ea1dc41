//! The dialogue on standard input and output.
//!
//! A request leads to a [`Step`]. A step that asks the index for something is resumed
//! with what the index gave, until an answer is ready or there is none to give.
use vstd::prelude::*;

use crate::api_client;
use crate::api_client::{ApiClient, HttpRequest, SearchResult, ViewChunk};
use crate::describe;
use crate::describe::{handle_initialize, handle_tools_list};
use crate::json;
use crate::json::{Json, JsonView};
use crate::protocol;
use crate::protocol::{error, success, text_result, JsonRpcRequest, JsonRpcResponse, ResponseView};
use crate::report;
use crate::selector;
use crate::text;

verus! {

/// What comes next.
pub enum Step {
    /// Nothing is answered.
    Silent,
    /// This is answered.
    Reply(JsonRpcResponse),
    /// The index is searched; the outcome goes to [`SearchJob::resume`].
    Search(SearchJob),
    /// The index is asked for chunks; the outcome goes to [`ViewJob::resume`].
    View(ViewJob),
}

/// A search under way.
pub struct SearchJob {
    pub id: Option<serde_json::Value>,
    pub query: String,
    pub limit: usize,
    pub catalog: Option<String>,
    /// The branch that is searched.
    pub label: String,
}

/// A view of chunks under way: some selectors have been answered, at least one has not.
pub struct ViewJob {
    id: Option<serde_json::Value>,
    specs: Vec<String>,
    answered: usize,
    output: String,
}

/// What a step is.
pub enum StepView {
    Silent,
    Reply(ResponseView),
    Search(SearchView),
    View(SelectionView),
}

/// What a search under way is.
pub struct SearchView {
    pub id: Option<serde_json::Value>,
    pub query: Seq<char>,
    pub limit: usize,
    pub catalog: Option<Seq<char>>,
    pub label: Seq<char>,
}

/// What a view of chunks under way is.
pub struct SelectionView {
    pub id: Option<serde_json::Value>,
    pub specs: Seq<Seq<char>>,
    pub answered: int,
    pub output: Seq<char>,
}

impl View for SearchJob {
    type V = SearchView;

    open spec fn view(&self) -> SearchView {
        SearchView {
            id: self.id,
            query: self.query@,
            limit: self.limit,
            catalog: text::opt_string(self.catalog),
            label: self.label@,
        }
    }
}

impl View for ViewJob {
    type V = SelectionView;

    closed spec fn view(&self) -> SelectionView {
        SelectionView {
            id: self.id,
            specs: self.specs@.map_values(|s: String| s@),
            answered: self.answered as int,
            output: self.output@,
        }
    }
}

impl View for Step {
    type V = StepView;

    open spec fn view(&self) -> StepView {
        match self {
            Step::Silent => StepView::Silent,
            Step::Reply(r) => StepView::Reply(r@),
            Step::Search(job) => StepView::Search(job@),
            Step::View(job) => StepView::View(job@),
        }
    }
}

// ---------------------------------------------------------------------------
// Models
// ---------------------------------------------------------------------------

/// What a call of the search tool leads to: a search of the current branch, or a
/// refusal where there is no query.
pub open spec fn search_called(
    id: Option<serde_json::Value>,
    args: JsonView,
    label: Seq<char>,
) -> StepView {
    let query = match json::text_in(json::member(args, "query"@)) {
        Some(q) => q,
        None => Seq::empty(),
    };
    let limit = match json::unsigned_in(json::member(args, "limit"@)) {
        Some(n) => n as usize,
        None => 10usize,
    };
    if query.len() == 0 {
        StepView::Reply(protocol::refused(id, -32602, "Missing required parameter: query"@))
    } else {
        StepView::Search(
            SearchView {
                id,
                query,
                limit,
                catalog: json::text_in(json::member(args, "catalog"@)),
                label,
            },
        )
    }
}

/// What a search leads to: a search of the main branch where another branch gave
/// nothing, else the report.
pub open spec fn search_resumed(job: SearchView, found: Seq<SearchResult>) -> StepView {
    if found.len() == 0 && job.label != "main"@ {
        StepView::Search(SearchView { label: "main"@, ..job })
    } else {
        StepView::Reply(
            protocol::served(job.id, protocol::text_content(report::search_report(found))),
        )
    }
}

/// What a search found; nothing where it failed.
pub open spec fn found_in(outcome: Result<Vec<SearchResult>, String>) -> Seq<SearchResult> {
    match outcome {
        Ok(results) => results@,
        Err(_) => Seq::empty(),
    }
}

/// What a call of the view tool leads to: a view of each selector in turn, or a
/// refusal where there is none.
pub open spec fn view_called(id: Option<serde_json::Value>, args: JsonView) -> StepView {
    let specs = json::texts_in(json::member(args, "ids"@));
    if specs.len() == 0 {
        StepView::Reply(protocol::refused(id, -32602, "Missing required parameter: ids"@))
    } else {
        StepView::View(SelectionView { id, specs, answered: 0, output: Seq::empty() })
    }
}

/// What the chunks of one selector lead to: the next selector, or the answer.
pub open spec fn view_resumed(
    job: SelectionView,
    outcome: Result<Seq<ViewChunk>, Seq<char>>,
) -> StepView {
    let output = job.output + report::selector_report(job.specs[job.answered], outcome);
    if job.answered + 1 == job.specs.len() {
        StepView::Reply(protocol::served(job.id, protocol::text_content(output)))
    } else {
        StepView::View(SelectionView { answered: job.answered + 1, output, ..job })
    }
}

/// What a call of a tool leads to.
pub open spec fn tool_called(
    id: Option<serde_json::Value>,
    params: Option<JsonView>,
    label: Seq<char>,
) -> StepView {
    let given = match params {
        Some(p) => p,
        None => JsonView::object(),
    };
    let name = match json::text_in(json::member(given, "name"@)) {
        Some(n) => n,
        None => Seq::empty(),
    };
    let args = match json::member(given, "arguments"@) {
        Some(a) => a,
        None => JsonView::object(),
    };
    if name == "semantic_search"@ {
        search_called(id, args, label)
    } else if name == "view_chunks"@ {
        view_called(id, args)
    } else {
        StepView::Reply(protocol::refused(id, -32601, "Unknown tool: "@ + name))
    }
}

/// What a request leads to.
pub open spec fn requested(
    req: JsonRpcRequest,
    catalogs: Seq<Seq<char>>,
    label: Seq<char>,
) -> StepView {
    if req.method@ == "initialize"@ {
        StepView::Reply(protocol::served(req.id, describe::server_description()))
    } else if req.method@ == "notifications/initialized"@ {
        StepView::Silent
    } else if req.method@ == "tools/list"@ {
        StepView::Reply(protocol::served(req.id, describe::tools_description(catalogs)))
    } else if req.method@ == "tools/call"@ {
        tool_called(
            req.id,
            match req.params {
                Some(p) => Some(p@),
                None => None,
            },
            label,
        )
    } else if req.id is Some {
        StepView::Reply(protocol::refused(req.id, -32601, "Method not found: "@ + req.method@))
    } else {
        StepView::Silent
    }
}

// ---------------------------------------------------------------------------
// Lines
// ---------------------------------------------------------------------------

/// The message that a line holds; none where the line is blank.
pub fn message_in(line: &str) -> (r: Option<String>)
    ensures
        r is None <==> text::trimmed(line@).len() == 0,
        r matches Some(m) ==> m@ == text::trimmed(line@),
{
    let message = text::trim(line);
    if message.as_str().is_empty() {
        None
    } else {
        Some(message)
    }
}

/// The answer to a line that is no request. `reason` says what is wrong with it.
pub fn parse_failure(reason: &str) -> (r: JsonRpcResponse)
    ensures
        r@ == protocol::refused(None, -32700, "Parse error: "@ + reason@),
{
    let mut message = "Parse error: ".to_owned();
    message.append(reason);
    error(None, -32700, message)
}

// ---------------------------------------------------------------------------
// Requests
// ---------------------------------------------------------------------------

/// Begins the search that a call of the search tool asks for.
pub fn handle_search(id: Option<serde_json::Value>, args: &Json, label: &str) -> (r: Step)
    ensures
        r@ == search_called(id, args@, label@),
{
    let query = match args.get("query") {
        Some(v) => match v.as_text() {
            Some(s) => s.to_owned(),
            None => String::new(),
        },
        None => String::new(),
    };
    let limit: usize = match args.get("limit") {
        Some(v) => match v.as_u64() {
            Some(n) => n as usize,
            None => 10,
        },
        None => 10,
    };
    let catalog = match args.get("catalog") {
        Some(v) => match v.as_text() {
            Some(s) => Some(s.to_owned()),
            None => None,
        },
        None => None,
    };
    if query.as_str().is_empty() {
        return Step::Reply(error(id, -32602, "Missing required parameter: query".to_owned()));
    }
    Step::Search(SearchJob { id, query, limit, catalog, label: label.to_owned() })
}

impl SearchJob {
    /// The request that this search makes.
    pub fn request(&self, client: &ApiClient) -> (r: HttpRequest)
        ensures
            r@ == client.asks(
                api_client::Method::Post,
                "/v1/search"@,
                Some(
                    api_client::search_body(
                        self@.query,
                        self@.limit,
                        self@.catalog,
                        Some(self@.label),
                    ),
                ),
            ),
    {
        let catalog = match &self.catalog {
            Some(c) => Some(c.as_str()),
            None => None,
        };
        client.search(self.query.as_str(), self.limit, catalog, Some(self.label.as_str()))
    }

    /// Goes on with what the search found. A search that failed found nothing.
    pub fn resume(self, outcome: Result<Vec<SearchResult>, String>) -> (r: Step)
        ensures
            r@ == search_resumed(self@, found_in(outcome)),
            r matches Step::Search(next) ==> next.id == self.id && next.query@ == self.query@
                && next.limit == self.limit && next@.catalog == self@.catalog && next.label@
                == "main"@,
    {
        let results = match outcome {
            Ok(found) => found,
            Err(_) => Vec::new(),
        };
        if results.len() == 0 && !text::same_text(self.label.as_str(), "main") {
            return Step::Search(
                SearchJob {
                    id: self.id,
                    query: self.query,
                    limit: self.limit,
                    catalog: self.catalog,
                    label: "main".to_owned(),
                },
            );
        }
        let output = report::report_search(&results);
        Step::Reply(success(self.id, text_result(output.as_str())))
    }
}

/// Begins the view that a call of the view tool asks for.
pub fn handle_view(id: Option<serde_json::Value>, args: &Json) -> (r: Step)
    ensures
        r@ == view_called(id, args@),
{
    let specs = match args.get("ids") {
        Some(v) => v.texts(),
        None => Vec::new(),
    };
    assert(specs@.map_values(|s: String| s@) == json::texts_in(json::member(args@, "ids"@)));
    if specs.len() == 0 {
        return Step::Reply(error(id, -32602, "Missing required parameter: ids".to_owned()));
    }
    Step::View(ViewJob { id, specs, answered: 0, output: String::new() })
}

impl ViewJob {
    /// There is a selector that has not been answered.
    #[verifier::type_invariant]
    spec fn wf(&self) -> bool {
        self.answered < self.specs@.len()
    }

    /// The request for the chunks of the first selector that has not been answered.
    pub fn request(&self, client: &ApiClient) -> (r: HttpRequest)
        ensures
            0 <= self@.answered < self@.specs.len(),
            r@ == {
                let (file_id, start, end) = selector::selected(self@.specs[self@.answered]);
                client.asks(
                    api_client::Method::Post,
                    "/v1/view"@,
                    Some(api_client::view_body(file_id, None, start, end)),
                )
            },
    {
        proof {
            use_type_invariant(self);
        }
        let (file_id, start, end) = selector::parse_view_selector(
            self.specs[self.answered].as_str(),
        );
        client.view(file_id.as_str(), None, start, end)
    }

    /// Goes on with the chunks of that selector, or with why they could not be had.
    pub fn resume(self, outcome: Result<Vec<ViewChunk>, String>) -> (r: Step)
        ensures
            0 <= self@.answered < self@.specs.len(),
            r@ == view_resumed(self@, report::view_of_chunks(outcome)),
    {
        proof {
            use_type_invariant(&self);
        }
        let ViewJob { id, specs, answered, output } = self;
        let mut text_so_far = output;
        text_so_far.append(
            report::report_selector(specs[answered].as_str(), &outcome).as_str(),
        );
        let total: usize = specs.len();
        let next: usize = answered + 1;
        if next == total {
            Step::Reply(success(id, text_result(text_so_far.as_str())))
        } else {
            Step::View(ViewJob { id, specs, answered: next, output: text_so_far })
        }
    }
}

/// Answers a call of a tool, or begins to.
fn handle_tool_call(id: Option<serde_json::Value>, params: &Json, label: &str) -> (r: Step)
    ensures
        r@ == tool_called(id, Some(params@), label@),
{
    let name = match params.get("name") {
        Some(v) => match v.as_text() {
            Some(s) => s.to_owned(),
            None => String::new(),
        },
        None => String::new(),
    };
    let nothing = Json::object();
    let args = match params.get("arguments") {
        Some(a) => a,
        None => &nothing,
    };
    if text::same_text(name.as_str(), "semantic_search") {
        handle_search(id, args, label)
    } else if text::same_text(name.as_str(), "view_chunks") {
        handle_view(id, args)
    } else {
        let mut message = "Unknown tool: ".to_owned();
        message.append(name.as_str());
        Step::Reply(error(id, -32601, message))
    }
}

/// Answers a request, or begins to.
pub fn handle_request(req: JsonRpcRequest, catalogs: &Vec<String>, label: &str) -> (r: Step)
    ensures
        r@ == requested(req, catalogs@.map_values(|c: String| c@), label@),
{
    let method = req.method.as_str();
    if text::same_text(method, "initialize") {
        Step::Reply(handle_initialize(req.id))
    } else if text::same_text(method, "notifications/initialized") {
        Step::Silent
    } else if text::same_text(method, "tools/list") {
        Step::Reply(handle_tools_list(req.id, catalogs))
    } else if text::same_text(method, "tools/call") {
        let params = match req.params {
            Some(p) => p,
            None => Json::object(),
        };
        handle_tool_call(req.id, &params, label)
    } else if req.id.is_some() {
        let mut message = "Method not found: ".to_owned();
        message.append(method);
        Step::Reply(error(req.id, -32601, message))
    } else {
        Step::Silent
    }
}

// ---------------------------------------------------------------------------
// Laws
// ---------------------------------------------------------------------------

/// What the index gave.
pub enum Outcome {
    Searched(Seq<SearchResult>),
    Viewed(Result<Seq<ViewChunk>, Seq<char>>),
}

/// Where a step leads when it is resumed with some outcomes, as long as each is of
/// the kind that was asked for.
pub open spec fn continued(step: StepView, outcomes: Seq<Outcome>) -> StepView
    decreases outcomes.len(),
{
    if outcomes.len() == 0 {
        step
    } else {
        match (step, outcomes.first()) {
            (StepView::Search(job), Outcome::Searched(found)) => continued(
                search_resumed(job, found),
                outcomes.drop_first(),
            ),
            (StepView::View(job), Outcome::Viewed(chunks)) => continued(
                view_resumed(job, chunks),
                outcomes.drop_first(),
            ),
            _ => step,
        }
    }
}

/// Whether a step belongs to the request of an identifier, and its answer, once there
/// is one, is of the version 2.0 and either a result or an error.
pub open spec fn belongs_to(step: StepView, id: Option<serde_json::Value>) -> bool {
    match step {
        StepView::Silent => true,
        StepView::Reply(r) => r.id == id && r.jsonrpc == "2.0"@ && (r.result is Some
            <==> r.error is None),
        StepView::Search(job) => job.id == id,
        StepView::View(job) => job.id == id,
    }
}

/// Whatever the index gives, the answer to a request carries the identifier of that
/// request, and is either a result or an error.
pub proof fn law_answer_belongs_to_its_request(
    req: JsonRpcRequest,
    catalogs: Seq<Seq<char>>,
    label: Seq<char>,
    outcomes: Seq<Outcome>,
)
    ensures
        belongs_to(continued(requested(req, catalogs, label), outcomes), req.id),
{
    lemma_continuing_keeps_id(requested(req, catalogs, label), outcomes, req.id);
}

proof fn lemma_continuing_keeps_id(
    step: StepView,
    outcomes: Seq<Outcome>,
    id: Option<serde_json::Value>,
)
    requires
        belongs_to(step, id),
    ensures
        belongs_to(continued(step, outcomes), id),
    decreases outcomes.len(),
{
    if outcomes.len() > 0 {
        match (step, outcomes.first()) {
            (StepView::Search(job), Outcome::Searched(found)) => {
                lemma_continuing_keeps_id(
                    search_resumed(job, found),
                    outcomes.drop_first(),
                    id,
                );
            },
            (StepView::View(job), Outcome::Viewed(chunks)) => {
                lemma_continuing_keeps_id(view_resumed(job, chunks), outcomes.drop_first(), id);
            },
            _ => {},
        }
    }
}

/// The only request with an identifier that is not answered is the notification of
/// initialization.
pub proof fn law_requests_are_answered(
    req: JsonRpcRequest,
    catalogs: Seq<Seq<char>>,
    label: Seq<char>,
)
    requires
        req.id is Some,
    ensures
        requested(req, catalogs, label) is Silent <==> req.method@ == "notifications/initialized"@,
{
    reveal_strlit("initialize");
    reveal_strlit("notifications/initialized");
    assert("initialize"@.len() != "notifications/initialized"@.len());
}

/// A search is answered after the current branch and, where that gave nothing and is
/// not the main branch, after the main branch. What the main branch gave is reported
/// only then.
pub proof fn law_search_falls_back_once(
    job: SearchView,
    found: Seq<SearchResult>,
    found_on_main: Seq<SearchResult>,
)
    ensures
        continued(
            StepView::Search(job),
            seq![Outcome::Searched(found), Outcome::Searched(found_on_main)],
        ) == StepView::Reply(
            protocol::served(
                job.id,
                protocol::text_content(
                    report::search_report(
                        if found.len() > 0 || job.label == "main"@ {
                            found
                        } else {
                            found_on_main
                        },
                    ),
                ),
            ),
        ),
{
    reveal_with_fuel(continued, 3);
    let outcomes = seq![Outcome::Searched(found), Outcome::Searched(found_on_main)];
    assert(outcomes.first() == Outcome::Searched(found));
    assert(outcomes.drop_first().first() == Outcome::Searched(found_on_main));
}

/// The answers to some selectors, one behind the other.
pub open spec fn selector_reports(
    specs: Seq<Seq<char>>,
    outcomes: Seq<Result<Seq<ViewChunk>, Seq<char>>>,
) -> Seq<char>
    decreases specs.len(),
{
    if specs.len() == 0 {
        Seq::empty()
    } else {
        report::selector_report(specs.first(), outcomes.first()) + selector_reports(
            specs.drop_first(),
            outcomes.drop_first(),
        )
    }
}

/// What came of asking for chunks, as outcomes.
pub open spec fn viewed(outcomes: Seq<Result<Seq<ViewChunk>, Seq<char>>>) -> Seq<Outcome> {
    Seq::new(outcomes.len(), |i: int| Outcome::Viewed(outcomes[i]))
}

/// A view asks for each selector once, and answers them all in the order in which
/// they were given. A selector that could not be had does not keep the others from
/// being answered.
pub proof fn law_view_answers_every_selector(
    id: Option<serde_json::Value>,
    specs: Seq<Seq<char>>,
    outcomes: Seq<Result<Seq<ViewChunk>, Seq<char>>>,
)
    requires
        specs.len() > 0,
        outcomes.len() == specs.len(),
    ensures
        continued(
            StepView::View(SelectionView { id, specs, answered: 0, output: Seq::empty() }),
            viewed(outcomes),
        ) == StepView::Reply(
            protocol::served(id, protocol::text_content(selector_reports(specs, outcomes))),
        ),
{
    let job = SelectionView { id, specs, answered: 0, output: Seq::empty() };
    lemma_view_answers_rest(job, outcomes);
    assert(specs.skip(0) == specs);
    assert(Seq::<char>::empty() + selector_reports(specs, outcomes) == selector_reports(
        specs,
        outcomes,
    ));
}

proof fn lemma_view_answers_rest(
    job: SelectionView,
    outcomes: Seq<Result<Seq<ViewChunk>, Seq<char>>>,
)
    requires
        0 <= job.answered < job.specs.len(),
        outcomes.len() == job.specs.len() - job.answered,
    ensures
        continued(
            StepView::View(job),
            viewed(outcomes),
        ) == StepView::Reply(
            protocol::served(
                job.id,
                protocol::text_content(
                    job.output + selector_reports(job.specs.skip(job.answered), outcomes),
                ),
            ),
        ),
    decreases outcomes.len(),
{
    let given = viewed(outcomes);
    let rest = outcomes.drop_first();
    let left = job.specs.skip(job.answered);
    assert(given.first() == Outcome::Viewed(outcomes.first()));
    assert(given.drop_first() == viewed(rest));
    assert(left.first() == job.specs[job.answered]);
    assert(left.drop_first() == job.specs.skip(job.answered + 1));
    let here = report::selector_report(left.first(), outcomes.first());
    let next = view_resumed(job, outcomes.first());
    assert(continued(StepView::View(job), given) == continued(next, viewed(rest)));
    assert(selector_reports(left, outcomes) == here + selector_reports(left.drop_first(), rest));
    if job.answered + 1 == job.specs.len() {
        assert(viewed(rest).len() == 0);
        assert(selector_reports(left.drop_first(), rest) == Seq::<char>::empty());
        assert(job.output + here == job.output + (here + Seq::<char>::empty()));
    } else {
        let after = next->View_0;
        lemma_view_answers_rest(after, rest);
        assert((job.output + here) + selector_reports(left.drop_first(), rest) == job.output + (here
            + selector_reports(left.drop_first(), rest)));
    }
}

/// A search that found something, and one of the main branch whatever it found, is
/// answered with its report. One of another branch that found nothing is followed by a
/// search for the same request with the same query, limit and catalog, of the main branch.
pub proof fn law_second_search_asks_the_same(job: SearchView, found: Seq<SearchResult>)
    ensures
        found.len() == 0 && job.label != "main"@ ==> (search_resumed(job, found) matches
            StepView::Search(next) && {
            &&& next.id == job.id
            &&& next.query == job.query
            &&& next.limit == job.limit
            &&& next.catalog == job.catalog
            &&& next.label == "main"@
        }),
        found.len() > 0 || job.label == "main"@ ==> (search_resumed(job, found) matches
            StepView::Reply(r) && r.id == job.id && answers_with(r, report::search_report(found))),
{
    protocol::law_text_is_answered_as_it_is(report::search_report(found));
}

/// Whether an answer holds just this text.
pub open spec fn answers_with(r: ResponseView, output: Seq<char>) -> bool {
    &&& r.error is None
    &&& r.result matches Some(result) && protocol::holds_text(result, output)
}

/// Whether a search asks for what the arguments of a call say: the query, the limit or
/// ten, and the catalog where one is named.
pub open spec fn asks_for(job: SearchView, args: JsonView) -> bool {
    &&& json::member(args, "query"@) == Some(JsonView::Text(job.query))
    &&& job.query.len() > 0
    &&& job.limit == match json::member(args, "limit"@) {
        Some(JsonView::Unsigned(n)) => n as usize,
        _ => 10usize,
    }
    &&& job.catalog == match json::member(args, "catalog"@) {
        Some(JsonView::Text(c)) => Some(c),
        _ => None,
    }
}

/// Every search that a call of the search tool leads to, whatever the index gives, asks
/// for what the arguments of the call say: on the current branch first, and then on the
/// main branch. Where the arguments name no query, the call is refused.
pub proof fn law_every_search_asks_for_the_arguments(
    id: Option<serde_json::Value>,
    args: JsonView,
    label: Seq<char>,
    outcomes: Seq<Outcome>,
)
    ensures
        ({
            let step = search_called(id, args, label);
            let named = json::member(args, "query"@) matches Some(JsonView::Text(q)) && q.len() > 0;
            &&& named ==> (step matches StepView::Search(job) && asks_for(job, args) && job.id == id
                && job.label == label)
            &&& !named ==> (step matches StepView::Reply(r) && r.id == id && r.result is None
                && r.error == Some((-32602int, "Missing required parameter: query"@)))
            &&& continued(step, outcomes) matches StepView::Search(job) ==> asks_for(job, args)
                && job.id == id && (job.label == label || job.label == "main"@)
        }),
{
    let step = search_called(id, args, label);
    if let StepView::Search(job) = step {
        lemma_searches_ask_for(job, args, id, label, outcomes);
    } else {
        lemma_a_reply_stays(step, outcomes);
    }
}

proof fn lemma_a_reply_stays(step: StepView, outcomes: Seq<Outcome>)
    requires
        step is Reply || step is Silent,
    ensures
        continued(step, outcomes) == step,
{
}

proof fn lemma_searches_ask_for(
    job: SearchView,
    args: JsonView,
    id: Option<serde_json::Value>,
    label: Seq<char>,
    outcomes: Seq<Outcome>,
)
    requires
        asks_for(job, args),
        job.id == id,
        job.label == label || job.label == "main"@,
    ensures
        continued(StepView::Search(job), outcomes) matches StepView::Search(last) ==> asks_for(
            last,
            args,
        ) && last.id == id && (last.label == label || last.label == "main"@),
    decreases outcomes.len(),
{
    if outcomes.len() > 0 {
        if let Outcome::Searched(found) = outcomes.first() {
            let next = search_resumed(job, found);
            let rest = outcomes.drop_first();
            assert(continued(StepView::Search(job), outcomes) == continued(next, rest));
            if let StepView::Search(after) = next {
                lemma_searches_ask_for(after, args, id, label, rest);
            } else {
                lemma_a_reply_stays(next, rest);
            }
        }
    }
}

/// A call of the view tool asks for the texts in the list `ids`, in their order, one after
/// the other. Where there are none, the call is refused.
pub proof fn law_view_asks_for_the_arguments(id: Option<serde_json::Value>, args: JsonView)
    ensures
        ({
            let specs = json::texts_in(json::member(args, "ids"@));
            &&& specs.len() > 0 ==> (view_called(id, args) matches StepView::View(job) && job.id
                == id && job.specs == specs && job.answered == 0 && job.output.len() == 0)
            &&& specs.len() == 0 ==> (view_called(id, args) matches StepView::Reply(r) && r.id == id
                && r.result is None && r.error == Some(
                (-32602int, "Missing required parameter: ids"@),
            ))
        }),
{
}

/// A selector that is answered adds its report behind those before it. Then the next
/// selector of the same request has its turn, or everything is answered.
pub proof fn law_selectors_are_answered_in_turn(
    job: SelectionView,
    outcome: Result<Seq<ViewChunk>, Seq<char>>,
)
    requires
        0 <= job.answered < job.specs.len(),
    ensures
        ({
            let output = job.output + report::selector_report(job.specs[job.answered], outcome);
            &&& job.answered + 1 < job.specs.len() ==> (view_resumed(job, outcome) matches
                StepView::View(next) && next.id == job.id && next.specs == job.specs
                && next.answered == job.answered + 1 && next.output == output)
            &&& job.answered + 1 == job.specs.len() ==> (view_resumed(job, outcome) matches
                StepView::Reply(r) && r.id == job.id && answers_with(r, output))
        }),
{
    protocol::law_text_is_answered_as_it_is(
        job.output + report::selector_report(job.specs[job.answered], outcome),
    );
}

/// A call of a tool leads to what that tool does with the arguments, which are none where
/// none are given. A tool that is not known is refused by its name.
pub proof fn law_tools_get_their_arguments(
    id: Option<serde_json::Value>,
    params: JsonView,
    label: Seq<char>,
)
    ensures
        ({
            let args = match json::member(params, "arguments"@) {
                Some(a) => a,
                None => JsonView::Object(Seq::empty()),
            };
            let step = tool_called(id, Some(params), label);
            &&& json::member(params, "name"@) == Some(JsonView::Text("semantic_search"@)) ==> step
                == search_called(id, args, label)
            &&& json::member(params, "name"@) == Some(JsonView::Text("view_chunks"@)) ==> step
                == view_called(id, args)
            &&& json::member(params, "name"@) matches Some(JsonView::Text(name)) ==> (name
                != "semantic_search"@ && name != "view_chunks"@ ==> (step matches StepView::Reply(r)
                && r.id == id && r.result is None && r.error == Some(
                (-32601int, "Unknown tool: "@ + name),
            )))
            &&& !(json::member(params, "name"@) matches Some(JsonView::Text(_))) ==> (step matches
                StepView::Reply(r) && r.id == id && r.result is None && r.error == Some(
                (-32601int, "Unknown tool: "@),
            ))
        }),
        tool_called(id, None, label) == tool_called(
            id,
            Some(JsonView::Object(Seq::empty())),
            label,
        ),
{
    reveal_strlit("semantic_search");
    reveal_strlit("view_chunks");
    assert("semantic_search"@.len() == 15 && "view_chunks"@.len() == 11);
    assert("Unknown tool: "@ + Seq::<char>::empty() == "Unknown tool: "@);
    json::law_values_are_read_as_they_are(JsonView::Null);
}

/// A request is answered by its method. A method that is not known is refused by its name
/// where the request has an identifier, and is not answered where it has none.
pub proof fn law_methods_are_told_apart(
    req: JsonRpcRequest,
    catalogs: Seq<Seq<char>>,
    label: Seq<char>,
)
    ensures
        ({
            let step = requested(req, catalogs, label);
            &&& req.method@ == "initialize"@ ==> (step matches StepView::Reply(r) && r.id == req.id
                && r.error is None && r.result == Some(describe::server_description()))
            &&& req.method@ == "tools/list"@ ==> (step matches StepView::Reply(r) && r.id == req.id
                && r.error is None && r.result == Some(describe::tools_description(catalogs)))
            &&& req.method@ == "notifications/initialized"@ ==> step is Silent
            &&& req.method@ == "tools/call"@ ==> step == tool_called(
                req.id,
                match req.params {
                    Some(p) => Some(p@),
                    None => None,
                },
                label,
            )
            &&& req.method@ != "initialize"@ && req.method@ != "tools/list"@ && req.method@
                != "notifications/initialized"@ && req.method@ != "tools/call"@ ==> match req.id {
                Some(_) => step matches StepView::Reply(r) && r.id == req.id && r.result is None
                    && r.error == Some((-32601int, "Method not found: "@ + req.method@)),
                None => step is Silent,
            }
        }),
{
    reveal_strlit("initialize");
    reveal_strlit("notifications/initialized");
    reveal_strlit("tools/list");
    reveal_strlit("tools/call");
    assert("initialize"@.len() == 10 && "tools/list"@.len() == 10 && "tools/call"@.len() == 10);
    assert("notifications/initialized"@.len() == 25);
    assert("initialize"@[0] != "tools/list"@[0] && "tools/list"@[6] != "tools/call"@[6]);
    assert("initialize"@[0] != "tools/call"@[0]);
}

/// A search that failed found nothing; any other found what came, all of it.
pub proof fn law_failed_search_found_nothing(outcome: Result<Vec<SearchResult>, String>)
    ensures
        outcome is Err ==> found_in(outcome).len() == 0,
        outcome matches Ok(results) ==> found_in(outcome) == results@,
{
}

/// A step and a search under way are viewed as they are.
pub proof fn law_steps_are_viewed_as_they_are(step: Step, job: SearchJob)
    ensures
        step is Silent <==> step@ is Silent,
        step matches Step::Reply(r) ==> step@ == StepView::Reply(r@),
        step matches Step::Search(j) ==> step@ == StepView::Search(j@),
        step matches Step::View(j) ==> step@ == StepView::View(j@),
        job@.id == job.id && job@.query == job.query@ && job@.limit == job.limit,
        job@.label == job.label@,
        job@.catalog is Some <==> job.catalog is Some,
        job.catalog matches Some(c) ==> job@.catalog == Some(c@),
{
}

} // verus!
