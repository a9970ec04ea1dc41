//! Embeddings from an OpenAI-compatible endpoint: which texts go together into a
//! request, and what each answer means.
//!
//! The numbers of an embedding are of any type that can be copied; nothing here
//! computes with them.
use vstd::prelude::*;

use crate::api_client;
use crate::api_client::{HttpRequest, Method, RequestView};
use crate::json;
use crate::json::{Json, JsonView};
use crate::outside;
use crate::text;

verus! {

/// An endpoint for embeddings.
pub struct HttpEmbedder {
    url: String,
    model: String,
    api_key: Option<String>,
    /// How many numbers an embedding has.
    pub dimensions: usize,
}

/// The embedding of some texts under way: a batch, or one text of a batch that was
/// refused, is to be sent.
pub struct EmbedRun<T> {
    texts: Vec<String>,
    dimensions: usize,
    zero: T,
    cursor: usize,
    end: usize,
    single: Option<usize>,
    done: Vec<Vec<T>>,
}

/// What came of a request.
pub enum EmbedReply<T> {
    /// It could not be sent.
    NotSent(String),
    /// It was answered with a status that is no success, and with a text.
    Refused { status: u16, answer: String },
    /// It was answered with success, and with something that are no embeddings.
    Unreadable(String),
    /// It was answered with embeddings.
    Answered(Vec<Vec<T>>),
}

/// What comes next.
pub enum EmbedStep<T> {
    /// The request of the run is sent; the reply goes to [`EmbedRun::resume`].
    Send(EmbedRun<T>),
    /// These are the embeddings.
    Done(Vec<Vec<T>>),
    /// The embeddings could not be had.
    Failed(String),
}

/// What a run is.
pub struct RunView<T> {
    pub texts: Seq<Seq<char>>,
    pub dimensions: nat,
    pub zero: T,
    /// Where the batch starts.
    pub cursor: int,
    /// Where the batch ends.
    pub end: int,
    /// The text of the batch that is sent alone, where the batch was refused.
    pub single: Option<int>,
    pub done: Seq<Seq<T>>,
}

/// What a reply is.
pub enum ReplyView<T> {
    NotSent(Seq<char>),
    Refused { status: u16, answer: Seq<char> },
    Unreadable(Seq<char>),
    Answered(Seq<Seq<T>>),
}

/// What a step is.
pub enum EmbedStepView<T> {
    Send(RunView<T>),
    Done(Seq<Seq<T>>),
    Failed(Seq<char>),
}

/// The embeddings of a vector of vectors.
pub open spec fn rows<T>(v: Vec<Vec<T>>) -> Seq<Seq<T>> {
    Seq::new(v@.len(), |i: int| v@[i]@)
}

impl<T> View for EmbedRun<T> {
    type V = RunView<T>;

    closed spec fn view(&self) -> RunView<T> {
        RunView {
            texts: self.texts@.map_values(|s: String| s@),
            dimensions: self.dimensions as nat,
            zero: self.zero,
            cursor: self.cursor as int,
            end: self.end as int,
            single: match self.single {
                Some(k) => Some(k as int),
                None => None,
            },
            done: rows(self.done),
        }
    }
}

impl<T> View for EmbedReply<T> {
    type V = ReplyView<T>;

    open spec fn view(&self) -> ReplyView<T> {
        match self {
            EmbedReply::NotSent(e) => ReplyView::NotSent(e@),
            EmbedReply::Refused { status, answer } => ReplyView::Refused {
                status: *status,
                answer: answer@,
            },
            EmbedReply::Unreadable(e) => ReplyView::Unreadable(e@),
            EmbedReply::Answered(data) => ReplyView::Answered(rows(*data)),
        }
    }
}

impl<T> View for EmbedStep<T> {
    type V = EmbedStepView<T>;

    open spec fn view(&self) -> EmbedStepView<T> {
        match self {
            EmbedStep::Send(run) => EmbedStepView::Send(run@),
            EmbedStep::Done(all) => EmbedStepView::Done(rows(*all)),
            EmbedStep::Failed(e) => EmbedStepView::Failed(e@),
        }
    }
}

// ---------------------------------------------------------------------------
// Batches
// ---------------------------------------------------------------------------

/// How many tokens a text is taken for: one for two bytes.
pub open spec fn tokens(t: Seq<char>) -> nat {
    vstd::utf8::encode_utf8(t).len() / 2
}

/// How many tokens the texts from `from` up to `to` are taken for.
pub open spec fn tokens_between(texts: Seq<Seq<char>>, from: int, to: int) -> nat
    decreases to - from,
{
    if to <= from {
        0
    } else {
        tokens_between(texts, from, to - 1) + tokens(texts[to - 1])
    }
}

/// Whether a batch that starts at `from` and ends at `to` can take one text more: there
/// is one, the batch has fewer than four, and the budget of 14000 tokens is kept.
pub open spec fn can_grow(texts: Seq<Seq<char>>, from: int, to: int) -> bool {
    &&& to < texts.len()
    &&& to - from < 4
    &&& tokens_between(texts, from, to + 1) <= 14000
}

/// Where a batch that starts at `from` and reaches to `to` ends when it takes all the
/// texts that it can.
pub open spec fn grown(texts: Seq<Seq<char>>, from: int, to: int) -> int
    decreases texts.len() - to,
{
    if can_grow(texts, from, to) {
        grown(texts, from, to + 1)
    } else {
        to
    }
}

/// Where the batch that starts at `from` ends. Its first text is taken whatever its
/// size.
pub open spec fn batch_end(texts: Seq<Seq<char>>, from: int) -> int {
    grown(texts, from, from + 1)
}

/// A batch starts where it should, is not empty, has at most four texts and keeps the
/// budget unless it is a single text; and no text more could have joined it.
pub proof fn law_batches_are_full_and_bounded(texts: Seq<Seq<char>>, from: int)
    requires
        0 <= from < texts.len(),
    ensures
        from < batch_end(texts, from) <= texts.len(),
        batch_end(texts, from) - from <= 4,
        tokens_between(texts, from, batch_end(texts, from)) <= 14000 || batch_end(texts, from)
            == from + 1,
        !can_grow(texts, from, batch_end(texts, from)),
{
    lemma_grown(texts, from, from + 1);
}

proof fn lemma_grown(texts: Seq<Seq<char>>, from: int, to: int)
    requires
        0 <= from < to <= texts.len(),
        to - from <= 4,
        tokens_between(texts, from, to) <= 14000 || to == from + 1,
    ensures
        to <= grown(texts, from, to) <= texts.len(),
        grown(texts, from, to) - from <= 4,
        tokens_between(texts, from, grown(texts, from, to)) <= 14000 || grown(texts, from, to)
            == from + 1,
        !can_grow(texts, from, grown(texts, from, to)),
    decreases texts.len() - to,
{
    if can_grow(texts, from, to) {
        lemma_grown(texts, from, to + 1);
    }
}

/// Where the batch that starts at `from` ends.
pub fn next_batch(texts: &Vec<String>, from: usize) -> (r: usize)
    requires
        from < texts@.len(),
    ensures
        r == batch_end(texts@.map_values(|s: String| s@), from as int),
        from < r <= texts@.len(),
{
    let ghost all = texts@.map_values(|s: String| s@);
    let len: usize = texts.len();
    let mut end: usize = from + 1;
    let mut total: usize = texts[from].as_str().as_bytes().len() / 2;
    proof {
        reveal_with_fuel(tokens_between, 2);
        assert(total == tokens_between(all, from as int, end as int));
    }
    while end < len && end - from < 4
        invariant
            all == texts@.map_values(|s: String| s@),
            len == texts@.len(),
            from < end <= len,
            end - from <= 4,
            total == tokens_between(all, from as int, end as int),
            total <= usize::MAX / 2,
            grown(all, from as int, end as int) == batch_end(all, from as int),
        ensures
            from < end <= len,
            end == batch_end(all, from as int),
        decreases len - end,
    {
        let next: usize = texts[end].as_str().as_bytes().len() / 2;
        assert(next == tokens(all[end as int]));
        assert(tokens_between(all, from as int, end + 1) == total + next);
        if total + next > 14000 {
            break ;
        }
        total += next;
        end += 1;
    }
    end
}

// ---------------------------------------------------------------------------
// Models
// ---------------------------------------------------------------------------

/// The run that starts at the first text; there are embeddings at once where there
/// are no texts.
pub open spec fn started<T>(texts: Seq<Seq<char>>, dimensions: nat, zero: T) -> EmbedStepView<T> {
    if texts.len() == 0 {
        EmbedStepView::Done(Seq::empty())
    } else {
        EmbedStepView::Send(
            RunView {
                texts,
                dimensions,
                zero,
                cursor: 0,
                end: batch_end(texts, 0),
                single: None,
                done: Seq::empty(),
            },
        )
    }
}

/// The texts that a run sends next.
pub open spec fn sent<T>(run: RunView<T>) -> Seq<Seq<char>> {
    match run.single {
        Some(k) => seq![run.texts[k]],
        None => run.texts.subrange(run.cursor, run.end),
    }
}

/// The body that asks for the embeddings of some texts.
pub open spec fn embed_body(model: Seq<char>, input: Seq<Seq<char>>) -> JsonView {
    JsonView::object().plus("model"@, JsonView::Text(model)).plus(
        "input"@,
        JsonView::List(input.map_values(|t: Seq<char>| JsonView::Text(t))),
    ).plus("encoding_format"@, JsonView::Text("float"@))
}

/// The embedding that stands for a text that was skipped.
pub open spec fn blank<T>(run: RunView<T>) -> Seq<T> {
    Seq::new(run.dimensions, |i: int| run.zero)
}

/// What follows a batch: the next batch, or the embeddings.
pub open spec fn after_batch<T>(run: RunView<T>, done: Seq<Seq<T>>) -> EmbedStepView<T> {
    if run.end == run.texts.len() {
        EmbedStepView::Done(done)
    } else {
        EmbedStepView::Send(
            RunView {
                cursor: run.end,
                end: batch_end(run.texts, run.end),
                single: None,
                done,
                ..run
            },
        )
    }
}

/// What follows a text that was sent alone: the next text of its batch, or what
/// follows the batch.
pub open spec fn after_single<T>(run: RunView<T>, k: int, done: Seq<Seq<T>>) -> EmbedStepView<T> {
    if k + 1 < run.end {
        EmbedStepView::Send(RunView { single: Some(k + 1), done, ..run })
    } else {
        after_batch(run, done)
    }
}

/// The embedding of a text that was sent alone, or why there is none.
pub open spec fn single_embedding<T>(reply: ReplyView<T>) -> Result<Seq<T>, Seq<char>> {
    match reply {
        ReplyView::NotSent(e) => Err("Embedding request failed: "@ + e),
        ReplyView::Refused { status, answer } => Err(text::byte_prefix(answer, 200)),
        ReplyView::Unreadable(e) => Err(e),
        ReplyView::Answered(data) => if data.len() == 0 {
            Err("Empty response"@)
        } else {
            Ok(data[0])
        },
    }
}

/// What is said of a text that is skipped.
pub open spec fn skip_notice(t: Seq<char>) -> Seq<char> {
    "  \u{26a0}\u{fe0f} Skipping oversized chunk ("@ + text::decimal(
        vstd::utf8::encode_utf8(t).len(),
    ) + " chars)"@
}

/// What is said of texts that were refused with a status that reads `status`: the status,
/// and the first 500 bytes of what came with it.
pub open spec fn embed_failure(status: Seq<char>, answer: Seq<char>) -> Seq<char> {
    "Embedding API returned HTTP "@ + status + ": "@ + text::byte_prefix(answer, 500)
}

/// The first embedding that has not the right number of dimensions, or how many
/// embeddings there are.
pub open spec fn first_misfit<T>(data: Seq<Seq<T>>, dimensions: nat) -> int
    decreases data.len(),
{
    if data.len() == 0 || data.first().len() != dimensions {
        0
    } else {
        1 + first_misfit(data.drop_first(), dimensions)
    }
}

/// Why the embeddings of a batch of `n` texts do not fit, where they do not.
pub open spec fn misfit<T>(data: Seq<Seq<T>>, n: int, dimensions: nat) -> Option<Seq<char>> {
    let at = first_misfit(data, dimensions);
    if data.len() != n {
        Some(
            "Expected "@ + text::decimal(n as nat) + " embeddings, got "@ + text::decimal(
                data.len(),
            ),
        )
    } else if at < data.len() {
        Some(
            "Expected "@ + text::decimal(dimensions) + "-dim embedding, got "@ + text::decimal(
                data[at].len(),
            ),
        )
    } else {
        None
    }
}

/// What a reply to a run leads to, and what is said of a text that is skipped.
pub open spec fn resumed<T>(run: RunView<T>, reply: ReplyView<T>) -> (
    EmbedStepView<T>,
    Option<Seq<char>>,
) {
    match run.single {
        Some(k) => match single_embedding(reply) {
            Ok(e) => (after_single(run, k, run.done.push(e)), None),
            Err(why) => (
                after_single(run, k, run.done.push(blank(run))),
                Some(skip_notice(run.texts[k]) + ": "@ + why),
            ),
        },
        None => match reply {
            ReplyView::NotSent(e) => (
                EmbedStepView::Failed("Embedding request failed: "@ + e),
                None,
            ),
            ReplyView::Refused { status, answer } => if status == 400 && run.end - run.cursor > 1 {
                (EmbedStepView::Send(RunView { single: Some(run.cursor), ..run }), None)
            } else if run.end - run.cursor == 1 && text::occurs_in("exceed"@, answer) {
                (
                    after_batch(run, run.done.push(blank(run))),
                    Some(skip_notice(run.texts[run.cursor])),
                )
            } else {
                (
                    EmbedStepView::Failed(
                        embed_failure(api_client::status_line(status), answer),
                    ),
                    None,
                )
            },
            ReplyView::Unreadable(e) => (
                EmbedStepView::Failed("Failed to parse embedding response: "@ + e),
                None,
            ),
            ReplyView::Answered(data) => match misfit(
                data,
                run.end - run.cursor,
                run.dimensions,
            ) {
                Some(why) => (EmbedStepView::Failed(why), None),
                None => (after_batch(run, run.done + data), None),
            },
        },
    }
}

/// What a run can be resumed with: a status that is one and no success, and a text
/// whose repeated part ends between two characters.
pub open spec fn resumable<T>(run: RunView<T>, reply: ReplyView<T>) -> bool {
    reply matches ReplyView::Refused { status, answer } ==> {
        &&& 100 <= status <= 999
        &&& !api_client::succeeded(status)
        &&& run.single is Some ==> text::cuts_cleanly(answer, 200)
        &&& run.single is None && !(status == 400 && run.end - run.cursor > 1) && !(run.end
            - run.cursor == 1 && text::occurs_in("exceed"@, answer)) ==> text::cuts_cleanly(
            answer,
            500,
        )
    }
}

/// Whether a run is as runs are: its batch is one that `batch_end` gives, and there is
/// one embedding for each text before the one that is sent next.
pub open spec fn run_wf<T>(run: RunView<T>) -> bool {
    &&& 0 <= run.cursor < run.end <= run.texts.len()
    &&& run.end == batch_end(run.texts, run.cursor)
    &&& run.done.len() == match run.single {
        Some(k) => k,
        None => run.cursor,
    }
    &&& run.single matches Some(k) ==> run.cursor <= k < run.end
}

// ---------------------------------------------------------------------------
// Operations
// ---------------------------------------------------------------------------

impl HttpEmbedder {
    /// The address that requests go to.
    pub closed spec fn endpoint(&self) -> Seq<char> {
        self.url@
    }

    /// The model that is asked for.
    pub closed spec fn model_name(&self) -> Seq<char> {
        self.model@
    }

    /// The key that requests carry.
    pub closed spec fn key(&self) -> Option<Seq<char>> {
        text::opt_string(self.api_key)
    }

    /// How many numbers an embedding has.
    pub closed spec fn dims(&self) -> nat {
        self.dimensions as nat
    }

    /// An endpoint at an address, whose trailing slashes are dropped.
    pub fn new(base_url: &str, model: &str, dimensions: usize, api_key: Option<&str>) -> (r:
        HttpEmbedder)
        ensures
            r.endpoint() == text::trim_back(base_url@, |c: char| c == '/') + "/embeddings"@,
            r.model_name() == model@,
            r.key() == text::opt_text(api_key),
            r.dims() == dimensions,
    {
        let mut url = text::trim_end_of(base_url, '/');
        url.append("/embeddings");
        HttpEmbedder {
            url,
            model: model.to_owned(),
            api_key: match api_key {
                Some(k) => Some(k.to_owned()),
                None => None,
            },
            dimensions,
        }
    }

    /// Begins the embedding of some texts. `zero` is the number that fills the
    /// embeddings of texts that are skipped.
    pub fn embed_batch<T: Copy>(&self, texts: Vec<String>, zero: T) -> (r: EmbedStep<T>)
        ensures
            r@ == started(
                texts@.map_values(|s: String| s@),
                self.dims(),
                zero,
            ),
    {
        let ghost all = texts@.map_values(|s: String| s@);
        if texts.len() == 0 {
            let none: Vec<Vec<T>> = Vec::new();
            assert(rows(none) == Seq::<Seq<T>>::empty());
            return EmbedStep::Done(none);
        }
        let end = next_batch(&texts, 0);
        let done: Vec<Vec<T>> = Vec::new();
        assert(rows(done) == Seq::<Seq<T>>::empty());
        EmbedStep::Send(
            EmbedRun { texts, dimensions: self.dimensions, zero, cursor: 0, end, single: None, done },
        )
    }

    /// Begins the embedding of one text. The embeddings go to [`only_embedding`].
    pub fn embed_single<T: Copy>(&self, source: &str, zero: T) -> (r: EmbedStep<T>)
        ensures
            r@ == started(seq![source@], self.dims(), zero),
    {
        let mut texts: Vec<String> = Vec::new();
        texts.push(source.to_owned());
        assert(texts@.map_values(|s: String| s@) == seq![source@]);
        self.embed_batch(texts, zero)
    }

    /// The request that a run makes next.
    pub fn request<T>(&self, run: &EmbedRun<T>) -> (r: HttpRequest)
        ensures
            r@ == (RequestView {
                method: Method::Post,
                url: self.endpoint(),
                bearer: self.key(),
                body: Some(embed_body(self.model_name(), sent(run@))),
            }),
            run_wf(run@),
            r@.body is Some,
            json::member(r@.body->Some_0, "input"@) matches Some(JsonView::List(items))
                && items.len() == match run@.single {
                Some(_) => 1,
                None => run@.end - run@.cursor,
            } && (forall|i: int|
                0 <= i < items.len() ==> #[trigger] items[i] == JsonView::Text(
                    run@.texts[i + sent_from(run@)],
                )),
    {
        proof {
            use_type_invariant(run);
            law_whole_texts_are_sent(run@);
            law_request_holds_the_texts(self.model_name(), sent(run@));
        }
        let (from, to): (usize, usize) = match run.single {
            Some(k) => (k, k + 1),
            None => (run.cursor, run.end),
        };
        let ghost wanted = sent(run@);
        let ghost bodies = wanted.map_values(|t: Seq<char>| JsonView::Text(t));
        assert(wanted.len() == to - from);
        assert(forall|i: int| 0 <= i < wanted.len() ==> #[trigger] wanted[i] == run.texts@[from + i]@);
        let mut input = Json::list();
        let mut i: usize = from;
        assert(bodies.take(0) == Seq::<JsonView>::empty());
        while i < to
            invariant
                from <= i <= to <= run.texts@.len(),
                wanted.len() == to - from,
                bodies == wanted.map_values(|t: Seq<char>| JsonView::Text(t)),
                forall|k: int| 0 <= k < wanted.len() ==> #[trigger] wanted[k] == run.texts@[from + k]@,
                input@ == JsonView::List(bodies.take(i - from)),
            decreases to - i,
        {
            input = input.and(Json::text(run.texts[i].as_str()));
            assert(wanted[i - from] == run.texts@[i as int]@);
            assert(bodies.take(i + 1 - from) == bodies.take(i - from).push(bodies[i - from]));
            i += 1;
        }
        assert(bodies.take(to - from) == bodies);
        let body = Json::object().with("model", Json::text(self.model.as_str())).with(
            "input",
            input,
        ).with("encoding_format", Json::text("float"));
        HttpRequest {
            method: Method::Post,
            url: self.url.clone(),
            bearer: self.api_key.clone(),
            body: Some(body),
        }
    }
}

/// The one embedding that one text has.
pub fn only_embedding<T>(results: Vec<Vec<T>>) -> (r: Result<Vec<T>, String>)
    ensures
        r is Err <==> results@.len() == 0,
        r matches Ok(e) ==> e == results@.last(),
        r matches Err(why) ==> why@ == "Empty response from embedding API"@,
{
    let mut all = results;
    match all.pop() {
        Some(e) => Ok(e),
        None => Err("Empty response from embedding API".to_owned()),
    }
}

/// What is said of texts that were refused with a status that reads `status`. The part of
/// the answer that is repeated must end between two characters.
pub fn embed_refusal(status: &str, answer: &str) -> (r: String)
    requires
        text::cuts_cleanly(answer@, 500),
    ensures
        r@ == embed_failure(status@, answer@),
{
    let mut r = "Embedding API returned HTTP ".to_owned();
    r.append(status);
    r.append(": ");
    r.append(text::cut_to_bytes(answer, 500).as_str());
    r
}

/// What is said of a text that is skipped.
fn notice_of_skip(t: &str) -> (r: String)
    ensures
        r@ == skip_notice(t@),
{
    let mut r = "  \u{26a0}\u{fe0f} Skipping oversized chunk (".to_owned();
    r.append(text::number(t.as_bytes().len() as u64).as_str());
    r.append(" chars)");
    r
}

/// Why the embeddings of a batch do not fit, where they do not.
fn find_misfit<T>(data: &Vec<Vec<T>>, n: usize, dimensions: usize) -> (r: Option<String>)
    ensures
        text::opt_string(r) == misfit(rows(*data), n as int, dimensions as nat),
{
    if data.len() != n {
        let mut why = "Expected ".to_owned();
        why.append(text::number(n as u64).as_str());
        why.append(" embeddings, got ");
        why.append(text::number(data.len() as u64).as_str());
        return Some(why);
    }
    let ghost all = rows(*data);
    let mut i: usize = 0;
    assert(all.skip(0) == all);
    while i < data.len()
        invariant
            i <= data@.len(),
            data@.len() == n,
            all == rows(*data),
            i + first_misfit(all.skip(i as int), dimensions as nat) == first_misfit(
                all,
                dimensions as nat,
            ),
        decreases data@.len() - i,
    {
        assert(all.skip(i as int).first() == data@[i as int]@);
        assert(all.skip(i as int).drop_first() == all.skip(i + 1));
        if data[i].len() != dimensions {
            let mut why = "Expected ".to_owned();
            why.append(text::number(dimensions as u64).as_str());
            why.append("-dim embedding, got ");
            why.append(text::number(data[i].len() as u64).as_str());
            return Some(why);
        }
        i += 1;
    }
    assert(all.skip(i as int) == Seq::<Seq<T>>::empty());
    None
}

/// The embedding of a text that was sent alone, or why there is none.
fn embedding_alone<T>(reply: EmbedReply<T>) -> (r: Result<Vec<T>, String>)
    requires
        reply@ matches ReplyView::Refused { status, answer } ==> text::cuts_cleanly(answer, 200),
    ensures
        r is Ok <==> single_embedding(reply@) is Ok,
        r matches Ok(e) ==> single_embedding(reply@) == Ok::<Seq<T>, Seq<char>>(e@),
        r matches Err(why) ==> single_embedding(reply@) == Err::<Seq<T>, Seq<char>>(why@),
{
    match reply {
        EmbedReply::NotSent(e) => {
            let mut why = "Embedding request failed: ".to_owned();
            why.append(e.as_str());
            Err(why)
        },
        EmbedReply::Refused { status: _, answer } => Err(
            text::cut_to_bytes(answer.as_str(), 200),
        ),
        EmbedReply::Unreadable(e) => Err(e),
        EmbedReply::Answered(data) => {
            let mut all = data;
            if all.len() == 0 {
                Err("Empty response".to_owned())
            } else {
                let e = all.remove(0);
                Ok(e)
            }
        },
    }
}

/// The embedding that stands for a text that was skipped.
fn blank_embedding<T: Copy>(zero: T, dimensions: usize) -> (r: Vec<T>)
    ensures
        r@ == Seq::new(dimensions as nat, |i: int| zero),
{
    let mut r: Vec<T> = Vec::new();
    let mut i: usize = 0;
    while i < dimensions
        invariant
            i <= dimensions,
            r@ == Seq::new(i as nat, |k: int| zero),
        decreases dimensions - i,
    {
        r.push(zero);
        i += 1;
        assert(r@ == Seq::new(i as nat, |k: int| zero));
    }
    r
}

/// Goes on behind a batch that ends at `end`.
fn leave_batch<T>(
    texts: Vec<String>,
    dimensions: usize,
    zero: T,
    end: usize,
    done: Vec<Vec<T>>,
    Ghost(run): Ghost<RunView<T>>,
) -> (r: EmbedStep<T>)
    requires
        done@.len() == end <= texts@.len(),
        run.texts == texts@.map_values(|s: String| s@),
        run.dimensions == dimensions,
        run.zero == zero,
        run.end == end,
    ensures
        r@ == after_batch(run, rows(done)),
{
    if end == texts.len() {
        EmbedStep::Done(done)
    } else {
        let next = next_batch(&texts, end);
        EmbedStep::Send(
            EmbedRun { texts, dimensions, zero, cursor: end, end: next, single: None, done },
        )
    }
}

impl<T> EmbedRun<T> {
    /// The run is as runs are.
    #[verifier::type_invariant]
    spec fn wf(&self) -> bool {
        run_wf(self@)
    }
}

impl<T: Copy> EmbedRun<T> {
    /// Whether the run can be resumed with a reply.
    pub fn can_resume(&self, reply: &EmbedReply<T>) -> (r: bool)
        ensures
            r == resumable(self@, reply@),
    {
        proof {
            use_type_invariant(self);
        }
        match reply {
            EmbedReply::Refused { status, answer } => {
                if *status < 100 || *status > 999 || outside::status_is_success(*status) {
                    return false;
                }
                if self.single.is_some() {
                    return text::cuts_between_chars(answer.as_str(), 200);
                }
                let n: usize = self.end - self.cursor;
                let repeated = !(*status == 400 && n > 1) && !(n == 1 && text::contains(
                    answer.as_str(),
                    "exceed",
                ));
                !repeated || text::cuts_between_chars(answer.as_str(), 500)
            },
            _ => true,
        }
    }

    /// Goes on with a reply. Where a text is skipped, there is also a notice of it.
    pub fn resume(self, reply: EmbedReply<T>) -> (r: (EmbedStep<T>, Option<String>))
        requires
            resumable(self@, reply@),
        ensures
            r.0@ == resumed(self@, reply@).0,
            text::opt_string(r.1) == resumed(self@, reply@).1,
    {
        proof {
            use_type_invariant(&self);
        }
        let ghost run = self@;
        let EmbedRun { texts, dimensions, zero, cursor, end, single, done } = self;
        let mut embeddings = done;
        if let Some(k) = single {
            let (embedding, notice) = match embedding_alone(reply) {
                Ok(e) => (e, None),
                Err(why) => {
                    let mut notice = notice_of_skip(texts[k].as_str());
                    notice.append(": ");
                    notice.append(why.as_str());
                    (blank_embedding(zero, dimensions), Some(notice))
                },
            };
            embeddings.push(embedding);
            assert(rows(embeddings) == run.done.push(embedding@));
            if k + 1 < end {
                let next = EmbedRun {
                    texts,
                    dimensions,
                    zero,
                    cursor,
                    end,
                    single: Some(k + 1),
                    done: embeddings,
                };
                return (EmbedStep::Send(next), notice);
            }
            let step = leave_batch(texts, dimensions, zero, end, embeddings, Ghost(run));
            return (step, notice);
        }
        let n: usize = end - cursor;
        match reply {
            EmbedReply::NotSent(e) => {
                let mut why = "Embedding request failed: ".to_owned();
                why.append(e.as_str());
                (EmbedStep::Failed(why), None)
            },
            EmbedReply::Refused { status, answer } => {
                if status == 400 && n > 1 {
                    let next = EmbedRun {
                        texts,
                        dimensions,
                        zero,
                        cursor,
                        end,
                        single: Some(cursor),
                        done: embeddings,
                    };
                    return (EmbedStep::Send(next), None);
                }
                if n == 1 && text::contains(answer.as_str(), "exceed") {
                    let notice = notice_of_skip(texts[cursor].as_str());
                    let embedding = blank_embedding(zero, dimensions);
                    embeddings.push(embedding);
                    assert(rows(embeddings) == run.done.push(embedding@));
                    let step = leave_batch(texts, dimensions, zero, end, embeddings, Ghost(run));
                    return (step, Some(notice));
                }
                let shown = outside::status_text(status);
                (EmbedStep::Failed(embed_refusal(shown.as_str(), answer.as_str())), None)
            },
            EmbedReply::Unreadable(e) => {
                let mut why = "Failed to parse embedding response: ".to_owned();
                why.append(e.as_str());
                (EmbedStep::Failed(why), None)
            },
            EmbedReply::Answered(data) => {
                match find_misfit(&data, n, dimensions) {
                    Some(why) => (EmbedStep::Failed(why), None),
                    None => {
                        let mut all = data;
                        let ghost given = rows(all);
                        embeddings.append(&mut all);
                        assert(rows(embeddings) == run.done + given);
                        let step = leave_batch(
                            texts,
                            dimensions,
                            zero,
                            end,
                            embeddings,
                            Ghost(run),
                        );
                        (step, None)
                    },
                }
            },
        }
    }
}

// ---------------------------------------------------------------------------
// Laws
// ---------------------------------------------------------------------------

/// Where a step leads when it is resumed with some replies.
pub open spec fn run_through<T>(step: EmbedStepView<T>, replies: Seq<ReplyView<T>>) -> EmbedStepView<
    T,
>
    decreases replies.len(),
{
    if replies.len() == 0 {
        step
    } else {
        match step {
            EmbedStepView::Send(run) => run_through(
                resumed(run, replies.first()).0,
                replies.drop_first(),
            ),
            _ => step,
        }
    }
}

/// A bound on the replies that a run still takes.
pub open spec fn replies_left<T>(run: RunView<T>) -> int {
    2 * (run.texts.len() - run.end) + match run.single {
        Some(k) => run.end - k,
        None => run.end - run.cursor + 1,
    }
}

/// Whether a step belongs to the embedding of some texts: a run over them, or one
/// embedding for each of them.
pub open spec fn embeds<T>(step: EmbedStepView<T>, texts: Seq<Seq<char>>) -> bool {
    match step {
        EmbedStepView::Send(run) => run_wf(run) && run.texts == texts,
        EmbedStepView::Done(all) => all.len() == texts.len(),
        EmbedStepView::Failed(_) => true,
    }
}

/// One reply keeps a run a run over the same texts, with what was done before at its
/// front, and brings it nearer to its end.
proof fn lemma_resumed<T>(run: RunView<T>, reply: ReplyView<T>)
    requires
        run_wf(run),
    ensures
        embeds(resumed(run, reply).0, run.texts),
        resumed(run, reply).0 matches EmbedStepView::Send(next) ==> {
            &&& run.done.is_prefix_of(next.done)
            &&& replies_left(next) < replies_left(run)
        },
        resumed(run, reply).0 matches EmbedStepView::Done(all) ==> run.done.is_prefix_of(all),
{
    if run.end < run.texts.len() {
        law_batches_are_full_and_bounded(run.texts, run.end);
    }
    assert forall|x: Seq<T>| run.done.is_prefix_of(#[trigger] run.done.push(x)) by {
        assert(run.done.push(x).subrange(0, run.done.len() as int) == run.done);
    }
    assert forall|x: Seq<Seq<T>>| run.done.is_prefix_of(#[trigger] (run.done + x)) by {
        assert((run.done + x).subrange(0, run.done.len() as int) == run.done);
    }
    assert(run.done.subrange(0, run.done.len() as int) == run.done);
}

/// The position of the first text that a run sends next.
pub open spec fn sent_from<T>(run: RunView<T>) -> int {
    match run.single {
        Some(k) => k,
        None => run.cursor,
    }
}

/// Whether the reply to a run makes `e` the embedding of the text at `i`: the text was
/// sent, and either the reply holds `e` at the place that the text had in the request, or
/// the text was sent alone and skipped, of which there is a notice, and `e` is blank.
pub open spec fn makes<T>(run: RunView<T>, reply: ReplyView<T>, i: int, e: Seq<T>) -> bool {
    let place = i - sent_from(run);
    &&& 0 <= place < sent(run).len()
    &&& sent(run)[place] == run.texts[i]
    &&& {
        ||| reply matches ReplyView::Answered(data) && place < data.len() && e == data[place]
        ||| sent(run).len() == 1 && resumed(run, reply).1 is Some && e == blank(run)
    }
}

/// Whether one of the replies that a step is resumed with makes `e` the embedding of the
/// text at `i`.
pub open spec fn made<T>(
    step: EmbedStepView<T>,
    replies: Seq<ReplyView<T>>,
    i: int,
    e: Seq<T>,
) -> bool
    decreases replies.len(),
{
    replies.len() > 0 && (step matches EmbedStepView::Send(run) && {
        ||| makes(run, replies.first(), i, e)
        ||| made(resumed(run, replies.first()).0, replies.drop_first(), i, e)
    })
}

/// The embeddings that there are at a step.
pub open spec fn embeddings_at<T>(step: EmbedStepView<T>) -> Seq<Seq<T>> {
    match step {
        EmbedStepView::Send(run) => run.done,
        EmbedStepView::Done(all) => all,
        EmbedStepView::Failed(_) => Seq::empty(),
    }
}

/// Whatever the replies, when the embedding of some texts is done there is exactly one
/// embedding for each text, in the place of that text: each is what a reply gave at the
/// place that the text had in its request, or blank where the text was skipped. Until
/// then this holds of the embeddings that there are.
pub proof fn law_one_embedding_for_each_text<T>(
    texts: Seq<Seq<char>>,
    dimensions: nat,
    zero: T,
    replies: Seq<ReplyView<T>>,
)
    ensures
        ({
            let start = started(texts, dimensions, zero);
            let step = run_through(start, replies);
            &&& embeds(step, texts)
            &&& forall|i: int|
                0 <= i < embeddings_at(step).len() ==> made(
                    start,
                    replies,
                    i,
                    #[trigger] embeddings_at(step)[i],
                )
        }),
{
    let start = started(texts, dimensions, zero);
    if texts.len() > 0 {
        law_batches_are_full_and_bounded(texts, 0);
        lemma_made(start->Send_0, replies);
    }
    lemma_run_through(start, texts, replies);
}

/// The reply to a run makes what it adds to the embeddings.
proof fn lemma_makes<T>(run: RunView<T>, reply: ReplyView<T>)
    requires
        run_wf(run),
    ensures
        ({
            let all = embeddings_at(resumed(run, reply).0);
            forall|i: int|
                run.done.len() <= i < all.len() ==> makes(run, reply, i, #[trigger] all[i])
        }),
{
    let next = resumed(run, reply).0;
    let all = embeddings_at(next);
    assert forall|i: int| run.done.len() <= i < all.len() implies makes(
        run,
        reply,
        i,
        #[trigger] all[i],
    ) by {
        let place = i - sent_from(run);
        match run.single {
            Some(k) => {
                assert(all.len() == run.done.len() + 1);
                assert(sent(run)[0] == run.texts[k]);
            },
            None => {
                assert(sent(run).len() == run.end - run.cursor);
                assert(sent(run)[place] == run.texts[i]);
            },
        }
    }
}

/// The replies that a run is resumed with make what they add to the embeddings.
proof fn lemma_made<T>(run: RunView<T>, replies: Seq<ReplyView<T>>)
    requires
        run_wf(run),
    ensures
        ({
            let start = EmbedStepView::Send(run);
            let all = embeddings_at(run_through(start, replies));
            forall|i: int|
                run.done.len() <= i < all.len() ==> made(start, replies, i, #[trigger] all[i])
        }),
        !(run_through(EmbedStepView::Send(run), replies) is Failed) ==> run.done.is_prefix_of(
            embeddings_at(run_through(EmbedStepView::Send(run), replies)),
        ),
    decreases replies.len(),
{
    let start = EmbedStepView::Send(run);
    let step = run_through(start, replies);
    let all = embeddings_at(step);
    if replies.len() == 0 {
        assert(all.subrange(0, all.len() as int) == all);
    } else {
        let reply = replies.first();
        let next = resumed(run, reply).0;
        let rest = replies.drop_first();
        assert(step == run_through(next, rest));
        lemma_resumed(run, reply);
        lemma_makes(run, reply);
        if let EmbedStepView::Send(after) = next {
            lemma_made(after, rest);
        } else {
            lemma_run_through(next, run.texts, rest);
        }
        if !(step is Failed) {
            let so_far = embeddings_at(next);
            assert(so_far.is_prefix_of(all)) by {
                assert(all.subrange(0, all.len() as int) == all);
            }
            assert forall|i: int| 0 <= i < so_far.len() implies so_far[i] == all[i] by {
                assert(all.subrange(0, so_far.len() as int)[i] == so_far[i]);
            }
            assert(all.subrange(0, run.done.len() as int) == so_far.subrange(
                0,
                run.done.len() as int,
            ));
            assert forall|i: int| run.done.len() <= i < all.len() implies made(
                start,
                replies,
                i,
                #[trigger] all[i],
            ) by {
                if i < so_far.len() {
                    assert(makes(run, reply, i, so_far[i]));
                } else {
                    assert(made(next, rest, i, all[i]));
                }
            }
        }
    }
}

/// The embedding of some texts ends: after twice as many replies as there are texts,
/// nothing is left to send.
pub proof fn law_embedding_ends<T>(
    texts: Seq<Seq<char>>,
    dimensions: nat,
    zero: T,
    replies: Seq<ReplyView<T>>,
)
    requires
        replies.len() >= 2 * texts.len(),
    ensures
        !(run_through(started(texts, dimensions, zero), replies) is Send),
{
    let step = started(texts, dimensions, zero);
    if texts.len() > 0 {
        law_batches_are_full_and_bounded(texts, 0);
        assert(replies_left(step->Send_0) <= 2 * texts.len());
    }
    lemma_run_through(step, texts, replies);
}

proof fn lemma_run_through<T>(
    step: EmbedStepView<T>,
    texts: Seq<Seq<char>>,
    replies: Seq<ReplyView<T>>,
)
    requires
        embeds(step, texts),
    ensures
        embeds(run_through(step, replies), texts),
        step matches EmbedStepView::Send(run) ==> (replies.len() >= replies_left(run) ==> !(
        run_through(step, replies) is Send)),
        !(step is Send) ==> run_through(step, replies) == step,
    decreases replies.len(),
{
    if let EmbedStepView::Send(run) = step {
        if replies.len() > 0 {
            lemma_resumed(run, replies.first());
            lemma_run_through(resumed(run, replies.first()).0, texts, replies.drop_first());
        }
    }
}

/// An embedding that was made stays where it is: one reply more only adds to the end.
pub proof fn law_embeddings_stay<T>(run: RunView<T>, reply: ReplyView<T>)
    requires
        run_wf(run),
    ensures
        resumed(run, reply).0 matches EmbedStepView::Send(next) ==> run.done.is_prefix_of(
            next.done,
        ),
        resumed(run, reply).0 matches EmbedStepView::Done(all) ==> run.done.is_prefix_of(all),
{
    lemma_resumed(run, reply);
}

/// A batch whose embeddings are taken has one embedding for each of its texts, all of
/// the right number of dimensions.
pub proof fn law_taken_batches_fit<T>(data: Seq<Seq<T>>, n: int, dimensions: nat)
    ensures
        misfit(data, n, dimensions) is None <==> data.len() == n && forall|i: int|
            0 <= i < data.len() ==> (#[trigger] data[i]).len() == dimensions,
{
    lemma_first_misfit(data, dimensions);
    let at = first_misfit(data, dimensions);
    if at < data.len() {
        assert(data[at].len() != dimensions);
    }
}

proof fn lemma_first_misfit<T>(data: Seq<Seq<T>>, dimensions: nat)
    ensures
        0 <= first_misfit(data, dimensions) <= data.len(),
        forall|i: int|
            0 <= i < first_misfit(data, dimensions) ==> (#[trigger] data[i]).len() == dimensions,
        first_misfit(data, dimensions) < data.len() ==> data[first_misfit(
            data,
            dimensions,
        )].len() != dimensions,
    decreases data.len(),
{
    if data.len() > 0 && data.first().len() == dimensions {
        let rest = data.drop_first();
        lemma_first_misfit(rest, dimensions);
        assert forall|i: int| 0 <= i < first_misfit(data, dimensions) implies (
        #[trigger] data[i]).len() == dimensions by {
            if i > 0 {
                assert(data[i] == rest[i - 1]);
            }
        }
    }
}

/// A run sends whole texts: the one that it sends alone, or those of its batch, in their
/// order.
pub proof fn law_whole_texts_are_sent<T>(run: RunView<T>)
    requires
        run_wf(run),
    ensures
        run.single matches Some(k) ==> sent(run).len() == 1 && sent(run)[0] == run.texts[k],
        run.single is None ==> sent(run).len() == run.end - run.cursor && (forall|i: int|
            0 <= i < sent(run).len() ==> #[trigger] sent(run)[i] == run.texts[run.cursor + i]),
{
}

/// The body of a request names the model and the format, and its input is a list of the
/// texts: as many as are sent, each as it is and in its place. There is nothing else in
/// it.
pub proof fn law_request_holds_the_texts(model: Seq<char>, input: Seq<Seq<char>>)
    ensures
        ({
            let body = embed_body(model, input);
            &&& json::member(body, "model"@) == Some(JsonView::Text(model))
            &&& json::member(body, "encoding_format"@) == Some(JsonView::Text("float"@))
            &&& json::member(body, "input"@) matches Some(JsonView::List(items)) && items.len()
                == input.len() && (forall|i: int|
                0 <= i < input.len() ==> #[trigger] items[i] == JsonView::Text(input[i]))
            &&& body is Object
            &&& body->Object_0.len() == 3
        }),
{
    reveal_strlit("model");
    reveal_strlit("input");
    reveal_strlit("encoding_format");
    assert("model"@[0] != "input"@[0]);
    assert("model"@.len() == 5 && "input"@.len() == 5 && "encoding_format"@.len() == 15);
    let members = embed_body(model, input)->Object_0;
    json::lemma_member_at(members, 0);
    json::lemma_member_at(members, 1);
    json::lemma_member_at(members, 2);
}

/// A text counts one token for every two of its bytes, texts count what each of them
/// does, and a batch stops only where the texts end, where it has four, or where one text
/// more would make it more than 14000 tokens.
pub proof fn law_batches_stop_for_a_reason(texts: Seq<Seq<char>>, from: int, mid: int, to: int)
    requires
        0 <= from < texts.len(),
    ensures
        from <= mid <= to ==> tokens_between(texts, from, to) == tokens_between(texts, from, mid)
            + tokens_between(texts, mid, to),
        tokens_between(texts, from, from + 1) == vstd::utf8::encode_utf8(texts[from]).len() / 2,
        ({
            let end = batch_end(texts, from);
            ||| end == texts.len()
            ||| end == from + 4
            ||| tokens_between(texts, from, end + 1) > 14000
        }),
{
    law_batches_are_full_and_bounded(texts, from);
    reveal_with_fuel(tokens_between, 2);
    if from <= mid <= to {
        lemma_tokens_add_up(texts, from, mid, to);
    }
}

proof fn lemma_tokens_add_up(texts: Seq<Seq<char>>, from: int, mid: int, to: int)
    requires
        from <= mid <= to,
    ensures
        tokens_between(texts, from, to) == tokens_between(texts, from, mid) + tokens_between(
            texts,
            mid,
            to,
        ),
    decreases to - mid,
{
    if mid < to {
        lemma_tokens_add_up(texts, from, mid, to - 1);
    }
}

/// What stands for a text that was skipped has the right number of dimensions, and every
/// number of it is the zero.
pub proof fn law_skipped_texts_are_blank<T>(run: RunView<T>)
    ensures
        blank(run).len() == run.dimensions,
        forall|i: int| 0 <= i < run.dimensions ==> #[trigger] blank(run)[i] == run.zero,
{
}

/// A run goes on with the same texts, the same dimensions and the same zero. It goes on
/// where it was: behind its batch, behind the text that was sent alone, or, where the
/// batch was refused as a bad request, with the first text of the batch alone.
pub proof fn law_run_goes_on_where_it_was<T>(run: RunView<T>, reply: ReplyView<T>)
    requires
        run_wf(run),
    ensures
        resumed(run, reply).0 matches EmbedStepView::Send(next) ==> {
            &&& next.texts == run.texts
            &&& next.dimensions == run.dimensions
            &&& next.zero == run.zero
            &&& match next.single {
                Some(k) => next.cursor == run.cursor && next.end == run.end && k
                    == next.done.len() && next.done.len()
                    == run.done.len() + match run.single {
                    Some(_) => 1int,
                    None => 0int,
                },
                None => next.cursor == run.end && next.done.len() == run.end,
            }
        },
        resumed(run, reply).0 is Done ==> run.end == run.texts.len(),
{
    lemma_resumed(run, reply);
}

/// What comes of the reply to a batch. A request that was not sent, a reply that cannot
/// be read, a batch that does not fit and a refusal end the run, each with what is said of
/// it in full. Two refusals do not: of a bad request for more than one text, which are
/// then sent one by one, and of one text that is said to exceed a limit, which is skipped.
pub proof fn law_replies_to_a_batch<T>(run: RunView<T>, reply: ReplyView<T>)
    requires
        run_wf(run),
        run.single is None,
    ensures
        reply matches ReplyView::NotSent(e) ==> resumed(run, reply) == (
            EmbedStepView::<T>::Failed("Embedding request failed: "@ + e),
            None::<Seq<char>>,
        ),
        reply matches ReplyView::Unreadable(e) ==> resumed(run, reply) == (
            EmbedStepView::<T>::Failed("Failed to parse embedding response: "@ + e),
            None::<Seq<char>>,
        ),
        reply matches ReplyView::Refused { status, answer } ==> {
            let alone = run.end == run.cursor + 1;
            let exceeds = text::occurs_in("exceed"@, answer);
            &&& !alone && status == 400 ==> resumed(run, reply).0 is Send && resumed(
                run,
                reply,
            ).0->Send_0.single == Some(run.cursor) && resumed(run, reply).0->Send_0.done == run.done
                && resumed(run, reply).1 is None
            &&& alone && exceeds ==> !(resumed(run, reply).0 is Failed) && embeddings_at(
                resumed(run, reply).0,
            ) == run.done.push(blank(run)) && resumed(run, reply).1 == Some(
                skip_notice(run.texts[run.cursor]),
            )
            &&& (!alone && status != 400) || (alone && !exceeds) ==> resumed(run, reply) == (
                EmbedStepView::<T>::Failed(
                    "Embedding API returned HTTP "@ + (text::decimal(status as nat) + " "@
                        + outside::status_reason(status)) + ": "@ + text::byte_prefix(answer, 500),
                ),
                None::<Seq<char>>,
            )
        },
        reply matches ReplyView::Answered(data) ==> {
            let n = run.end - run.cursor;
            let fits = data.len() == n && forall|i: int|
                0 <= i < data.len() ==> (#[trigger] data[i]).len() == run.dimensions;
            &&& fits ==> !(resumed(run, reply).0 is Failed) && embeddings_at(resumed(run, reply).0)
                == run.done + data
            &&& !fits ==> resumed(run, reply).0 is Failed
            &&& data.len() != n ==> resumed(run, reply).0 == EmbedStepView::<T>::Failed(
                "Expected "@ + text::decimal(n as nat) + " embeddings, got "@ + text::decimal(
                    data.len(),
                ),
            )
            &&& resumed(run, reply).1 is None
        },
{
    lemma_resumed(run, reply);
    if let ReplyView::Answered(data) = reply {
        law_taken_batches_fit(data, run.end - run.cursor, run.dimensions);
    }
}

/// Where an embedding of a batch has the wrong number of dimensions, the first such is
/// named: those before it fit.
pub proof fn law_first_misfit_is_named<T>(data: Seq<Seq<T>>, dimensions: nat)
    ensures
        misfit(data, data.len() as int, dimensions) matches Some(why) ==> exists|at: int|
            0 <= at < data.len() && (#[trigger] data[at]).len() != dimensions && (forall|i: int|
                0 <= i < at ==> (#[trigger] data[i]).len() == dimensions) && why == "Expected "@
                + text::decimal(dimensions) + "-dim embedding, got "@ + text::decimal(
                data[at].len(),
            ),
{
    lemma_first_misfit(data, dimensions);
    if misfit(data, data.len() as int, dimensions) is Some {
        let at = first_misfit(data, dimensions);
        assert(data[at].len() != dimensions);
    }
}

/// What comes of the reply to a text that was sent alone: the run goes on, whatever the
/// reply. The embedding is the first that came, as it is; where none came, it is blank,
/// and there is a notice of the text's size in bytes and of the reason in full.
pub proof fn law_replies_to_a_single_text<T>(run: RunView<T>, reply: ReplyView<T>)
    requires
        run_wf(run),
        run.single is Some,
    ensures
        !(resumed(run, reply).0 is Failed),
        ({
            let t = run.texts[run.single->Some_0];
            let notice = "  \u{26a0}\u{fe0f} Skipping oversized chunk ("@ + text::decimal(
                vstd::utf8::encode_utf8(t).len(),
            ) + " chars): "@;
            let all = embeddings_at(resumed(run, reply).0);
            let said = resumed(run, reply).1;
            match reply {
                ReplyView::Answered(data) => if data.len() > 0 {
                    all == run.done.push(data[0]) && said is None
                } else {
                    all == run.done.push(blank(run)) && said == Some(notice + "Empty response"@)
                },
                ReplyView::NotSent(e) => all == run.done.push(blank(run)) && said == Some(
                    notice + ("Embedding request failed: "@ + e),
                ),
                ReplyView::Unreadable(e) => all == run.done.push(blank(run)) && said == Some(
                    notice + e,
                ),
                ReplyView::Refused { status: _, answer } => all == run.done.push(blank(run))
                    && said == Some(notice + text::byte_prefix(answer, 200)),
            }
        }),
{
    lemma_resumed(run, reply);
    let t = run.texts[run.single->Some_0];
    reveal_strlit(" chars)");
    reveal_strlit(": ");
    reveal_strlit(" chars): ");
    assert(" chars)"@ + ": "@ == " chars): "@);
    let size = text::decimal(vstd::utf8::encode_utf8(t).len());
    let front = "  \u{26a0}\u{fe0f} Skipping oversized chunk ("@ + size;
    assert(skip_notice(t) + ": "@ == front + " chars): "@);
}

/// The notice of a text that was skipped names its size in bytes.
pub proof fn law_notice_names_the_size(t: Seq<char>)
    ensures
        skip_notice(t) == "  \u{26a0}\u{fe0f} Skipping oversized chunk ("@ + text::decimal(
            vstd::utf8::encode_utf8(t).len(),
        ) + " chars)"@,
{
}

/// What is said of a refusal repeats as many bytes of the answer as five hundred, and all
/// of it where there are no more.
pub proof fn law_refusals_repeat_the_answer(status: Seq<char>, answer: Seq<char>)
    requires
        text::cuts_cleanly(answer, 500),
    ensures
        ({
            let head = "Embedding API returned HTTP "@ + status + ": "@;
            let repeated = embed_failure(status, answer).skip(head.len() as int);
            &&& head.is_prefix_of(embed_failure(status, answer))
            &&& repeated.is_prefix_of(answer)
            &&& vstd::utf8::encode_utf8(answer).len() <= 500 ==> repeated == answer
            &&& vstd::utf8::encode_utf8(answer).len() >= 500 ==> vstd::utf8::encode_utf8(
                repeated,
            ).len() == 500
        }),
{
    text::law_first_bytes(answer, 500);
    let head = "Embedding API returned HTTP "@ + status + ": "@;
    let all = embed_failure(status, answer);
    assert(all.subrange(0, head.len() as int) == head);
    assert(all.skip(head.len() as int) == text::byte_prefix(answer, 500));
}

/// A run starts with the first batch of all the texts, and with no embeddings; where there
/// are no texts it is done.
pub proof fn law_run_starts_at_the_front<T>(texts: Seq<Seq<char>>, dimensions: nat, zero: T)
    ensures
        texts.len() == 0 ==> started(texts, dimensions, zero) == EmbedStepView::Done(
            Seq::<Seq<T>>::empty(),
        ),
        texts.len() > 0 ==> (started(texts, dimensions, zero) matches EmbedStepView::Send(run) && {
            &&& run_wf(run)
            &&& run.texts == texts && run.dimensions == dimensions && run.zero == zero
            &&& run.cursor == 0 && run.single is None && run.done.len() == 0
        }),
{
    if texts.len() > 0 {
        law_batches_are_full_and_bounded(texts, 0);
    }
}

/// Embeddings, replies and steps are viewed as they are.
pub proof fn law_replies_are_viewed_as_they_are<T>(
    all: Vec<Vec<T>>,
    reply: EmbedReply<T>,
    step: EmbedStep<T>,
)
    ensures
        rows(all).len() == all@.len(),
        forall|i: int| 0 <= i < all@.len() ==> #[trigger] rows(all)[i] == all@[i]@,
        reply matches EmbedReply::NotSent(e) ==> reply@ == ReplyView::<T>::NotSent(e@),
        reply matches EmbedReply::Unreadable(e) ==> reply@ == ReplyView::<T>::Unreadable(e@),
        reply matches EmbedReply::Answered(data) ==> reply@ == ReplyView::Answered(rows(data)),
        reply matches EmbedReply::Refused { status, answer } ==> reply@ == (ReplyView::<
            T,
        >::Refused { status, answer: answer@ }),
        step matches EmbedStep::Send(run) ==> step@ == EmbedStepView::Send(run@),
        step matches EmbedStep::Done(data) ==> step@ == EmbedStepView::Done(rows(data)),
        step matches EmbedStep::Failed(e) ==> step@ == EmbedStepView::<T>::Failed(e@),
{
}

/// A run takes every reply but a refusal whose status is none, or a success, or whose
/// answer would be cut inside a character where it is repeated.
pub proof fn law_what_a_run_takes<T>(run: RunView<T>, reply: ReplyView<T>)
    ensures
        !(reply is Refused) ==> resumable(run, reply),
        reply matches ReplyView::Refused { status, answer } ==> (100 <= status <= 999 && status
            / 100 != 2 && text::cuts_cleanly(answer, 200) && text::cuts_cleanly(answer, 500)
            ==> resumable(run, reply)),
        reply matches ReplyView::Refused { status, answer } ==> (resumable(run, reply) ==> 100
            <= status <= 999 && status / 100 != 2),
        reply matches ReplyView::Refused { status, answer } ==> (run.single is None && run.end
            - run.cursor > 1 && status == 400 ==> resumable(run, reply)),
        reply matches ReplyView::Refused { status, answer } ==> (run.single is None && run.end
            - run.cursor == 1 && text::occurs_in("exceed"@, answer) && 100 <= status <= 999
            && status / 100 != 2 ==> resumable(run, reply)),
{
}

} // verus!
