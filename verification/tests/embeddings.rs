use rush_qdrant::api_client::Method;
use rush_qdrant::embedder::{
    embed_refusal, next_batch, only_embedding, EmbedReply, EmbedRun, EmbedStep, HttpEmbedder,
};
use rush_qdrant::json::Json;

fn embedder() -> HttpEmbedder {
    HttpEmbedder::new("http://host/v1//", "model", 2, Some("key"))
}

fn strings(list: &[&str]) -> Vec<String> {
    list.iter().map(|s| s.to_string()).collect()
}

fn begin(list: &[&str]) -> EmbedRun<i32> {
    run(embedder().embed_batch(strings(list), 0))
}

fn run(step: EmbedStep<i32>) -> EmbedRun<i32> {
    match step {
        EmbedStep::Send(run) => run,
        EmbedStep::Done(_) => panic!("done"),
        EmbedStep::Failed(e) => panic!("{}", e),
    }
}

fn done(step: EmbedStep<i32>) -> Vec<Vec<i32>> {
    match step {
        EmbedStep::Done(all) => all,
        _ => panic!("not done"),
    }
}

fn failed(step: EmbedStep<i32>) -> String {
    match step {
        EmbedStep::Failed(e) => e,
        _ => panic!("not failed"),
    }
}

fn resume(run: EmbedRun<i32>, reply: EmbedReply<i32>) -> (EmbedStep<i32>, Option<String>) {
    assert!(run.can_resume(&reply));
    run.resume(reply)
}

fn refused(status: u16, answer: &str) -> EmbedReply<i32> {
    EmbedReply::Refused { status, answer: answer.to_string() }
}

/// The texts that a run sends.
fn sent(run: &EmbedRun<i32>) -> Vec<String> {
    let request = embedder().request(run);
    assert!(request.method == Method::Post);
    assert_eq!(request.url, "http://host/v1/embeddings");
    assert_eq!(request.bearer, Some("key".to_string()));
    match request.body {
        Some(Json::Object(members)) => {
            let names: Vec<&str> = members.iter().map(|m| m.0.as_str()).collect();
            assert_eq!(names, vec!["model", "input", "encoding_format"]);
            assert!(matches!(&members[0].1, Json::Text(s) if s == "model"));
            assert!(matches!(&members[2].1, Json::Text(s) if s == "float"));
            match &members[1].1 {
                Json::List(items) => items
                    .iter()
                    .map(|i| match i {
                        Json::Text(s) => s.clone(),
                        _ => panic!("no text"),
                    })
                    .collect(),
                _ => panic!("no list"),
            }
        }
        _ => panic!("no body"),
    }
}

#[test]
fn nothing_is_sent_for_no_texts() {
    let none: Vec<Vec<i32>> = vec![];
    assert_eq!(done(embedder().embed_batch(vec![], 0)), none);
}

#[test]
fn requests_without_a_key_carry_none() {
    let open = HttpEmbedder::new("http://host", "m", 3, None);
    assert_eq!(open.dimensions, 3);
    let r = match open.embed_single("x", 0) {
        EmbedStep::Send(run) => open.request(&run),
        _ => panic!("nothing to send"),
    };
    assert_eq!(r.url, "http://host/embeddings");
    assert_eq!(r.bearer, None);
}

#[test]
fn batches_are_bounded() {
    let sizes = |list: &[usize]| -> Vec<String> { list.iter().map(|n| "x".repeat(*n)).collect() };
    // At most four texts.
    assert_eq!(next_batch(&sizes(&[1, 1, 1, 1, 1]), 0), 4);
    assert_eq!(next_batch(&sizes(&[1, 1, 1, 1, 1]), 4), 5);
    assert_eq!(next_batch(&sizes(&[1, 1]), 0), 2);
    // At most 14000 tokens of two bytes each.
    assert_eq!(next_batch(&sizes(&[14000, 14000, 2]), 0), 2);
    assert_eq!(next_batch(&sizes(&[14000, 14001, 1]), 0), 3);
    assert_eq!(next_batch(&sizes(&[14000, 14002]), 0), 1);
    // The first text is sent whatever its size, and then alone.
    assert_eq!(next_batch(&sizes(&[28002, 0]), 0), 1);
    assert_eq!(next_batch(&sizes(&[28000, 0, 1, 2]), 0), 3);
    // Bytes count, not characters.
    assert_eq!(next_batch(&vec!["\u{e9}".repeat(14000), "xx".to_string()], 0), 1);
}

#[test]
fn one_embedding_for_each_text() {
    let first = begin(&["a", "b", "c", "d", "e"]);
    assert_eq!(sent(&first), strings(&["a", "b", "c", "d"]));
    let data = vec![vec![1, 1], vec![2, 2], vec![3, 3], vec![4, 4]];
    let (step, notice) = resume(first, EmbedReply::Answered(data));
    assert_eq!(notice, None);
    let second = run(step);
    assert_eq!(sent(&second), strings(&["e"]));
    let (step, notice) = resume(second, EmbedReply::Answered(vec![vec![5, 5]]));
    assert_eq!(notice, None);
    assert_eq!(done(step), vec![vec![1, 1], vec![2, 2], vec![3, 3], vec![4, 4], vec![5, 5]]);
}

#[test]
fn replies_that_do_not_fit_fail() {
    let fail = |reply: EmbedReply<i32>| failed(resume(begin(&["a", "b"]), reply).0);
    assert_eq!(
        fail(EmbedReply::NotSent("down".to_string())),
        "Embedding request failed: down"
    );
    assert_eq!(
        fail(EmbedReply::Unreadable("bad".to_string())),
        "Failed to parse embedding response: bad"
    );
    assert_eq!(
        fail(EmbedReply::Answered(vec![vec![1, 1]])),
        "Expected 2 embeddings, got 1"
    );
    assert_eq!(
        fail(EmbedReply::Answered(vec![vec![1, 1], vec![1, 2, 3]])),
        "Expected 2-dim embedding, got 3"
    );
    assert_eq!(
        fail(refused(500, "oops")),
        "Embedding API returned HTTP 500 Internal Server Error: oops"
    );
    // Only a text that was sent alone is skipped.
    assert_eq!(
        fail(refused(500, "tokens exceed")),
        "Embedding API returned HTTP 500 Internal Server Error: tokens exceed"
    );
    let long = "y".repeat(600);
    let cut = "y".repeat(500);
    assert_eq!(
        fail(refused(502, &long)),
        format!("Embedding API returned HTTP 502 Bad Gateway: {}", cut)
    );
    // A bad request for one text.
    assert_eq!(
        failed(resume(begin(&["a"]), refused(400, "no")).0),
        "Embedding API returned HTTP 400 Bad Request: no"
    );
}

#[test]
fn refused_texts_repeat_the_status() {
    assert_eq!(
        embed_refusal("500 Oops", &"y".repeat(501)),
        format!("Embedding API returned HTTP 500 Oops: {}", "y".repeat(500))
    );
}

#[test]
fn text_that_is_too_long_is_skipped() {
    let (step, notice) = resume(begin(&["h\u{e9}"]), refused(500, "tokens exceed the limit"));
    assert_eq!(notice, Some("  \u{26a0}\u{fe0f} Skipping oversized chunk (3 chars)".to_string()));
    assert_eq!(done(step), vec![vec![0, 0]]);
}

#[test]
fn batch_that_is_too_long_is_sent_one_by_one() {
    let (step, notice) = resume(begin(&["a", "bb", "c", "d", "e"]), refused(400, "too long"));
    assert_eq!(notice, None);
    let r = run(step);
    assert_eq!(sent(&r), strings(&["a"]));
    // Of a text that is sent alone the dimensions are taken as they are.
    let (step, notice) = resume(r, EmbedReply::Answered(vec![vec![7], vec![8]]));
    assert_eq!(notice, None);
    let r = run(step);
    assert_eq!(sent(&r), strings(&["bb"]));
    let start = "  \u{26a0}\u{fe0f} Skipping oversized chunk (";
    let (step, notice) = resume(r, refused(400, &"z".repeat(201)));
    assert_eq!(notice, Some(format!("{}2 chars): {}", start, "z".repeat(200))));
    let (step, notice) = resume(run(step), EmbedReply::NotSent("down".to_string()));
    assert_eq!(notice, Some(format!("{}1 chars): Embedding request failed: down", start)));
    let r = run(step);
    assert_eq!(sent(&r), strings(&["d"]));
    let (step, notice) = resume(r, EmbedReply::Answered(vec![]));
    assert_eq!(notice, Some(format!("{}1 chars): Empty response", start)));
    // Then the next batch.
    let r = run(step);
    assert_eq!(sent(&r), strings(&["e"]));
    let (step, _) = resume(r, EmbedReply::Answered(vec![vec![9, 9]]));
    assert_eq!(done(step), vec![vec![7], vec![0, 0], vec![0, 0], vec![0, 0], vec![9, 9]]);
}

#[test]
fn unreadable_reply_to_a_single_text_skips_it() {
    let (step, _) = resume(begin(&["a", "b"]), refused(400, ""));
    let (step, notice) = resume(run(step), EmbedReply::Unreadable("bad json".to_string()));
    assert_eq!(
        notice,
        Some("  \u{26a0}\u{fe0f} Skipping oversized chunk (1 chars): bad json".to_string())
    );
    let (step, _) = resume(run(step), EmbedReply::Answered(vec![vec![1, 2]]));
    assert_eq!(done(step), vec![vec![0, 0], vec![1, 2]]);
}

#[test]
fn replies_that_cannot_be_cut_cannot_be_taken() {
    let answer = format!("{}\u{e9}", "x".repeat(499));
    assert!(!begin(&["a"]).can_resume(&refused(500, &answer)));
    assert!(begin(&["a", "b"]).can_resume(&refused(400, &answer)));
    assert!(begin(&["a"]).can_resume(&refused(500, &format!("exceed{}", answer))));
    assert!(!begin(&["a"]).can_resume(&refused(200, "")));
    assert!(!begin(&["a"]).can_resume(&refused(99, "")));
    assert!(!begin(&["a"]).can_resume(&refused(1000, "")));
    let (step, _) = resume(begin(&["a", "b"]), refused(400, ""));
    let answer = format!("{}\u{e9}", "x".repeat(199));
    assert!(!run(step).can_resume(&refused(500, &answer)));
}

#[test]
fn single_text_has_one_embedding() {
    let r = run(embedder().embed_single("one", 0));
    assert_eq!(sent(&r), strings(&["one"]));
    let (step, _) = resume(r, EmbedReply::Answered(vec![vec![3, 4]]));
    assert_eq!(only_embedding(done(step)), Ok(vec![3, 4]));
    let none: Vec<Vec<i32>> = vec![];
    assert_eq!(only_embedding(none), Err("Empty response from embedding API".to_string()));
}
