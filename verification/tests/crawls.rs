use rush_qdrant::api_client::{ApiClient, Chunk, FileSyncInfo, Method};
use rush_qdrant::catalog::CatalogConfig;
use rush_qdrant::crawl::{
    content_hash, done_report, folder_package_name, hex_text, initial_report, is_up_to_date, is_wanted, remove_marks, select_files, Crawl,
    CrawlAction, CrawlEvent, CrawlStats, CrawlStep, FoundFile, PackageName,
};
use rush_qdrant::json::Json;

const EMPTY: &str = "sha256:e3b0c44298fc1c149afbf4c8996fb92427ae41e4649b934ca495991b7852b855";
const ABC: &str = "sha256:ba7816bf8f01cfea414140de5dae2223b00361a396177a9cb410ff61f20015ad";

fn found(path: &str, skip: bool) -> FoundFile {
    FoundFile { path: path.to_string(), skip }
}

fn entry(path: &str, hash: &str, file_complete: bool) -> (String, FileSyncInfo) {
    (path.to_string(), FileSyncInfo { content_hash: hash.to_string(), file_complete })
}

fn config(kind: &str) -> CatalogConfig {
    CatalogConfig { catalog_type: kind.to_string(), path: "/r".to_string() }
}

fn go(step: CrawlStep) -> Crawl {
    match step {
        CrawlStep::Go(crawl) => crawl,
        CrawlStep::Done(_) => panic!("done"),
        CrawlStep::Failed(e) => panic!("{}", e),
    }
}

fn numbers(step: CrawlStep) -> [usize; 5] {
    match step {
        CrawlStep::Done(s) => counted(&s),
        _ => panic!("not done"),
    }
}

fn counted(s: &CrawlStats) -> [usize; 5] {
    [s.new_files, s.changed_files, s.unchanged_files, s.deleted_files, s.chunks_ingested]
}

fn reads(crawl: &Crawl) -> String {
    match crawl.action() {
        CrawlAction::Read { path } => path,
        _ => panic!("reads nothing"),
    }
}

fn deletes(crawl: &Crawl) -> String {
    match crawl.action() {
        CrawlAction::Delete { relative_path } => relative_path,
        _ => panic!("deletes nothing"),
    }
}

/// The path that is cut and the name of its package; none where it is looked up.
fn cuts(crawl: &Crawl) -> (String, Option<String>) {
    match crawl.action() {
        CrawlAction::Chunk { path, package, target_size } => {
            assert_eq!(target_size, 6000);
            match package {
                PackageName::Lookup => (path, None),
                PackageName::Named(name) => (path, Some(name)),
            }
        }
        _ => panic!("cuts nothing"),
    }
}

fn content(text: &str) -> CrawlEvent {
    CrawlEvent::Content(Some(text.to_string()))
}

fn chunk(breadcrumb: &str) -> Chunk {
    Chunk {
        catalog: "c".to_string(),
        file_id: "f".to_string(),
        relative_path: "a.ts".to_string(),
        content_hash: ABC.to_string(),
        text: "abc".to_string(),
        source_uri: "u".to_string(),
        source_type: "t".to_string(),
        start_line: 1,
        end_line: 1,
        symbol_name: None,
        chunk_type: "k".to_string(),
        chunk_kind: "d".to_string(),
        breadcrumb: breadcrumb.to_string(),
        chunk_number: 1,
        chunk_count: 1,
    }
}

#[test]
fn digests_are_written_in_hexadecimal() {
    assert_eq!(hex_text(&vec![0, 15, 16, 255, 160]), "000f10ffa0");
    assert_eq!(hex_text(&vec![]), "");
    assert_eq!(content_hash(""), EMPTY);
    assert_eq!(content_hash("abc"), ABC);
}

#[test]
fn index_is_up_to_date_with_complete_files() {
    assert!(is_up_to_date(&entry("a", ABC, true).1, ABC));
    assert!(!is_up_to_date(&entry("a", ABC, false).1, ABC));
    assert!(!is_up_to_date(&entry("a", EMPTY, true).1, ABC));
}

#[test]
fn files_are_selected() {
    assert!(is_wanted(&found("/r/a.TS", false)));
    assert!(!is_wanted(&found("/r/a.ts", true)));
    assert!(!is_wanted(&found("/r/a.rs", false)));
    let files = vec![
        found("/r/b.md", false),
        found("/r/x.png", false),
        found("/r/node_modules/a.ts", true),
        found("/r/s/a.ts", false),
    ];
    let selected = select_files(&files, "/r");
    let pairs: Vec<(&str, &str)> =
        selected.iter().map(|f| (f.path.as_str(), f.relative.as_str())).collect();
    assert_eq!(pairs, vec![("/r/b.md", "b.md"), ("/r/s/a.ts", "s/a.ts")]);
}

#[test]
fn marks_are_removed_from_breadcrumbs() {
    let r = remove_marks(vec![chunk("a:[fallback-split] > b:[fallback-split]"), chunk("plain")]);
    assert_eq!(r[0].breadcrumb, "a > b");
    assert_eq!(r[1].breadcrumb, "plain");
    assert_eq!(r[0].text, "abc");
    assert_eq!(r[0].relative_path, "a.ts");
}

#[test]
fn empty_crawl_is_done() {
    assert_eq!(numbers(Crawl::start("c", &config("folder"), &vec![], vec![])), [0, 0, 0, 0, 0]);
}

#[test]
fn new_file_is_ingested() {
    let files = vec![found("/r/s/a.ts", false)];
    let c = go(Crawl::start("c", &config("folder"), &files, vec![]));
    assert_eq!(reads(&c), "/r/s/a.ts");
    let c = go(c.resume(content("abc")));
    assert_eq!(cuts(&c), ("/r/s/a.ts".to_string(), Some("s".to_string())));
    assert_eq!(counted(&c.counts()), [1, 0, 0, 0, 0]);
    let c = go(c.resume(CrawlEvent::Chunked(Ok(vec![chunk("x:[fallback-split]"), chunk("y")]))));
    assert!(matches!(c.action(), CrawlAction::Ingest));
    assert_eq!(c.chunks().len(), 2);
    assert_eq!(c.chunks()[0].breadcrumb, "x");
    assert_eq!(numbers(c.resume(CrawlEvent::Ingested(Ok(2)))), [1, 0, 0, 0, 2]);
}

#[test]
fn packages_of_a_monorepo_are_looked_up() {
    let files = vec![found("/r/s/a.ts", false)];
    let c = go(Crawl::start("c", &config("monorepo"), &files, vec![]));
    let c = go(c.resume(content("abc")));
    assert_eq!(cuts(&c), ("/r/s/a.ts".to_string(), None));
    // A file without a directory is in the package of its catalog.
    let c = go(Crawl::start("c", &config("other"), &vec![found("a.ts", false)], vec![]));
    let c = go(c.resume(content("abc")));
    assert_eq!(cuts(&c), ("a.ts".to_string(), Some("c".to_string())));
}

#[test]
fn packages_of_a_folder_are_named_by_directories() {
    assert_eq!(folder_package_name(Some("s"), "c"), "s");
    assert_eq!(folder_package_name(None, "c"), "c");
    let c = go(Crawl::start("c", &config("folder"), &vec![found("/r/x:y/a.ts", false)], vec![]));
    let c = go(c.resume(content("abc")));
    assert_eq!(cuts(&c), ("/r/x:y/a.ts".to_string(), Some("x:y".to_string())));
}

#[test]
fn crawl_asks_the_index() {
    let client = ApiClient::new("http://host", "t");
    let listing = vec![entry("a b.ts", EMPTY, true), entry("x.ts", ABC, true)];
    let c = go(Crawl::start("cat", &config("folder"), &vec![found("/r/a b.ts", false)], listing));
    assert!(c.request(&client, "dev").is_none());
    let c = go(c.resume(content("abc")));
    let r = c.request(&client, "dev").unwrap();
    assert!(r.method == Method::Delete && r.body.is_none());
    assert_eq!(r.url, "http://host/v1/files/cat/a%20b.ts");
    let c = go(c.resume(CrawlEvent::Deleted(Ok(()))));
    assert!(c.request(&client, "dev").is_none());
    let c = go(c.resume(CrawlEvent::Chunked(Ok(vec![chunk("x")]))));
    let r = c.request(&client, "dev").unwrap();
    assert!(r.method == Method::Post);
    assert_eq!(r.url, "http://host/v1/ingest");
    let body = r.body.unwrap();
    assert_eq!(body.get("label").and_then(|v| v.as_text()), Some("dev"));
    assert_eq!(body.get("relative_path").and_then(|v| v.as_text()), Some("a.ts"));
    assert!(matches!(body.get("chunks"), Some(Json::List(items)) if items.len() == 1));
    let c = go(c.resume(CrawlEvent::Ingested(Ok(1))));
    let r = c.request(&client, "dev").unwrap();
    assert_eq!(r.url, "http://host/v1/files/cat/x.ts");
    // Where there are no chunks, nothing is asked.
    let c = go(Crawl::start("cat", &config("folder"), &vec![found("/r/a.ts", false)], vec![]));
    let c = go(c.resume(content("abc")));
    let c = go(c.resume(CrawlEvent::Chunked(Ok(vec![]))));
    assert!(c.request(&client, "dev").is_none());
}

#[test]
fn events_come_of_actions() {
    let c = go(Crawl::start("c", &config("folder"), &vec![found("/r/a.ts", false)], vec![]));
    assert!(c.can_resume(&CrawlEvent::Content(None)));
    assert!(!c.can_resume(&CrawlEvent::Deleted(Ok(()))));
    assert!(!c.can_resume(&CrawlEvent::Chunked(Ok(vec![]))));
    assert!(!c.can_resume(&CrawlEvent::Ingested(Ok(0))));
    let c = go(c.resume(content("abc")));
    assert!(c.can_resume(&CrawlEvent::Chunked(Err("no".to_string()))));
    assert!(!c.can_resume(&CrawlEvent::Content(None)));
    let c = go(c.resume(CrawlEvent::Chunked(Ok(vec![chunk("x")]))));
    assert!(c.can_resume(&CrawlEvent::Ingested(Ok(usize::MAX))));
    assert!(c.can_resume(&CrawlEvent::Ingested(Err("down".to_string()))));
    let files = vec![found("/r/a.ts", false), found("/r/b.ts", false)];
    let c = go(Crawl::start("c", &config("folder"), &files, vec![]));
    let c = go(c.resume(content("abc")));
    let c = go(c.resume(CrawlEvent::Chunked(Ok(vec![chunk("x")]))));
    let c = go(c.resume(CrawlEvent::Ingested(Ok(usize::MAX))));
    let c = go(c.resume(content("abc")));
    let c = go(c.resume(CrawlEvent::Chunked(Ok(vec![chunk("x")]))));
    assert!(c.can_resume(&CrawlEvent::Ingested(Ok(0))));
    assert!(!c.can_resume(&CrawlEvent::Ingested(Ok(1))));
}

#[test]
fn counts_are_reported() {
    let stats = CrawlStats {
        new_files: 1,
        changed_files: 2,
        unchanged_files: 3,
        deleted_files: 4,
        chunks_ingested: 50,
    };
    assert_eq!(
        done_report(&stats),
        "Done: 1 new, 2 changed, 3 unchanged, 4 deleted (50 chunks ingested)"
    );
    assert_eq!(
        initial_report(&stats),
        "  1 new, 2 changed, 3 unchanged, 4 deleted (50 chunks)"
    );
}

#[test]
fn counts_add_up() {
    let files: Vec<FoundFile> =
        ["new", "same", "changed", "locked"].iter().map(|n| found(&format!("/r/{}.ts", n), false)).collect();
    let listing = vec![
        entry("gone1.ts", ABC, true),
        entry("same.ts", ABC, true),
        entry("changed.ts", EMPTY, true),
        entry("gone2.ts", ABC, true),
        entry("locked.ts", ABC, true),
    ];
    let mut step = Crawl::start("c", &config("folder"), &files, listing);
    let mut read: Vec<String> = vec![];
    let mut deleted: Vec<String> = vec![];
    while let CrawlStep::Go(c) = step {
        let event = match c.action() {
            CrawlAction::Read { path } => {
                read.push(path.clone());
                if path == "/r/locked.ts" {
                    CrawlEvent::Content(None)
                } else {
                    content("abc")
                }
            }
            CrawlAction::Delete { relative_path } => {
                deleted.push(relative_path);
                CrawlEvent::Deleted(Ok(()))
            }
            CrawlAction::Chunk { .. } => CrawlEvent::Chunked(Ok(vec![chunk("x")])),
            CrawlAction::Ingest => CrawlEvent::Ingested(Ok(3)),
        };
        step = c.resume(event);
    }
    assert_eq!(read, vec!["/r/new.ts", "/r/same.ts", "/r/changed.ts", "/r/locked.ts"]);
    assert_eq!(deleted, vec!["changed.ts", "gone1.ts", "gone2.ts"]);
    assert_eq!(numbers(step), [1, 1, 1, 2, 6]);
}

#[test]
fn changed_file_is_replaced() {
    for listing in [vec![entry("a.ts", EMPTY, true)], vec![entry("a.ts", ABC, false)]] {
        let files = vec![found("/r/a.ts", false)];
        let c = go(Crawl::start("c", &config("folder"), &files, listing));
        let c = go(c.resume(content("abc")));
        assert_eq!(deletes(&c), "a.ts");
        assert_eq!(counted(&c.counts()), [0, 0, 0, 0, 0]);
        let c = go(c.resume(CrawlEvent::Deleted(Ok(()))));
        assert_eq!(counted(&c.counts()), [0, 1, 0, 0, 0]);
        let c = go(c.resume(CrawlEvent::Chunked(Ok(vec![]))));
        assert_eq!(numbers(c.resume(CrawlEvent::Ingested(Ok(0)))), [0, 1, 0, 0, 0]);
    }
}

#[test]
fn indexed_directory_is_left_alone() {
    let files = vec![found("/r/a.ts", false), found("/r/b.ts", false)];
    let listing = vec![entry("b.ts", EMPTY, true), entry("a.ts", ABC, true)];
    let c = go(Crawl::start("c", &config("folder"), &files, listing));
    let c = go(c.resume(content("abc")));
    assert_eq!(reads(&c), "/r/b.ts");
    assert_eq!(numbers(c.resume(content(""))), [0, 0, 2, 0, 0]);
}

#[test]
fn files_that_are_gone_are_cleared() {
    let files = vec![found("/r/a.ts", false)];
    let listing =
        vec![entry("x.ts", ABC, true), entry("a.ts", ABC, true), entry("y.ts", ABC, true)];
    let c = go(Crawl::start("c", &config("folder"), &files, listing));
    // A file that cannot be read stays in the index.
    let c = go(c.resume(CrawlEvent::Content(None)));
    assert_eq!(deletes(&c), "x.ts");
    let c = go(c.resume(CrawlEvent::Deleted(Ok(()))));
    assert_eq!(deletes(&c), "y.ts");
    assert_eq!(numbers(c.resume(CrawlEvent::Deleted(Ok(())))), [0, 0, 0, 2, 0]);
}

#[test]
fn deletion_that_fails_ends_the_crawl() {
    let begin = || {
        let files = vec![found("/r/a.ts", false)];
        go(Crawl::start("c", &config("folder"), &files, vec![entry("a.ts", EMPTY, true)]))
    };
    let c = go(begin().resume(content("abc")));
    let step = c.resume(CrawlEvent::Deleted(Err("Delete failed".to_string())));
    assert!(matches!(step, CrawlStep::Failed(e) if e == "Delete failed"));
    let c = go(Crawl::start("c", &config("folder"), &vec![], vec![entry("a.ts", EMPTY, true)]));
    let step = c.resume(CrawlEvent::Deleted(Err("Delete failed".to_string())));
    assert!(matches!(step, CrawlStep::Failed(e) if e == "Delete failed"));
}

#[test]
fn files_that_fail_are_passed_over() {
    let files = vec![found("/r/a.ts", false), found("/r/b.ts", false)];
    let c = go(Crawl::start("c", &config("folder"), &files, vec![]));
    let c = go(c.resume(content("abc")));
    let c = go(c.resume(CrawlEvent::Chunked(Err("no parser".to_string()))));
    assert_eq!(reads(&c), "/r/b.ts");
    let c = go(c.resume(content("abc")));
    let c = go(c.resume(CrawlEvent::Chunked(Ok(vec![chunk("x")]))));
    let step = c.resume(CrawlEvent::Ingested(Err("down".to_string())));
    assert_eq!(numbers(step), [2, 0, 0, 0, 0]);
}
