use rush_qdrant::audit::{
    audit_header, audit_report, is_audited, is_audited_as, order_entries, sample_files, shown_path,
    AuditEntry,
};
use rush_qdrant::crawl::{CrawlStats, FoundFile};
use rush_qdrant::dump::{dump_header, dumped_name, list_chunks, visualize_chunks, DumpedChunk};
use rush_qdrant::watcher::{has_wanted, is_change, reindex_report, ChangeKind, Debounce};

const SECOND: u128 = 1_000_000_000;

fn files(paths: &[&str]) -> Vec<FoundFile> {
    paths.iter().map(|p| FoundFile { path: p.to_string(), skip: p.contains("skip") }).collect()
}

fn stats(new_files: usize, changed_files: usize, deleted_files: usize) -> CrawlStats {
    CrawlStats { new_files, changed_files, unchanged_files: 9, deleted_files, chunks_ingested: 7 }
}

fn chunk(text: &str, start_line: usize, end_line: usize) -> DumpedChunk {
    DumpedChunk {
        text: text.to_string(),
        start_line,
        end_line,
        breadcrumb: "a > b".to_string(),
    }
}

fn audited(report: &str, rank: i64) -> AuditEntry {
    AuditEntry { report: report.to_string(), path: format!("{}.ts", report), rank }
}

#[test]
fn changes_are_creations_modifications_and_removals() {
    assert!(is_change(ChangeKind::Created));
    assert!(is_change(ChangeKind::Modified));
    assert!(is_change(ChangeKind::Removed));
    assert!(!is_change(ChangeKind::Other));
}

#[test]
fn changes_matter_for_files_that_are_indexed() {
    assert!(has_wanted(&files(&["a.rs", "b.TS"])));
    assert!(!has_wanted(&files(&["a.rs", "skip/b.ts"])));
    assert!(!has_wanted(&files(&[])));
}

#[test]
fn directory_is_indexed_again_when_it_is_quiet() {
    let mut d = Debounce::new(0);
    assert!(!d.is_due(10 * SECOND));
    d.note(&files(&["a.rs"]), SECOND);
    assert!(!d.is_due(10 * SECOND));
    d.note(&files(&["a.ts"]), SECOND);
    assert!(!d.is_due(3 * SECOND - 1));
    assert!(d.is_due(3 * SECOND));
    // Another change starts the wait anew; one that does not matter does not.
    d.note(&files(&["a.ts"]), 2 * SECOND);
    d.note(&files(&["a.rs"]), 3 * SECOND);
    assert!(!d.is_due(4 * SECOND - 1));
    assert!(d.is_due(4 * SECOND));
    d.settle();
    assert!(!d.is_due(100 * SECOND));
    d.note(&files(&["a.ts"]), 100 * SECOND);
    assert!(d.is_due(102 * SECOND));
}

#[test]
fn reindexing_is_reported() {
    assert_eq!(
        reindex_report("01:02:03", "c", &stats(1, 2, 3)),
        "[01:02:03] Re-indexed 'c': 1 new, 2 changed, 3 deleted (7 chunks)"
    );
    assert_eq!(
        reindex_report("01:02:03", "c", &stats(0, 0, 1)),
        "[01:02:03] Re-indexed 'c': 0 new, 0 changed, 1 deleted (7 chunks)"
    );
    assert_eq!(
        reindex_report("01:02:03", "c", &stats(0, 0, 0)),
        "[01:02:03] No indexable changes in 'c'"
    );
}

#[test]
fn dump_has_a_header() {
    assert_eq!(
        dump_header("a.ts", false),
        "📦 Chunks for: a.ts\n🔍 Strict mode: AST-only (fallback disabled)\n\n"
    );
    assert_eq!(dump_header("a.ts", true), "📦 Chunks for: a.ts\n\n");
}

#[test]
fn chunks_are_shown_in_their_source() {
    let chunks = vec![chunk("\u{e9}", 1, 2), chunk("xyz", 0, 0), chunk("", 3, 9)];
    assert_eq!(
        visualize_chunks("one\ntwo\r\nthree", &chunks, "87.5", 200, 3),
        [
            "-- [CHUNK 1] [2 lines] [2 chars] --\none\ntwo\n\n",
            "-- [CHUNK 2] [1 lines] [3 chars] --\n\n",
            "-- [CHUNK 3] [7 lines] [0 chars] --\nthree\n\n",
            "=== QUALITY SCORE ===\nScore: 87.5%  Chunks: 3  Small (<200): 3\n",
        ]
        .join("")
    );
}

#[test]
fn chunks_are_listed() {
    let chunks = vec![chunk("1\n2\n3\n4\n5\n6", 1, 6), chunk("1\n2\n3\n4\n5\n", 7, 11)];
    assert_eq!(
        list_chunks(&chunks, 6000, "90.0"),
        [
            "Total chunks: 2  Target: 6000 chars\n\n",
            "━━━ Chunk 1 ━━━  11 chars  Lines 1-6  a > b\n",
            "  1\n  2\n  3\n  4\n  5\n  ...\n\n",
            "━━━ Chunk 2 ━━━  10 chars  Lines 7-11  a > b\n",
            "  1\n  2\n  3\n  4\n  5\n\n",
            "Quality: 90.0%\n",
        ]
        .join("")
    );
    assert_eq!(
        list_chunks(&vec![], 1, "0.0"),
        "Total chunks: 0  Target: 1 chars\n\nQuality: 0.0%\n"
    );
}

#[test]
fn typescript_files_are_audited() {
    assert!(is_audited("/a/b.ts"));
    assert!(is_audited("/a/b.d.ts"));
    assert!(!is_audited("/a/b.tsx"));
    assert!(!is_audited("/a/b.TS"));
    assert!(!is_audited("/a/.ts"));
    assert!(!is_audited("/a/b.ts/.."));
    assert!(is_audited("/a/b.ts/"));
    assert!(!is_audited("/a/node_modules/b.ts"));
    assert!(!is_audited("/a/my_node_modules_x/b.ts"));
}

#[test]
fn name_and_path_decide_what_is_audited() {
    assert!(is_audited_as(Some("b.ts"), "C:\\a\\b.ts"));
    assert!(!is_audited_as(Some("b.js"), "/a/b.ts"));
    assert!(!is_audited_as(None, "/a/b.ts"));
    assert!(!is_audited_as(Some("b.ts"), "/node_modules/b.ts"));
    assert!(is_audited("/a:x/b.ts"));
}

#[test]
fn names_have_defaults() {
    assert_eq!(dumped_name(Some("a.ts")), "a.ts");
    assert_eq!(dumped_name(None), "unknown.ts");
    assert_eq!(shown_path(Some("b.ts"), "/a/b.ts"), "b.ts");
    assert_eq!(shown_path(None, "/a/b.ts"), "/a/b.ts");
}

#[test]
fn sample_has_no_file_twice() {
    assert_eq!(sample_files(0, 5), Err("No TypeScript files found".to_string()));
    for (count, amount) in [(1usize, 0usize), (10, 3), (3, 10), (50, 50)] {
        let mut sample = sample_files(count, amount).unwrap();
        assert_eq!(sample.len(), count.min(amount));
        assert!(sample.iter().all(|i| *i < count));
        sample.sort();
        sample.dedup();
        assert_eq!(sample.len(), count.min(amount));
    }
}

#[test]
fn samples_are_left_to_chance() {
    let all: Vec<usize> = (0..1000).collect();
    assert!((0..20).any(|_| sample_files(1000, 10).unwrap() != all[..10].to_vec()));
}

#[test]
fn entries_are_ordered_by_rank() {
    let entries = vec![audited("a", 5), audited("b", -1), audited("c", 5), audited("d", 0)];
    assert_eq!(order_entries(&entries), vec![1, 3, 0, 2]);
    assert_eq!(audit_report(&entries), "1. b b.ts\n2. d d.ts\n3. a a.ts\n4. c c.ts\n");
    assert_eq!(audit_report(&vec![]), "");
}

#[test]
fn audit_has_a_header() {
    assert_eq!(audit_header(20, "/d"), "📊 Sampling 20 TypeScript files from: /d\n\n");
}
