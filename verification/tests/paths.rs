use rush_qdrant::catalog::{
    branch_in, catalog_name, catalog_name_from_path, chrono_timestamp, current_branch,
    detect_catalog_type, get_api_token, get_api_url, resolve_catalog_type,
};
use rush_qdrant::paths::{extension, is_text_file, names_text, parent_name, relative_path};

#[test]
fn text_files_are_known_by_their_extension() {
    for ext in [
        "ts", "tsx", "js", "jsx", "md", "mdx", "json", "yaml", "yml", "txt", "rst", "toml", "ini",
        "conf",
    ] {
        assert!(is_text_file(&format!("/a/b.{}", ext)), "{}", ext);
        assert!(names_text(&format!(".{}", ext)), "{}", ext);
        assert!(!is_text_file(&format!("/a/b{}", ext)), "{}", ext);
    }
    assert!(is_text_file("README.MD"));
    assert!(is_text_file("CONFIG.Json"));
    assert!(!names_text("CONFIG.JSON"));
    assert!(!is_text_file("main.rs"));
    assert!(!is_text_file("a.ts.bak"));
    assert!(!is_text_file(""));
    // The Kelvin sign lowers to a plain letter.
    assert!(!is_text_file("a.\u{212a}"));
}

#[test]
fn letter_case_does_not_matter() {
    for path in ["/a/B.ts", "/A/b.JsOn", "X.rs", "README.Md", "no_extension", "/\u{e9}t\u{e9}/a.TS"] {
        let expected = is_text_file(path);
        assert_eq!(is_text_file(&path.to_ascii_uppercase()), expected, "{}", path);
        assert_eq!(is_text_file(&path.to_lowercase()), expected, "{}", path);
    }
    assert!(is_text_file("/\u{391}\u{3a3}/\u{130}.CONF"));
    assert!(is_text_file("\u{391}\u{3a3}.Yml"));
}

#[test]
fn extension_decides_whatever_stands_in_front() {
    assert!(names_text("x.ts"));
    assert!(names_text("/some/where/x.ts"));
}

#[test]
fn paths_are_seen_from_the_directory() {
    assert_eq!(relative_path("/r/a/b.ts", "/r"), "a/b.ts");
    assert_eq!(relative_path("/r/a/b.ts", "/r/"), "a/b.ts");
    assert_eq!(relative_path("/other/b.ts", "/r"), "other/b.ts");
    assert_eq!(relative_path("/repo2/b.ts", "/repo"), "2/b.ts");
    assert_eq!(relative_path("/r///a", "/r"), "a");
    assert_eq!(relative_path("C:\\r\\a", "C:\\r"), "a");
    assert_eq!(relative_path("/r\\/a", "/r"), "/a");
}

#[test]
fn directory_of_a_file_has_a_name() {
    let name = |p: &str| parent_name(p);
    let some = |s: &str| Some(s.to_string());
    assert_eq!(name("/a/b/c.ts"), some("b"));
    assert_eq!(name("b/c.ts"), some("b"));
    assert_eq!(name("/c.ts"), None);
    assert_eq!(name("c.ts"), None);
    assert_eq!(name(""), None);
    assert_eq!(name("/a//b/./c.ts"), some("b"));
    assert_eq!(name("a/../c.ts"), None);
    assert_eq!(name("./c.ts"), None);
    assert_eq!(name("/a/b/"), some("a"));
    assert_eq!(name("/a/b/."), some("a"));
    assert_eq!(name("/a:b/c:d/e.ts"), some("c:d"));
    assert_eq!(name("ab:c/e.ts"), some("ab:c"));
}

#[test]
fn extension_follows_the_last_dot() {
    let some = |s: &str| Some(s.to_string());
    assert_eq!(extension("a.ts"), some("ts"));
    assert_eq!(extension("a.d.ts"), some("ts"));
    assert_eq!(extension(".ts"), None);
    assert_eq!(extension("a"), None);
    assert_eq!(extension("a."), some(""));
    assert_eq!(extension("..ts"), some("ts"));
}

#[test]
fn address_and_token_of_the_index() {
    assert_eq!(get_api_url(None), "https://code-index.mcp.pape.house");
    assert_eq!(get_api_url(Some("http://x".to_string())), "http://x");
    let s = |t: &str| Some(t.to_string());
    assert_eq!(get_api_token(s(" t "), s("u")), Ok(" t ".to_string()));
    assert_eq!(get_api_token(None, s(" u\n")), Ok("u".to_string()));
    assert_eq!(
        get_api_token(None, None),
        Err("No API token found. Set CODE_INDEX_TOKEN env var or write token to ~/.config/rush-qdrant/token".to_string())
    );
}

#[test]
fn branch_that_git_printed() {
    assert_eq!(branch_in("feature/x\n"), "feature/x");
    assert_eq!(branch_in("HEAD\n"), "main");
    assert_eq!(branch_in(" \n"), "main");
    assert_eq!(current_branch(None), "main");
    assert_eq!(current_branch(Some(b"dev\n".to_vec())), "dev");
    assert_eq!(current_branch(Some(vec![b'd', 0xff, b'\n'])), "d\u{fffd}");
}

#[test]
fn kind_of_a_directory() {
    assert_eq!(detect_catalog_type(true), "monorepo");
    assert_eq!(detect_catalog_type(false), "folder");
    assert_eq!(resolve_catalog_type("auto".to_string(), true), "monorepo");
    assert_eq!(resolve_catalog_type("folder".to_string(), true), "folder");
    assert_eq!(resolve_catalog_type("other".to_string(), false), "other");
}

#[test]
fn name_of_a_catalog() {
    let name = |path: &str, origin: Option<&str>| {
        catalog_name_from_path(path, origin.map(|o| o.as_bytes().to_vec()))
    };
    assert_eq!(name("/home/me/dir", Some("https://host/owner/repo.git\n")), "repo");
    assert_eq!(name("/home/me/dir", Some("git@host:owner/repo.git\n")), "repo");
    assert_eq!(name("/home/me/dir", Some("https://host/owner/repo\n")), "repo");
    assert_eq!(name("/home/me/dir", Some("https://host/owner/repo.git.git")), "repo");
    assert_eq!(name("/home/me/dir", Some("https://host/owner/")), "dir");
    assert_eq!(name("/home/me/dir", Some("\n")), "dir");
    assert_eq!(name("/home/me/dir", None), "dir");
    assert_eq!(name("/home/me/dir/", None), "dir");
    assert_eq!(name("/home/me/a:b", None), "a:b");
    assert_eq!(name("/", None), "unknown");
    assert_eq!(name("/a/..", None), "unknown");
    assert_eq!(catalog_name(Some(".git"), Some("b")), "b");
    assert_eq!(catalog_name(None, None), "unknown");
}

#[test]
fn repository_names_hold_no_slash() {
    assert!(!catalog_name(Some("a/b/c/d.git"), None).contains('/'));
}

#[test]
fn time_of_day_is_printed() {
    assert_eq!(chrono_timestamp(0), "00:00:00");
    assert_eq!(chrono_timestamp(3661), "01:01:01");
    assert_eq!(chrono_timestamp(86399), "23:59:59");
    assert_eq!(chrono_timestamp(86400), "00:00:00");
    assert_eq!(chrono_timestamp(1_700_000_000), "22:13:20");
}
