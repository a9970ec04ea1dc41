use rush_qdrant::selector::parse_view_selector;

fn parsed(spec: &str) -> (String, Option<usize>, Option<usize>) {
    parse_view_selector(spec)
}

fn expect(spec: &str, id: &str, start: Option<usize>, end: Option<usize>) {
    assert_eq!(parsed(spec), (id.to_string(), start, end), "{}", spec);
}

#[test]
fn identifier_alone_selects_everything() {
    expect("700a4ba232fe9ddc", "700a4ba232fe9ddc", None, None);
    expect("", "", None, None);
}

#[test]
fn one_chunk_is_selected() {
    expect("700a4ba232fe9ddc:3", "700a4ba232fe9ddc", Some(3), Some(3));
    expect("a:0", "a", Some(0), Some(0));
    expect("a:+7", "a", Some(7), Some(7));
    expect("a:007", "a", Some(7), Some(7));
}

#[test]
fn a_range_is_selected() {
    expect("700a4ba232fe9ddc:2-3", "700a4ba232fe9ddc", Some(2), Some(3));
    expect("a:2-3-4", "a", Some(2), Some(3));
}

#[test]
fn the_rest_is_selected() {
    expect("700a4ba232fe9ddc:3-end", "700a4ba232fe9ddc", Some(3), None);
    expect("a:1-2-end", "a", Some(1), None);
    expect("a:-end", "a", Some(1), None);
}

#[test]
fn what_is_no_number_gets_a_default() {
    expect("a:", "a", Some(1), Some(1));
    expect("a:x", "a", Some(1), Some(1));
    expect("a:x-5", "a", Some(1), Some(5));
    expect("a:4-x", "a", Some(4), Some(4));
    expect("a:4-", "a", Some(4), Some(4));
    expect("a:-4", "a", Some(1), Some(4));
    expect("a:99999999999999999999999", "a", Some(1), Some(1));
    expect("a:+", "a", Some(1), Some(1));
}

#[test]
fn only_the_first_colon_ends_the_identifier() {
    expect("a:b:3", "a", Some(1), Some(1));
    expect(":3", "", Some(3), Some(3));
    expect("\u{e9}:3", "\u{e9}", Some(3), Some(3));
}
