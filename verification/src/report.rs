//! The texts that the tools answer with.
use vstd::prelude::*;

use crate::api_client::{SearchResult, ViewChunk};
use crate::selector;
use crate::text;

verus! {

// ---------------------------------------------------------------------------
// Models
// ---------------------------------------------------------------------------

/// An optional text, or a default.
pub open spec fn text_or(s: Option<String>, default: Seq<char>) -> Seq<char> {
    match s {
        Some(t) => t@,
        None => default,
    }
}

/// An optional number, or zero.
pub open spec fn number_or_zero(n: Option<usize>) -> usize {
    match n {
        Some(v) => v,
        None => 0,
    }
}

/// Lines, each behind a mark and with a line feed at its end.
pub open spec fn quoted(lines: Seq<Seq<char>>) -> Seq<char>
    decreases lines.len(),
{
    if lines.len() == 0 {
        Seq::empty()
    } else {
        quoted(lines.drop_last()) + ("> "@ + lines.last() + "\n"@)
    }
}

/// The first `n` of some lines.
pub open spec fn at_most(lines: Seq<Seq<char>>, n: int) -> Seq<Seq<char>> {
    if lines.len() < n {
        lines
    } else {
        lines.take(n)
    }
}

/// How a found chunk is named: its file, a colon and its number.
pub open spec fn hit_name(r: SearchResult) -> Seq<char> {
    text_or(r.file_id, "?"@) + ":"@ + text::decimal(number_or_zero(r.chunk_number) as nat)
}

/// How a found chunk is reported: its name, score and breadcrumb, and up to three
/// lines of its text.
pub open spec fn hit_report(r: SearchResult) -> Seq<char> {
    let preview = match r.text {
        Some(t) => quoted(at_most(text::lines_of(t@), 3)),
        None => Seq::empty(),
    };
    hit_name(r) + "  "@ + r.score@ + "  "@ + text_or(r.breadcrumb, "unknown"@) + "\n"@ + preview
        + "\n"@
}

/// The reports of some chunks, one behind the other.
pub open spec fn hit_reports(results: Seq<SearchResult>) -> Seq<char>
    decreases results.len(),
{
    if results.len() == 0 {
        Seq::empty()
    } else {
        hit_reports(results.drop_last()) + hit_report(results.last())
    }
}

/// The answer to a search.
pub open spec fn search_report(results: Seq<SearchResult>) -> Seq<char> {
    if results.len() == 0 {
        "No results found.\n"@
    } else {
        hit_reports(results)
    }
}

/// Where a chunk comes from, where its catalog and its path are known.
pub open spec fn source_line(c: ViewChunk) -> Seq<char> {
    match (c.relative_path, c.catalog) {
        (Some(path), Some(catalog)) => "Source: "@ + catalog@ + ":"@ + path@ + "\n"@,
        _ => Seq::empty(),
    }
}

/// How a chunk of the file `file_id` is shown.
pub open spec fn chunk_report(file_id: Seq<char>, c: ViewChunk) -> Seq<char> {
    let number = text::decimal(number_or_zero(c.chunk_number) as nat);
    let count = text::decimal(number_or_zero(c.chunk_count) as nat);
    let start = text::decimal(number_or_zero(c.start_line) as nat);
    let end = text::decimal(number_or_zero(c.end_line) as nat);
    let body = match c.text {
        Some(t) => quoted(text::lines_of(t@)),
        None => Seq::empty(),
    };
    file_id + ":"@ + number + " ("@ + number + "/"@ + count + ") "@ + text_or(
        c.breadcrumb,
        "unknown"@,
    ) + "\n"@ + source_line(c) + "Lines: "@ + start + "-"@ + end + "\nType: "@ + text_or(
        c.chunk_type,
        "?"@,
    ) + "\n\n"@ + body + "\n"@
}

/// The chunks of a file, one behind the other.
pub open spec fn chunk_reports(file_id: Seq<char>, chunks: Seq<ViewChunk>) -> Seq<char>
    decreases chunks.len(),
{
    if chunks.len() == 0 {
        Seq::empty()
    } else {
        chunk_reports(file_id, chunks.drop_last()) + chunk_report(file_id, chunks.last())
    }
}

/// What one selector is answered: the chunks, that there are none, or why they could
/// not be had.
pub open spec fn selector_report(
    spec: Seq<char>,
    outcome: Result<Seq<ViewChunk>, Seq<char>>,
) -> Seq<char> {
    match outcome {
        Ok(chunks) => if chunks.len() == 0 {
            spec + " ERROR: CHUNK NOT FOUND\n\n"@
        } else {
            chunk_reports(selector::selected(spec).0, chunks)
        },
        Err(e) => spec + " ERROR: "@ + e + "\n\n"@,
    }
}

/// The view of what came of asking for chunks.
pub open spec fn view_of_chunks(outcome: Result<Vec<ViewChunk>, String>) -> Result<
    Seq<ViewChunk>,
    Seq<char>,
> {
    match outcome {
        Ok(chunks) => Ok(chunks@),
        Err(e) => Err(e@),
    }
}

// ---------------------------------------------------------------------------
// Texts
// ---------------------------------------------------------------------------

/// An optional text, or a default.
fn text_or_default(s: &Option<String>, default: &str) -> (r: String)
    ensures
        r@ == text_or(*s, default@),
{
    match s {
        Some(t) => t.clone(),
        None => default.to_owned(),
    }
}

/// The digits of an optional number, or of zero.
fn digits_or_zero(n: Option<usize>) -> (r: String)
    ensures
        r@ == text::decimal(number_or_zero(n) as nat),
{
    match n {
        Some(v) => text::number(v as u64),
        None => text::number(0),
    }
}

/// The first `n` lines of a text, or all of them, each behind a mark.
fn quote(source: &str, limit: Option<usize>) -> (r: String)
    ensures
        r@ == match limit {
            Some(n) => quoted(at_most(text::lines_of(source@), n as int)),
            None => quoted(text::lines_of(source@)),
        },
{
    let lines = text::lines(source);
    let ghost all = text::lines_of(source@);
    let n: usize = match limit {
        Some(l) => if l < lines.len() {
            l
        } else {
            lines.len()
        },
        None => lines.len(),
    };
    let mut r = String::new();
    let mut i: usize = 0;
    assert(all.len() == lines@.len());
    while i < n
        invariant
            i <= n <= lines@.len(),
            all == lines@.map_values(|l: String| l@),
            r@ == quoted(all.take(i as int)),
        decreases n - i,
    {
        let mut line = "> ".to_owned();
        line.append(lines[i].as_str());
        line.append("\n");
        r.append(line.as_str());
        proof {
            let upto = all.take(i + 1);
            assert(upto.drop_last() == all.take(i as int));
            assert(upto.last() == lines@[i as int]@);
        }
        i += 1;
    }
    assert(all.take(all.len() as int) == all);
    r
}

/// How a found chunk is reported.
fn report_hit(result: &SearchResult) -> (r: String)
    ensures
        r@ == hit_report(*result),
{
    let mut r = text_or_default(&result.file_id, "?");
    r.append(":");
    r.append(digits_or_zero(result.chunk_number).as_str());
    r.append("  ");
    r.append(result.score.as_str());
    r.append("  ");
    r.append(text_or_default(&result.breadcrumb, "unknown").as_str());
    r.append("\n");
    let preview = match &result.text {
        Some(t) => quote(t.as_str(), Some(3)),
        None => String::new(),
    };
    r.append(preview.as_str());
    r.append("\n");
    r
}

/// The answer to a search.
pub fn report_search(results: &Vec<SearchResult>) -> (r: String)
    ensures
        r@ == search_report(results@),
{
    if results.len() == 0 {
        return "No results found.\n".to_owned();
    }
    let mut r = String::new();
    let mut i: usize = 0;
    while i < results.len()
        invariant
            i <= results@.len(),
            r@ == hit_reports(results@.take(i as int)),
        decreases results@.len() - i,
    {
        r.append(report_hit(&results[i]).as_str());
        proof {
            let upto = results@.take(i + 1);
            assert(upto.drop_last() == results@.take(i as int));
            assert(upto.last() == results@[i as int]);
        }
        i += 1;
    }
    assert(results@.take(i as int) == results@);
    r
}

/// Where a chunk comes from.
fn report_source(c: &ViewChunk) -> (r: String)
    ensures
        r@ == source_line(*c),
{
    match (&c.relative_path, &c.catalog) {
        (Some(path), Some(catalog)) => {
            let mut r = "Source: ".to_owned();
            r.append(catalog.as_str());
            r.append(":");
            r.append(path.as_str());
            r.append("\n");
            r
        },
        _ => String::new(),
    }
}

/// How a chunk is shown.
fn report_chunk(file_id: &str, c: &ViewChunk) -> (r: String)
    ensures
        r@ == chunk_report(file_id@, *c),
{
    let number = digits_or_zero(c.chunk_number);
    let mut r = file_id.to_owned();
    r.append(":");
    r.append(number.as_str());
    r.append(" (");
    r.append(number.as_str());
    r.append("/");
    r.append(digits_or_zero(c.chunk_count).as_str());
    r.append(") ");
    r.append(text_or_default(&c.breadcrumb, "unknown").as_str());
    r.append("\n");
    r.append(report_source(c).as_str());
    r.append("Lines: ");
    r.append(digits_or_zero(c.start_line).as_str());
    r.append("-");
    r.append(digits_or_zero(c.end_line).as_str());
    r.append("\nType: ");
    r.append(text_or_default(&c.chunk_type, "?").as_str());
    r.append("\n\n");
    let body = match &c.text {
        Some(t) => quote(t.as_str(), None),
        None => String::new(),
    };
    r.append(body.as_str());
    r.append("\n");
    r
}

/// What one selector is answered.
pub fn report_selector(spec: &str, outcome: &Result<Vec<ViewChunk>, String>) -> (r: String)
    ensures
        r@ == selector_report(spec@, view_of_chunks(*outcome)),
{
    match outcome {
        Ok(chunks) => {
            if chunks.len() == 0 {
                let mut r = spec.to_owned();
                r.append(" ERROR: CHUNK NOT FOUND\n\n");
                return r;
            }
            let (file_id, _start, _end) = selector::parse_view_selector(spec);
            let mut r = String::new();
            let mut i: usize = 0;
            while i < chunks.len()
                invariant
                    i <= chunks@.len(),
                    r@ == chunk_reports(file_id@, chunks@.take(i as int)),
                decreases chunks@.len() - i,
            {
                r.append(report_chunk(file_id.as_str(), &chunks[i]).as_str());
                proof {
                    let upto = chunks@.take(i + 1);
                    assert(upto.drop_last() == chunks@.take(i as int));
                    assert(upto.last() == chunks@[i as int]);
                }
                i += 1;
            }
            assert(chunks@.take(i as int) == chunks@);
            r
        },
        Err(e) => {
            let mut r = spec.to_owned();
            r.append(" ERROR: ");
            r.append(e.as_str());
            r.append("\n\n");
            r
        },
    }
}

// ---------------------------------------------------------------------------
// Laws
// ---------------------------------------------------------------------------

/// The name under which a search reports a chunk selects that chunk: the file and the
/// one number.
pub proof fn law_hit_name_selects_the_hit(r: SearchResult)
    requires
        selector::plain_id(text_or(r.file_id, "?"@)),
    ensures
        selector::selected(hit_name(r)) == (
            text_or(r.file_id, "?"@),
            Some(number_or_zero(r.chunk_number)),
            Some(number_or_zero(r.chunk_number)),
        ),
        hit_name(r).is_prefix_of(hit_report(r)),
{
    selector::law_single_chunk(text_or(r.file_id, "?"@), number_or_zero(r.chunk_number));
    let report = hit_report(r);
    assert(report.subrange(0, hit_name(r).len() as int) == hit_name(r));
}

/// Every line is quoted, in its order, each behind `> ` and on a line of its own: one line
/// more adds just that line, and where no line holds a line feed or ends in a carriage
/// return, the lines of what is quoted are the lines, each behind the mark.
pub proof fn law_every_line_is_quoted(lines: Seq<Seq<char>>, line: Seq<char>)
    ensures
        quoted(Seq::empty()) == Seq::<char>::empty(),
        quoted(lines.push(line)) == quoted(lines) + "> "@ + line + "\n"@,
        (forall|i: int|
            0 <= i < lines.len() ==> !(#[trigger] lines[i]).contains('\n') && (lines[i].len() == 0
                || lines[i].last() != '\r')) ==> text::lines_of(quoted(lines))
            == lines.map_values(|l: Seq<char>| "> "@ + l),
{
    assert(lines.push(line).drop_last() == lines);
    assert(quoted(lines) + ("> "@ + line + "\n"@) == quoted(lines) + "> "@ + line + "\n"@);
    if forall|i: int|
        0 <= i < lines.len() ==> !(#[trigger] lines[i]).contains('\n') && (lines[i].len() == 0
            || lines[i].last() != '\r') {
        lemma_quoted_reads_back(lines);
    }
}

/// The first line is quoted in front of the others.
proof fn lemma_quoted_from_the_front(lines: Seq<Seq<char>>)
    requires
        lines.len() > 0,
    ensures
        quoted(lines) == ("> "@ + lines.first() + "\n"@) + quoted(lines.drop_first()),
    decreases lines.len(),
{
    let rest = lines.drop_first();
    let mark = "> "@ + lines.first() + "\n"@;
    if lines.len() == 1 {
        assert(lines.drop_last() == Seq::<Seq<char>>::empty());
        assert(rest == Seq::<Seq<char>>::empty());
        assert(quoted(lines.drop_last()) == Seq::<char>::empty());
        assert(Seq::<char>::empty() + mark == mark + Seq::<char>::empty());
    } else {
        let last = "> "@ + lines.last() + "\n"@;
        lemma_quoted_from_the_front(lines.drop_last());
        assert(lines.drop_last().drop_first() == rest.drop_last());
        assert(lines.drop_last().first() == lines.first());
        assert(rest.last() == lines.last());
        assert((mark + quoted(rest.drop_last())) + last == mark + (quoted(rest.drop_last())
            + last));
    }
}

proof fn lemma_quoted_reads_back(lines: Seq<Seq<char>>)
    requires
        forall|i: int|
            0 <= i < lines.len() ==> !(#[trigger] lines[i]).contains('\n') && (lines[i].len() == 0
                || lines[i].last() != '\r'),
    ensures
        text::lines_of(quoted(lines)) == lines.map_values(|l: Seq<char>| "> "@ + l),
    decreases lines.len(),
{
    let marked = lines.map_values(|l: Seq<char>| "> "@ + l);
    if lines.len() == 0 {
        text::law_lines_end_at_line_feeds(Seq::empty(), Seq::empty());
        assert(marked == Seq::<Seq<char>>::empty());
    } else {
        let rest = lines.drop_first();
        assert forall|i: int| 0 <= i < rest.len() implies !(#[trigger] rest[i]).contains('\n') && (
        rest[i].len() == 0 || rest[i].last() != '\r') by {
            assert(rest[i] == lines[i + 1]);
        }
        lemma_quoted_reads_back(rest);
        lemma_quoted_from_the_front(lines);
        reveal_strlit("> ");
        reveal_strlit("\n");
        let line = "> "@ + lines.first();
        assert(lines.first() == lines[0]);
        assert forall|i: int| 0 <= i < line.len() implies line[i] != '\n' by {
            if i >= 2 {
                assert(line[i] == lines[0][i - 2]);
                assert(lines[0].contains(lines[0][i - 2]));
            }
        }
        if lines[0].len() > 0 {
            assert(line.last() == lines[0].last());
        }
        text::law_lines_end_at_line_feeds(line, quoted(rest));
        assert(quoted(lines) == line.push('\n') + quoted(rest));
        assert(marked == seq![line] + rest.map_values(|l: Seq<char>| "> "@ + l));
    }
}

/// What is said of a chunk that has a text is what is said of it without one, and in its
/// last line but one every line of the text, quoted. Nothing of the text is left out.
pub proof fn law_chunk_is_shown_in_full(file_id: Seq<char>, c: ViewChunk)
    ensures
        ({
            let head = chunk_report(file_id, ViewChunk { text: None, ..c });
            &&& head.len() > 0 && head.last() == '\n'
            &&& c.text matches Some(t) ==> chunk_report(file_id, c) == head.drop_last() + quoted(
                text::lines_of(t@),
            ) + "\n"@
        }),
{
    reveal_strlit("\n");
    let bare = ViewChunk { text: None, ..c };
    let head = chunk_report(file_id, bare);
    let none = Seq::<char>::empty();
    if let Some(t) = c.text {
        let body = quoted(text::lines_of(t@));
        let front = head.drop_last();
        assert(source_line(bare) == source_line(c));
        assert(front + body + "\n"@ == chunk_report(file_id, c));
    }
}

/// What a chunk is headed with: its file and number twice, of how many, its breadcrumb;
/// where it comes from, where both catalog and path are known; its lines and its type.
pub proof fn law_chunk_is_headed(file_id: Seq<char>, c: ViewChunk)
    requires
        c.text is None,
    ensures
        ({
            let number = text::decimal(
                match c.chunk_number {
                    Some(n) => n as nat,
                    None => 0,
                },
            );
            let count = text::decimal(
                match c.chunk_count {
                    Some(n) => n as nat,
                    None => 0,
                },
            );
            let start = text::decimal(
                match c.start_line {
                    Some(n) => n as nat,
                    None => 0,
                },
            );
            let end = text::decimal(
                match c.end_line {
                    Some(n) => n as nat,
                    None => 0,
                },
            );
            let breadcrumb = match c.breadcrumb {
                Some(b) => b@,
                None => "unknown"@,
            };
            let kind = match c.chunk_type {
                Some(k) => k@,
                None => "?"@,
            };
            let source = if c.relative_path is Some && c.catalog is Some {
                "Source: "@ + c.catalog->Some_0@ + ":"@ + c.relative_path->Some_0@ + "\n"@
            } else {
                ""@
            };
            chunk_report(file_id, c) == file_id + ":"@ + number + " ("@ + number + "/"@ + count
                + ") "@ + breadcrumb + "\n"@ + source + "Lines: "@ + start + "-"@ + end
                + "\nType: "@ + kind + "\n\n"@ + "\n"@
        }),
{
    reveal_strlit("");
    assert(""@ == Seq::<char>::empty());
}

/// What is said of a hit that has a text is what is said of it without one, and in its
/// last line but one the first three lines of the text, quoted, or all of them where there
/// are fewer.
pub proof fn law_hit_is_previewed(r: SearchResult)
    ensures
        ({
            let head = hit_report(SearchResult { text: None, ..r });
            &&& head.len() > 0 && head.last() == '\n'
            &&& r.text matches Some(t) ==> hit_report(r) == head.drop_last() + quoted(
                text::lines_of(t@).take(
                    if text::lines_of(t@).len() < 3 {
                        text::lines_of(t@).len() as int
                    } else {
                        3
                    },
                ),
            ) + "\n"@
        }),
{
    reveal_strlit("\n");
    let bare = SearchResult { text: None, ..r };
    let head = hit_report(bare);
    if let Some(t) = r.text {
        let lines = text::lines_of(t@);
        assert(lines.take(lines.len() as int) == lines);
        assert(at_most(lines, 3) == lines.take(
            if lines.len() < 3 {
                lines.len() as int
            } else {
                3
            },
        ));
        assert(hit_name(bare) == hit_name(r));
        assert(head.drop_last() + quoted(at_most(lines, 3)) + "\n"@ == hit_report(r));
    }
}

/// What a hit is headed with: its file and number, its score and its breadcrumb.
pub proof fn law_hit_is_headed(r: SearchResult)
    requires
        r.text is None,
    ensures
        hit_report(r) == (match r.file_id {
            Some(f) => f@,
            None => "?"@,
        }) + ":"@ + text::decimal(
            match r.chunk_number {
                Some(n) => n as nat,
                None => 0,
            },
        ) + "  "@ + r.score@ + "  "@ + (match r.breadcrumb {
            Some(b) => b@,
            None => "unknown"@,
        }) + "\n"@ + "\n"@,
{
}

/// Every hit is reported, in the order in which they were found; where there is none, it
/// is said so.
pub proof fn law_every_hit_is_reported(results: Seq<SearchResult>, r: SearchResult)
    ensures
        search_report(Seq::empty()) == "No results found.\n"@,
        search_report(results.push(r)) == (if results.len() == 0 {
            ""@
        } else {
            search_report(results)
        }) + hit_report(r),
{
    reveal_strlit("");
    assert(results.push(r).drop_last() == results);
    if results.len() == 0 {
        assert(""@ == hit_reports(results));
    }
}

/// Every chunk that a selector gave is shown, in the order in which they came, under the
/// identifier that the selector starts with. A selector that gave none, or for which
/// there was an error, is answered with itself and that.
pub proof fn law_every_chunk_is_shown(
    spec: Seq<char>,
    chunks: Seq<ViewChunk>,
    c: ViewChunk,
    why: Seq<char>,
)
    ensures
        ({
            let id = selector::selected(spec).0;
            &&& !id.contains(':') && (spec == id || (id + ":"@).is_prefix_of(spec))
            &&& selector_report(spec, Ok(chunks.push(c))) == (if chunks.len() == 0 {
                ""@
            } else {
                selector_report(spec, Ok(chunks))
            }) + chunk_report(id, c)
        }),
        selector_report(spec, Ok(Seq::empty())) == spec + " ERROR: CHUNK NOT FOUND\n\n"@,
        selector_report(spec, Err(why)) == spec + " ERROR: "@ + why + "\n\n"@,
{
    reveal_strlit("");
    reveal_strlit(":");
    let id = selector::selected(spec).0;
    selector::law_id_has_no_colon(spec);
    text::lemma_find_char(spec, ':');
    if spec != id {
        assert(spec.subrange(0, (id + ":"@).len() as int) == id + ":"@);
    }
    assert(chunks.push(c).drop_last() == chunks);
    if chunks.len() == 0 {
        assert(""@ == chunk_reports(id, chunks));
    }
}

/// What came of asking for chunks is viewed as it is.
pub proof fn law_chunks_are_viewed_as_they_came(outcome: Result<Vec<ViewChunk>, String>)
    ensures
        outcome matches Ok(chunks) ==> view_of_chunks(outcome) == Ok::<Seq<ViewChunk>, Seq<char>>(
            chunks@,
        ),
        outcome matches Err(e) ==> view_of_chunks(outcome) == Err::<Seq<ViewChunk>, Seq<char>>(e@),
{
}

} // verus!
