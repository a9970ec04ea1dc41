//! The chunks of a file, printed for inspection.
use vstd::prelude::*;

use crate::text;

verus! {

/// A chunk that is printed.
pub struct DumpedChunk {
    pub text: String,
    pub start_line: usize,
    pub end_line: usize,
    pub breadcrumb: String,
}

// ---------------------------------------------------------------------------
// Models
// ---------------------------------------------------------------------------

/// What is printed before the chunks of a file.
pub open spec fn header(file: Seq<char>, with_fallback: bool) -> Seq<char> {
    let mode = if with_fallback {
        Seq::empty()
    } else {
        "🔍 Strict mode: AST-only (fallback disabled)\n"@
    };
    "📦 Chunks for: "@ + file + "\n"@ + mode + "\n"@
}

/// The lines from `start` to `end`, counted from one, as far as there are such lines.
pub open spec fn lines_between(lines: Seq<Seq<char>>, start: int, end: int) -> Seq<char>
    decreases end - start + 1,
{
    if end < start {
        Seq::empty()
    } else {
        lines_between(lines, start, end - 1) + if 0 < end <= lines.len() {
            lines[end - 1] + "\n"@
        } else {
            Seq::empty()
        }
    }
}

/// Whether the lines of a chunk can be counted.
pub open spec fn countable(c: DumpedChunk) -> bool {
    c.start_line <= c.end_line && c.end_line - c.start_line < usize::MAX
}

/// How many bytes a text has.
pub open spec fn byte_len(s: Seq<char>) -> nat {
    vstd::utf8::encode_utf8(s).len()
}

/// The chunk at `i`, with the lines of the source that it covers.
pub open spec fn shown_chunk(lines: Seq<Seq<char>>, c: DumpedChunk, i: int) -> Seq<char> {
    "-- [CHUNK "@ + text::decimal((i + 1) as nat) + "] ["@ + text::decimal(
        (c.end_line - c.start_line + 1) as nat,
    ) + " lines] ["@ + text::decimal(byte_len(c.text@)) + " chars] --\n"@ + lines_between(
        lines,
        c.start_line as int,
        c.end_line as int,
    ) + "\n"@
}

/// The chunks, one behind the other, with the lines that they cover.
pub open spec fn shown_chunks(lines: Seq<Seq<char>>, chunks: Seq<DumpedChunk>) -> Seq<char>
    decreases chunks.len(),
{
    if chunks.len() == 0 {
        Seq::empty()
    } else {
        shown_chunks(lines, chunks.drop_last()) + shown_chunk(
            lines,
            chunks.last(),
            chunks.len() - 1,
        )
    }
}

/// What is printed of the chunks of a source when they are shown in it.
pub open spec fn visualization(
    source: Seq<char>,
    chunks: Seq<DumpedChunk>,
    score: Seq<char>,
    small_below: nat,
    small_chunks: nat,
) -> Seq<char> {
    shown_chunks(text::lines_of(source), chunks) + "=== QUALITY SCORE ===\nScore: "@ + score
        + "%  Chunks: "@ + text::decimal(chunks.len()) + "  Small (<"@ + text::decimal(small_below)
        + "): "@ + text::decimal(small_chunks) + "\n"@
}

/// The first lines of a chunk, up to five of them, set in.
pub open spec fn set_in(lines: Seq<Seq<char>>) -> Seq<char>
    decreases lines.len(),
{
    if lines.len() == 0 {
        Seq::empty()
    } else {
        set_in(lines.drop_last()) + ("  "@ + lines.last() + "\n"@)
    }
}

/// The chunk at `i`, with its first five lines and a mark where there are more.
pub open spec fn listed_chunk(c: DumpedChunk, i: int) -> Seq<char> {
    let lines = text::lines_of(c.text@);
    let first = if lines.len() > 5 {
        set_in(lines.take(5)) + "  ...\n"@
    } else {
        set_in(lines)
    };
    "━━━ Chunk "@ + text::decimal((i + 1) as nat) + " ━━━  "@ + text::decimal(byte_len(c.text@))
        + " chars  Lines "@ + text::decimal(c.start_line as nat) + "-"@ + text::decimal(
        c.end_line as nat,
    ) + "  "@ + c.breadcrumb@ + "\n"@ + first + "\n"@
}

/// The chunks, one behind the other, with their first lines.
pub open spec fn listed_chunks(chunks: Seq<DumpedChunk>) -> Seq<char>
    decreases chunks.len(),
{
    if chunks.len() == 0 {
        Seq::empty()
    } else {
        listed_chunks(chunks.drop_last()) + listed_chunk(chunks.last(), chunks.len() - 1)
    }
}

/// What is printed of the chunks of a source when they are listed.
pub open spec fn listing(chunks: Seq<DumpedChunk>, target_size: nat, score: Seq<char>) -> Seq<
    char,
> {
    "Total chunks: "@ + text::decimal(chunks.len()) + "  Target: "@ + text::decimal(target_size)
        + " chars\n\n"@ + listed_chunks(chunks) + "Quality: "@ + score + "%\n"@
}

// ---------------------------------------------------------------------------
// Texts
// ---------------------------------------------------------------------------

/// The name that a file goes by when it is cut.
pub fn dumped_name(name: Option<&str>) -> (r: String)
    ensures
        r@ == match name {
            Some(n) => n@,
            None => "unknown.ts"@,
        },
{
    match name {
        Some(n) => n.to_owned(),
        None => "unknown.ts".to_owned(),
    }
}

/// What is printed before the chunks of a file.
pub fn dump_header(file: &str, with_fallback: bool) -> (r: String)
    ensures
        r@ == header(file@, with_fallback),
{
    let mut r = "📦 Chunks for: ".to_owned();
    r.append(file);
    r.append("\n");
    let mode = if with_fallback {
        String::new()
    } else {
        "🔍 Strict mode: AST-only (fallback disabled)\n".to_owned()
    };
    r.append(mode.as_str());
    r.append("\n");
    r
}

/// The digits of a number.
fn digits(n: usize) -> (r: String)
    ensures
        r@ == text::decimal(n as nat),
{
    text::number(n as u64)
}

/// The lines from `start` to `end`.
fn print_lines(lines: &Vec<String>, start: usize, end: usize) -> (r: String)
    requires
        start <= end,
    ensures
        r@ == lines_between(lines@.map_values(|l: String| l@), start as int, end as int),
{
    let ghost all = lines@.map_values(|l: String| l@);
    let mut r = String::new();
    let mut n: usize = start;
    loop
        invariant
            all == lines@.map_values(|l: String| l@),
            start <= n <= end,
            r@ == lines_between(all, start as int, n - 1),
        decreases end - n,
    {
        let line = if n > 0 && n <= lines.len() {
            let mut line = lines[n - 1].clone();
            line.append("\n");
            line
        } else {
            String::new()
        };
        r.append(line.as_str());
        assert(r@ == lines_between(all, start as int, n as int));
        if n == end {
            return r;
        }
        n += 1;
    }
}

/// The chunk at `i`, with the lines that it covers.
fn show_chunk(lines: &Vec<String>, c: &DumpedChunk, i: usize) -> (r: String)
    requires
        countable(*c),
        i < usize::MAX,
    ensures
        r@ == shown_chunk(lines@.map_values(|l: String| l@), *c, i as int),
{
    let mut r = "-- [CHUNK ".to_owned();
    r.append(digits(i + 1).as_str());
    r.append("] [");
    r.append(digits(c.end_line - c.start_line + 1).as_str());
    r.append(" lines] [");
    r.append(digits(c.text.as_str().as_bytes().len()).as_str());
    r.append(" chars] --\n");
    r.append(print_lines(lines, c.start_line, c.end_line).as_str());
    r.append("\n");
    r
}

/// What is printed of the chunks of a source when they are shown in it. `score` is the
/// quality in per cent, with one decimal.
pub fn visualize_chunks(
    source: &str,
    chunks: &Vec<DumpedChunk>,
    score: &str,
    small_below: usize,
    small_chunks: usize,
) -> (r: String)
    requires
        forall|i: int| 0 <= i < chunks@.len() ==> countable(#[trigger] chunks@[i]),
    ensures
        r@ == visualization(source@, chunks@, score@, small_below as nat, small_chunks as nat),
{
    let lines = text::lines(source);
    let ghost all = text::lines_of(source@);
    let count: usize = chunks.len();
    let mut r = String::new();
    let mut i: usize = 0;
    while i < count
        invariant
            all == lines@.map_values(|l: String| l@),
            count == chunks@.len(),
            i <= count,
            forall|k: int| 0 <= k < chunks@.len() ==> countable(#[trigger] chunks@[k]),
            r@ == shown_chunks(all, chunks@.take(i as int)),
        decreases count - i,
    {
        r.append(show_chunk(&lines, &chunks[i], i).as_str());
        proof {
            let upto = chunks@.take(i + 1);
            assert(upto.drop_last() == chunks@.take(i as int));
            assert(upto.last() == chunks@[i as int]);
        }
        i += 1;
    }
    assert(chunks@.take(i as int) == chunks@);
    r.append("=== QUALITY SCORE ===\nScore: ");
    r.append(score);
    r.append("%  Chunks: ");
    r.append(digits(count).as_str());
    r.append("  Small (<");
    r.append(digits(small_below).as_str());
    r.append("): ");
    r.append(digits(small_chunks).as_str());
    r.append("\n");
    r
}

/// The first `n` of some lines, set in.
fn print_set_in(lines: &Vec<String>, n: usize) -> (r: String)
    requires
        n <= lines@.len(),
    ensures
        r@ == set_in(lines@.map_values(|l: String| l@).take(n as int)),
{
    let ghost all = lines@.map_values(|l: String| l@);
    let mut r = String::new();
    let mut i: usize = 0;
    while i < n
        invariant
            all == lines@.map_values(|l: String| l@),
            i <= n <= lines@.len(),
            r@ == set_in(all.take(i as int)),
        decreases n - i,
    {
        let mut line = "  ".to_owned();
        line.append(lines[i].as_str());
        line.append("\n");
        r.append(line.as_str());
        proof {
            let upto = all.take(i + 1);
            assert(upto.drop_last() == all.take(i as int));
            assert(upto.last() == lines@[i as int]@);
        }
        i += 1;
    }
    r
}

/// The chunk at `i`, with its first lines.
fn list_chunk(c: &DumpedChunk, i: usize) -> (r: String)
    requires
        i < usize::MAX,
    ensures
        r@ == listed_chunk(*c, i as int),
{
    let lines = text::lines(c.text.as_str());
    let ghost all = text::lines_of(c.text@);
    let first = if lines.len() > 5 {
        let mut first = print_set_in(&lines, 5);
        first.append("  ...\n");
        first
    } else {
        assert(all.take(all.len() as int) == all);
        print_set_in(&lines, lines.len())
    };
    let mut r = "━━━ Chunk ".to_owned();
    r.append(digits(i + 1).as_str());
    r.append(" ━━━  ");
    r.append(digits(c.text.as_str().as_bytes().len()).as_str());
    r.append(" chars  Lines ");
    r.append(digits(c.start_line).as_str());
    r.append("-");
    r.append(digits(c.end_line).as_str());
    r.append("  ");
    r.append(c.breadcrumb.as_str());
    r.append("\n");
    r.append(first.as_str());
    r.append("\n");
    r
}

/// What is printed of the chunks of a source when they are listed. `score` is the
/// quality in per cent, with one decimal.
pub fn list_chunks(chunks: &Vec<DumpedChunk>, target_size: usize, score: &str) -> (r: String)
    ensures
        r@ == listing(chunks@, target_size as nat, score@),
{
    let count: usize = chunks.len();
    let mut r = String::new();
    let mut i: usize = 0;
    while i < count
        invariant
            count == chunks@.len(),
            i <= count,
            r@ == listed_chunks(chunks@.take(i as int)),
        decreases count - i,
    {
        r.append(list_chunk(&chunks[i], i).as_str());
        proof {
            let upto = chunks@.take(i + 1);
            assert(upto.drop_last() == chunks@.take(i as int));
            assert(upto.last() == chunks@[i as int]);
        }
        i += 1;
    }
    assert(chunks@.take(i as int) == chunks@);
    let mut out = "Total chunks: ".to_owned();
    out.append(digits(count).as_str());
    out.append("  Target: ");
    out.append(digits(target_size).as_str());
    out.append(" chars\n\n");
    out.append(r.as_str());
    out.append("Quality: ");
    out.append(score);
    out.append("%\n");
    out
}

// ---------------------------------------------------------------------------
// Laws
// ---------------------------------------------------------------------------

/// The lines of a range are those of its two halves; one line is printed as it is where
/// there is such a line, and nothing is where there is not.
pub proof fn law_lines_of_a_range(lines: Seq<Seq<char>>, start: int, mid: int, end: int)
    requires
        start <= mid + 1,
        mid <= end,
    ensures
        lines_between(lines, start, end) == lines_between(lines, start, mid) + lines_between(
            lines,
            mid + 1,
            end,
        ),
        1 <= start <= lines.len() ==> lines_between(lines, start, start) == lines[start - 1]
            + "\n"@,
        start < 1 || start > lines.len() ==> lines_between(lines, start, start).len() == 0,
        lines_between(lines, start, start - 1).len() == 0,
    decreases end - mid,
{
    let none = Seq::<char>::empty();
    reveal_with_fuel(lines_between, 2);
    assert(lines_between(lines, start, start - 1) == none);
    if 1 <= start <= lines.len() {
        assert(none + (lines[start - 1] + "\n"@) == lines[start - 1] + "\n"@);
    }
    if mid == end {
        assert(lines_between(lines, mid + 1, end) == none);
        assert(lines_between(lines, start, mid) + none == lines_between(lines, start, mid));
    } else {
        law_lines_of_a_range(lines, start, mid, end - 1);
        let last = if 0 < end <= lines.len() {
            lines[end - 1] + "\n"@
        } else {
            none
        };
        let a = lines_between(lines, start, mid);
        let b = lines_between(lines, mid + 1, end - 1);
        assert((a + b) + last == a + (b + last));
    }
}

/// A chunk is shown with its number, how many lines it covers, how many bytes it has, and
/// the lines of the source that it covers.
pub proof fn law_chunk_is_shown(lines: Seq<Seq<char>>, chunks: Seq<DumpedChunk>, c: DumpedChunk)
    ensures
        shown_chunks(lines, chunks.push(c)) == shown_chunks(lines, chunks) + ("-- [CHUNK "@
            + text::decimal(chunks.len() + 1) + "] ["@ + text::decimal(
            (c.end_line - c.start_line + 1) as nat,
        ) + " lines] ["@ + text::decimal(vstd::utf8::encode_utf8(c.text@).len())
            + " chars] --\n"@ + lines_between(lines, c.start_line as int, c.end_line as int)
            + "\n"@),
        shown_chunks(lines, Seq::empty()).len() == 0,
{
    assert(chunks.push(c).drop_last() == chunks);
}

/// A chunk is listed with its number, how many bytes it has, its lines and its breadcrumb,
/// and with its first five lines set in; that there are more is marked just where there
/// are.
pub proof fn law_chunk_is_listed(chunks: Seq<DumpedChunk>, c: DumpedChunk)
    ensures
        ({
            let lines = text::lines_of(c.text@);
            let head = "━━━ Chunk "@ + text::decimal(chunks.len() + 1) + " ━━━  "@ + text::decimal(
                vstd::utf8::encode_utf8(c.text@).len(),
            ) + " chars  Lines "@ + text::decimal(c.start_line as nat) + "-"@ + text::decimal(
                c.end_line as nat,
            ) + "  "@ + c.breadcrumb@ + "\n"@;
            &&& lines.len() <= 5 ==> listed_chunks(chunks.push(c)) == listed_chunks(chunks) + (head
                + set_in(lines) + "\n"@)
            &&& lines.len() > 5 ==> listed_chunks(chunks.push(c)) == listed_chunks(chunks) + (head
                + (set_in(lines.take(5)) + "  ...\n"@) + "\n"@)
        }),
        listed_chunks(Seq::empty()).len() == 0,
{
    assert(chunks.push(c).drop_last() == chunks);
}

/// Every line that is set in stands behind two spaces, on a line of its own.
pub proof fn law_lines_are_set_in(lines: Seq<Seq<char>>, line: Seq<char>)
    ensures
        set_in(Seq::empty()) == Seq::<char>::empty(),
        set_in(lines.push(line)) == set_in(lines) + ("  "@ + line + "\n"@),
{
    assert(lines.push(line).drop_last() == lines);
}

/// What is printed in all: every chunk, and then or before that how many there are.
pub proof fn law_all_chunks_are_printed(
    source: Seq<char>,
    chunks: Seq<DumpedChunk>,
    score: Seq<char>,
    a: nat,
    b: nat,
)
    ensures
        visualization(source, chunks, score, a, b) == shown_chunks(text::lines_of(source), chunks)
            + "=== QUALITY SCORE ===\nScore: "@ + score + "%  Chunks: "@ + text::decimal(
            chunks.len(),
        ) + "  Small (<"@ + text::decimal(a) + "): "@ + text::decimal(b) + "\n"@,
        listing(chunks, a, score) == "Total chunks: "@ + text::decimal(chunks.len())
            + "  Target: "@ + text::decimal(a) + " chars\n\n"@ + listed_chunks(chunks)
            + "Quality: "@ + score + "%\n"@,
        header(source, true) == "📦 Chunks for: "@ + source + "\n"@ + "\n"@,
        header(source, false) == "📦 Chunks for: "@ + source + "\n"@
            + "🔍 Strict mode: AST-only (fallback disabled)\n"@ + "\n"@,
{
    assert("📦 Chunks for: "@ + source + "\n"@ + Seq::<char>::empty() == "📦 Chunks for: "@ + source
        + "\n"@);
}

} // verus!
