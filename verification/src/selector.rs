//! Selectors of chunks: a file identifier, alone or with the chunks wanted of it.
//!
//! `700a4ba232fe9ddc` asks for the whole file, `700a4ba232fe9ddc:3` for its third
//! chunk, `700a4ba232fe9ddc:2-3` for a range and `700a4ba232fe9ddc:3-end` for
//! everything from the third chunk on.
use vstd::prelude::*;

use crate::text;

verus! {

/// The number that `s` writes, or `default`.
pub open spec fn number_or(s: Seq<char>, default: usize) -> usize {
    match text::parsed_usize(s) {
        Some(n) => n,
        None => default,
    }
}

/// What a selector asks for: the file, the first chunk and the last chunk, where it
/// names them.
///
/// The first colon ends the identifier. Behind it stands one number, or two with a
/// dash between them, or a number and `-end`. A start that is no number counts as
/// one, and an end that is no number as the start.
pub open spec fn selected(spec: Seq<char>) -> (Seq<char>, Option<usize>, Option<usize>) {
    let colon = text::find_char(spec, ':');
    if colon == spec.len() {
        (spec, None, None)
    } else {
        let id = spec.take(colon);
        let range = spec.skip(colon + 1);
        let dash = text::find_char(range, '-');
        if "-end"@.is_suffix_of(range) {
            (id, Some(number_or(range.take(range.len() - 4), 1)), None)
        } else if dash < range.len() {
            let start = number_or(range.take(dash), 1);
            let rest = range.skip(dash + 1);
            let end = rest.take(text::find_char(rest, '-'));
            (id, Some(start), Some(number_or(end, start)))
        } else {
            (id, Some(number_or(range, 1)), Some(number_or(range, 1)))
        }
    }
}

/// Reads a selector: the file identifier, the first chunk and the last chunk.
pub fn parse_view_selector(spec: &str) -> (r: (String, Option<usize>, Option<usize>))
    ensures
        (r.0@, r.1, r.2) == selected(spec@),
{
    let chars = text::chars_of(spec);
    let len: usize = chars.len();
    assert(spec@.skip(0) == spec@);
    let colon = text::position_of(&chars, ':', 0);
    if colon == len {
        return (spec.to_owned(), None, None);
    }
    let file_id = text::string_of(&chars, 0, colon);
    let from: usize = colon + 1;
    let range = text::string_of(&chars, from, len);
    proof {
        reveal_strlit("-end");
        assert(spec@.take(colon as int) == file_id@);
        assert(spec@.skip(from as int) == range@);
    }
    if text::ends_with(range.as_str(), "-end") {
        let start_text = text::string_of(&chars, from, len - 4);
        assert(range@.take(range@.len() - 4) == start_text@);
        let start: usize = match text::parse_usize(start_text.as_str()) {
            Some(n) => n,
            None => 1,
        };
        return (file_id, Some(start), None);
    }
    let dash = text::position_of(&chars, '-', from);
    if dash < len {
        let start_text = text::string_of(&chars, from, dash);
        assert(range@.take(dash - from) == start_text@);
        let start: usize = match text::parse_usize(start_text.as_str()) {
            Some(n) => n,
            None => 1,
        };
        let second = text::position_of(&chars, '-', dash + 1);
        let end_text = text::string_of(&chars, dash + 1, second);
        proof {
            let rest = range@.skip(dash - from + 1);
            assert(rest == spec@.skip(dash + 1));
            assert(rest.take(second - dash - 1) == end_text@);
        }
        let end: usize = match text::parse_usize(end_text.as_str()) {
            Some(n) => n,
            None => start,
        };
        return (file_id, Some(start), Some(end));
    }
    let n: usize = match text::parse_usize(range.as_str()) {
        Some(n) => n,
        None => 1,
    };
    (file_id, Some(n), Some(n))
}

// ---------------------------------------------------------------------------
// Laws
// ---------------------------------------------------------------------------

/// Whether `id` can stand in front of a selector's colon.
pub open spec fn plain_id(id: Seq<char>) -> bool {
    !id.contains(':')
}

/// The identifier that a selector names never holds a colon.
pub proof fn law_id_has_no_colon(spec: Seq<char>)
    ensures
        plain_id(selected(spec).0),
{
    text::lemma_find_char(spec, ':');
    let id = selected(spec).0;
    assert forall|i: int| 0 <= i < id.len() implies id[i] != ':' by {
        assert(id[i] == spec[i]);
    }
}

/// An identifier alone selects the whole file.
pub proof fn law_id_alone_selects_all(id: Seq<char>)
    requires
        plain_id(id),
    ensures
        selected(id) == (id, None::<usize>, None::<usize>),
{
    text::lemma_find_char_is(id, ':', id.len() as int);
}

/// `id:n` selects the chunk `n`.
pub proof fn law_single_chunk(id: Seq<char>, n: usize)
    requires
        plain_id(id),
    ensures
        selected(id + ":"@ + text::decimal(n as nat)) == (id, Some(n), Some(n)),
{
    let digits = text::decimal(n as nat);
    lemma_split_at_colon(id, digits);
    lemma_digits_have_no_dash(n);
    text::law_decimal_reads_back(n);
    reveal_strlit("-end");
    text::lemma_find_char_is(digits, '-', digits.len() as int);
    if "-end"@.is_suffix_of(digits) {
        assert(digits.subrange(digits.len() - 4, digits.len() as int)[0] == '-');
        assert(digits[digits.len() - 4] == '-');
    }
}

/// `id:a-b` selects the chunks from `a` to `b`.
pub proof fn law_range_of_chunks(id: Seq<char>, a: usize, b: usize)
    requires
        plain_id(id),
    ensures
        selected(id + ":"@ + (text::decimal(a as nat) + "-"@ + text::decimal(b as nat))) == (
            id,
            Some(a),
            Some(b),
        ),
{
    let first = text::decimal(a as nat);
    let last = text::decimal(b as nat);
    reveal_strlit("-end");
    reveal_strlit("-");
    let range = first + "-"@ + last;
    lemma_split_at_colon(id, range);
    lemma_digits_have_no_dash(a);
    lemma_digits_have_no_dash(b);
    text::law_decimal_reads_back(a);
    text::law_decimal_reads_back(b);
    text::lemma_decimal(b as nat);
    assert(range.last() == last.last());
    if "-end"@.is_suffix_of(range) {
        assert(range.subrange(range.len() - 4, range.len() as int)[3] == 'd');
        assert(text::is_digit(last[last.len() - 1]));
    }
    assert forall|i: int| 0 <= i < first.len() implies #[trigger] range[i] != '-' by {
        assert(range[i] == first[i]);
    }
    text::lemma_find_char_is(range, '-', first.len() as int);
    assert(range.take(first.len() as int) == first);
    assert(range.skip(first.len() as int + 1) == last);
    text::lemma_find_char_is(last, '-', last.len() as int);
    assert(last.take(last.len() as int) == last);
}

/// `id:a-end` selects everything from the chunk `a` on.
pub proof fn law_range_to_the_end(id: Seq<char>, a: usize)
    requires
        plain_id(id),
    ensures
        selected(id + ":"@ + (text::decimal(a as nat) + "-end"@)) == (id, Some(a), None::<usize>),
{
    let first = text::decimal(a as nat);
    reveal_strlit("-end");
    let range = first + "-end"@;
    lemma_split_at_colon(id, range);
    text::law_decimal_reads_back(a);
    assert(range.subrange(range.len() - 4, range.len() as int) == "-end"@);
    assert(range.take(range.len() - 4) == first);
}

/// The identifier and the range are what stands before and behind the colon.
proof fn lemma_split_at_colon(id: Seq<char>, range: Seq<char>)
    requires
        plain_id(id),
    ensures
        text::find_char(id + ":"@ + range, ':') == id.len(),
        (id + ":"@ + range).take(id.len() as int) == id,
        (id + ":"@ + range).skip(id.len() as int + 1) == range,
        (id + ":"@ + range).len() == id.len() + 1 + range.len(),
{
    reveal_strlit(":");
    let spec = id + ":"@ + range;
    assert forall|i: int| 0 <= i < id.len() implies #[trigger] spec[i] != ':' by {
        assert(spec[i] == id[i]);
        assert(id.contains(id[i]));
    }
    text::lemma_find_char_is(spec, ':', id.len() as int);
    assert(spec.take(id.len() as int) == id);
    assert(spec.skip(id.len() as int + 1) == range);
}

/// No digit is a dash.
proof fn lemma_digits_have_no_dash(n: usize)
    ensures
        forall|i: int|
            0 <= i < text::decimal(n as nat).len() ==> #[trigger] text::decimal(n as nat)[i] != '-',
{
    text::lemma_decimal(n as nat);
    assert forall|i: int| 0 <= i < text::decimal(n as nat).len() implies #[trigger] text::decimal(
        n as nat,
    )[i] != '-' by {
        assert(text::is_digit(text::decimal(n as nat)[i]));
    }
}

/// Behind the colon, a text without a dash is the one chunk that it is the number of, and
/// the first chunk where it is no number. Two texts with a dash between them, and whatever
/// follows a second dash, are the first and the last chunk: the first counts as one where
/// it is no number, the last as the first. Anything and `-end` is the
/// first chunk alone.
pub proof fn law_what_is_no_number_has_a_default(
    id: Seq<char>,
    a: Seq<char>,
    b: Seq<char>,
    more: Seq<char>,
)
    requires
        plain_id(id),
        !a.contains('-'),
        !b.contains('-'),
    ensures
        ({
            let one = match text::parsed_usize(a) {
                Some(n) => n,
                None => 1usize,
            };
            let last = match text::parsed_usize(b) {
                Some(n) => n,
                None => one,
            };
            &&& selected(id + ":"@ + a) == (id, Some(one), Some(one))
            &&& b != "end"@ ==> selected(id + ":"@ + (a.push('-') + b)) == (
                id,
                Some(one),
                Some(last),
            )
            &&& !"-end"@.is_suffix_of(a.push('-') + b.push('-') + more) ==> selected(
                id + ":"@ + (a.push('-') + b.push('-') + more),
            ) == (id, Some(one), Some(last))
            &&& selected(id + ":"@ + (more + "-end"@)) == (
                id,
                Some(
                    match text::parsed_usize(more) {
                        Some(n) => n,
                        None => 1usize,
                    },
                ),
                None::<usize>,
            )
        }),
{
    reveal_strlit("-end");
    reveal_strlit("end");
    lemma_split_at_colon(id, a);
    lemma_dashless(a);
    if "-end"@.is_suffix_of(a) {
        assert(a.subrange(a.len() - 4, a.len() as int)[0] == '-');
        assert(a[a.len() - 4] == '-');
    }
    let two = a.push('-') + b;
    lemma_split_at_colon(id, two);
    lemma_first_dash(a, b);
    lemma_dashless(b);
    assert(b.take(b.len() as int) == b);
    if b != "end"@ && "-end"@.is_suffix_of(two) {
        lemma_only_end_ends(a, b);
    }
    let tail = b.push('-') + more;
    let three = a.push('-') + b.push('-') + more;
    assert(three == a.push('-') + tail);
    lemma_split_at_colon(id, three);
    lemma_first_dash(a, tail);
    lemma_first_dash(b, more);
    let open = more + "-end"@;
    lemma_split_at_colon(id, open);
    assert(open.subrange(open.len() - 4, open.len() as int) == "-end"@);
    assert(open.take(open.len() - 4) == more);
}

proof fn lemma_dashless(a: Seq<char>)
    requires
        !a.contains('-'),
    ensures
        text::find_char(a, '-') == a.len(),
{
    assert forall|i: int| 0 <= i < a.len() implies #[trigger] a[i] != '-' by {
        assert(a.contains(a[i]));
    }
    text::lemma_find_char_is(a, '-', a.len() as int);
}

proof fn lemma_first_dash(a: Seq<char>, rest: Seq<char>)
    requires
        !a.contains('-'),
    ensures
        text::find_char(a.push('-') + rest, '-') == a.len(),
        (a.push('-') + rest).take(a.len() as int) == a,
        (a.push('-') + rest).skip(a.len() as int + 1) == rest,
{
    let s = a.push('-') + rest;
    assert forall|i: int| 0 <= i < a.len() implies #[trigger] s[i] != '-' by {
        assert(s[i] == a[i]);
        assert(a.contains(a[i]));
    }
    text::lemma_find_char_is(s, '-', a.len() as int);
    assert(s.take(a.len() as int) == a);
    assert(s.skip(a.len() as int + 1) == rest);
}

proof fn lemma_only_end_ends(a: Seq<char>, b: Seq<char>)
    requires
        !b.contains('-'),
        "-end"@.is_suffix_of(a.push('-') + b),
    ensures
        b == "end"@,
{
    reveal_strlit("-end");
    reveal_strlit("end");
    let two = a.push('-') + b;
    let from = two.len() - 4;
    assert(forall|i: int| 0 <= i < 4 ==> two[from + i] == #[trigger] "-end"@[i]) by {
        assert forall|i: int| 0 <= i < 4 implies two[from + i] == #[trigger] "-end"@[i] by {
            assert(two.subrange(from, two.len() as int)[i] == "-end"@[i]);
        }
    }
    assert(two[from] == "-end"@[0]);
    assert(two[from + 1] == "-end"@[1]);
    assert(two[from + 2] == "-end"@[2]);
    assert(two[from + 3] == "-end"@[3]);
    if from > a.len() {
        assert(b[from - a.len() - 1] == '-');
    } else if from < a.len() {
        assert(two[a.len() as int] == '-');
        assert(from + 1 <= a.len() <= from + 3);
    } else {
        assert(b.len() == 3);
        assert(b[0] == 'e' && b[1] == 'n' && b[2] == 'd');
        assert(b == "end"@);
    }
}

} // verus!
