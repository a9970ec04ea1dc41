//! Strings as sequences of characters: trimming, searching, lines and numbers.
use vstd::prelude::*;

verus! {

// ---------------------------------------------------------------------------
// Models
// ---------------------------------------------------------------------------

/// The characters of an optional string.
pub open spec fn opt_text(s: Option<&str>) -> Option<Seq<char>> {
    match s {
        Some(t) => Some(t@),
        None => None,
    }
}

/// The characters of an optional owned string.
pub open spec fn opt_string(s: Option<String>) -> Option<Seq<char>> {
    match s {
        Some(t) => Some(t@),
        None => None,
    }
}

/// Unicode's White_Space property.
pub open spec fn white_space(c: char) -> bool {
    let u = c as u32;
    ||| 0x9 <= u <= 0xD
    ||| u == 0x20
    ||| u == 0x85
    ||| u == 0xA0
    ||| u == 0x1680
    ||| 0x2000 <= u <= 0x200A
    ||| u == 0x2028
    ||| u == 0x2029
    ||| u == 0x202F
    ||| u == 0x205F
    ||| u == 0x3000
}

/// `s` without its longest prefix of characters that satisfy `p`.
pub open spec fn trim_front(s: Seq<char>, p: spec_fn(char) -> bool) -> Seq<char>
    decreases s.len(),
{
    if s.len() > 0 && p(s.first()) {
        trim_front(s.drop_first(), p)
    } else {
        s
    }
}

/// `s` without its longest suffix of characters that satisfy `p`.
pub open spec fn trim_back(s: Seq<char>, p: spec_fn(char) -> bool) -> Seq<char>
    decreases s.len(),
{
    if s.len() > 0 && p(s.last()) {
        trim_back(s.drop_last(), p)
    } else {
        s
    }
}

/// `s` without the white space at its two ends.
pub open spec fn trimmed(s: Seq<char>) -> Seq<char> {
    trim_back(trim_front(s, |c: char| white_space(c)), |c: char| white_space(c))
}

/// Whether `s` is made of ASCII characters.
pub open spec fn all_ascii(s: Seq<char>) -> bool {
    forall|i: int| 0 <= i < s.len() ==> (#[trigger] s[i] as u32) < 128
}

/// `c`, in lowercase where it is an ASCII letter.
pub open spec fn lower_letter(c: char) -> char {
    if 'A' <= c <= 'Z' {
        (c as u32 + 32) as char
    } else {
        c
    }
}

/// `c`, in uppercase where it is an ASCII letter.
pub open spec fn upper_letter(c: char) -> char {
    if 'a' <= c <= 'z' {
        (c as u32 - 32) as char
    } else {
        c
    }
}

/// `s` with its ASCII letters in lowercase.
pub open spec fn ascii_lowered(s: Seq<char>) -> Seq<char> {
    s.map_values(|c: char| lower_letter(c))
}

/// `s` with its ASCII letters in uppercase.
pub open spec fn ascii_uppered(s: Seq<char>) -> Seq<char> {
    s.map_values(|c: char| upper_letter(c))
}

/// The position of the first `c` in `s`, or the length of `s` where there is none.
pub open spec fn find_char(s: Seq<char>, c: char) -> int
    decreases s.len(),
{
    if s.len() == 0 || s.first() == c {
        0
    } else {
        1 + find_char(s.drop_first(), c)
    }
}

/// `s` without one trailing carriage return.
pub open spec fn without_cr(s: Seq<char>) -> Seq<char> {
    if s.len() > 0 && s.last() == '\r' {
        s.drop_last()
    } else {
        s
    }
}

/// The lines of `s`: each ends at a line feed, which is dropped together with one
/// carriage return in front of it; what follows the last line feed is a line of its
/// own, unless it is empty.
pub open spec fn lines_of(s: Seq<char>) -> Seq<Seq<char>>
    decreases s.len(),
    via lines_of_shrinks
{
    let at = find_char(s, '\n');
    if s.len() == 0 {
        Seq::empty()
    } else if at < s.len() {
        seq![without_cr(s.take(at))] + lines_of(s.skip(at + 1))
    } else {
        seq![s]
    }
}

#[via_fn]
proof fn lines_of_shrinks(s: Seq<char>) {
    lemma_find_char(s, '\n');
}

/// The decimal digit of a value below ten.
pub open spec fn digit_char(d: nat) -> char {
    (48 + d) as char
}

/// Whether `c` is an ASCII digit.
pub open spec fn is_digit(c: char) -> bool {
    '0' <= c <= '9'
}

/// The decimal digits of `n`, without leading zeros.
pub open spec fn decimal(n: nat) -> Seq<char>
    decreases n,
{
    if n < 10 {
        seq![digit_char(n)]
    } else {
        decimal(n / 10).push(digit_char(n % 10))
    }
}

/// The value of a sequence of digits.
pub open spec fn digits_value(s: Seq<char>) -> nat
    decreases s.len(),
{
    if s.len() == 0 {
        0
    } else {
        digits_value(s.drop_last()) * 10 + (s.last() as nat - 48) as nat
    }
}

/// `s` without one leading plus sign.
pub open spec fn without_plus(s: Seq<char>) -> Seq<char> {
    if s.len() > 0 && s.first() == '+' {
        s.drop_first()
    } else {
        s
    }
}

/// The number that `s` writes: an optional plus sign, then at least one digit and
/// nothing else, of a value that a `usize` can hold.
pub open spec fn parsed_usize(s: Seq<char>) -> Option<usize> {
    let digits = without_plus(s);
    if digits.len() > 0 && (forall|i: int| 0 <= i < digits.len() ==> is_digit(#[trigger] digits[i]))
        && digits_value(digits) <= usize::MAX {
        Some(digits_value(digits) as usize)
    } else {
        None
    }
}

/// Whether `part` occurs in `s`.
pub open spec fn occurs_in(part: Seq<char>, s: Seq<char>) -> bool {
    exists|i: int| #[trigger] occurs_at(part, s, i)
}

/// Whether `part` occurs in `s` from position `i` on.
pub open spec fn occurs_at(part: Seq<char>, s: Seq<char>, i: int) -> bool {
    0 <= i <= s.len() - part.len() && s.subrange(i, i + part.len()) == part
}

/// `s` without the occurrences of `part`, taken from the left and not overlapping.
pub open spec fn without_all(s: Seq<char>, part: Seq<char>) -> Seq<char>
    decreases s.len(),
{
    if part.len() == 0 || s.len() < part.len() {
        s
    } else if part.is_prefix_of(s) {
        without_all(s.skip(part.len() as int), part)
    } else {
        seq![s.first()] + without_all(s.drop_first(), part)
    }
}

/// `s` without the repetitions of `ending` at its end.
pub open spec fn without_endings(s: Seq<char>, ending: Seq<char>) -> Seq<char>
    decreases s.len(),
{
    if ending.len() > 0 && ending.is_suffix_of(s) {
        without_endings(s.take(s.len() - ending.len()), ending)
    } else {
        s
    }
}

/// What follows the last `c` in `s`; all of `s` where there is none.
pub open spec fn after_last(s: Seq<char>, c: char) -> Seq<char>
    decreases s.len(),
{
    if s.len() == 0 || s.last() == c {
        Seq::empty()
    } else {
        after_last(s.drop_last(), c).push(s.last())
    }
}

/// What stands before the last `c` in `s`; nothing where there is none.
pub open spec fn before_last(s: Seq<char>, c: char) -> Seq<char>
    decreases s.len(),
{
    if s.len() == 0 {
        Seq::empty()
    } else if s.last() == c {
        s.drop_last()
    } else {
        before_last(s.drop_last(), c)
    }
}

/// How many bytes of `s` a limit of `max` bytes keeps.
pub open spec fn kept_bytes(s: Seq<char>, max: nat) -> int {
    let len = vstd::utf8::encode_utf8(s).len();
    if len < max {
        len as int
    } else {
        max as int
    }
}

/// The first `max` bytes of `s`, or all of them where there are fewer.
pub open spec fn byte_prefix(s: Seq<char>, max: nat) -> Seq<char> {
    vstd::utf8::decode_utf8(vstd::utf8::encode_utf8(s).take(kept_bytes(s, max)))
}

/// Whether a limit of `max` bytes falls between two characters of `s`.
pub open spec fn cuts_cleanly(s: Seq<char>, max: nat) -> bool {
    vstd::utf8::is_char_boundary(vstd::utf8::encode_utf8(s), kept_bytes(s, max))
}

/// The items of `parts`, with `separator` between each two.
pub open spec fn joined(parts: Seq<Seq<char>>, separator: Seq<char>) -> Seq<char>
    decreases parts.len(),
{
    if parts.len() == 0 {
        Seq::empty()
    } else if parts.len() == 1 {
        parts[0]
    } else {
        joined(parts.drop_last(), separator) + separator + parts.last()
    }
}

// ---------------------------------------------------------------------------
// Facts about the models
// ---------------------------------------------------------------------------

/// Where a trimming from the front stops.
pub(crate) proof fn lemma_trim_front(s: Seq<char>, p: spec_fn(char) -> bool, k: int)
    requires
        0 <= k <= s.len(),
        forall|i: int| 0 <= i < k ==> p(#[trigger] s[i]),
        k < s.len() ==> !p(s[k]),
    ensures
        trim_front(s, p) == s.skip(k),
    decreases k,
{
    if k == 0 {
        assert(s.skip(0) == s);
    } else {
        let rest = s.drop_first();
        assert(s.first() == s[0]);
        assert forall|i: int| 0 <= i < k - 1 implies p(#[trigger] rest[i]) by {
            assert(rest[i] == s[i + 1]);
        }
        lemma_trim_front(rest, p, k - 1);
        assert(rest.skip(k - 1) == s.skip(k));
    }
}

/// Where a trimming from the back stops.
pub(crate) proof fn lemma_trim_back(s: Seq<char>, p: spec_fn(char) -> bool, k: int)
    requires
        0 <= k <= s.len(),
        forall|i: int| k <= i < s.len() ==> p(#[trigger] s[i]),
        k > 0 ==> !p(s[k - 1]),
    ensures
        trim_back(s, p) == s.take(k),
    decreases s.len() - k,
{
    if k == s.len() {
        assert(s.take(k) == s);
    } else {
        let rest = s.drop_last();
        assert forall|i: int| k <= i < rest.len() implies p(#[trigger] rest[i]) by {
            assert(rest[i] == s[i]);
        }
        assert(p(s[s.len() - 1]));
        lemma_trim_back(rest, p, k);
        assert(rest.take(k) == s.take(k));
    }
}

/// No character of the kind that is trimmed is left at the end.
pub(crate) proof fn lemma_trim_back_stops(s: Seq<char>, p: spec_fn(char) -> bool)
    ensures
        trim_back(s, p).len() > 0 ==> !p(trim_back(s, p).last()),
    decreases s.len(),
{
    if s.len() > 0 && p(s.last()) {
        lemma_trim_back_stops(s.drop_last(), p);
    }
}

/// What `find_char` finds.
pub(crate) proof fn lemma_find_char(s: Seq<char>, c: char)
    ensures
        0 <= find_char(s, c) <= s.len(),
        forall|i: int| 0 <= i < find_char(s, c) ==> #[trigger] s[i] != c,
        find_char(s, c) < s.len() ==> s[find_char(s, c)] == c,
    decreases s.len(),
{
    if s.len() > 0 && s.first() != c {
        let rest = s.drop_first();
        lemma_find_char(rest, c);
        assert forall|i: int| 0 <= i < find_char(s, c) implies #[trigger] s[i] != c by {
            if i > 0 {
                assert(rest[i - 1] == s[i]);
            }
        }
    }
}

/// `find_char` is the position before which `c` does not occur.
pub(crate) proof fn lemma_find_char_is(s: Seq<char>, c: char, k: int)
    requires
        0 <= k <= s.len(),
        forall|i: int| 0 <= i < k ==> #[trigger] s[i] != c,
        k < s.len() ==> s[k] == c,
    ensures
        find_char(s, c) == k,
{
    lemma_find_char(s, c);
    let f = find_char(s, c);
    if f < k {
        assert(s[f] != c);
    }
    if k < f {
        assert(s[k] != c);
    }
}

/// The digits of a number are digits, at least one, and stand for it.
pub(crate) proof fn lemma_decimal(n: nat)
    ensures
        decimal(n).len() > 0,
        forall|i: int| 0 <= i < decimal(n).len() ==> is_digit(#[trigger] decimal(n)[i]),
        digits_value(decimal(n)) == n,
    decreases n,
{
    if n < 10 {
        let d = decimal(n);
        assert(d.drop_last() == Seq::<char>::empty());
        assert(d.last() == digit_char(n));
        assert(digits_value(d.drop_last()) == 0);
    } else {
        let head = decimal(n / 10);
        let last = digit_char(n % 10);
        lemma_decimal(n / 10);
        assert(decimal(n).drop_last() == head);
        assert(decimal(n).last() == last);
        assert forall|i: int| 0 <= i < decimal(n).len() implies is_digit(#[trigger] decimal(n)[i]) by {
            if i < head.len() {
                assert(decimal(n)[i] == head[i]);
            }
        }
    }
}

/// A number reads back from its decimal digits.
pub proof fn law_decimal_reads_back(n: usize)
    ensures
        parsed_usize(decimal(n as nat)) == Some(n),
{
    lemma_decimal(n as nat);
    let d = decimal(n as nat);
    assert(is_digit(d[0]));
    assert(without_plus(d) == d);
}

// ---------------------------------------------------------------------------
// Operations
// ---------------------------------------------------------------------------

/// The characters of a string.
pub fn chars_of(s: &str) -> (r: Vec<char>)
    ensures
        r@ == s@,
{
    let mut r: Vec<char> = Vec::new();
    for c in it: s.chars()
        invariant
            r@ == it.seq().take(it.index()),
            it.seq() == s@,
    {
        r.push(c);
    }
    r
}

/// The string made of the characters from `from` up to `to`.
pub fn string_of(chars: &Vec<char>, from: usize, to: usize) -> (r: String)
    requires
        from <= to <= chars@.len(),
    ensures
        r@ == chars@.subrange(from as int, to as int),
{
    let mut r = String::new();
    let mut i: usize = from;
    while i < to
        invariant
            from <= i <= to <= chars@.len(),
            r@ == chars@.subrange(from as int, i as int),
        decreases to - i,
    {
        r.push(chars[i]);
        i += 1;
        assert(chars@.subrange(from as int, i as int) == chars@.subrange(
            from as int,
            i - 1,
        ).push(chars@[i - 1]));
    }
    r
}

/// Whether two strings are the same.
pub fn same_text(a: &str, b: &str) -> (r: bool)
    ensures
        r == (a@ == b@),
{
    a.to_owned() == b.to_owned()
}

/// The string without the white space at its two ends.
pub fn trim(s: &str) -> (r: String)
    ensures
        r@ == trimmed(s@),
{
    let chars = chars_of(s);
    let ghost space = |c: char| white_space(c);
    let mut from: usize = 0;
    while from < chars.len() && chars[from].is_whitespace()
        invariant
            from <= chars@.len(),
            space == (|c: char| white_space(c)),
            forall|i: int| 0 <= i < from ==> space(#[trigger] chars@[i]),
        decreases chars@.len() - from,
    {
        from += 1;
    }
    proof {
        lemma_trim_front(chars@, space, from as int);
    }
    let mut to: usize = chars.len();
    let ghost rest = chars@.skip(from as int);
    while to > from && chars[to - 1].is_whitespace()
        invariant
            from <= to <= chars@.len(),
            space == (|c: char| white_space(c)),
            rest == chars@.skip(from as int),
            forall|i: int| to - from <= i < rest.len() ==> space(#[trigger] rest[i]),
        decreases to,
    {
        to -= 1;
    }
    proof {
        lemma_trim_back(rest, space, to - from);
        assert(rest.take(to - from) == chars@.subrange(from as int, to as int));
    }
    string_of(&chars, from, to)
}

/// The string without the characters `c` at its start.
pub fn trim_start_of(s: &str, c: char) -> (r: String)
    ensures
        r@ == trim_front(s@, |x: char| x == c),
{
    let chars = chars_of(s);
    let ghost p = |x: char| x == c;
    let mut from: usize = 0;
    while from < chars.len() && chars[from] == c
        invariant
            from <= chars@.len(),
            p == (|x: char| x == c),
            forall|i: int| 0 <= i < from ==> p(#[trigger] chars@[i]),
        decreases chars@.len() - from,
    {
        from += 1;
    }
    proof {
        lemma_trim_front(chars@, p, from as int);
        assert(chars@.skip(from as int) == chars@.subrange(from as int, chars@.len() as int));
    }
    let to: usize = chars.len();
    string_of(&chars, from, to)
}

/// The string without the characters `c` at its end.
pub fn trim_end_of(s: &str, c: char) -> (r: String)
    ensures
        r@ == trim_back(s@, |x: char| x == c),
{
    let chars = chars_of(s);
    let ghost p = |x: char| x == c;
    let mut to: usize = chars.len();
    while to > 0 && chars[to - 1] == c
        invariant
            to <= chars@.len(),
            p == (|x: char| x == c),
            forall|i: int| to <= i < chars@.len() ==> p(#[trigger] chars@[i]),
        decreases to,
    {
        to -= 1;
    }
    proof {
        lemma_trim_back(chars@, p, to as int);
        assert(chars@.take(to as int) == chars@.subrange(0, to as int));
    }
    string_of(&chars, 0, to)
}

/// The position of the first `c` at or after `from`, or the length where there is none.
pub fn position_of(chars: &Vec<char>, c: char, from: usize) -> (r: usize)
    requires
        from <= chars@.len(),
    ensures
        from <= r <= chars@.len(),
        r - from == find_char(chars@.skip(from as int), c),
{
    let mut i: usize = from;
    while i < chars.len() && chars[i] != c
        invariant
            from <= i <= chars@.len(),
            forall|k: int| from <= k < i ==> #[trigger] chars@[k] != c,
        decreases chars@.len() - i,
    {
        i += 1;
    }
    proof {
        lemma_find_char_is(chars@.skip(from as int), c, i - from);
    }
    i
}

/// The lines of a string.
pub fn lines(s: &str) -> (r: Vec<String>)
    ensures
        r@.map_values(|l: String| l@) == lines_of(s@),
{
    let chars = chars_of(s);
    let mut r: Vec<String> = Vec::new();
    let mut from: usize = 0;
    assert(s@.skip(0) == s@);
    assert(Seq::<Seq<char>>::empty() + lines_of(s@) == lines_of(s@));
    while from < chars.len()
        invariant
            from <= chars@.len(),
            chars@ == s@,
            r@.map_values(|l: String| l@) + lines_of(s@.skip(from as int)) == lines_of(s@),
        decreases chars@.len() - from,
    {
        let ghost done = r@.map_values(|l: String| l@);
        let ghost rest = s@.skip(from as int);
        let at = position_of(&chars, '\n', from);
        if at < chars.len() {
            let to: usize = if at > from && chars[at - 1] == '\r' {
                at - 1
            } else {
                at
            };
            let line = string_of(&chars, from, to);
            proof {
                assert(rest.take(at - from) == chars@.subrange(from as int, at as int));
                assert(line@ == without_cr(rest.take(at - from)));
                assert(rest.skip(at - from + 1) == s@.skip(at + 1));
            }
            r.push(line);
            proof {
                assert(r@.map_values(|l: String| l@) == done.push(line@));
                assert(done.push(line@) + lines_of(s@.skip(at + 1)) == done + (seq![line@]
                    + lines_of(s@.skip(at + 1))));
            }
            from = at + 1;
        } else {
            let line = string_of(&chars, from, at);
            proof {
                assert(chars@.subrange(from as int, at as int) == rest);
            }
            r.push(line);
            proof {
                assert(r@.map_values(|l: String| l@) == done.push(line@));
                assert(s@.skip(at as int) == Seq::<char>::empty());
                assert(done.push(line@) + Seq::<Seq<char>>::empty() == done + seq![line@]);
            }
            from = at;
        }
    }
    proof {
        assert(s@.skip(from as int) == Seq::<char>::empty());
        assert(r@.map_values(|l: String| l@) + Seq::<Seq<char>>::empty() == r@.map_values(
            |l: String| l@,
        ));
    }
    r
}

/// The decimal digits of a number.
pub fn number(n: u64) -> (r: String)
    ensures
        r@ == decimal(n as nat),
    decreases n,
{
    let last: u8 = 48 + (n % 10) as u8;
    let mut r = if n < 10 {
        String::new()
    } else {
        number(n / 10)
    };
    r.push(last as char);
    r
}

/// The number that a string writes, where it writes one.
pub fn parse_usize(s: &str) -> (r: Option<usize>)
    ensures
        r == parsed_usize(s@),
{
    let chars = chars_of(s);
    let from: usize = if chars.len() > 0 && chars[0] == '+' {
        1
    } else {
        0
    };
    let ghost digits = without_plus(s@);
    assert(digits == chars@.skip(from as int));
    if from == chars.len() {
        return None;
    }
    let mut value: usize = 0;
    let mut i: usize = from;
    assert(digits.take(0) == Seq::<char>::empty());
    while i < chars.len()
        invariant
            from <= i <= chars@.len(),
            digits == chars@.skip(from as int),
            digits == without_plus(s@),
            value == digits_value(digits.take(i - from)),
            forall|k: int| 0 <= k < i - from ==> is_digit(#[trigger] digits[k]),
        decreases chars@.len() - i,
    {
        let c = chars[i];
        assert(digits[i - from] == c);
        if c < '0' || c > '9' {
            assert(!is_digit(digits[i - from]));
            return None;
        }
        let d: usize = (c as u32 - 48) as usize;
        proof {
            let upto = digits.take(i + 1 - from);
            assert(upto.drop_last() == digits.take(i - from));
            assert(upto.last() == c);
            lemma_digits_value_grows(digits, i + 1 - from);
        }
        let tens = match value.checked_mul(10) {
            Some(t) => t,
            None => {
                return None;
            },
        };
        value = match tens.checked_add(d) {
            Some(v) => v,
            None => {
                return None;
            },
        };
        i += 1;
    }
    assert(digits.take(i - from) == digits);
    Some(value)
}

/// Whether the characters from `at` on begin with `part`.
fn begins_at(chars: &Vec<char>, at: usize, part: &Vec<char>) -> (r: bool)
    requires
        at <= chars@.len(),
    ensures
        r == part@.is_prefix_of(chars@.skip(at as int)),
{
    if chars.len() - at < part.len() {
        return false;
    }
    let ghost rest = chars@.skip(at as int);
    let len: usize = chars.len();
    let mut i: usize = 0;
    while i < part.len()
        invariant
            len == chars@.len(),
            at + part@.len() <= chars@.len(),
            i <= part@.len(),
            rest == chars@.skip(at as int),
            forall|k: int| 0 <= k < i ==> rest[k] == #[trigger] part@[k],
        decreases part@.len() - i,
    {
        if chars[at + i] != part[i] {
            assert(rest[i as int] != part@[i as int]);
            assert(rest.subrange(0, part@.len() as int)[i as int] != part@[i as int]);
            return false;
        }
        i += 1;
    }
    assert(rest.subrange(0, part@.len() as int) == part@);
    true
}

/// Whether a string begins with another.
pub fn starts_with(s: &str, part: &str) -> (r: bool)
    ensures
        r == part@.is_prefix_of(s@),
{
    let chars = chars_of(s);
    assert(chars@.skip(0) == s@);
    begins_at(&chars, 0, &chars_of(part))
}

/// Whether a string ends with another.
pub fn ends_with(s: &str, part: &str) -> (r: bool)
    ensures
        r == part@.is_suffix_of(s@),
{
    let chars = chars_of(s);
    let part_chars = chars_of(part);
    if chars.len() < part_chars.len() {
        return false;
    }
    let at: usize = chars.len() - part_chars.len();
    proof {
        let rest = chars@.skip(at as int);
        assert(rest.subrange(0, part@.len() as int) == rest);
        assert(rest == s@.subrange(s@.len() - part@.len(), s@.len() as int));
    }
    begins_at(&chars, at, &part_chars)
}

/// Whether a string occurs in another.
pub fn contains(s: &str, part: &str) -> (r: bool)
    ensures
        r == occurs_in(part@, s@),
{
    let chars = chars_of(s);
    let part_chars = chars_of(part);
    if chars.len() < part_chars.len() {
        return false;
    }
    let last: usize = chars.len() - part_chars.len();
    let mut at: usize = 0;
    loop
        invariant
            chars@ == s@,
            part_chars@ == part@,
            at <= last,
            last == s@.len() - part@.len(),
            forall|i: int| 0 <= i < at ==> !(#[trigger] occurs_at(part@, s@, i)),
        decreases last - at,
    {
        proof {
            assert(s@.skip(at as int).subrange(0, part@.len() as int) == s@.subrange(
                at as int,
                at + part@.len(),
            ));
        }
        if begins_at(&chars, at, &part_chars) {
            assert(occurs_at(part@, s@, at as int));
            return true;
        }
        assert(!occurs_at(part@, s@, at as int));
        if at == last {
            return false;
        }
        at += 1;
    }
}

/// The string without the occurrences of another.
pub fn remove_all(s: &str, part: &str) -> (r: String)
    ensures
        r@ == without_all(s@, part@),
{
    let chars = chars_of(s);
    let part_chars = chars_of(part);
    if part_chars.len() == 0 {
        return s.to_owned();
    }
    let mut r = String::new();
    let mut at: usize = 0;
    assert(s@.skip(0) == s@);
    assert(r@ + without_all(s@, part@) == without_all(s@, part@));
    while at < chars.len()
        invariant
            chars@ == s@,
            part_chars@ == part@,
            part@.len() > 0,
            at <= s@.len(),
            r@ + without_all(s@.skip(at as int), part@) == without_all(s@, part@),
        decreases s@.len() - at,
    {
        let ghost rest = s@.skip(at as int);
        let ghost done = r@;
        if begins_at(&chars, at, &part_chars) {
            at += part_chars.len();
            assert(rest.skip(part@.len() as int) == s@.skip(at as int));
        } else {
            r.push(chars[at]);
            at += 1;
            proof {
                assert(rest.drop_first() == s@.skip(at as int));
                if rest.len() < part@.len() {
                    lemma_without_all_short(rest, part@);
                }
                assert(r@ + without_all(s@.skip(at as int), part@) == done + (seq![rest.first()]
                    + without_all(rest.drop_first(), part@)));
            }
        }
    }
    proof {
        assert(s@.skip(at as int) == Seq::<char>::empty());
        assert(r@ + Seq::<char>::empty() == r@);
    }
    r
}

/// What is shorter than the part to remove stays as it is.
proof fn lemma_without_all_short(s: Seq<char>, part: Seq<char>)
    requires
        0 < s.len() < part.len(),
    ensures
        without_all(s, part) == seq![s.first()] + without_all(s.drop_first(), part),
{
    assert(without_all(s.drop_first(), part) == s.drop_first());
    assert(seq![s.first()] + s.drop_first() == s);
}

/// The string without the repetitions of another at its end.
pub fn trim_endings(s: &str, ending: &str) -> (r: String)
    ensures
        r@ == without_endings(s@, ending@),
{
    let chars = chars_of(s);
    let ending_chars = chars_of(ending);
    let mut to: usize = chars.len();
    assert(s@.take(to as int) == s@);
    if ending_chars.len() > 0 {
        while ending_chars.len() <= to && ends_at(&chars, to, &ending_chars)
            invariant
                chars@ == s@,
                ending_chars@ == ending@,
                ending@.len() > 0,
                to <= s@.len(),
                without_endings(s@.take(to as int), ending@) == without_endings(s@, ending@),
            decreases to,
        {
            proof {
                assert(s@.take(to as int).take(to - ending@.len()) == s@.take(to - ending@.len()));
            }
            to -= ending_chars.len();
        }
    }
    proof {
        assert(s@.take(to as int) == s@.subrange(0, to as int));
    }
    string_of(&chars, 0, to)
}

/// Whether the characters before `to` end with `part`.
fn ends_at(chars: &Vec<char>, to: usize, part: &Vec<char>) -> (r: bool)
    requires
        part@.len() <= to <= chars@.len(),
    ensures
        r == part@.is_suffix_of(chars@.take(to as int)),
{
    let at: usize = to - part.len();
    proof {
        let head = chars@.take(to as int);
        assert(chars@.skip(at as int).subrange(0, part@.len() as int) == head.subrange(
            head.len() - part@.len(),
            head.len() as int,
        ));
    }
    begins_at(chars, at, part)
}

/// What follows the last `c` of a string.
pub fn tail_after(s: &str, c: char) -> (r: String)
    ensures
        r@ == after_last(s@, c),
{
    let chars = chars_of(s);
    let mut from: usize = chars.len();
    while from > 0 && chars[from - 1] != c
        invariant
            chars@ == s@,
            from <= s@.len(),
            forall|k: int| from <= k < s@.len() ==> #[trigger] s@[k] != c,
        decreases from,
    {
        from -= 1;
    }
    let to: usize = chars.len();
    proof {
        lemma_after_last_is(s@, c, from as int);
        assert(s@.skip(from as int) == s@.subrange(from as int, to as int));
    }
    string_of(&chars, from, to)
}

/// `after_last` starts behind the last `c`.
pub(crate) proof fn lemma_after_last_is(s: Seq<char>, c: char, k: int)
    requires
        0 <= k <= s.len(),
        forall|i: int| k <= i < s.len() ==> #[trigger] s[i] != c,
        k > 0 ==> s[k - 1] == c,
    ensures
        after_last(s, c) == s.skip(k),
    decreases s.len(),
{
    if k == s.len() {
        assert(s.skip(k) == Seq::<char>::empty());
    } else {
        assert(s[s.len() - 1] != c);
        let rest = s.drop_last();
        assert forall|i: int| k <= i < rest.len() implies #[trigger] rest[i] != c by {
            assert(rest[i] == s[i]);
        }
        lemma_after_last_is(rest, c, k);
        assert(rest.skip(k).push(s.last()) == s.skip(k));
    }
}

/// What stands before the last `c` of a string.
pub fn head_before(s: &str, c: char) -> (r: String)
    ensures
        r@ == before_last(s@, c),
{
    let chars = chars_of(s);
    let mut to: usize = chars.len();
    assert(s@.take(to as int) == s@);
    while to > 0 && chars[to - 1] != c
        invariant
            chars@ == s@,
            to <= s@.len(),
            before_last(s@.take(to as int), c) == before_last(s@, c),
            forall|k: int| to <= k < s@.len() ==> #[trigger] s@[k] != c,
        decreases to,
    {
        proof {
            assert(s@.take(to as int).drop_last() == s@.take(to - 1));
        }
        to -= 1;
    }
    if to == 0 {
        assert(s@.take(0) == Seq::<char>::empty());
        return String::new();
    }
    proof {
        lemma_before_last_is(s@, c, to - 1);
        assert(s@.take(to - 1) == s@.subrange(0, to - 1));
    }
    string_of(&chars, 0, to - 1)
}

/// `before_last` stops before the last `c`.
pub(crate) proof fn lemma_before_last_is(s: Seq<char>, c: char, k: int)
    requires
        0 <= k < s.len(),
        s[k] == c,
        forall|i: int| k < i < s.len() ==> #[trigger] s[i] != c,
    ensures
        before_last(s, c) == s.take(k),
    decreases s.len(),
{
    if k == s.len() - 1 {
        assert(s.drop_last() == s.take(k));
    } else {
        let rest = s.drop_last();
        assert(s[s.len() - 1] != c);
        assert forall|i: int| k < i < rest.len() implies #[trigger] rest[i] != c by {
            assert(rest[i] == s[i]);
        }
        lemma_before_last_is(rest, c, k);
        assert(rest.take(k) == s.take(k));
    }
}

/// Whether a limit of `max` bytes falls between two characters of a string.
pub fn cuts_between_chars(s: &str, max: usize) -> (r: bool)
    ensures
        r == cuts_cleanly(s@, max as nat),
{
    let len: usize = s.as_bytes().len();
    s.is_char_boundary(
        if len < max {
            len
        } else {
            max
        },
    )
}

/// The first `max` bytes of a string.
pub fn cut_to_bytes(s: &str, max: usize) -> (r: String)
    requires
        cuts_cleanly(s@, max as nat),
    ensures
        r@ == byte_prefix(s@, max as nat),
{
    let len: usize = s.as_bytes().len();
    let mid: usize = if len < max {
        len
    } else {
        max
    };
    let (head, _tail) = s.split_at(mid);
    proof {
        vstd::utf8::encode_utf8_decode_utf8(head@);
        assert(vstd::utf8::encode_utf8(s@).take(mid as int) == vstd::utf8::encode_utf8(s@).subrange(0, mid as int));
    }
    head.to_owned()
}

/// The items of a list, with a separator between each two.
pub fn join(parts: &Vec<String>, separator: &str) -> (r: String)
    ensures
        r@ == joined(parts@.map_values(|p: String| p@), separator@),
{
    let mut r = String::new();
    let ghost all = parts@.map_values(|p: String| p@);
    let mut i: usize = 0;
    while i < parts.len()
        invariant
            all == parts@.map_values(|p: String| p@),
            i <= parts@.len(),
            r@ == joined(all.take(i as int), separator@),
        decreases parts@.len() - i,
    {
        if i > 0 {
            r.append(separator);
        }
        r.append(parts[i].as_str());
        proof {
            let upto = all.take(i + 1);
            assert(upto.drop_last() == all.take(i as int));
            assert(upto.last() == parts@[i as int]@);
            assert(all.take(0) == Seq::<Seq<char>>::empty());
            assert(Seq::<char>::empty() + upto.last() == upto.last());
        }
        i += 1;
    }
    assert(all.take(i as int) == all);
    r
}

/// A prefix of digits stands for no more than the whole.
proof fn lemma_digits_value_grows(s: Seq<char>, k: int)
    requires
        0 <= k <= s.len(),
    ensures
        digits_value(s.take(k)) <= digits_value(s),
    decreases s.len(),
{
    if k == s.len() {
        assert(s.take(k) == s);
    } else {
        lemma_digits_value_grows(s.drop_last(), k);
        assert(s.drop_last().take(k) == s.take(k));
    }
}

/// A part of a part is a part of the whole.
pub(crate) proof fn lemma_occurs_within(part: Seq<char>, middle: Seq<char>, s: Seq<char>)
    requires
        occurs_in(part, middle),
        occurs_in(middle, s),
    ensures
        occurs_in(part, s),
{
    let i = choose|i: int| occurs_at(part, middle, i);
    let k = choose|k: int| occurs_at(middle, s, k);
    assert(s.subrange(k + i, k + i + part.len()) == s.subrange(
        k,
        k + middle.len(),
    ).subrange(i, i + part.len()));
    assert(occurs_at(part, s, k + i));
}

// ---------------------------------------------------------------------------
// Laws
// ---------------------------------------------------------------------------

/// Trimming takes white space off the two ends and nothing else: what is left is a part
/// of the string, everything around it is white space, and it neither starts nor ends
/// with any.
pub proof fn law_trimming_takes_the_ends_off(s: Seq<char>)
    ensures
        exists|a: int, b: int|
            #![trigger s.subrange(a, b)]
            0 <= a <= b <= s.len() && trimmed(s) == s.subrange(a, b) && (forall|i: int|
                0 <= i < s.len() && !(a <= i < b) ==> white_space(#[trigger] s[i])),
        trimmed(s).len() > 0 ==> !white_space(trimmed(s).first()) && !white_space(
            trimmed(s).last(),
        ),
{
    let p = |c: char| white_space(c);
    let head = trim_front(s, p);
    law_trimming_the_front(s, p);
    law_trimming_the_back(head, p);
    let a = s.len() - head.len();
    let b = a + trimmed(s).len();
    assert(trimmed(s) == s.subrange(a, b));
    assert forall|i: int| 0 <= i < s.len() && !(a <= i < b) implies white_space(
        #[trigger] s[i],
    ) by {
        if i < a {
            assert(p(s[i]));
        } else {
            assert(head[i - a] == s[i]);
            assert(p(head[i - a]));
        }
    }
    if trimmed(s).len() > 0 {
        assert(trimmed(s).first() == head.first());
        assert(!p(head.first()));
        assert(!p(trimmed(s).last()));
    }
}

/// Trimming from the front takes off what satisfies the condition, up to the first
/// character that does not.
pub proof fn law_trimming_the_front(s: Seq<char>, p: spec_fn(char) -> bool)
    ensures
        trim_front(s, p).len() <= s.len(),
        trim_front(s, p) == s.skip(s.len() - trim_front(s, p).len()),
        forall|i: int| 0 <= i < s.len() - trim_front(s, p).len() ==> p(#[trigger] s[i]),
        trim_front(s, p).len() > 0 ==> !p(trim_front(s, p).first()),
    decreases s.len(),
{
    if s.len() > 0 && p(s.first()) {
        let rest = s.drop_first();
        law_trimming_the_front(rest, p);
        let r = trim_front(s, p);
        assert(rest.skip(rest.len() - r.len()) == s.skip(s.len() - r.len()));
        assert forall|i: int| 0 <= i < s.len() - r.len() implies p(#[trigger] s[i]) by {
            if i > 0 {
                assert(rest[i - 1] == s[i]);
                assert(p(rest[i - 1]));
            }
        }
    } else {
        assert(s.skip(0) == s);
    }
}

/// Trimming from the back takes off what satisfies the condition, down to the last
/// character that does not.
pub proof fn law_trimming_the_back(s: Seq<char>, p: spec_fn(char) -> bool)
    ensures
        trim_back(s, p).len() <= s.len(),
        trim_back(s, p) == s.take(trim_back(s, p).len() as int),
        forall|i: int| trim_back(s, p).len() <= i < s.len() ==> p(#[trigger] s[i]),
        trim_back(s, p).len() > 0 ==> !p(trim_back(s, p).last()),
    decreases s.len(),
{
    if s.len() > 0 && p(s.last()) {
        let rest = s.drop_last();
        law_trimming_the_back(rest, p);
        let r = trim_back(s, p);
        assert(rest.take(r.len() as int) == s.take(r.len() as int));
        assert forall|i: int| r.len() <= i < s.len() implies p(#[trigger] s[i]) by {
            if i < rest.len() {
                assert(rest[i] == s[i]);
                assert(p(rest[i]));
            }
        }
    } else {
        assert(s.take(s.len() as int) == s);
    }
}

/// A text that goes on behind a line feed has the line in front of it, without one
/// carriage return at its end, and then the lines of the rest. A text without a line feed
/// is one line, and no text is no line.
pub proof fn law_lines_end_at_line_feeds(line: Seq<char>, rest: Seq<char>)
    requires
        !line.contains('\n'),
    ensures
        line.len() == 0 || line.last() != '\r' ==> lines_of(line.push('\n') + rest) == seq![line]
            + lines_of(rest),
        lines_of(line.push('\r').push('\n') + rest) == seq![line] + lines_of(rest),
        line.len() > 0 ==> lines_of(line) == seq![line],
        lines_of(Seq::empty()).len() == 0,
{
    lemma_first_line(line, rest);
    let ended = line.push('\r');
    assert forall|i: int| 0 <= i < ended.len() implies ended[i] != '\n' by {
        if i < line.len() {
            assert(line.contains(line[i]));
        }
    }
    lemma_first_line(ended, rest);
    assert(ended.drop_last() == line);
    assert forall|i: int| 0 <= i < line.len() implies #[trigger] line[i] != '\n' by {
        assert(line.contains(line[i]));
    }
    lemma_find_char_is(line, '\n', line.len() as int);
}

proof fn lemma_first_line(line: Seq<char>, rest: Seq<char>)
    requires
        !line.contains('\n'),
    ensures
        lines_of(line.push('\n') + rest) == seq![without_cr(line)] + lines_of(rest),
{
    let s = line.push('\n') + rest;
    assert forall|i: int| 0 <= i < line.len() implies #[trigger] s[i] != '\n' by {
        assert(line.contains(line[i]));
    }
    lemma_find_char_is(s, '\n', line.len() as int);
    assert(s.take(line.len() as int) == line);
    assert(s.skip(line.len() as int + 1) == rest);
}

/// No line holds a line feed.
pub proof fn law_lines_hold_no_line_feed(s: Seq<char>)
    ensures
        forall|i: int| 0 <= i < lines_of(s).len() ==> !(#[trigger] lines_of(s)[i]).contains('\n'),
    decreases s.len(),
{
    let at = find_char(s, '\n');
    lemma_find_char(s, '\n');
    if s.len() > 0 {
        let line = without_cr(s.take(at));
        assert forall|k: int| 0 <= k < line.len() implies line[k] != '\n' by {
            assert(line[k] == s[k]);
        }
        if at < s.len() {
            let rest = lines_of(s.skip(at + 1));
            law_lines_hold_no_line_feed(s.skip(at + 1));
            assert forall|i: int| 0 <= i < lines_of(s).len() implies !(
            #[trigger] lines_of(s)[i]).contains('\n') by {
                if i > 0 {
                    assert(lines_of(s)[i] == rest[i - 1]);
                }
            }
        }
    }
}

/// Numbers below ten are written as one digit, and one digit more is ten times as much.
pub proof fn law_decimal_is_base_ten(n: nat, d: nat)
    requires
        d < 10,
    ensures
        decimal(d).len() == 1,
        decimal(d)[0] == "0123456789"@[d as int],
        n > 0 ==> decimal(10 * n + d) == decimal(n) + decimal(d),
{
    reveal_strlit("0123456789");
    if n > 0 {
        assert((10 * n + d) / 10 == n);
        assert((10 * n + d) % 10 == d);
        assert(decimal(10 * n + d) == decimal(n) + decimal(d));
    }
}

/// A plus sign in front of a number, or a zero in front of its digits, changes nothing;
/// and what holds anything but digits behind an optional plus sign is no number.
pub proof fn law_what_is_a_number(n: usize, s: Seq<char>)
    ensures
        parsed_usize(seq!['+'] + decimal(n as nat)) == Some(n),
        parsed_usize(seq!['0'] + decimal(n as nat)) == Some(n),
        parsed_usize(s) is Some ==> s.len() > 0 && ('0' <= s.last() <= '9') && (forall|i: int|
            0 <= i < s.len() ==> ('0' <= #[trigger] s[i] <= '9') || (i == 0 && s[i] == '+')),
{
    let d = decimal(n as nat);
    lemma_decimal(n as nat);
    let plus = seq!['+'] + d;
    assert(plus.drop_first() == d);
    law_decimal_reads_back(n);
    assert(is_digit(d[0]));
    assert(without_plus(d) == d);
    let zero = seq!['0'] + d;
    lemma_zero_in_front(d);
    assert(without_plus(zero) == zero);
    assert forall|i: int| 0 <= i < zero.len() implies is_digit(#[trigger] zero[i]) by {
        if i > 0 {
            assert(zero[i] == d[i - 1]);
        }
    }
    if parsed_usize(s) is Some {
        let digits = without_plus(s);
        assert(is_digit(digits[digits.len() - 1]));
        assert(s.last() == digits.last());
        assert forall|i: int| 0 <= i < s.len() implies ('0' <= #[trigger] s[i] <= '9') || (i == 0
            && s[i] == '+') by {
            if s.first() == '+' {
                if i > 0 {
                    assert(digits[i - 1] == s[i]);
                }
            } else {
                assert(digits[i] == s[i]);
            }
        }
    }
}

proof fn lemma_zero_in_front(d: Seq<char>)
    ensures
        digits_value(seq!['0'] + d) == digits_value(d),
    decreases d.len(),
{
    let zero = seq!['0'] + d;
    if d.len() == 0 {
        assert(zero.drop_last() == Seq::<char>::empty());
        assert(digits_value(zero.drop_last()) == 0);
        assert(zero.last() == '0');
    } else {
        assert(zero.drop_last() == seq!['0'] + d.drop_last());
        assert(zero.last() == d.last());
        lemma_zero_in_front(d.drop_last());
    }
}

/// Where a part does not occur, nothing is taken out; where its first occurrence stands
/// behind `front`, that occurrence goes, what stands before it stays, and the rest is
/// dealt with alike.
pub proof fn law_occurrences_are_taken_out(front: Seq<char>, part: Seq<char>, rest: Seq<char>)
    requires
        part.len() > 0,
    ensures
        !occurs_in(part, rest) ==> without_all(rest, part) == rest,
        !occurs_in(part, front + part.drop_last()) ==> without_all(front + part + rest, part)
            == front + without_all(rest, part),
{
    if !occurs_in(part, rest) {
        lemma_nothing_taken_out(rest, part);
    }
    if !occurs_in(part, front + part.drop_last()) {
        lemma_first_taken_out(front, part, rest);
    }
}

proof fn lemma_nothing_taken_out(s: Seq<char>, part: Seq<char>)
    requires
        part.len() > 0,
        !occurs_in(part, s),
    ensures
        without_all(s, part) == s,
    decreases s.len(),
{
    if s.len() >= part.len() {
        if part.is_prefix_of(s) {
            assert(s.subrange(0, part.len() as int) == part);
            assert(occurs_at(part, s, 0));
        }
        let rest = s.drop_first();
        lemma_no_occurrence_later(part, s);
        lemma_nothing_taken_out(rest, part);
        assert(seq![s.first()] + rest == s);
    }
}

proof fn lemma_first_taken_out(front: Seq<char>, part: Seq<char>, rest: Seq<char>)
    requires
        part.len() > 0,
        !occurs_in(part, front + part.drop_last()),
    ensures
        without_all(front + part + rest, part) == front + without_all(rest, part),
    decreases front.len(),
{
    let s = front + part + rest;
    let left = without_all(rest, part);
    if front.len() == 0 {
        assert(part.is_prefix_of(s)) by {
            assert(s.subrange(0, part.len() as int) == part);
        }
        assert(s.skip(part.len() as int) == rest);
        assert(front + left == left);
    } else {
        let after = front.drop_first();
        assert(!part.is_prefix_of(s) && !occurs_in(part, after + part.drop_last())) by {
            lemma_no_occurrence_in_front(front, part, rest);
        }
        lemma_first_taken_out(after, part, rest);
        assert(s.drop_first() == after + part + rest);
        assert(without_all(s, part) == seq![s.first()] + (after + left));
        assert(seq![s.first()] + (after + left) == front + left);
    }
}

proof fn lemma_no_occurrence_in_front(front: Seq<char>, part: Seq<char>, rest: Seq<char>)
    requires
        part.len() > 0,
        front.len() > 0,
        !occurs_in(part, front + part.drop_last()),
    ensures
        !part.is_prefix_of(front + part + rest),
        !occurs_in(part, front.drop_first() + part.drop_last()),
{
    let s = front + part + rest;
    let head = front + part.drop_last();
    let tail = front.drop_first() + part.drop_last();
    assert(!part.is_prefix_of(s)) by {
        if part.is_prefix_of(s) {
            assert(head.subrange(0, part.len() as int) == s.subrange(0, part.len() as int));
            assert(occurs_at(part, head, 0));
        }
    }
    assert(head.drop_first() == tail);
    assert(!occurs_in(part, tail)) by {
        lemma_no_occurrence_later(part, head);
    }
}

proof fn lemma_no_occurrence_later(part: Seq<char>, s: Seq<char>)
    requires
        s.len() > 0,
        !occurs_in(part, s),
    ensures
        !occurs_in(part, s.drop_first()),
{
    let rest = s.drop_first();
    if occurs_in(part, rest) {
        let i = choose|i: int| occurs_at(part, rest, i);
        let found = s.subrange(i + 1, i + 1 + part.len());
        assert(found == rest.subrange(i, i + part.len()));
        assert(occurs_at(part, s, i + 1));
    }
}

/// Of `s`, no ending is left where it was taken off, however often it stood there; where
/// it does not stand there, nothing is taken off.
pub proof fn law_endings_are_taken_off(s: Seq<char>, ending: Seq<char>)
    requires
        ending.len() > 0,
    ensures
        without_endings(s + ending, ending) == without_endings(s, ending),
        !ending.is_suffix_of(s) ==> without_endings(s, ending) == s,
{
    let longer = s + ending;
    assert(longer.subrange(longer.len() - ending.len(), longer.len() as int) == ending);
    assert(longer.take(longer.len() - ending.len()) == s);
}

/// What stands before and behind the last `c`.
pub proof fn law_parts_at_the_last(front: Seq<char>, c: char, tail: Seq<char>)
    requires
        !tail.contains(c),
    ensures
        after_last(front.push(c) + tail, c) == tail,
        before_last(front.push(c) + tail, c) == front,
        after_last(tail, c) == tail,
        before_last(tail, c) == Seq::<char>::empty(),
    decreases tail.len(),
{
    let s = front.push(c) + tail;
    if tail.len() == 0 {
        assert(s == front.push(c));
        assert(front.push(c).drop_last() == front);
    } else {
        let rest = tail.drop_last();
        assert(tail.contains(tail.last()));
        assert forall|i: int| 0 <= i < rest.len() implies rest[i] != c by {
            assert(tail.contains(tail[i]));
        }
        law_parts_at_the_last(front, c, rest);
        assert(s.drop_last() == front.push(c) + rest);
        assert(s.last() == tail.last());
        assert(rest.push(tail.last()) == tail);
    }
}

/// The first bytes of a string are a prefix of it, and are as many as the limit allows.
pub proof fn law_first_bytes(s: Seq<char>, max: nat)
    requires
        cuts_cleanly(s, max),
    ensures
        byte_prefix(s, max).is_prefix_of(s),
        vstd::utf8::encode_utf8(byte_prefix(s, max)).is_prefix_of(vstd::utf8::encode_utf8(s)),
        vstd::utf8::encode_utf8(s).len() <= max ==> byte_prefix(s, max) == s,
        vstd::utf8::encode_utf8(s).len() >= max ==> vstd::utf8::encode_utf8(
            byte_prefix(s, max),
        ).len() == max,
{
    let bytes = vstd::utf8::encode_utf8(s);
    let k = kept_bytes(s, max);
    vstd::utf8::encode_utf8_valid_utf8(s);
    vstd::utf8::valid_utf8_split(bytes, k);
    vstd::utf8::decode_utf8_split(bytes, k);
    vstd::utf8::encode_utf8_decode_utf8(s);
    assert(bytes.take(k) == bytes.subrange(0, k));
    vstd::utf8::decode_utf8_encode_utf8(bytes.take(k));
    let r = byte_prefix(s, max);
    assert(s.subrange(0, r.len() as int) == r);
    assert(vstd::utf8::encode_utf8(r) == bytes.take(k));
    assert(bytes.subrange(0, k) == bytes.take(k));
    if bytes.len() <= max {
        assert(bytes.take(k) == bytes);
    }
}

/// The items stand one behind the other, with the separator between them.
pub proof fn law_joined(parts: Seq<Seq<char>>, last: Seq<char>, separator: Seq<char>)
    ensures
        joined(Seq::empty(), separator) == Seq::<char>::empty(),
        joined(seq![last], separator) == last,
        parts.len() > 0 ==> joined(parts.push(last), separator) == joined(parts, separator)
            + separator + last,
{
    assert(parts.push(last).drop_last() == parts);
}

/// A part occurs where it stands between two others, and only where the whole is as long.
pub proof fn law_parts_occur(a: Seq<char>, part: Seq<char>, b: Seq<char>, s: Seq<char>)
    ensures
        occurs_in(part, a + part + b),
        occurs_in(part, s) ==> exists|x: Seq<char>, y: Seq<char>| s == #[trigger] (x + part + y),
{
    let whole = a + part + b;
    assert(whole.subrange(a.len() as int, a.len() as int + part.len()) == part);
    assert(occurs_at(part, whole, a.len() as int));
    if occurs_in(part, s) {
        let i = choose|i: int| occurs_at(part, s, i);
        let x = s.take(i);
        let y = s.skip(i + part.len());
        assert(s == x + part + y);
    }
}

/// An optional string is its characters, where there is one.
pub proof fn law_optional_strings_are_their_characters(s: Option<&str>, t: Option<String>)
    ensures
        opt_text(s) is Some <==> s is Some,
        s matches Some(v) ==> opt_text(s) == Some(v@),
        opt_string(t) is Some <==> t is Some,
        t matches Some(v) ==> opt_string(t) == Some(v@),
{
}

/// A limit that a string does not reach falls between two characters, at its end; any
/// other falls between two where the byte behind it starts a character.
pub proof fn law_where_a_limit_falls(s: Seq<char>, max: nat)
    ensures
        vstd::utf8::encode_utf8(s).len() <= max ==> cuts_cleanly(s, max),
        vstd::utf8::encode_utf8(s).len() >= max ==> (cuts_cleanly(s, max)
            <==> vstd::utf8::is_char_boundary(vstd::utf8::encode_utf8(s), max as int)),
{
    vstd::utf8::encode_utf8_valid_utf8(s);
    vstd::utf8::is_char_boundary_start_end_of_seq(vstd::utf8::encode_utf8(s));
}

/// Zeros in front of digits change nothing, however many there are; and digits that write
/// more than a `usize` holds are no number.
pub proof fn law_size_decides_not_length(s: Seq<char>, n: nat)
    ensures
        s.len() > 0 && (forall|i: int| 0 <= i < s.len() ==> '0' <= #[trigger] s[i] <= '9')
            ==> parsed_usize(seq!['0'] + s) == parsed_usize(s),
        n > usize::MAX ==> parsed_usize(decimal(n)) is None,
{
    let zero = seq!['0'] + s;
    if s.len() > 0 && (forall|i: int| 0 <= i < s.len() ==> '0' <= #[trigger] s[i] <= '9') {
        lemma_zero_in_front(s);
        assert('0' <= s[0] <= '9');
        assert(without_plus(zero) == zero && without_plus(s) == s);
        assert forall|i: int| 0 <= i < zero.len() implies is_digit(#[trigger] zero[i]) by {
            if i > 0 {
                assert(zero[i] == s[i - 1]);
            }
        }
    }
    lemma_decimal(n);
    let d = decimal(n);
    assert(is_digit(d[0]));
    assert(without_plus(d) == d);
}

} // verus!
