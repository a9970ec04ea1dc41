//! Percent-encoding of URL segments.
use vstd::prelude::*;

verus! {

/// The bytes that stand for themselves in a URL segment.
pub open spec fn unreserved(b: u8) -> bool {
    ||| 'A' as u8 <= b <= 'Z' as u8
    ||| 'a' as u8 <= b <= 'z' as u8
    ||| '0' as u8 <= b <= '9' as u8
    ||| b == '-' as u8
    ||| b == '.' as u8
    ||| b == '_' as u8
    ||| b == '~' as u8
}

/// The upper-case hexadecimal digit of a value below sixteen.
pub open spec fn hex_upper(d: int) -> char {
    if d < 10 {
        (48 + d) as char
    } else {
        (55 + d) as char
    }
}

/// How one byte is written.
pub open spec fn percent_byte(b: u8) -> Seq<char> {
    if unreserved(b) {
        seq![b as char]
    } else {
        seq!['%', hex_upper(b as int / 16), hex_upper(b as int % 16)]
    }
}

/// How a sequence of bytes is written.
pub open spec fn percent_encoded(bytes: Seq<u8>) -> Seq<char>
    decreases bytes.len(),
{
    if bytes.len() == 0 {
        Seq::empty()
    } else {
        percent_byte(bytes.first()) + percent_encoded(bytes.drop_first())
    }
}

/// How a string is written.
pub open spec fn percent_text(s: Seq<char>) -> Seq<char> {
    percent_encoded(vstd::utf8::encode_utf8(s))
}

/// An encoded segment holds unreserved characters and percent signs only, so none
/// that ends a segment or a path.
pub proof fn law_encoding_stays_in_segment(s: Seq<char>)
    ensures
        forall|i: int|
            0 <= i < percent_text(s).len() ==> {
                let c = #[trigger] percent_text(s)[i];
                c == '%' || ((c as u32) < 128 && unreserved(c as u8))
            },
        !percent_text(s).contains('/'),
        !percent_text(s).contains('?'),
        !percent_text(s).contains('#'),
{
    lemma_encoding_stays_in_segment(vstd::utf8::encode_utf8(s));
}

proof fn lemma_encoding_stays_in_segment(bytes: Seq<u8>)
    ensures
        forall|i: int|
            0 <= i < percent_encoded(bytes).len() ==> {
                let c = #[trigger] percent_encoded(bytes)[i];
                c == '%' || ((c as u32) < 128 && unreserved(c as u8))
            },
    decreases bytes.len(),
{
    if bytes.len() > 0 {
        let head = percent_byte(bytes.first());
        let tail = percent_encoded(bytes.drop_first());
        lemma_encoding_stays_in_segment(bytes.drop_first());
        assert forall|i: int| 0 <= i < percent_encoded(bytes).len() implies {
            let c = #[trigger] percent_encoded(bytes)[i];
            c == '%' || ((c as u32) < 128 && unreserved(c as u8))
        } by {
            if i < head.len() {
                assert(percent_encoded(bytes)[i] == head[i]);
            } else {
                assert(percent_encoded(bytes)[i] == tail[i - head.len()]);
            }
        }
    }
}

/// Two strings that are written alike are the same.
pub proof fn law_encoding_is_injective(a: Seq<char>, b: Seq<char>)
    requires
        percent_text(a) == percent_text(b),
    ensures
        a == b,
{
    let x = vstd::utf8::encode_utf8(a);
    let y = vstd::utf8::encode_utf8(b);
    lemma_encoding_is_injective(x, y);
    vstd::utf8::encode_utf8_decode_utf8(a);
    vstd::utf8::encode_utf8_decode_utf8(b);
}

proof fn lemma_encoding_is_injective(a: Seq<u8>, b: Seq<u8>)
    requires
        percent_encoded(a) == percent_encoded(b),
    ensures
        a == b,
    decreases a.len(),
{
    if a.len() == 0 || b.len() == 0 {
        if a.len() > 0 {
            assert(percent_byte(a.first()).len() > 0);
            assert(percent_encoded(a).len() > 0);
        }
        if b.len() > 0 {
            assert(percent_byte(b.first()).len() > 0);
            assert(percent_encoded(b).len() > 0);
        }
        assert(a == b);
    } else {
        let p = percent_byte(a.first());
        let q = percent_byte(b.first());
        let e = percent_encoded(a);
        let f = percent_encoded(b);
        assert(e[0] == p[0]);
        assert(f[0] == q[0]);
        assert(p.len() == q.len());
        assert forall|i: int| 0 <= i < p.len() implies p[i] == q[i] by {
            assert(e[i] == p[i]);
            assert(f[i] == q[i]);
        }
        assert(a.first() == b.first());
        assert(e.skip(p.len() as int) == percent_encoded(a.drop_first()));
        assert(f.skip(q.len() as int) == percent_encoded(b.drop_first()));
        lemma_encoding_is_injective(a.drop_first(), b.drop_first());
        assert(a == seq![a.first()] + a.drop_first());
        assert(b == seq![b.first()] + b.drop_first());
    }
}

} // verus!
