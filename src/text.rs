use vstd::prelude::*;
use vstd::utf8::*;

verus! {

/// What `str::to_uppercase` makes of a text that is not all ASCII.
pub uninterp spec fn uppercase_of(s: Seq<char>) -> Seq<char>;

/// ASCII upper case of one character: `a`..`z` become `A`..`Z`, the rest stays.
pub open spec fn ascii_upper_char(c: char) -> char {
    if 'a' <= c <= 'z' {
        ((c as u32) - 32) as char
    } else {
        c
    }
}

/// ASCII upper case of a text.
pub open spec fn ascii_upper(s: Seq<char>) -> Seq<char> {
    s.map_values(|c: char| ascii_upper_char(c))
}

/// The upper case of a text, as `str::to_uppercase` gives it.
pub open spec fn upper(s: Seq<char>) -> Seq<char> {
    if is_ascii_chars(s) {
        ascii_upper(s)
    } else {
        uppercase_of(s)
    }
}

/// Relies on `str::to_uppercase`: a result that depends on the characters alone, and that on
/// an ASCII text maps `a`..`z` to `A`..`Z` and keeps every other character.
#[verifier::external_body]
pub(crate) fn to_upper(s: &str) -> (r: String)
    ensures
        !is_ascii_chars(s@) ==> r@ == uppercase_of(s@),
        is_ascii_chars(s@) ==> r@ == ascii_upper(s@),
{
    s.to_uppercase()
}

/// Relies on `String::from_utf8`: the text when the bytes are valid UTF-8, an error otherwise.
#[verifier::external_body]
pub(crate) fn utf8_text(b: Vec<u8>) -> (r: Option<String>)
    ensures
        match r {
            Some(s) => valid_utf8(b@) && s@ == decode_utf8(b@),
            None => !valid_utf8(b@),
        },
{
    match String::from_utf8(b) {
        Ok(s) => Some(s),
        Err(_) => None,
    }
}

pub proof fn lemma_encode_utf8_concat(a: Seq<char>, b: Seq<char>)
    ensures
        encode_utf8(a + b) == encode_utf8(a) + encode_utf8(b),
    decreases a.len(),
{
    if a.len() == 0 {
        assert(a + b == b);
    } else {
        lemma_encode_utf8_concat(a.drop_first(), b);
        assert((a + b).drop_first() == a.drop_first() + b);
        assert((a + b)[0] == a[0]);
    }
}

proof fn lemma_scalar_no_space(c: char)
    requires
        c != ' ',
    ensures
        forall|i: int| 0 <= i < encode_scalar(c as u32).len() ==> #[trigger] encode_scalar(c as u32)[i] != 32u8,
{
    let s = c as u32;
    assert(s != 32u32);
    if has_width_1_encoding(s) {
        assert((s & 0x7F) as u8 != 32u8) by (bit_vector)
            requires
                s <= 0x7f,
                s != 32u32,
        ;
    } else {
        let b1 = ((s >> 6) & 0x1F) as u8;
        let b2 = ((s >> 12) & 0x0F) as u8;
        let b3 = ((s >> 18) & 0x7) as u8;
        let c0 = (s & 0x3F) as u8;
        let c1 = ((s >> 6) & 0x3F) as u8;
        let c2 = ((s >> 12) & 0x3F) as u8;
        assert(0xC0u8 | b1 != 32u8) by (bit_vector);
        assert(0xE0u8 | b2 != 32u8) by (bit_vector);
        assert(0xF0u8 | b3 != 32u8) by (bit_vector);
        assert(0x80u8 | c0 != 32u8) by (bit_vector);
        assert(0x80u8 | c1 != 32u8) by (bit_vector);
        assert(0x80u8 | c2 != 32u8) by (bit_vector);
    }
}

/// A text without a space character encodes to bytes without the space byte.
pub proof fn lemma_no_space_encoding(t: Seq<char>)
    requires
        forall|i: int| 0 <= i < t.len() ==> #[trigger] t[i] != ' ',
    ensures
        forall|i: int| 0 <= i < encode_utf8(t).len() ==> #[trigger] encode_utf8(t)[i] != 32u8,
    decreases t.len(),
{
    if t.len() > 0 {
        lemma_scalar_no_space(t[0]);
        let rest = t.drop_first();
        assert forall|i: int| 0 <= i < rest.len() implies #[trigger] rest[i] != ' ' by {
            assert(rest[i] == t[i + 1]);
        }
        lemma_no_space_encoding(rest);
        let e = encode_utf8(t);
        let h = encode_scalar(t[0] as u32);
        assert(e == h + encode_utf8(rest));
        assert forall|i: int| 0 <= i < e.len() implies #[trigger] e[i] != 32u8 by {
            if i < h.len() {
                assert(e[i] == h[i]);
            } else {
                assert(e[i] == encode_utf8(rest)[i - h.len()]);
            }
        }
    }
}

/// Bytes below 128 are valid UTF-8, one character each.
pub proof fn lemma_ascii_bytes_utf8(b: Seq<u8>)
    requires
        forall|i: int| 0 <= i < b.len() ==> #[trigger] b[i] < 128,
    ensures
        valid_utf8(b),
        decode_utf8(b).len() == b.len(),
        forall|i: int| 0 <= i < b.len() ==> #[trigger] decode_utf8(b)[i] == b[i] as char,
    decreases b.len(),
{
    if b.len() > 0 {
        assert(is_leading_byte_width_1(b[0]));
        let rest = b.subrange(1, b.len() as int);
        assert(pop_first_scalar(b) == rest);
        lemma_ascii_bytes_utf8(rest);
        let b0 = b[0];
        assert(b0 & 0x7f == b0) by (bit_vector)
            requires
                b0 < 128,
        ;
        assert(decode_first_scalar(b) == b[0] as u32);
        assert forall|i: int| 0 <= i < b.len() implies #[trigger] decode_utf8(b)[i] == b[i] as char by {
            if i > 0 {
                assert(decode_utf8(b)[i] == decode_utf8(rest)[i - 1]);
                assert(rest[i - 1] == b[i]);
            }
        }
    }
}

} // verus!
