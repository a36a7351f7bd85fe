use vstd::prelude::*;
use vstd::utf8::encode_utf8;

verus! {

/// The value of a hex digit (`0`-`9`, `a`-`f`, `A`-`F`), given as an ASCII byte.
pub open spec fn hex_value(b: u8) -> Option<u8> {
    if 48 <= b <= 57 {
        Some((b - 48) as u8)
    } else if 97 <= b <= 102 {
        Some((b - 87) as u8)
    } else if 65 <= b <= 70 {
        Some((b - 55) as u8)
    } else {
        None
    }
}

/// The hex digits among the bytes of `b`, in order; every other byte is skipped.
pub open spec fn hex_digits(b: Seq<u8>) -> Seq<u8>
    decreases b.len(),
{
    if b.len() == 0 {
        Seq::empty()
    } else {
        match hex_value(b.last()) {
            Some(v) => hex_digits(b.drop_last()).push(v),
            None => hex_digits(b.drop_last()),
        }
    }
}

/// Digits taken two at a time, high digit first.
pub open spec fn digit_pairs(d: Seq<u8>) -> Seq<u8> {
    Seq::new(d.len() / 2, |i: int| (d[2 * i] * 16 + d[2 * i + 1]) as u8)
}

/// The bytes that a hex text stands for: its hex digits (other characters are skipped; a
/// character outside ASCII is written in bytes none of which is a hex digit) taken in
/// pairs. `None` when the number of hex digits is odd.
pub open spec fn hex_bytes(text: Seq<u8>) -> Option<Seq<u8>> {
    let d = hex_digits(text);
    if d.len() % 2 != 0 {
        None
    } else {
        Some(digit_pairs(d))
    }
}

fn hex_digit_value(b: u8) -> (r: Option<u8>)
    ensures
        r == hex_value(b),
{
    if 48 <= b && b <= 57 {
        Some(b - 48)
    } else if 97 <= b && b <= 102 {
        Some(b - 87)
    } else if 65 <= b && b <= 70 {
        Some(b - 55)
    } else {
        None
    }
}

/// Reads a hex text into bytes, as [`hex_bytes`] describes.
pub fn hex_to_bytes(hex_string: &str) -> (r: Option<Vec<u8>>)
    ensures
        match r {
            Some(v) => hex_bytes(encode_utf8(hex_string@)) == Some(v@),
            None => hex_bytes(encode_utf8(hex_string@)) is None,
        },
{
    let text = hex_string.as_bytes();
    let mut bytes: Vec<u8> = Vec::new();
    let mut upper: Option<u8> = None;
    let mut i: usize = 0;
    while i < text.len()
        invariant
            i <= text@.len(),
            text@ == encode_utf8(hex_string@),
            forall|j: int| 0 <= j < hex_digits(text@.take(i as int)).len() ==> #[trigger] hex_digits(text@.take(i as int))[j] < 16,
            bytes@ == digit_pairs(hex_digits(text@.take(i as int))),
            upper == (if hex_digits(text@.take(i as int)).len() % 2 == 1 {
                Some(hex_digits(text@.take(i as int)).last())
            } else {
                None::<u8>
            }),
        decreases text.len() - i,
    {
        let ghost d = hex_digits(text@.take(i as int));
        assert(text@.take(i + 1).drop_last() == text@.take(i as int));
        assert(text@.take(i + 1).last() == text@[i as int]);
        match hex_digit_value(text[i]) {
            Some(v) => {
                let ghost d2 = d.push(v);
                assert(hex_digits(text@.take(i + 1)) == d2);
                match upper {
                    Some(u) => {
                        let byte: u8 = u * 16 + v;
                        bytes.push(byte);
                        upper = None;
                        assert(bytes@ =~= digit_pairs(d2));
                    },
                    None => {
                        upper = Some(v);
                        assert(digit_pairs(d2) =~= digit_pairs(d));
                    },
                }
            },
            None => {},
        }
        i = i + 1;
    }
    assert(text@.take(i as int) == text@);
    if upper.is_some() {
        None
    } else {
        Some(bytes)
    }
}

} // verus!
