//! How long text is in UTF-8, and which bytes it has.

use vstd::prelude::*;
use vstd::utf8::*;

use crate::path::SLASH;

verus! {

/// The number of bytes of `c` in UTF-8.
pub open spec fn width(c: char) -> nat {
    if c as u32 <= 0x7f {
        1
    } else if c as u32 <= 0x7ff {
        2
    } else if c as u32 <= 0xffff {
        3
    } else {
        4
    }
}

/// The number of bytes of `c` in UTF-8.
pub fn width_of(c: char) -> (n: usize)
    ensures
        n == width(c),
        1 <= n <= 4,
{
    let code: u32 = c as u32;
    if code <= 0x7f {
        1
    } else if code <= 0x7ff {
        2
    } else if code <= 0xffff {
        3
    } else {
        4
    }
}

proof fn encoded_char(c: char)
    ensures
        encode_scalar(c as u32).len() == width(c),
        c != '/' ==> forall|i: int| 0 <= i < width(c) ==> #[trigger] encode_scalar(c as u32)[i] != SLASH,
{
    let s = c as u32;
    char_is_scalar(c);
    if has_width_1_encoding(s) {
        assert((s & 0x7F) as u8 == s) by (bit_vector)
            requires
                s <= 0x7f,
        ;
    }
    assert((0xC0u8 | ((s >> 6) & 0x1F) as u8) >= 0x80) by (bit_vector);
    assert((0xE0u8 | ((s >> 12) & 0x0F) as u8) >= 0x80) by (bit_vector);
    assert((0xF0u8 | ((s >> 18) & 0x7) as u8) >= 0x80) by (bit_vector);
    assert((0x80u8 | (s & 0x3F) as u8) >= 0x80) by (bit_vector);
    assert((0x80u8 | ((s >> 6) & 0x3F) as u8) >= 0x80) by (bit_vector);
    assert((0x80u8 | ((s >> 12) & 0x3F) as u8) >= 0x80) by (bit_vector);
}

/// The encoding of two texts one after the other is that of the one and then that
/// of the other.
pub proof fn encoding_of_a_concatenation(a: Seq<char>, b: Seq<char>)
    ensures
        encode_utf8(a + b) == encode_utf8(a) + encode_utf8(b),
    decreases a.len(),
{
    if a.len() == 0 {
        assert(a + b =~= b);
        assert(encode_utf8(a) + encode_utf8(b) =~= encode_utf8(b));
    } else {
        encoding_of_a_concatenation(a.drop_first(), b);
        assert((a + b).drop_first() =~= a.drop_first() + b);
        assert((a + b)[0] == a[0]);
        assert(encode_scalar(a[0] as u32) + (encode_utf8(a.drop_first()) + encode_utf8(b)) =~= (
        encode_scalar(a[0] as u32) + encode_utf8(a.drop_first())) + encode_utf8(b));
    }
}

/// One more character is as many more bytes as it is wide.
pub proof fn encoding_of_one_more(s: Seq<char>, c: char)
    ensures
        encode_utf8(s.push(c)).len() == encode_utf8(s).len() + width(c),
{
    let one = seq![c];
    encoding_of_a_concatenation(s, one);
    assert(s.push(c) =~= s + one);
    encoded_char(c);
    assert(one.drop_first() =~= Seq::<char>::empty());
    assert(encode_utf8(one.drop_first()).len() == 0);
    assert(encode_utf8(one) =~= encode_scalar(c as u32));
}

/// Text has at least one byte for each character, and text without a slash has no
/// byte that is one.
pub proof fn encoding_of_text_without_slashes(s: Seq<char>)
    ensures
        encode_utf8(s).len() >= s.len(),
        (forall|i: int| 0 <= i < s.len() ==> #[trigger] s[i] != '/') ==> forall|i: int|
            0 <= i < encode_utf8(s).len() ==> #[trigger] encode_utf8(s)[i] != SLASH,
    decreases s.len(),
{
    if s.len() > 0 {
        let rest = s.drop_first();
        encoding_of_text_without_slashes(rest);
        encoded_char(s[0]);
        if forall|i: int| 0 <= i < s.len() ==> #[trigger] s[i] != '/' {
            assert forall|i: int| 0 <= i < rest.len() implies #[trigger] rest[i] != '/' by {
                assert(rest[i] == s[i + 1]);
            }
            let head = encode_scalar(s[0] as u32);
            assert forall|i: int| 0 <= i < encode_utf8(s).len() implies #[trigger] encode_utf8(s)[i]
                != SLASH by {
                if i < head.len() {
                    assert(encode_utf8(s)[i] == head[i]);
                } else {
                    assert(encode_utf8(s)[i] == encode_utf8(rest)[i - head.len()]);
                }
            }
        }
    }
}

} // verus!
