//! Byte-level helpers on UTF-8 strings.

use vstd::prelude::*;
use vstd::utf8::*;

verus! {

broadcast use vstd::utf8::group_utf8_lib;

/// `/`
pub const SLASH: u8 = 0x2f;
/// `\\`
pub const BACKSLASH: u8 = 0x5c;
/// `:`
pub const COLON: u8 = 0x3a;
/// `-`
pub const DASH: u8 = 0x2d;
/// `v`
pub const LOWER_V: u8 = 0x76;
/// `'`
pub const QUOTE: u8 = 0x27;

/// The view of an optional string.
pub open spec fn opt_view(o: Option<String>) -> Option<Seq<char>> {
    match o {
        Some(s) => Some(s@),
        None => None,
    }
}

/// The UTF-8 bytes of a character sequence (what `as_bytes` gives for a string
/// with that view).
pub open spec fn utf8_of(s: Seq<char>) -> Seq<u8> {
    encode_utf8(s)
}

/// In valid UTF-8, an ASCII byte is a whole character: the positions just
/// before and just after it are character boundaries.
pub proof fn lemma_ascii_byte_is_char(bytes: Seq<u8>, i: int)
    requires
        valid_utf8(bytes),
        0 <= i < bytes.len(),
        bytes[i] < 0x80,
    ensures
        is_char_boundary(bytes, i),
        is_char_boundary(bytes, i + 1),
    decreases bytes.len(),
{
    let n = length_of_first_scalar(bytes);
    if i < n {
        if i > 0 {
            assert(is_continuation_byte(bytes[i]));
        }
        reveal_with_fuel(is_char_boundary, 2);
        is_char_boundary_start_end_of_seq(pop_first_scalar(bytes));
    } else {
        lemma_ascii_byte_is_char(pop_first_scalar(bytes), i - n);
        assert(pop_first_scalar(bytes)[i - n] == bytes[i]);
    }
}

/// A character sequence whose UTF-8 bytes are all below 0x80 is ASCII, and
/// its bytes are its characters.
pub proof fn lemma_small_bytes_are_ascii(s: Seq<char>)
    requires
        forall|i: int| 0 <= i < utf8_of(s).len() ==> utf8_of(s)[i] < 0x80,
    ensures
        is_ascii_chars(s),
        utf8_of(s).len() == s.len(),
        forall|i: int| 0 <= i < s.len() ==> #[trigger] utf8_of(s)[i] == s[i] as u8,
    decreases s.len(),
{
    if s.len() > 0 {
        let v = s[0] as u32;
        let rest = s.drop_first();
        let head = encode_scalar(v);
        assert(utf8_of(s) == head + utf8_of(rest));
        if !has_width_1_encoding(v) {
            let b0 = head[0];
            let x = ((v >> 6) & 0x1F) as u8;
            let y = ((v >> 12) & 0x0F) as u8;
            let z = ((v >> 18) & 0x7) as u8;
            assert(0xC0u8 | x >= 0x80 && 0xE0u8 | y >= 0x80 && 0xF0u8 | z >= 0x80) by (bit_vector);
            assert(utf8_of(s)[0] == b0);
            assert(false);
        }
        assert forall|i: int| 0 <= i < utf8_of(rest).len() implies utf8_of(rest)[i] < 0x80 by {
            assert(utf8_of(rest)[i] == utf8_of(s)[i + 1]);
        }
        lemma_small_bytes_are_ascii(rest);
        assert forall|i: int| 0 <= i < s.len() implies '\0' <= #[trigger] s[i] <= '\u{7f}' by {
            if i > 0 {
                assert(s[i] == rest[i - 1]);
            } else {
                assert(s[0] as u32 <= 0x7f);
                char_u32_cast(s[0], v);
                assert((v as char) <= '\u{7f}');
                assert(s[0] <= '\u{7f}');
            }
        }
        is_ascii_chars_encode_utf8(s);
    }
}

/// An ASCII character of a string appears as that byte in its UTF-8 bytes.
pub proof fn lemma_ascii_char_in_bytes(t: Seq<char>, j: int)
    requires
        0 <= j < t.len(),
        '\0' <= t[j] <= '\u{7f}',
    ensures
        exists|i: int| 0 <= i < utf8_of(t).len() && utf8_of(t)[i] == t[j] as u8,
    decreases t.len(),
{
    let rest = t.drop_first();
    let head = encode_scalar(t[0] as u32);
    assert(utf8_of(t) == head + utf8_of(rest));
    if j == 0 {
        let v = t[0] as u32;
        char_u32_cast(t[0], v);
        assert(v <= 0x7f);
        assert(((v & 0x7F) as u8) as int == v) by (bit_vector)
            requires
                v <= 0x7f,
        ;
        assert(utf8_of(t)[0] == head[0]);
        assert(head[0] as int == v);
        assert(t[0] as u8 as int == v);
    } else {
        assert(rest[j - 1] == t[j]);
        lemma_ascii_char_in_bytes(rest, j - 1);
        let i = choose|i: int| 0 <= i < utf8_of(rest).len() && utf8_of(rest)[i] == rest[j - 1] as u8;
        assert(utf8_of(t)[head.len() + i] == utf8_of(rest)[i]);
    }
}

/// Byte-wise equality of two byte slices.
pub fn bytes_eq(a: &[u8], b: &[u8]) -> (r: bool)
    ensures
        r == (a@ == b@),
{
    if a.len() != b.len() {
        return false;
    }
    let mut i: usize = 0;
    while i < a.len()
        invariant
            a@.len() == b@.len(),
            i <= a@.len(),
            forall|j: int| 0 <= j < i ==> a@[j] == b@[j],
        decreases a@.len() - i,
    {
        if a[i] != b[i] {
            return false;
        }
        i = i + 1;
    }
    assert(a@ =~= b@);
    true
}

} // verus!
