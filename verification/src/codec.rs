//! Bytes as text: base64 and hexadecimal.

use vstd::prelude::*;

use crate::text::hex_byte_text;

verus! {

/// The character of the standard base64 alphabet (RFC 4648, section 4) for a
/// number below 64.
pub open spec fn base64_char(n: int) -> char {
    if n < 26 {
        (65 + n) as char
    } else if n < 52 {
        (97 + n - 26) as char
    } else if n < 62 {
        (48 + n - 52) as char
    } else if n == 62 {
        '+'
    } else {
        '/'
    }
}

/// Bytes in base64: four characters for every three bytes, and padding with
/// equals signs at the end.
pub open spec fn base64_text(b: Seq<u8>) -> Seq<char>
    decreases b.len(),
{
    if b.len() == 0 {
        Seq::empty()
    } else if b.len() == 1 {
        seq![base64_char(b[0] as int / 4), base64_char(b[0] as int % 4 * 16), '=', '=']
    } else if b.len() == 2 {
        seq![
            base64_char(b[0] as int / 4),
            base64_char(b[0] as int % 4 * 16 + b[1] as int / 16),
            base64_char(b[1] as int % 16 * 4),
            '=',
        ]
    } else {
        seq![
            base64_char(b[0] as int / 4),
            base64_char(b[0] as int % 4 * 16 + b[1] as int / 16),
            base64_char(b[1] as int % 16 * 4 + b[2] as int / 64),
            base64_char(b[2] as int % 64),
        ] + base64_text(b.skip(3))
    }
}

/// `base64::Engine::encode` of the `STANDARD` engine: the alphabet of
/// RFC 4648, section 4, with padding. It panics when the text is longer than
/// memory can hold.
#[verifier::external_body]
pub(crate) fn base64_encode(bytes: &[u8]) -> (out: String)
    requires
        bytes@.len() <= isize::MAX / 2,
    ensures
        out@ == base64_text(bytes@),
{
    base64::Engine::encode(&base64::engine::general_purpose::STANDARD, bytes)
}

/// `base64::Engine::decode` of the `STANDARD` engine. It demands canonical
/// padding and zeros in the bits that are not used, so it accepts exactly the
/// texts that encoding gives, and gives what was encoded.
#[verifier::external_body]
pub(crate) fn base64_decode(text: &str) -> (r: Option<Vec<u8>>)
    ensures
        match r {
            Some(bytes) => base64_text(bytes@) == text@,
            None => forall|bytes: Seq<u8>| #[trigger] base64_text(bytes) != text@,
        },
{
    base64::Engine::decode(&base64::engine::general_purpose::STANDARD, text).ok()
}

/// Bytes in hexadecimal.
pub open spec fn hex_bytes_text(b: Seq<u8>) -> Seq<char>
    decreases b.len(),
{
    if b.len() == 0 {
        Seq::empty()
    } else {
        hex_bytes_text(b.drop_last()) + hex_byte_text(b.last())
    }
}

/// `hex::encode`: two lower-case digits for every byte.
#[verifier::external_body]
pub(crate) fn hex_encode(bytes: &[u8]) -> (out: String)
    ensures
        out@ == hex_bytes_text(bytes@),
{
    hex::encode(bytes)
}

proof fn lemma_base64_char_injective(a: int, b: int)
    requires
        0 <= a < 64,
        0 <= b < 64,
    ensures
        base64_char(a) == base64_char(b) ==> a == b,
        base64_char(a) != '=',
{
}

/// Different bytes have different base64 texts: what is encoded can be read
/// back in one way only.
pub proof fn law_base64_is_unambiguous(a: Seq<u8>, b: Seq<u8>)
    requires
        base64_text(a) == base64_text(b),
    ensures
        a == b,
    decreases a.len(),
{
    let s = base64_text(a);
    let t = base64_text(b);
    if a.len() == 0 || b.len() == 0 {
        assert(s.len() == t.len());
        assert(a =~= b);
    } else {
        let a0 = a[0] as int;
        let b0 = b[0] as int;
        assert(s[0] == t[0] && s[1] == t[1] && s[2] == t[2] && s[3] == t[3]);
        let a1 = if a.len() >= 2 {
            a[1] as int
        } else {
            0
        };
        let b1 = if b.len() >= 2 {
            b[1] as int
        } else {
            0
        };
        let a2 = if a.len() >= 3 {
            a[2] as int
        } else {
            0
        };
        let b2 = if b.len() >= 3 {
            b[2] as int
        } else {
            0
        };
        lemma_base64_char_injective(a0 / 4, b0 / 4);
        lemma_base64_char_injective(a0 % 4 * 16 + a1 / 16, b0 % 4 * 16 + b1 / 16);
        lemma_base64_char_injective(a1 % 16 * 4 + a2 / 64, b1 % 16 * 4 + b2 / 64);
        lemma_base64_char_injective(a2 % 64, b2 % 64);
        if a.len() >= 3 && b.len() >= 3 {
            assert(s.skip(4) =~= base64_text(a.skip(3)));
            assert(t.skip(4) =~= base64_text(b.skip(3)));
            law_base64_is_unambiguous(a.skip(3), b.skip(3));
            assert(a =~= seq![a[0], a[1], a[2]] + a.skip(3));
            assert(b =~= seq![b[0], b[1], b[2]] + b.skip(3));
        } else {
            assert(a =~= b);
        }
    }
}

/// The characters of base64 are the capital letters, the small letters, the
/// digits, the plus sign and the slash, in this order.
pub proof fn law_base64_alphabet(n: int)
    requires
        0 <= n < 64,
    ensures
        n < 26 ==> base64_char(n) as int == 'A' as int + n,
        26 <= n < 52 ==> base64_char(n) as int == 'a' as int + (n - 26),
        52 <= n < 62 ==> base64_char(n) as int == '0' as int + (n - 52),
        n == 62 ==> base64_char(n) == '+',
        n == 63 ==> base64_char(n) == '/',
{
}

/// Every three bytes, and what is left of them, take four characters.
pub proof fn law_base64_length(b: Seq<u8>)
    ensures
        base64_text(b).len() == (b.len() + 2) / 3 * 4,
    decreases b.len(),
{
    if b.len() >= 3 {
        law_base64_length(b.skip(3));
    }
}

/// Bytes in hexadecimal are those of each byte, one after the other.
pub proof fn law_hexadecimal_of_bytes(b: Seq<u8>, last: u8)
    ensures
        hex_bytes_text(Seq::empty()).len() == 0,
        hex_bytes_text(b.push(last)) == hex_bytes_text(b) + hex_byte_text(last),
{
    assert(b.push(last).drop_last() =~= b);
}

} // verus!
