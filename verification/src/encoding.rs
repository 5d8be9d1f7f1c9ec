//! The encodings the pairing payload is built from: base64url (RFC 4648 §5,
//! no padding) for access keys, percent-encoding for query values, and
//! decimal digits for port numbers.

use base64::Engine;
use vstd::prelude::*;
use vstd::utf8::encode_utf8;

use crate::text::push_char;

verus! {

/// The base64url digit for a 6-bit value `v` (`A-Z`, `a-z`, `0-9`, `-`, `_`).
pub open spec fn b64url_digit(v: int) -> char {
    if v < 26 {
        (65 + v) as char
    } else if v < 52 {
        (97 + (v - 26)) as char
    } else if v < 62 {
        (48 + (v - 52)) as char
    } else if v == 62 {
        '-'
    } else {
        '_'
    }
}

/// A character of the base64url alphabet.
pub open spec fn is_b64url_char(c: char) -> bool {
    ||| 'A' <= c <= 'Z'
    ||| 'a' <= c <= 'z'
    ||| '0' <= c <= '9'
    ||| c == '-'
    ||| c == '_'
}

/// Base64url encoding without padding (RFC 4648 §5): each group of three
/// bytes becomes four digits; a final group of one or two bytes becomes two
/// or three digits.
pub open spec fn base64url(b: Seq<u8>) -> Seq<char>
    decreases b.len(),
{
    if b.len() == 0 {
        seq![]
    } else if b.len() == 1 {
        seq![b64url_digit(b[0] as int / 4), b64url_digit((b[0] as int % 4) * 16)]
    } else if b.len() == 2 {
        seq![
            b64url_digit(b[0] as int / 4),
            b64url_digit((b[0] as int % 4) * 16 + b[1] as int / 16),
            b64url_digit((b[1] as int % 16) * 4),
        ]
    } else {
        seq![
            b64url_digit(b[0] as int / 4),
            b64url_digit((b[0] as int % 4) * 16 + b[1] as int / 16),
            b64url_digit((b[1] as int % 16) * 4 + b[2] as int / 64),
            b64url_digit(b[2] as int % 64),
        ] + base64url(b.skip(3))
    }
}

/// `base64::engine::general_purpose::URL_SAFE_NO_PAD.encode`: claimed to
/// return the RFC 4648 base64url encoding of `bytes`, without `=` padding.
/// The engine panics only when the encoded length overflows `usize`, which
/// the bound in `requires` rules out.
#[verifier::external_body]
pub(crate) fn base64url_encode(bytes: &[u8]) -> (s: String)
    requires
        bytes@.len() <= usize::MAX / 2,
    ensures
        s@ == base64url(bytes@),
{
    base64::engine::general_purpose::URL_SAFE_NO_PAD.encode(bytes)
}

/// The length of an unpadded base64url encoding.
pub proof fn lemma_base64url_len(b: Seq<u8>)
    ensures
        base64url(b).len() == (4 * b.len() + 2) / 3,
    decreases b.len(),
{
    if b.len() >= 3 {
        lemma_base64url_len(b.skip(3));
    }
}

proof fn lemma_b64url_digit(v: int)
    requires
        0 <= v < 64,
    ensures
        is_b64url_char(b64url_digit(v)),
{
}

/// Every character of a base64url encoding is in the base64url alphabet.
pub proof fn lemma_base64url_alphabet(b: Seq<u8>)
    ensures
        forall|i: int| 0 <= i < base64url(b).len() ==> is_b64url_char(#[trigger] base64url(b)[i]),
    decreases b.len(),
{
    if b.len() == 0 {
    } else if b.len() == 1 {
        lemma_b64url_digit(b[0] as int / 4);
        lemma_b64url_digit((b[0] as int % 4) * 16);
    } else if b.len() == 2 {
        lemma_b64url_digit(b[0] as int / 4);
        lemma_b64url_digit((b[0] as int % 4) * 16 + b[1] as int / 16);
        lemma_b64url_digit((b[1] as int % 16) * 4);
    } else {
        lemma_b64url_digit(b[0] as int / 4);
        lemma_b64url_digit((b[0] as int % 4) * 16 + b[1] as int / 16);
        lemma_b64url_digit((b[1] as int % 16) * 4 + b[2] as int / 64);
        lemma_b64url_digit(b[2] as int % 64);
        lemma_base64url_alphabet(b.skip(3));
        let head = seq![
            b64url_digit(b[0] as int / 4),
            b64url_digit((b[0] as int % 4) * 16 + b[1] as int / 16),
            b64url_digit((b[1] as int % 16) * 4 + b[2] as int / 64),
            b64url_digit(b[2] as int % 64),
        ];
        assert forall|i: int| 0 <= i < base64url(b).len() implies is_b64url_char(
            #[trigger] base64url(b)[i],
        ) by {
            if i >= 4 {
                assert(base64url(b)[i] == base64url(b.skip(3))[i - 4]);
            } else {
                assert(base64url(b)[i] == head[i]);
            }
        }
    }
}

/// A byte that percent-encoding leaves as it is: an ASCII letter or digit,
/// or one of `-`, `.`, `_`, `~`.
pub open spec fn url_unreserved(b: u8) -> bool {
    ||| 48 <= b <= 57
    ||| 65 <= b <= 90
    ||| 97 <= b <= 122
    ||| b == 45
    ||| b == 46
    ||| b == 95
    ||| b == 126
}

/// An upper-case hexadecimal digit for `d < 16`.
pub open spec fn hex_upper(d: int) -> char {
    if d < 10 {
        (48 + d) as char
    } else {
        (55 + d) as char
    }
}

/// Percent-encoding of a byte string: unreserved bytes stay as they are,
/// every other byte becomes `%` and two upper-case hex digits.
pub open spec fn percent_encode(bytes: Seq<u8>) -> Seq<char>
    decreases bytes.len(),
{
    if bytes.len() == 0 {
        seq![]
    } else {
        let b = bytes[0];
        (if url_unreserved(b) {
            seq![b as char]
        } else {
            seq!['%', hex_upper(b as int / 16), hex_upper(b as int % 16)]
        }) + percent_encode(bytes.drop_first())
    }
}

/// Percent-encoding of the UTF-8 bytes of `s`.
pub open spec fn url_encode(s: Seq<char>) -> Seq<char> {
    percent_encode(encode_utf8(s))
}

/// `urlencoding::encode`: claimed to percent-encode every UTF-8 byte of `s`
/// except ASCII letters, digits, `-`, `.`, `_` and `~`, with upper-case hex
/// digits.
#[verifier::external_body]
pub(crate) fn url_encode_str(s: &str) -> (r: String)
    ensures
        r@ == url_encode(s@),
{
    urlencoding::encode(s).into_owned()
}

/// A character that can appear in a percent-encoded value: an unreserved
/// ASCII character or `%`. In particular none of `&`, `=`, `?`, `#`.
pub open spec fn is_query_value_char(c: char) -> bool {
    ||| '0' <= c <= '9'
    ||| 'A' <= c <= 'Z'
    ||| 'a' <= c <= 'z'
    ||| c == '-'
    ||| c == '.'
    ||| c == '_'
    ||| c == '~'
    ||| c == '%'
}

/// Percent-encoded text holds only unreserved characters and `%`, so it can
/// stand as a query value without ending it.
pub proof fn lemma_percent_encode_chars(bytes: Seq<u8>)
    ensures
        forall|i: int|
            0 <= i < percent_encode(bytes).len() ==> is_query_value_char(
                #[trigger] percent_encode(bytes)[i],
            ),
    decreases bytes.len(),
{
    if bytes.len() > 0 {
        lemma_percent_encode_chars(bytes.drop_first());
        let b = bytes[0];
        let head = if url_unreserved(b) {
            seq![b as char]
        } else {
            seq!['%', hex_upper(b as int / 16), hex_upper(b as int % 16)]
        };
        assert forall|i: int| 0 <= i < percent_encode(bytes).len() implies is_query_value_char(
            #[trigger] percent_encode(bytes)[i],
        ) by {
            if i < head.len() {
                assert(percent_encode(bytes)[i] == head[i]);
            } else {
                assert(percent_encode(bytes)[i] == percent_encode(bytes.drop_first())[i
                    - head.len()]);
            }
        }
    }
}

/// The value of a hexadecimal digit of either case, if `c` is one.
pub open spec fn hex_value(c: char) -> Option<int> {
    if '0' <= c <= '9' {
        Some(c as int - 48)
    } else if 'A' <= c <= 'F' {
        Some(c as int - 55)
    } else if 'a' <= c <= 'f' {
        Some(c as int - 87)
    } else {
        None
    }
}

/// Percent-decoding, as a reader of a query value does it: `%` followed by
/// two hex digits is the byte they spell; any other character stands for
/// its own (ASCII) code.
pub open spec fn percent_decode(s: Seq<char>) -> Seq<u8>
    decreases s.len(),
{
    if s.len() == 0 {
        seq![]
    } else if s[0] == '%' && s.len() >= 3 && hex_value(s[1]) is Some && hex_value(s[2]) is Some {
        seq![(hex_value(s[1]).unwrap() * 16 + hex_value(s[2]).unwrap()) as u8] + percent_decode(
            s.skip(3),
        )
    } else {
        seq![s[0] as u8] + percent_decode(s.drop_first())
    }
}

/// Decoding a percent-encoded byte string gives the bytes back.
pub proof fn lemma_percent_round_trip(bytes: Seq<u8>)
    ensures
        percent_decode(percent_encode(bytes)) == bytes,
    decreases bytes.len(),
{
    if bytes.len() == 0 {
        assert(percent_decode(percent_encode(bytes)) =~= bytes);
    } else {
        let b = bytes[0];
        let rest = percent_encode(bytes.drop_first());
        lemma_percent_round_trip(bytes.drop_first());
        let e = percent_encode(bytes);
        if url_unreserved(b) {
            assert(e == seq![b as char] + rest);
            assert(e[0] == b as char);
            assert((b as char) as u8 == b);
            assert(e.drop_first() =~= rest);
        } else {
            let hi = b as int / 16;
            let lo = b as int % 16;
            assert(e == seq!['%', hex_upper(hi), hex_upper(lo)] + rest);
            assert(e[0] == '%' && e[1] == hex_upper(hi) && e[2] == hex_upper(lo));
            assert(hex_value(hex_upper(hi)) == Some(hi));
            assert(hex_value(hex_upper(lo)) == Some(lo));
            assert(e.skip(3) =~= rest);
            assert((hi * 16 + lo) as u8 == b);
        }
        assert(percent_decode(e) =~= bytes);
    }
}

/// A percent-encoded value reads back as the text it encodes: decoding it
/// gives the UTF-8 bytes of `s`, and those decode to `s`.
pub proof fn lemma_url_encode_round_trip(s: Seq<char>)
    ensures
        percent_decode(url_encode(s)) == encode_utf8(s),
        vstd::utf8::decode_utf8(percent_decode(url_encode(s))) == s,
{
    lemma_percent_round_trip(encode_utf8(s));
    vstd::utf8::encode_utf8_decode_utf8(s);
}

/// Text made of unreserved ASCII characters only.
pub open spec fn all_unreserved(s: Seq<char>) -> bool {
    forall|i: int|
        0 <= i < s.len() ==> ('0' <= #[trigger] s[i] <= '9' || 'A' <= s[i] <= 'Z' || 'a' <= s[i]
            <= 'z' || s[i] == '-' || s[i] == '.' || s[i] == '_' || s[i] == '~')
}

proof fn lemma_percent_encode_ascii(s: Seq<char>)
    requires
        all_unreserved(s),
    ensures
        percent_encode(s.map_values(|c: char| c as u8)) == s,
    decreases s.len(),
{
    let bytes = s.map_values(|c: char| c as u8);
    if s.len() > 0 {
        lemma_percent_encode_ascii(s.drop_first());
        assert(bytes.drop_first() =~= s.drop_first().map_values(|c: char| c as u8));
        let c = s[0];
        assert(bytes[0] == c as u8);
        assert((c as u8) as char == c);
        assert(percent_encode(bytes) =~= s);
    } else {
        assert(percent_encode(bytes) =~= s);
    }
}

/// Percent-encoding leaves text of unreserved ASCII characters unchanged.
pub proof fn lemma_url_encode_unreserved(s: Seq<char>)
    requires
        all_unreserved(s),
    ensures
        url_encode(s) == s,
{
    assert(vstd::utf8::is_ascii_chars(s));
    vstd::utf8::is_ascii_chars_encode_utf8(s);
    assert(encode_utf8(s) =~= s.map_values(|c: char| c as u8));
    lemma_percent_encode_ascii(s);
}

/// The ASCII digit for `d < 10`.
pub open spec fn digit_char(d: int) -> char {
    (48 + d) as char
}

/// The decimal numeral of `n`, without leading zeros.
pub open spec fn decimal(n: nat) -> Seq<char>
    decreases n,
{
    if n < 10 {
        seq![digit_char(n as int)]
    } else {
        decimal(n / 10).push(digit_char((n % 10) as int))
    }
}

/// The decimal numeral of `n` (as `u16::to_string`).
pub fn decimal_string(n: u16) -> (s: String)
    ensures
        s@ == decimal(n as nat),
    decreases n,
{
    let d: u8 = (n % 10) as u8;
    let c = (48u8 + d) as char;
    if n < 10 {
        let mut s = String::new();
        push_char(&mut s, c);
        assert(s@ =~= seq![digit_char(n as int)]);
        s
    } else {
        let mut s = decimal_string(n / 10);
        push_char(&mut s, c);
        s
    }
}

} // verus!
