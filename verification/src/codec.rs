//! Bytes as text: base64url, base58, and a JSON object of one member.
use base64::engine::general_purpose::URL_SAFE_NO_PAD;
use base64::Engine;
use std::collections::BTreeMap;
use vstd::prelude::*;

verus! {

/// The base64url digit for six bits: letters, digits, `-` and `_`.
pub open spec fn base64url_digit(n: int) -> char {
    if n < 26 {
        (65 + n) as char
    } else if n < 52 {
        (97 + n - 26) as char
    } else if n < 62 {
        (48 + n - 52) as char
    } else if n == 62 {
        '-'
    } else {
        '_'
    }
}

/// The base64url text of bytes, without padding: six bits to a digit, bits left over at the end
/// filled up with zeros.
#[verifier::opaque]
pub open spec fn base64url_encoding(bytes: Seq<u8>) -> Seq<char>
    decreases bytes.len(),
{
    if bytes.len() == 0 {
        Seq::empty()
    } else if bytes.len() == 1 {
        seq![base64url_digit(bytes[0] as int / 4), base64url_digit(bytes[0] as int % 4 * 16)]
    } else if bytes.len() == 2 {
        seq![
            base64url_digit(bytes[0] as int / 4),
            base64url_digit(bytes[0] as int % 4 * 16 + bytes[1] as int / 16),
            base64url_digit(bytes[1] as int % 16 * 4),
        ]
    } else {
        seq![
            base64url_digit(bytes[0] as int / 4),
            base64url_digit(bytes[0] as int % 4 * 16 + bytes[1] as int / 16),
            base64url_digit(bytes[1] as int % 16 * 4 + bytes[2] as int / 64),
            base64url_digit(bytes[2] as int % 64),
        ] + base64url_encoding(bytes.skip(3))
    }
}

/// The bytes whose base64url text it is, where it is that of any.
#[verifier::opaque]
pub open spec fn base64url_decoding(text: Seq<char>) -> Option<Seq<u8>> {
    if exists|bytes: Seq<u8>| #[trigger] base64url_encoding(bytes) == text {
        Some(choose|bytes: Seq<u8>| #[trigger] base64url_encoding(bytes) == text)
    } else {
        None
    }
}

/// Different six bits have different digits.
proof fn lemma_digits_differ(m: int, n: int)
    requires
        0 <= m < 64,
        0 <= n < 64,
        base64url_digit(m) == base64url_digit(n),
    ensures
        m == n,
{
}

/// How a text begins.
proof fn lemma_first_digits(bytes: Seq<u8>)
    requires
        bytes.len() > 0,
    ensures
        base64url_encoding(bytes)[0] == base64url_digit(bytes[0] as int / 4),
        bytes.len() >= 2 ==> base64url_encoding(bytes)[1] == base64url_digit(
            bytes[0] as int % 4 * 16 + bytes[1] as int / 16,
        ),
        bytes.len() >= 3 ==> {
            &&& base64url_encoding(bytes)[2] == base64url_digit(
                bytes[1] as int % 16 * 4 + bytes[2] as int / 64,
            )
            &&& base64url_encoding(bytes)[3] == base64url_digit(bytes[2] as int % 64)
            &&& base64url_encoding(bytes).skip(4) == base64url_encoding(bytes.skip(3))
        },
{
    reveal(base64url_encoding);
    if bytes.len() >= 3 {
        assert(base64url_encoding(bytes).skip(4) =~= base64url_encoding(bytes.skip(3)));
    }
}

/// Different bytes have different texts.
proof fn lemma_texts_differ(a: Seq<u8>, b: Seq<u8>)
    requires
        base64url_encoding(a) == base64url_encoding(b),
    ensures
        a == b,
    decreases a.len(),
{
    reveal(base64url_encoding);
    let text = base64url_encoding(a);
    assert(text.len() < 4 ==> a.len() == b.len());
    if text.len() > 0 {
        lemma_first_digits(a);
        lemma_first_digits(b);
        lemma_digits_differ(a[0] as int / 4, b[0] as int / 4);
        if a.len() == 1 {
            lemma_digits_differ(a[0] as int % 4 * 16, b[0] as int % 4 * 16);
        } else {
            lemma_digits_differ(
                a[0] as int % 4 * 16 + a[1] as int / 16,
                b[0] as int % 4 * 16 + b[1] as int / 16,
            );
            if a.len() == 2 {
                lemma_digits_differ(a[1] as int % 16 * 4, b[1] as int % 16 * 4);
            } else {
                lemma_digits_differ(
                    a[1] as int % 16 * 4 + a[2] as int / 64,
                    b[1] as int % 16 * 4 + b[2] as int / 64,
                );
                lemma_digits_differ(a[2] as int % 64, b[2] as int % 64);
                lemma_texts_differ(a.skip(3), b.skip(3));
                assert(a =~= a.take(3) + a.skip(3));
                assert(b =~= b.take(3) + b.skip(3));
            }
        }
    }
    assert(a =~= b);
}

/// The base64url text of bytes stands for them.
pub proof fn law_base64url_round_trip(bytes: Seq<u8>)
    ensures
        base64url_decoding(base64url_encoding(bytes)) == Some(bytes),
{
    reveal(base64url_decoding);
    let text = base64url_encoding(bytes);
    let found = choose|found: Seq<u8>| #[trigger] base64url_encoding(found) == text;
    lemma_texts_differ(found, bytes);
}

/// `encode` of the base64 engine `URL_SAFE_NO_PAD`: the base64url text, without padding.
#[verifier::external_body]
fn engine_encode(bytes: &[u8]) -> (res: String)
    ensures
        res@ == base64url_encoding(bytes@),
{
    URL_SAFE_NO_PAD.encode(bytes)
}

/// The base64url text of bytes.
pub(crate) fn base64url_encode(bytes: &[u8]) -> (res: String)
    ensures
        res@ == base64url_encoding(bytes@),
        base64url_decoding(res@) == Some(bytes@),
{
    proof {
        law_base64url_round_trip(bytes@);
    }
    engine_encode(bytes)
}

/// `decode` of the base64 engine `URL_SAFE_NO_PAD`: the bytes whose text it is. It fails on
/// every text that is not the one of some bytes: one with another character, with padding, with
/// a digit too many, or with bits left over that are not zero.
#[verifier::external_body]
pub(crate) fn base64url_decode(text: &str) -> (res: Option<Vec<u8>>)
    ensures
        match res {
            Some(bytes) => base64url_decoding(text@) == Some(bytes@),
            None => base64url_decoding(text@) is None,
        },
{
    URL_SAFE_NO_PAD.decode(text).ok()
}

/// The digits of base58, from the one for zero on.
pub open spec fn base58_digits() -> Seq<char> {
    "123456789ABCDEFGHJKLMNPQRSTUVWXYZabcdefghijkmnopqrstuvwxyz"@
}

/// The number that base58 digits make up, highest digit first.
pub open spec fn base58_number(text: Seq<char>) -> nat
    decreases text.len(),
{
    if text.len() == 0 {
        0
    } else {
        58 * base58_number(text.drop_last()) + base58_digits().index_of(text.last()) as nat
    }
}

/// The bytes of a number, highest byte first, none of them needless.
pub open spec fn number_bytes(n: nat) -> Seq<u8>
    decreases n,
{
    if n == 0 {
        Seq::empty()
    } else {
        number_bytes(n / 256).push((n % 256) as u8)
    }
}

/// How many digits for zero a base58 text begins with.
pub open spec fn base58_zeros(text: Seq<char>) -> nat
    decreases text.len(),
{
    if text.len() > 0 && text[0] == '1' {
        1 + base58_zeros(text.drop_first())
    } else {
        0
    }
}

/// The bytes that a base58 text stands for, where all its characters are digits: those of the
/// number, behind a zero for each digit for zero at the front.
pub open spec fn base58_decoding(text: Seq<char>) -> Option<Seq<u8>> {
    if forall|i: int| 0 <= i < text.len() ==> base58_digits().contains(#[trigger] text[i]) {
        Some(
            Seq::new(base58_zeros(text), |i: int| 0u8) + number_bytes(base58_number(text)),
        )
    } else {
        None
    }
}

/// `bs58::decode` with the default alphabet, into a vector. It fails where a character is not
/// of that alphabet, and nowhere else: the bytes are never more than the characters.
#[verifier::external_body]
pub(crate) fn base58_decode(text: &str) -> (res: Option<Vec<u8>>)
    ensures
        match res {
            Some(bytes) => base58_decoding(text@) == Some(bytes@),
            None => base58_decoding(text@) is None,
        },
{
    bs58::decode(text).into_vec().ok()
}

/// Whether JSON writes every character as it is.
pub open spec fn unescaped(text: Seq<char>) -> bool {
    forall|i: int|
        0 <= i < text.len() ==> (#[trigger] text[i]) as u32 >= 0x20 && text[i] != '"' && text[i]
            != '\\'
}

/// `serde_json::to_string` of a map with one entry: a compact object, which holds name and
/// value as they are, as neither has a character that JSON escapes.
#[verifier::external_body]
pub(crate) fn json_object_of(name: &str, value: &str) -> (res: String)
    requires
        unescaped(name@),
        unescaped(value@),
    ensures
        res@ == seq!['{', '"'] + name@ + seq!['"', ':', '"'] + value@ + seq!['"', '}'],
{
    serde_json::to_string(&BTreeMap::from([(name, value)])).unwrap()
}

} // verus!
