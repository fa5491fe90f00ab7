//! The keys of recipients: secret keys from JSON Web Keys, public keys from DID documents.
use vstd::prelude::*;
use vstd::slice::{slice_subrange, slice_to_vec};

use crate::codec::base58_decode;
use crate::error::{Error, JwkError};
use crate::crypto::{sha_512_of, KEY_LENGTH};
use crate::varint::decode_varint;

verus! {

/// The multicodec code of an X25519 public key.
pub const X25519_PUB_CODE: u64 = 0xEC;

/// A JSON Web Key.
#[derive(Clone, Debug, PartialEq, Eq)]
pub struct JWK {
    pub params: Params,
}

/// What a JSON Web Key holds, by its key type.
#[derive(Clone, Debug, PartialEq, Eq)]
pub enum Params {
    OKP(OctetParams),
    /// Parameters of any other key type.
    Other,
}

/// The parameters of an octet key pair.
#[derive(Clone, Debug, PartialEq, Eq)]
pub struct OctetParams {
    pub curve: String,
    pub public_key: Vec<u8>,
    pub private_key: Option<Vec<u8>>,
}

/// A secret with the bits fixed that X25519 fixes: it is a multiple of eight, and its highest
/// bit is bit 254.
pub open spec fn clamped(secret: Seq<u8>) -> Seq<u8> {
    secret.update(0, secret[0] & 248).update(31, (secret[31] & 127) | 64)
}

/// A clamped secret is a multiple of eight, between 2^254 and 2^255.
pub proof fn law_clamped(secret: Seq<u8>)
    requires
        secret.len() == KEY_LENGTH,
    ensures
        clamped(secret).len() == KEY_LENGTH,
        clamped(secret)[0] % 8 == 0,
        64 <= clamped(secret)[31] < 128,
        clamped(clamped(secret)) == clamped(secret),
{
    let first = secret[0];
    let last = secret[31];
    assert((first & 248) % 8 == 0 && (first & 248) & 248 == first & 248) by (bit_vector);
    assert(64 <= (last & 127) | 64 && (last & 127) | 64 < 128 && (((last & 127) | 64) & 127) | 64
        == (last & 127) | 64) by (bit_vector);
}

/// The first 32 bytes of a hash.
pub open spec fn first_half(hash: Seq<u8>) -> Seq<u8> {
    Seq::new(32, |i: int| hash[i])
}

/// The X25519 secret key of an Ed25519 key pair: half the hash of its seed, clamped.
pub open spec fn x25519_secret(jwk: JWK) -> Result<Seq<u8>, Error> {
    match jwk.params {
        Params::OKP(params) => if params.curve@ != "Ed25519"@ {
            Err(Error::JWK(JwkError::KeyTypeNotImplemented))
        } else {
            match params.private_key {
                Some(seed) => Ok(clamped(first_half(crate::crypto::sha_512(seed@)))),
                None => Err(Error::JWK(JwkError::MissingPrivateKey)),
            }
        },
        Params::Other => Err(Error::JWK(JwkError::KeyTypeNotImplemented)),
    }
}

/// The first half of a hash of 64 bytes, clamped.
pub fn clamp_hash(hash: &[u8]) -> (res: Vec<u8>)
    requires
        hash@.len() == 64,
    ensures
        res@ == clamped(first_half(hash@)),
        res@.len() == KEY_LENGTH,
{
    let mut scalar_bytes: Vec<u8> = slice_to_vec(slice_subrange(hash, 0, 32));

    // Clamp the scalar as per RFC 7748
    let first: u8 = scalar_bytes[0] & 248;
    let last: u8 = (scalar_bytes[31] & 127) | 64;
    scalar_bytes.set(0, first);
    scalar_bytes.set(31, last);
    scalar_bytes
}

/// The X25519 secret key of an Ed25519 key pair.
pub fn convert_ed25519_to_x25519(jwk: &JWK) -> (res: Result<Vec<u8>, Error>)
    ensures
        match res {
            Ok(secret) => x25519_secret(*jwk) == Ok::<Seq<u8>, Error>(secret@)
                && secret@.len() == KEY_LENGTH,
            Err(e) => x25519_secret(*jwk) == Err::<Seq<u8>, Error>(e),
        },
{
    match &jwk.params {
        Params::OKP(params) => {
            if params.curve != "Ed25519".to_string() {
                return Err(Error::JWK(JwkError::KeyTypeNotImplemented));
            }
            match &params.private_key {
                Some(seed) => Ok(clamp_hash(sha_512_of(seed.as_slice()).as_slice())),
                None => Err(Error::JWK(JwkError::MissingPrivateKey)),
            }
        },
        Params::Other => Err(Error::JWK(JwkError::KeyTypeNotImplemented)),
    }
}

/// The X25519 public key that bytes behind a multicodec code hold.
pub open spec fn multicodec_key(bytes: Seq<u8>) -> Option<Seq<u8>> {
    match crate::varint::varint_decoding(bytes) {
        Ok((code, key)) => if code == X25519_PUB_CODE && key.len() == KEY_LENGTH {
            Some(key)
        } else {
            None
        },
        Err(_) => None,
    }
}

/// The X25519 public key of a multibase text: base58 behind a `z`.
pub open spec fn multibase_key(text: Seq<char>) -> Option<Seq<u8>> {
    if text.len() == 0 || text[0] != 'z' {
        None
    } else {
        match crate::codec::base58_decoding(text.skip(1)) {
            Some(bytes) => multicodec_key(bytes),
            None => None,
        }
    }
}

/// A key behind its multicodec code reads back.
pub proof fn law_multicodec_round_trip(key: Seq<u8>)
    requires
        key.len() == KEY_LENGTH,
    ensures
        multicodec_key(crate::varint::varint(X25519_PUB_CODE as nat) + key) == Some(key),
{
    crate::varint::law_varint_round_trip(X25519_PUB_CODE, key);
}

/// Reads an X25519 public key behind its multicodec code.
pub fn decode_multicodec_key(bytes: &[u8]) -> (res: Option<Vec<u8>>)
    ensures
        match res {
            Some(key) => multicodec_key(bytes@) == Some(key@),
            None => multicodec_key(bytes@) is None,
        },
{
    match decode_varint(bytes) {
        Ok((code, remainder)) => if code == X25519_PUB_CODE && remainder.len() == KEY_LENGTH {
            Some(slice_to_vec(remainder))
        } else {
            None
        },
        Err(_) => None,
    }
}

/// Decodes an X25519 public key from a multibase text. Only base58 is read.
pub fn decode_public_key_multibase(mb: &str) -> (res: Option<Vec<u8>>)
    ensures
        match res {
            Some(key) => multibase_key(mb@) == Some(key@),
            None => multibase_key(mb@) is None,
        },
{
    let length: usize = mb.unicode_len();
    if length == 0 || mb.get_char(0) != 'z' {
        return None;
    }
    let b58 = mb.substring_char(1, length);
    match base58_decode(b58) {
        Some(bytes) => decode_multicodec_key(bytes.as_slice()),
        None => None,
    }
}

/// Clamping clears the lowest three bits of the first byte and the highest bit of the last, sets
/// the bit below that, and leaves everything else.
pub proof fn law_clamping_keeps_the_rest(secret: Seq<u8>)
    requires
        secret.len() == 32,
    ensures
        clamped(secret).len() == 32,
        clamped(secret)[0] == secret[0] - secret[0] % 8,
        clamped(secret)[31] == 64 + secret[31] % 64,
        forall|i: int| 1 <= i < 31 ==> #[trigger] clamped(secret)[i] == secret[i],
{
    let first = secret[0];
    let last = secret[31];
    assert(first & 248 == first - first % 8) by (bit_vector);
    assert((last & 127) | 64 == 64 + last % 64) by (bit_vector);
}

/// The secret key of an Ed25519 key pair is the first half of the SHA-512 hash of its seed, byte
/// for byte but for the clamped bits. It is there just where the curve is Ed25519 and the seed is.
pub proof fn law_secret_is_the_hash_of_the_seed(curve: String, public_key: Vec<u8>, seed: Vec<u8>)
    requires
        curve@ == "Ed25519"@,
    ensures
        ({
            let jwk = JWK {
                params: Params::OKP(
                    OctetParams { curve, public_key, private_key: Some(seed) },
                ),
            };
            let hash = crate::crypto::sha_512(seed@);
            x25519_secret(jwk) matches Ok(secret) && secret.len() == 32 && secret[0] == hash[0]
                - hash[0] % 8 && secret[31] == 64 + hash[31] % 64 && forall|i: int|
                1 <= i < 31 ==> #[trigger] secret[i] == hash[i]
        }),
{
    law_clamping_keeps_the_rest(first_half(crate::crypto::sha_512(seed@)));
}

/// The public part of a key pair plays no part in its secret key.
pub proof fn law_public_part_plays_no_part(one: OctetParams, two: OctetParams)
    requires
        one.curve@ == two.curve@,
        match (one.private_key, two.private_key) {
            (Some(a), Some(b)) => a@ == b@,
            (None, None) => true,
            _ => false,
        },
    ensures
        x25519_secret((JWK { params: Params::OKP(one) })) == x25519_secret(
            (JWK { params: Params::OKP(two) }),
        ),
{
}

/// Keys that give no secret key, and why: another type or curve, whatever else they hold, and an
/// Ed25519 key without its seed.
pub proof fn law_keys_without_a_secret(params: OctetParams)
    ensures
        x25519_secret((JWK { params: Params::Other })) == Err::<Seq<u8>, Error>(
            Error::JWK(JwkError::KeyTypeNotImplemented),
        ),
        params.curve@ != "Ed25519"@ ==> x25519_secret((JWK { params: Params::OKP(params) }))
            == Err::<Seq<u8>, Error>(Error::JWK(JwkError::KeyTypeNotImplemented)),
        params.curve@ == "Ed25519"@ && params.private_key is None ==> x25519_secret(
            (JWK { params: Params::OKP(params) }),
        ) == Err::<Seq<u8>, Error>(Error::JWK(JwkError::MissingPrivateKey)),
        params.curve@ == "Ed25519"@ && params.private_key is Some ==> x25519_secret(
            (JWK { params: Params::OKP(params) }),
        ) is Ok,
{
}

/// Behind the two bytes of the code, any 32 bytes are a key, and no other number of bytes is.
pub proof fn law_bytes_behind_the_code_are_the_key(key: Seq<u8>)
    ensures
        multicodec_key(seq![0xecu8, 0x01u8] + key) == if key.len() == 32 {
            Some(key)
        } else {
            None
        },
{
    reveal_with_fuel(crate::varint::varint, 3);
    assert(crate::varint::varint(0xec) =~= seq![0xecu8, 0x01u8]);
    crate::varint::law_varint_round_trip(0xec, key);
}

/// A key that is read is the last 32 of the bytes, and before it stands a number that reads as
/// the code.
pub proof fn law_key_is_the_end_of_the_bytes(bytes: Seq<u8>)
    requires
        multicodec_key(bytes) is Some,
    ensures
        bytes.len() > 32,
        multicodec_key(bytes) == Some(bytes.skip(bytes.len() - 32)),
        crate::varint::number_fits(bytes) ==> bytes.take(bytes.len() - 32) == seq![
            0xecu8,
            0x01u8,
        ],
{
    crate::varint::lemma_continued(bytes);
    let key = multicodec_key(bytes)->Some_0;
    let last = crate::varint::continued(bytes) as int;
    assert(bytes.skip(last + 1) == key);
    assert(bytes.len() - 32 == last + 1);
    if crate::varint::number_fits(bytes) {
        crate::varint::law_varint_begins_the_bytes(bytes);
        reveal_with_fuel(crate::varint::varint, 3);
        assert(crate::varint::varint(0xec) =~= seq![0xecu8, 0x01u8]);
        assert(bytes.take(bytes.len() - 32) =~= seq![0xecu8, 0x01u8]);
    }
}

/// A multibase text gives a key just where it is a `z` before the base58 text of bytes that hold
/// one, and then that key.
pub proof fn law_multibase_is_base58_behind_a_z(text: Seq<char>, bytes: Seq<u8>)
    ensures
        text.len() == 0 ==> multibase_key(text) is None,
        text.len() > 0 && text[0] != 'z' ==> multibase_key(text) is None,
        crate::codec::base58_decoding(text) is None ==> multibase_key(seq!['z'] + text) is None,
        crate::codec::base58_decoding(text) == Some(bytes) ==> multibase_key(seq!['z'] + text)
            == multicodec_key(bytes),
        crate::codec::base58_decoding(text) == Some(seq![0xecu8, 0x01u8] + bytes) && bytes.len()
            == 32 ==> multibase_key(seq!['z'] + text) == Some(bytes),
{
    assert((seq!['z'] + text).skip(1) =~= text);
    law_bytes_behind_the_code_are_the_key(bytes);
}

} // verus!
