//! The concatenation key derivation function, for one round of SHA-256.
use vstd::prelude::*;

use crate::bytes::{append_be_32, append_bytes};
use crate::crypto::sha_256_of;

verus! {

/// The one key length, in bits, that keys are derived for.
pub const KEY_BITS: u32 = 256;

/// Bytes behind their length. Of the length, four bytes are kept.
pub open spec fn prefixed(bytes: Seq<u8>) -> Seq<u8> {
    crate::bytes::be_32(bytes.len()) + bytes
}

/// The bytes whose hash is the key: the round, the secret, the algorithm, no information on
/// the producer, the information on the consumer, and the key length.
pub open spec fn kdf_input(
    secret: Seq<u8>,
    key_len: nat,
    alg: Seq<char>,
    consumer_info: Seq<u8>,
) -> Seq<u8> {
    crate::bytes::be_32(1) + secret + prefixed(vstd::utf8::encode_utf8(alg)) + prefixed(
        Seq::empty(),
    ) + prefixed(consumer_info) + crate::bytes::be_32(key_len)
}

/// The key that is derived from a secret.
pub open spec fn derived_key(secret: Seq<u8>, alg: Seq<char>, consumer_info: Seq<u8>) -> Seq<u8> {
    crate::crypto::sha_256(kdf_input(secret, KEY_BITS as nat, alg, consumer_info))
}

/// Puts the length of bytes before them.
fn length_and_input(input: &[u8]) -> (res: Vec<u8>)
    ensures
        res@ == prefixed(input@),
{
    let length: u64 = input.len() as u64;
    let mut bytes: Vec<u8> = Vec::new();
    append_be_32(&mut bytes, #[verifier::truncate] (length as u32));
    append_bytes(&mut bytes, input);
    proof {
        crate::bytes::lemma_be_32_of_low(length);
    }
    bytes
}

/// The bytes whose hash is the key.
pub fn concat_kdf_input(
    secret: &[u8],
    key_len: u32,
    alg: &str,
    consumer_info: Option<&[u8]>,
) -> (res: Vec<u8>)
    ensures
        res@ == kdf_input(
            secret@,
            key_len as nat,
            alg@,
            match consumer_info {
                Some(info) => info@,
                None => Seq::empty(),
            },
        ),
{
    let none: Vec<u8> = Vec::new();
    let info = match consumer_info {
        Some(info) => info,
        None => none.as_slice(),
    };

    let mut input: Vec<u8> = Vec::new();
    append_be_32(&mut input, 1);
    append_bytes(&mut input, secret);
    append_bytes(&mut input, length_and_input(alg.as_bytes()).as_slice());
    append_bytes(&mut input, length_and_input(none.as_slice()).as_slice());
    append_bytes(&mut input, length_and_input(info).as_slice());
    append_be_32(&mut input, key_len);
    input
}

/// Derives a key of 256 bits, the only length there is, from a secret.
pub fn concat_kdf(
    secret: &[u8],
    key_len: u32,
    alg: &str,
    consumer_info: Option<&[u8]>,
) -> (res: Vec<u8>)
    requires
        key_len == KEY_BITS,
    ensures
        res@ == derived_key(
            secret@,
            alg@,
            match consumer_info {
                Some(info) => info@,
                None => Seq::empty(),
            },
        ),
        res@.len() == 32,
{
    sha_256_of(concat_kdf_input(secret, key_len, alg, consumer_info).as_slice())
}

/// The number that four bytes make up, highest byte first.
pub open spec fn number_at(bytes: Seq<u8>, at: int) -> int {
    bytes[at] * 0x100_0000 + bytes[at + 1] * 0x1_0000 + bytes[at + 2] * 0x100 + bytes[at + 3]
}

/// Behind a length stand the bytes themselves, as many as the length says.
pub proof fn law_prefixed_bytes(bytes: Seq<u8>)
    ensures
        prefixed(bytes).len() == 4 + bytes.len(),
        prefixed(bytes).skip(4) == bytes,
        number_at(prefixed(bytes), 0) == bytes.len() % 0x1_0000_0000,
{
    crate::bytes::law_be_32_is_the_number(bytes.len());
    assert(prefixed(bytes).skip(4) =~= bytes);
}

/// What is hashed, place by place: the number one, the secret, the algorithm's name behind its
/// length, the length of nothing, what is said of the consumer behind its length, and the key
/// length.
pub proof fn law_places_of_the_input(
    secret: Seq<u8>,
    key_len: u32,
    alg: Seq<char>,
    consumer_info: Seq<u8>,
)
    ensures
        ({
            let input = kdf_input(secret, key_len as nat, alg, consumer_info);
            let name = vstd::utf8::encode_utf8(alg);
            let behind_secret = 4 + secret.len() as int;
            let behind_name = behind_secret + 4 + name.len();
            let behind_info = behind_name + 8 + consumer_info.len();
            &&& input.len() == behind_info + 4
            &&& input.take(4) == seq![0u8, 0, 0, 1]
            &&& input.subrange(4, behind_secret) == secret
            &&& number_at(input, behind_secret) == name.len() % 0x1_0000_0000
            &&& input.subrange(behind_secret + 4, behind_name) == name
            &&& number_at(input, behind_name) == 0
            &&& number_at(input, behind_name + 4) == consumer_info.len() % 0x1_0000_0000
            &&& input.subrange(behind_name + 8, behind_info) == consumer_info
            &&& number_at(input, behind_info) == key_len
        }),
{
    let input = kdf_input(secret, key_len as nat, alg, consumer_info);
    let name = vstd::utf8::encode_utf8(alg);
    let behind_secret = 4 + secret.len() as int;
    let behind_name = behind_secret + 4 + name.len();
    let behind_info = behind_name + 8 + consumer_info.len();
    crate::bytes::law_be_32_is_the_number(name.len());
    crate::bytes::law_be_32_is_the_number(0);
    crate::bytes::law_be_32_is_the_number(consumer_info.len());
    crate::bytes::law_be_32_is_the_number(key_len as nat);
    assert(input.take(4) =~= seq![0u8, 0, 0, 1]);
    assert(input.subrange(4, behind_secret) =~= secret);
    assert(input.subrange(behind_secret, behind_secret + 4) =~= crate::bytes::be_32(name.len()));
    assert(input.subrange(behind_secret + 4, behind_name) =~= name);
    assert(input.subrange(behind_name, behind_name + 4) =~= crate::bytes::be_32(0));
    assert(input.subrange(behind_name + 4, behind_name + 8) =~= crate::bytes::be_32(
        consumer_info.len(),
    ));
    assert(input.subrange(behind_name + 8, behind_info) =~= consumer_info);
    assert(input.subrange(behind_info, behind_info + 4) =~= crate::bytes::be_32(key_len as nat));
}

/// The derived key is the SHA-256 hash of bytes of which the secret is part: the number one, the
/// secret, and what depends on the algorithm and the consumer alone.
pub proof fn law_derived_key_is_the_hash(secret: Seq<u8>, alg: Seq<char>, consumer_info: Seq<u8>)
    ensures
        derived_key(secret, alg, consumer_info) == crate::crypto::sha_256(
            seq![0u8, 0, 0, 1] + secret + kdf_input(Seq::empty(), 256, alg, consumer_info).skip(4),
        ),
{
    let tail = prefixed(vstd::utf8::encode_utf8(alg)) + prefixed(Seq::empty()) + prefixed(
        consumer_info,
    ) + crate::bytes::be_32(256);
    assert(crate::bytes::be_32(1) =~= seq![0u8, 0, 0, 1]);
    assert(kdf_input(secret, 256, alg, consumer_info) =~= seq![0u8, 0, 0, 1] + secret + tail);
    assert(kdf_input(Seq::empty(), 256, alg, consumer_info).skip(4) =~= tail);
}

} // verus!
