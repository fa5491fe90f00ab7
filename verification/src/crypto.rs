//! Hashes, key agreement, authenticated encryption, and randomness.
use chacha20poly1305::aead::{Aead, Payload};
use chacha20poly1305::{KeyInit, XChaCha20Poly1305, XNonce};
use rand_chacha::rand_core::{OsRng, RngCore, SeedableRng};
use rand_chacha::ChaCha20Rng;
use sha2::Digest;
use vstd::prelude::*;
use x25519_dalek::{PublicKey, StaticSecret};

verus! {

/// The length of a key of the cipher, and of both kinds of key of the key agreement.
pub const KEY_LENGTH: usize = 32;

/// The length of a nonce of the cipher.
pub const NONCE_LENGTH: usize = 24;

/// The length of the tag that the cipher puts behind a message.
pub const TAG_LENGTH: usize = 16;

/// The length of the longest message that the cipher takes.
pub const MAX_MESSAGE: u64 = 274_877_906_816;

/// The length from which on the cipher refuses messages.
pub const REFUSED_MESSAGE: u64 = 274_877_906_880;

/// Whether messages of this length are neither taken nor refused: the key stream ends within
/// their last block.
pub open spec fn overruns(length: int) -> bool {
    MAX_MESSAGE < length < REFUSED_MESSAGE
}

/// Whether messages of this length are neither taken nor refused.
pub fn message_overruns(length: usize) -> (res: bool)
    ensures
        res == overruns(length as int),
{
    MAX_MESSAGE < length as u64 && (length as u64) < REFUSED_MESSAGE
}

/// The SHA-256 hash of bytes.
pub uninterp spec fn sha_256(bytes: Seq<u8>) -> Seq<u8>;

/// The SHA-512 hash of bytes.
pub uninterp spec fn sha_512(bytes: Seq<u8>) -> Seq<u8>;

/// The X25519 public key of a secret key.
pub uninterp spec fn x25519_public(secret: Seq<u8>) -> Seq<u8>;

/// What the holder of a secret key and that of a public key share under X25519.
pub uninterp spec fn x25519_shared(secret: Seq<u8>, public: Seq<u8>) -> Seq<u8>;

/// A message under XChaCha20-Poly1305, with its tag, where the cipher takes the message.
pub uninterp spec fn sealing(key: Seq<u8>, nonce: Seq<u8>, message: Seq<u8>, aad: Seq<u8>) -> Option<
    Seq<u8>,
>;

/// The message behind bytes under XChaCha20-Poly1305, where their tag fits.
pub uninterp spec fn opening(key: Seq<u8>, nonce: Seq<u8>, sealed: Seq<u8>, aad: Seq<u8>) -> Option<
    Seq<u8>,
>;

/// `sha2::Sha256::digest`: a hash of 32 bytes.
#[verifier::external_body]
pub(crate) fn sha_256_of(bytes: &[u8]) -> (res: Vec<u8>)
    ensures
        res@ == sha_256(bytes@),
        res@.len() == 32,
{
    sha2::Sha256::digest(bytes).to_vec()
}

/// `sha2::Sha512::digest`: a hash of 64 bytes.
#[verifier::external_body]
pub(crate) fn sha_512_of(bytes: &[u8]) -> (res: Vec<u8>)
    ensures
        res@ == sha_512(bytes@),
        res@.len() == 64,
{
    sha2::Sha512::digest(bytes).to_vec()
}

/// `x25519_dalek::PublicKey::from`, of a `StaticSecret` with the given bytes. Either side of an
/// agreement shares the same bytes with the other.
#[verifier::external_body]
pub(crate) fn x25519_public_of(secret: &[u8]) -> (res: Vec<u8>)
    requires
        secret@.len() == KEY_LENGTH,
    ensures
        res@ == x25519_public(secret@),
        res@.len() == KEY_LENGTH,
        forall|other: Seq<u8>|
            other.len() == KEY_LENGTH ==> #[trigger] x25519_shared(other, res@) == x25519_shared(
                secret@,
                x25519_public(other),
            ),
{
    let secret = StaticSecret::from(<[u8; KEY_LENGTH]>::try_from(secret).unwrap());
    PublicKey::from(&secret).as_bytes().to_vec()
}

/// `diffie_hellman` of `x25519_dalek::StaticSecret`, on keys with the given bytes.
#[verifier::external_body]
pub(crate) fn x25519_shared_of(secret: &[u8], public: &[u8]) -> (res: Vec<u8>)
    requires
        secret@.len() == KEY_LENGTH,
        public@.len() == KEY_LENGTH,
    ensures
        res@ == x25519_shared(secret@, public@),
        res@.len() == KEY_LENGTH,
{
    let secret = StaticSecret::from(<[u8; KEY_LENGTH]>::try_from(secret).unwrap());
    let public = PublicKey::from(<[u8; KEY_LENGTH]>::try_from(public).unwrap());
    secret.diffie_hellman(&public).as_bytes().to_vec()
}

/// `encrypt` of `chacha20poly1305::XChaCha20Poly1305`: the encrypted message, of the message's
/// length, and a tag of 16 bytes. It refuses messages from 2^32 - 1 whole blocks of 64 bytes
/// on, and no others; a message that reaches into the last block below that makes it panic.
/// `decrypt` gives the message back.
#[verifier::external_body]
pub(crate) fn seal(key: &[u8], nonce: &[u8], message: &[u8], aad: &[u8]) -> (res: Option<Vec<u8>>)
    requires
        key@.len() == KEY_LENGTH,
        nonce@.len() == NONCE_LENGTH,
        !overruns(message@.len() as int),
    ensures
        match res {
            Some(sealed) => sealing(key@, nonce@, message@, aad@) == Some(sealed@)
                && sealed@.len() == message@.len() + TAG_LENGTH && opening(
                key@,
                nonce@,
                sealed@,
                aad@,
            ) == Some(message@),
            None => sealing(key@, nonce@, message@, aad@) is None,
        },
        res is Some <==> message@.len() <= MAX_MESSAGE,
{
    let cipher = XChaCha20Poly1305::new_from_slice(key).unwrap();
    cipher.encrypt(XNonce::from_slice(nonce), Payload { msg: message, aad }).ok()
}

/// `decrypt` of `chacha20poly1305::XChaCha20Poly1305`: the message, where the bytes end in its
/// tag. The tag is looked at first; where it fits, a message that `encrypt` panics on makes
/// `decrypt` panic too.
#[verifier::external_body]
pub(crate) fn open(key: &[u8], nonce: &[u8], sealed: &[u8], aad: &[u8]) -> (res: Option<Vec<u8>>)
    requires
        key@.len() == KEY_LENGTH,
        nonce@.len() == NONCE_LENGTH,
        overruns(sealed@.len() - TAG_LENGTH) ==> opening(key@, nonce@, sealed@, aad@) is None,
    ensures
        match res {
            Some(message) => opening(key@, nonce@, sealed@, aad@) == Some(message@)
                && sealed@.len() == message@.len() + TAG_LENGTH,
            None => opening(key@, nonce@, sealed@, aad@) is None,
        },
{
    let cipher = XChaCha20Poly1305::new_from_slice(key).unwrap();
    cipher.decrypt(XNonce::from_slice(nonce), Payload { msg: sealed, aad }).ok()
}

/// The bytes that a random number generator gives, as many as are asked for.
pub uninterp spec fn drawn(rng: rand_chacha::ChaCha20Rng, count: nat) -> Seq<u8>;

/// The random number generator that is left after so many bytes.
pub uninterp spec fn after_draw(
    rng: rand_chacha::ChaCha20Rng,
    count: nat,
) -> rand_chacha::ChaCha20Rng;

/// The random number generator.
#[verifier::external_type_specification]
#[verifier::external_body]
pub struct ExChaCha20Rng(rand_chacha::ChaCha20Rng);

/// `from_rng` of `rand_chacha::ChaCha20Rng`, with the system's randomness for a seed: nothing
/// where the system gives none.
#[verifier::external_body]
pub(crate) fn seeded_rng() -> Option<ChaCha20Rng> {
    ChaCha20Rng::from_rng(OsRng).ok()
}

/// `fill_bytes` of `rand_chacha::ChaCha20Rng`, on as many bytes as are asked for: the state of
/// the generator fixes the bytes, and the state that follows.
#[verifier::external_body]
pub(crate) fn random_bytes(rng: &mut ChaCha20Rng, count: usize) -> (res: Vec<u8>)
    ensures
        res@ == drawn(*old(rng), count as nat),
        *final(rng) == after_draw(*old(rng), count as nat),
        res@.len() == count,
{
    let mut bytes = vec![0u8; count];
    rng.fill_bytes(&mut bytes);
    bytes
}

/// The lengths that overrun are those between 2^32 - 2 blocks of 64 bytes and one block more,
/// without either end.
pub proof fn law_lengths_that_overrun(length: int)
    ensures
        overruns(length) <==> 274877906816 < length < 274877906880,
{
}

} // verus!
