//! JSON Web Encryption to several recipients: the content under a fresh key, and that key once
//! for each recipient.
use rand_chacha::ChaCha20Rng;
use vstd::prelude::*;

use crate::bytes::append_bytes;
use crate::codec::{base64url_decode, base64url_encode, json_object_of};
use crate::crypto::{
    message_overruns, open, random_bytes, seal, seeded_rng, x25519_public_of, x25519_shared_of,
    KEY_LENGTH, NONCE_LENGTH, TAG_LENGTH,
};
use crate::did::{collect_keys, RecipientKey, Resolution};
use crate::error::Error;
use crate::kdf::{concat_kdf, KEY_BITS};
use crate::keys::{convert_ed25519_to_x25519, JWK};

verus! {

/// A public key that was made for one encryption.
#[derive(Clone, Debug, PartialEq, Eq)]
pub struct EphemeralPublicKey {
    pub kty: String,
    pub crv: String,
    pub x: String,
}

/// What a recipient needs to recover the content key.
#[derive(Clone, Debug, PartialEq, Eq)]
pub struct RecipientHeader {
    pub alg: String,
    pub iv: String,
    pub tag: String,
    pub epk: EphemeralPublicKey,
    pub kid: String,
}

/// The content key, encrypted to one recipient.
#[derive(Clone, Debug, PartialEq, Eq)]
pub struct RecipientInfo {
    pub encrypted_key: String,
    pub header: RecipientHeader,
}

/// Content, encrypted to several recipients.
#[derive(Clone, Debug, PartialEq, Eq)]
pub struct JWE {
    pub protected_header: String,
    pub iv: String,
    pub ciphertext: String,
    pub tag: String,
    pub recipients: Vec<RecipientInfo>,
}

/// The key that encrypts the content key, from a shared secret.
pub open spec fn wrapping_key(shared: Seq<u8>) -> Seq<u8> {
    crate::kdf::derived_key(shared, "ECDH-ES+XC20PKW"@, Seq::empty())
}

/// The content key, encrypted to a public key with the secret of an ephemeral key, with its
/// tag.
pub open spec fn sealed_key(
    public_key: Seq<u8>,
    iv: Seq<u8>,
    cek: Seq<u8>,
    ephemeral: Seq<u8>,
) -> Seq<u8> {
    crate::crypto::sealing(
        wrapping_key(crate::crypto::x25519_shared(ephemeral, public_key)),
        iv,
        cek,
        Seq::empty(),
    )->Some_0
}

/// Whether `text` is the base64url text of all of `sealed` but the tag.
pub open spec fn holds_body(text: Seq<char>, sealed: Seq<u8>) -> bool {
    text == crate::codec::base64url_encoding(sealed.take(sealed.len() - TAG_LENGTH))
}

/// Whether `text` is the base64url text of the tag of `sealed`.
pub open spec fn holds_tag(text: Seq<char>, sealed: Seq<u8>) -> bool {
    text == crate::codec::base64url_encoding(sealed.skip(sealed.len() - TAG_LENGTH))
}

/// Whether `info` holds the content key for a recipient's key, encrypted under a nonce with
/// the secret of an ephemeral key.
pub open spec fn recipient_is(
    info: RecipientInfo,
    key: crate::did::KeyView,
    iv: Seq<u8>,
    cek: Seq<u8>,
    ephemeral: Seq<u8>,
) -> bool {
    let sealed = sealed_key(key.public_key, iv, cek, ephemeral);
    &&& iv.len() == NONCE_LENGTH
    &&& ephemeral.len() == KEY_LENGTH
    &&& holds_body(info.encrypted_key@, sealed)
    &&& holds_tag(info.header.tag@, sealed)
    &&& info.header.alg@ == "ECDH-ES+XC20PKW"@
    &&& info.header.iv@ == crate::codec::base64url_encoding(iv)
    &&& info.header.epk.kty@ == "OKP"@
    &&& info.header.epk.crv@ == "X25519"@
    &&& info.header.epk.x@ == crate::codec::base64url_encoding(
        crate::crypto::x25519_public(ephemeral),
    )
    &&& info.header.kid@ == key.kid
}

/// The protected header: the base64url text of a JSON object that names the cipher.
pub open spec fn protected_text() -> Seq<char> {
    crate::codec::base64url_encoding(vstd::utf8::encode_utf8("{\"enc\":\"XC20P\"}"@))
}

/// The protected header, written out.
proof fn lemma_protected_text()
    ensures
        protected_text() == "eyJlbmMiOiJYQzIwUCJ9"@,
{
    reveal_strlit("{\"enc\":\"XC20P\"}");
    reveal_strlit("eyJlbmMiOiJYQzIwUCJ9");
    let json = "{\"enc\":\"XC20P\"}"@;
    vstd::utf8::is_ascii_chars_encode_utf8(json);
    reveal_with_fuel(crate::codec::base64url_encoding, 6);
    assert(protected_text() =~= "eyJlbmMiOiJYQzIwUCJ9"@);
}

/// Whether `jwe` holds the content, encrypted under a nonce and a content key, and the content
/// key for each recipient's key, in order, each under a nonce and with an ephemeral key of its
/// own.
pub open spec fn jwe_is(
    jwe: JWE,
    content: Seq<u8>,
    keys: Seq<crate::did::KeyView>,
    iv: Seq<u8>,
    cek: Seq<u8>,
    recipient_ivs: Seq<Seq<u8>>,
    ephemerals: Seq<Seq<u8>>,
) -> bool {
    &&& iv.len() == NONCE_LENGTH
    &&& cek.len() == KEY_LENGTH
    &&& jwe.protected_header@ == protected_text()
    &&& jwe.iv@ == crate::codec::base64url_encoding(iv)
    &&& match crate::crypto::sealing(
        cek,
        iv,
        content,
        vstd::utf8::encode_utf8(protected_text()),
    ) {
        Some(sealed) => holds_body(jwe.ciphertext@, sealed) && holds_tag(jwe.tag@, sealed),
        None => false,
    }
    &&& jwe.recipients@.len() == keys.len()
    &&& recipient_ivs.len() == keys.len()
    &&& ephemerals.len() == keys.len()
    &&& forall|i: int|
        0 <= i < keys.len() ==> recipient_is(
            #[trigger] jwe.recipients@[i],
            keys[i],
            recipient_ivs[i],
            cek,
            ephemerals[i],
        )
}

/// A nonce or a message has a length that the cipher has no answer for.
#[derive(Clone, Copy, Debug, PartialEq, Eq, Structural)]
pub struct LengthError;

/// What decoded parts ask for next.
#[derive(Clone, Debug, PartialEq, Eq)]
pub enum Step {
    /// To go on to the next recipient.
    Skip,
    /// To give up.
    Abandon,
    /// Nothing: the cipher has no answer for a nonce of this length.
    OutOfRange,
    /// To decrypt `sealed` with `key`, or with what it and a secret key share.
    Open { key: Vec<u8>, iv: Vec<u8>, sealed: Vec<u8> },
}

/// What decoded parts ask for next, apart from how it is stored.
pub enum StepView {
    Skip,
    Abandon,
    OutOfRange,
    Open { key: Seq<u8>, iv: Seq<u8>, sealed: Seq<u8> },
}

impl View for Step {
    type V = StepView;

    open spec fn view(&self) -> StepView {
        match *self {
            Step::Skip => StepView::Skip,
            Step::Abandon => StepView::Abandon,
            Step::OutOfRange => StepView::OutOfRange,
            Step::Open { key, iv, sealed } => StepView::Open {
                key: key@,
                iv: iv@,
                sealed: sealed@,
            },
        }
    }
}

/// How far a decryption comes.
#[derive(Clone, Debug, PartialEq, Eq)]
pub enum Attempt {
    /// To this end.
    Opened(Vec<u8>),
    /// To nothing, but another recipient's part may be tried.
    Skipped,
    /// To nothing, and nothing else is tried.
    Abandoned,
    /// To lengths for which the cipher has no answer.
    OutOfRange,
}

/// How far a decryption comes, apart from how it is stored.
pub enum AttemptView {
    Opened(Seq<u8>),
    Skipped,
    Abandoned,
    OutOfRange,
}

impl View for Attempt {
    type V = AttemptView;

    open spec fn view(&self) -> AttemptView {
        match *self {
            Attempt::Opened(bytes) => AttemptView::Opened(bytes@),
            Attempt::Skipped => AttemptView::Skipped,
            Attempt::Abandoned => AttemptView::Abandoned,
            Attempt::OutOfRange => AttemptView::OutOfRange,
        }
    }
}

/// What is decoded, where it is.
pub open spec fn decoded(bytes: Option<Vec<u8>>) -> Option<Seq<u8>> {
    match bytes {
        Some(bytes) => Some(bytes@),
        None => None,
    }
}

/// What to do with a key, and with a nonce, a body and a tag that may be unreadable.
pub open spec fn nonce_step(
    key: Seq<u8>,
    iv: Option<Seq<u8>>,
    body: Option<Seq<u8>>,
    tag: Option<Seq<u8>>,
) -> StepView {
    match iv {
        None => StepView::Skip,
        Some(iv) => if iv.len() != NONCE_LENGTH {
            StepView::OutOfRange
        } else {
            match (body, tag) {
                (Some(body), Some(tag)) => StepView::Open { key, iv, sealed: body + tag },
                _ => StepView::Skip,
            }
        },
    }
}

/// What to do with the decoded parts of a recipient. A public key that has not the length of
/// one ends it all.
pub open spec fn key_step(
    public_key: Option<Seq<u8>>,
    iv: Option<Seq<u8>>,
    encrypted_key: Option<Seq<u8>>,
    tag: Option<Seq<u8>>,
) -> StepView {
    match public_key {
        None => StepView::Skip,
        Some(key) => if key.len() != KEY_LENGTH {
            StepView::Abandon
        } else {
            nonce_step(key, iv, encrypted_key, tag)
        },
    }
}

/// What to do with a content key, where there is one, and the decoded parts of the content.
pub open spec fn content_step(
    cek: Option<Seq<u8>>,
    iv: Option<Seq<u8>>,
    ciphertext: Option<Seq<u8>>,
    tag: Option<Seq<u8>>,
) -> StepView {
    match cek {
        None => StepView::Skip,
        Some(key) => if key.len() != KEY_LENGTH {
            StepView::Skip
        } else {
            nonce_step(key, iv, ciphertext, tag)
        },
    }
}

/// How far a decryption of `sealed` comes. The cipher has no answer where the tag fits and the
/// key stream ends within the message.
pub open spec fn opened(key: Seq<u8>, iv: Seq<u8>, sealed: Seq<u8>, aad: Seq<u8>) -> AttemptView {
    match crate::crypto::opening(key, iv, sealed, aad) {
        Some(message) => if crate::crypto::overruns(sealed.len() - TAG_LENGTH) {
            AttemptView::OutOfRange
        } else {
            AttemptView::Opened(message)
        },
        None => AttemptView::Skipped,
    }
}

/// How far the recovery of the content key from a recipient's part comes with a secret key.
pub open spec fn unwrapping(info: RecipientInfo, secret: Seq<u8>) -> AttemptView {
    match key_step(
        crate::codec::base64url_decoding(info.header.epk.x@),
        crate::codec::base64url_decoding(info.header.iv@),
        crate::codec::base64url_decoding(info.encrypted_key@),
        crate::codec::base64url_decoding(info.header.tag@),
    ) {
        StepView::Skip => AttemptView::Skipped,
        StepView::Abandon => AttemptView::Abandoned,
        StepView::OutOfRange => AttemptView::OutOfRange,
        StepView::Open { key, iv, sealed } => opened(
            wrapping_key(crate::crypto::x25519_shared(secret, key)),
            iv,
            sealed,
            Seq::empty(),
        ),
    }
}

/// How far the decryption of the content comes with a content key.
pub open spec fn content_opening(jwe: JWE, cek: Seq<u8>) -> AttemptView {
    match content_step(
        Some(cek),
        crate::codec::base64url_decoding(jwe.iv@),
        crate::codec::base64url_decoding(jwe.ciphertext@),
        crate::codec::base64url_decoding(jwe.tag@),
    ) {
        StepView::Skip => AttemptView::Skipped,
        StepView::Abandon => AttemptView::Abandoned,
        StepView::OutOfRange => AttemptView::OutOfRange,
        StepView::Open { key, iv, sealed } => opened(
            key,
            iv,
            sealed,
            vstd::utf8::encode_utf8(jwe.protected_header@),
        ),
    }
}

/// How far a decryption comes through a recipient's part, with a secret key.
pub open spec fn attempt(jwe: JWE, info: RecipientInfo, secret: Seq<u8>) -> AttemptView {
    match unwrapping(info, secret) {
        AttemptView::Opened(cek) => content_opening(jwe, cek),
        other => other,
    }
}

/// How far a decryption comes with a secret key, from the recipient at `from` on: the first
/// that is not skipped decides.
pub open spec fn secret_outcome(jwe: JWE, secret: Seq<u8>, from: int) -> AttemptView
    decreases jwe.recipients@.len() - from,
{
    if !(0 <= from < jwe.recipients@.len()) {
        AttemptView::Skipped
    } else {
        match attempt(jwe, jwe.recipients@[from], secret) {
            AttemptView::Skipped => secret_outcome(jwe, secret, from + 1),
            other => other,
        }
    }
}

/// How far a decryption comes with the keys from the one at `from` on: the first that is not
/// skipped decides, and one without a secret key is skipped.
pub open spec fn outcome_from(jwe: JWE, jwks: Seq<JWK>, from: int) -> AttemptView
    decreases jwks.len() - from,
{
    if !(0 <= from < jwks.len()) {
        AttemptView::Skipped
    } else {
        match crate::keys::x25519_secret(jwks[from]) {
            Err(_) => outcome_from(jwe, jwks, from + 1),
            Ok(secret) => match secret_outcome(jwe, secret, 0) {
                AttemptView::Skipped => outcome_from(jwe, jwks, from + 1),
                other => other,
            },
        }
    }
}

/// Whether a body and a tag make up a message within which the key stream ends.
pub open spec fn overlong(body: Seq<char>, tag: Seq<char>) -> bool {
    match (crate::codec::base64url_decoding(body), crate::codec::base64url_decoding(tag)) {
        (Some(body), Some(tag)) => crate::crypto::overruns(body.len() + tag.len() - TAG_LENGTH),
        _ => false,
    }
}

/// Whether a part of `jwe` is a message within which the key stream ends, whether its tag fits
/// or not.
pub open spec fn has_overlong(jwe: JWE) -> bool {
    ||| overlong(jwe.ciphertext@, jwe.tag@)
    ||| exists|i: int|
        0 <= i < jwe.recipients@.len() && overlong(
            (#[trigger] jwe.recipients@[i]).encrypted_key@,
            jwe.recipients@[i].header.tag@,
        )
}

/// How far a decryption comes with some keys.
pub open spec fn outcome(jwe: JWE, jwks: Seq<JWK>) -> AttemptView {
    outcome_from(jwe, jwks, 0)
}

/// Whether the recipients of `jwe` are the holders of `keys`: through its own part, each
/// comes to the content, and nobody comes to lengths that the cipher has no answer for.
pub open spec fn sealed_to(jwe: JWE, content: Seq<u8>, keys: Seq<crate::did::KeyView>) -> bool {
    &&& jwe.recipients@.len() == keys.len()
    &&& forall|i: int, secret: Seq<u8>|
        0 <= i < keys.len() && secret.len() == KEY_LENGTH ==> match #[trigger] attempt(
            jwe,
            jwe.recipients@[i],
            secret,
        ) {
            AttemptView::Opened(found) => crate::crypto::x25519_public(secret)
                == keys[i].public_key ==> found == content,
            AttemptView::Skipped => crate::crypto::x25519_public(secret) != keys[i].public_key,
            _ => false,
        }
}

/// Whether one content key opens the content, and every recipient's part opens to it with the
/// recipient's secret key.
pub open spec fn one_key_opens(
    jwe: JWE,
    content: Seq<u8>,
    keys: Seq<crate::did::KeyView>,
    cek: Seq<u8>,
) -> bool {
    &&& content_opening(jwe, cek) == AttemptView::Opened(content)
    &&& jwe.recipients@.len() == keys.len()
    &&& forall|i: int, secret: Seq<u8>|
        0 <= i < keys.len() && secret.len() == KEY_LENGTH && crate::crypto::x25519_public(secret)
            == keys[i].public_key ==> #[trigger] unwrapping(jwe.recipients@[i], secret)
            == AttemptView::Opened(cek)
}

/// Whether a text is base64url of so many bytes.
pub open spec fn decodes_to(text: Seq<char>, length: nat) -> bool {
    match crate::codec::base64url_decoding(text) {
        Some(bytes) => bytes.len() == length,
        None => false,
    }
}

/// Whether the texts of a recipient's part decode to bytes of the lengths that the cipher and
/// the key agreement ask for.
pub open spec fn part_decodes(info: RecipientInfo) -> bool {
    &&& decodes_to(info.encrypted_key@, KEY_LENGTH as nat)
    &&& decodes_to(info.header.tag@, TAG_LENGTH as nat)
    &&& decodes_to(info.header.iv@, NONCE_LENGTH as nat)
    &&& decodes_to(info.header.epk.x@, KEY_LENGTH as nat)
}

/// Whether all texts decode: the header to the JSON object that names the cipher, the
/// ciphertext to as many bytes as the content has, the others to nonces, tags and keys.
pub open spec fn texts_decode(jwe: JWE, content: Seq<u8>) -> bool {
    &&& crate::codec::base64url_decoding(jwe.protected_header@) == Some(
        vstd::utf8::encode_utf8("{\"enc\":\"XC20P\"}"@),
    )
    &&& decodes_to(jwe.iv@, NONCE_LENGTH as nat)
    &&& decodes_to(jwe.ciphertext@, content.len())
    &&& decodes_to(jwe.tag@, TAG_LENGTH as nat)
    &&& forall|i: int|
        0 <= i < jwe.recipients@.len() ==> part_decodes(#[trigger] jwe.recipients@[i])
}

/// Whether `jwe` is the content, encrypted to keys under the given nonces, content key and
/// ephemeral keys, and opens to its recipients.
pub open spec fn encrypted_under(
    jwe: JWE,
    content: Seq<u8>,
    keys: Seq<crate::did::KeyView>,
    iv: Seq<u8>,
    cek: Seq<u8>,
    recipient_ivs: Seq<Seq<u8>>,
    ephemerals: Seq<Seq<u8>>,
) -> bool {
    &&& jwe_is(jwe, content, keys, iv, cek, recipient_ivs, ephemerals)
    &&& one_key_opens(jwe, content, keys, cek)
    &&& sealed_to(jwe, content, keys)
    &&& texts_decode(jwe, content)
}

/// Whether `jwe` is the content, encrypted to keys under some nonces, some content key and some
/// ephemeral keys.
pub open spec fn encrypted(jwe: JWE, content: Seq<u8>, keys: Seq<crate::did::KeyView>) -> bool {
    exists|
        iv: Seq<u8>,
        cek: Seq<u8>,
        recipient_ivs: Seq<Seq<u8>>,
        ephemerals: Seq<Seq<u8>>,
    |
        encrypted_under(jwe, content, keys, iv, cek, recipient_ivs, ephemerals)
}

/// The random number generator that is left when the nonce and the key of the content are
/// drawn.
pub open spec fn rng_for_recipients(rng: rand_chacha::ChaCha20Rng) -> rand_chacha::ChaCha20Rng {
    crate::crypto::after_draw(
        crate::crypto::after_draw(rng, NONCE_LENGTH as nat),
        KEY_LENGTH as nat,
    )
}

/// The random number generator that is left when a nonce and an ephemeral secret are drawn for
/// each of the first `count` keys.
pub open spec fn rng_after(rng: rand_chacha::ChaCha20Rng, count: nat) -> rand_chacha::ChaCha20Rng
    decreases count,
{
    if count == 0 {
        rng
    } else {
        crate::crypto::after_draw(
            crate::crypto::after_draw(rng_after(rng, (count - 1) as nat), NONCE_LENGTH as nat),
            KEY_LENGTH as nat,
        )
    }
}

/// The nonces that are drawn for `count` keys.
pub open spec fn drawn_ivs(rng: rand_chacha::ChaCha20Rng, count: nat) -> Seq<Seq<u8>> {
    Seq::new(
        count,
        |i: int| crate::crypto::drawn(rng_after(rng, i as nat), NONCE_LENGTH as nat),
    )
}

/// The ephemeral secrets that are drawn for `count` keys.
pub open spec fn drawn_ephemerals(rng: rand_chacha::ChaCha20Rng, count: nat) -> Seq<Seq<u8>> {
    Seq::new(
        count,
        |i: int|
            crate::crypto::drawn(
                crate::crypto::after_draw(rng_after(rng, i as nat), NONCE_LENGTH as nat),
                KEY_LENGTH as nat,
            ),
    )
}

/// Whether `jwe` is the content, encrypted to keys under what a random number generator gives:
/// the nonce of the content, the content key, and for each key a nonce and an ephemeral secret.
pub open spec fn encrypted_from(
    jwe: JWE,
    content: Seq<u8>,
    keys: Seq<crate::did::KeyView>,
    rng: rand_chacha::ChaCha20Rng,
) -> bool {
    encrypted_under(
        jwe,
        content,
        keys,
        crate::crypto::drawn(rng, NONCE_LENGTH as nat),
        crate::crypto::drawn(
            crate::crypto::after_draw(rng, NONCE_LENGTH as nat),
            KEY_LENGTH as nat,
        ),
        drawn_ivs(rng_for_recipients(rng), keys.len()),
        drawn_ephemerals(rng_for_recipients(rng), keys.len()),
    )
}

/// Where every recipient before the one at `to` is skipped, the rest decides.
proof fn lemma_skipped_recipients(jwe: JWE, secret: Seq<u8>, from: int, to: int)
    requires
        0 <= from <= to <= jwe.recipients@.len(),
        forall|i: int|
            from <= i < to ==> attempt(jwe, #[trigger] jwe.recipients@[i], secret) is Skipped,
    ensures
        secret_outcome(jwe, secret, from) == secret_outcome(jwe, secret, to),
    decreases to - from,
{
    if from < to {
        lemma_skipped_recipients(jwe, secret, from + 1, to);
    }
}

/// Whether a key comes to nothing with any recipient's part, so that the next key is tried.
pub open spec fn passed_over(jwe: JWE, jwk: JWK) -> bool {
    match crate::keys::x25519_secret(jwk) {
        Err(_) => true,
        Ok(secret) => forall|i: int|
            0 <= i < jwe.recipients@.len() ==> attempt(
                jwe,
                #[trigger] jwe.recipients@[i],
                secret,
            ) is Skipped,
    }
}

/// Where every key before the one at `to` is passed over, the rest decides.
proof fn lemma_passed_over(jwe: JWE, jwks: Seq<JWK>, from: int, to: int)
    requires
        0 <= from <= to <= jwks.len(),
        forall|k: int| from <= k < to ==> passed_over(jwe, #[trigger] jwks[k]),
    ensures
        outcome_from(jwe, jwks, from) == outcome_from(jwe, jwks, to),
    decreases to - from,
{
    if from < to {
        if let Ok(secret) = crate::keys::x25519_secret(jwks[from]) {
            lemma_skipped_recipients(jwe, secret, 0, jwe.recipients@.len() as int);
        }
        lemma_passed_over(jwe, jwks, from + 1, to);
    }
}

/// The first key and recipient that are not skipped decide a decryption: keys go first, and
/// with each key the recipients in order.
pub proof fn law_first_attempt_decides(
    jwe: JWE,
    jwks: Seq<JWK>,
    k: int,
    secret: Seq<u8>,
    i: int,
)
    requires
        0 <= k < jwks.len(),
        forall|j: int| 0 <= j < k ==> passed_over(jwe, #[trigger] jwks[j]),
        crate::keys::x25519_secret(jwks[k]) == Ok::<Seq<u8>, Error>(secret),
        0 <= i < jwe.recipients@.len(),
        forall|j: int|
            0 <= j < i ==> attempt(jwe, #[trigger] jwe.recipients@[j], secret) is Skipped,
        !(attempt(jwe, jwe.recipients@[i], secret) is Skipped),
    ensures
        outcome(jwe, jwks) == attempt(jwe, jwe.recipients@[i], secret),
{
    lemma_passed_over(jwe, jwks, 0, k);
    lemma_skipped_recipients(jwe, secret, 0, i);
}

/// Keys that are all passed over decrypt nothing.
pub proof fn law_no_key_reads_nothing(jwe: JWE, jwks: Seq<JWK>)
    requires
        forall|k: int| 0 <= k < jwks.len() ==> passed_over(jwe, #[trigger] jwks[k]),
    ensures
        outcome(jwe, jwks) is Skipped,
{
    lemma_passed_over(jwe, jwks, 0, jwks.len() as int);
}

/// A recipient's key comes to the content, unless the cipher takes that key, or one tried
/// before it, for the key of an earlier recipient that it is not.
pub proof fn law_recipient_reads_content(
    jwe: JWE,
    content: Seq<u8>,
    keys: Seq<crate::did::KeyView>,
    jwks: Seq<JWK>,
    k: int,
    secret: Seq<u8>,
    i: int,
)
    requires
        sealed_to(jwe, content, keys),
        0 <= k < jwks.len(),
        forall|j: int| 0 <= j < k ==> passed_over(jwe, #[trigger] jwks[j]),
        crate::keys::x25519_secret(jwks[k]) == Ok::<Seq<u8>, Error>(secret),
        0 <= i < keys.len(),
        crate::crypto::x25519_public(secret) == keys[i].public_key,
        forall|j: int|
            0 <= j < i ==> attempt(jwe, #[trigger] jwe.recipients@[j], secret) is Skipped,
    ensures
        outcome(jwe, jwks) == AttemptView::Opened(content),
{
    law_first_attempt_decides(jwe, jwks, k, secret, i);
}

/// A decryption of what is sealed to recipients comes to an end or to nothing, whatever the
/// keys are.
pub proof fn law_sealed_has_an_answer(
    jwe: JWE,
    content: Seq<u8>,
    keys: Seq<crate::did::KeyView>,
    jwks: Seq<JWK>,
)
    requires
        sealed_to(jwe, content, keys),
    ensures
        outcome(jwe, jwks) is Opened || outcome(jwe, jwks) is Skipped,
{
    lemma_has_an_answer(jwe, content, keys, jwks, 0);
}

proof fn lemma_has_an_answer(
    jwe: JWE,
    content: Seq<u8>,
    keys: Seq<crate::did::KeyView>,
    jwks: Seq<JWK>,
    from: int,
)
    requires
        sealed_to(jwe, content, keys),
        0 <= from,
    ensures
        outcome_from(jwe, jwks, from) is Opened || outcome_from(jwe, jwks, from) is Skipped,
    decreases jwks.len() - from,
{
    if from < jwks.len() {
        if let Ok(secret) = crate::keys::x25519_secret(jwks[from]) {
            lemma_secret_has_an_answer(jwe, content, keys, secret, 0);
        }
        lemma_has_an_answer(jwe, content, keys, jwks, from + 1);
    }
}

proof fn lemma_secret_has_an_answer(
    jwe: JWE,
    content: Seq<u8>,
    keys: Seq<crate::did::KeyView>,
    secret: Seq<u8>,
    from: int,
)
    requires
        sealed_to(jwe, content, keys),
        secret.len() == KEY_LENGTH,
        0 <= from,
    ensures
        secret_outcome(jwe, secret, from) is Opened || secret_outcome(jwe, secret, from) is Skipped,
    decreases jwe.recipients@.len() - from,
{
    if from < jwe.recipients@.len() {
        lemma_secret_has_an_answer(jwe, content, keys, secret, from + 1);
    }
}

/// Whether `jwk` is the key pair of a recipient's key.
pub open spec fn is_holder(jwk: JWK, key: crate::did::KeyView) -> bool {
    match crate::keys::x25519_secret(jwk) {
        Ok(secret) => crate::crypto::x25519_public(secret) == key.public_key,
        Err(_) => false,
    }
}

/// Whether no key opens the part of a recipient that it does not belong to.
pub open spec fn only_holders_open(
    jwe: JWE,
    keys: Seq<crate::did::KeyView>,
    jwks: Seq<JWK>,
) -> bool {
    forall|k: int, i: int|
        #![trigger jwks[k], jwe.recipients@[i]]
        0 <= k < jwks.len() && 0 <= i < keys.len() && !is_holder(jwks[k], keys[i]) ==> match
        crate::keys::x25519_secret(jwks[k]) {
            Ok(secret) => attempt(jwe, jwe.recipients@[i], secret) is Skipped,
            Err(_) => true,
        }
}

/// Where no key opens another recipient's part, a decryption comes to the content if any of the
/// keys, at any position, belongs to any of the recipients, and to nothing if none does.
pub proof fn law_recipients_read_and_others_do_not(
    jwe: JWE,
    content: Seq<u8>,
    keys: Seq<crate::did::KeyView>,
    jwks: Seq<JWK>,
)
    requires
        sealed_to(jwe, content, keys),
        only_holders_open(jwe, keys, jwks),
    ensures
        outcome(jwe, jwks) == if exists|k: int, i: int|
            0 <= k < jwks.len() && 0 <= i < keys.len() && #[trigger] is_holder(jwks[k], keys[i]) {
            AttemptView::Opened(content)
        } else {
            AttemptView::Skipped
        },
{
    lemma_holders_decide(jwe, content, keys, jwks, 0);
}

proof fn lemma_holders_decide(
    jwe: JWE,
    content: Seq<u8>,
    keys: Seq<crate::did::KeyView>,
    jwks: Seq<JWK>,
    from: int,
)
    requires
        sealed_to(jwe, content, keys),
        only_holders_open(jwe, keys, jwks),
        0 <= from <= jwks.len(),
    ensures
        outcome_from(jwe, jwks, from) == if exists|k: int, i: int|
            from <= k < jwks.len() && 0 <= i < keys.len() && #[trigger] is_holder(
                jwks[k],
                keys[i],
            ) {
            AttemptView::Opened(content)
        } else {
            AttemptView::Skipped
        },
    decreases jwks.len() - from,
{
    if from < jwks.len() {
        lemma_holders_decide(jwe, content, keys, jwks, from + 1);
        if let Ok(secret) = crate::keys::x25519_secret(jwks[from]) {
            lemma_holder_decides(jwe, content, keys, jwks, from, secret, 0);
        }
    }
}

proof fn lemma_holder_decides(
    jwe: JWE,
    content: Seq<u8>,
    keys: Seq<crate::did::KeyView>,
    jwks: Seq<JWK>,
    k: int,
    secret: Seq<u8>,
    from: int,
)
    requires
        sealed_to(jwe, content, keys),
        only_holders_open(jwe, keys, jwks),
        0 <= k < jwks.len(),
        crate::keys::x25519_secret(jwks[k]) == Ok::<Seq<u8>, Error>(secret),
        0 <= from <= keys.len(),
    ensures
        secret_outcome(jwe, secret, from) == if exists|i: int|
            from <= i < keys.len() && #[trigger] is_holder(jwks[k], keys[i]) {
            AttemptView::Opened(content)
        } else {
            AttemptView::Skipped
        },
    decreases keys.len() - from,
{
    if from < keys.len() {
        lemma_holder_decides(jwe, content, keys, jwks, k, secret, from + 1);
    }
}

/// Whether a key comes to `found` through some recipient's part.
pub open spec fn reads_some_part(jwe: JWE, jwk: JWK, found: Seq<u8>) -> bool {
    match crate::keys::x25519_secret(jwk) {
        Ok(secret) => exists|i: int|
            0 <= i < jwe.recipients@.len() && attempt(
                jwe,
                #[trigger] jwe.recipients@[i],
                secret,
            ) == AttemptView::Opened(found),
        Err(_) => false,
    }
}

/// What a decryption comes to, one of the keys comes to through some recipient's part.
pub proof fn law_some_key_reads_what_is_found(jwe: JWE, jwks: Seq<JWK>, found: Seq<u8>)
    requires
        outcome(jwe, jwks) == AttemptView::Opened(found),
    ensures
        exists|k: int| 0 <= k < jwks.len() && reads_some_part(jwe, #[trigger] jwks[k], found),
{
    lemma_some_key_reads(jwe, jwks, found, 0);
}

proof fn lemma_some_key_reads(jwe: JWE, jwks: Seq<JWK>, found: Seq<u8>, from: int)
    requires
        0 <= from,
        outcome_from(jwe, jwks, from) == AttemptView::Opened(found),
    ensures
        exists|k: int| 0 <= k < jwks.len() && reads_some_part(jwe, #[trigger] jwks[k], found),
    decreases jwks.len() - from,
{
    match crate::keys::x25519_secret(jwks[from]) {
        Ok(secret) => if secret_outcome(jwe, secret, 0) is Skipped {
            lemma_some_key_reads(jwe, jwks, found, from + 1);
        } else {
            lemma_some_part_reads(jwe, secret, found, 0);
            assert(reads_some_part(jwe, jwks[from], found));
        },
        Err(_) => lemma_some_key_reads(jwe, jwks, found, from + 1),
    }
}

proof fn lemma_some_part_reads(jwe: JWE, secret: Seq<u8>, found: Seq<u8>, from: int)
    requires
        0 <= from,
        secret_outcome(jwe, secret, from) == AttemptView::Opened(found),
    ensures
        exists|i: int|
            0 <= i < jwe.recipients@.len() && attempt(
                jwe,
                #[trigger] jwe.recipients@[i],
                secret,
            ) == AttemptView::Opened(found),
    decreases jwe.recipients@.len() - from,
{
    if attempt(jwe, jwe.recipients@[from], secret) is Skipped {
        lemma_some_part_reads(jwe, secret, found, from + 1);
    }
}

/// Keys are tried in order: with more keys a decryption comes as far as with the first ones,
/// and where these are all skipped, as far as with the others. Without keys it comes to nothing.
pub proof fn law_keys_are_tried_in_order(jwe: JWE, a: Seq<JWK>, b: Seq<JWK>)
    ensures
        outcome(jwe, a + b) == match outcome(jwe, a) {
            AttemptView::Skipped => outcome(jwe, b),
            other => other,
        },
        outcome(jwe, Seq::empty()) is Skipped,
{
    lemma_keys_in_order(jwe, a, b, 0);
}

proof fn lemma_keys_in_order(jwe: JWE, a: Seq<JWK>, b: Seq<JWK>, from: int)
    requires
        0 <= from <= a.len(),
    ensures
        outcome_from(jwe, a + b, from) == match outcome_from(jwe, a, from) {
            AttemptView::Skipped => outcome_from(jwe, b, 0),
            other => other,
        },
    decreases a.len() - from,
{
    if from < a.len() {
        lemma_keys_in_order(jwe, a, b, from + 1);
    } else {
        lemma_keys_behind(jwe, a, b, 0);
    }
}

proof fn lemma_keys_behind(jwe: JWE, a: Seq<JWK>, b: Seq<JWK>, from: int)
    requires
        0 <= from <= b.len(),
    ensures
        outcome_from(jwe, a + b, a.len() + from) == outcome_from(jwe, b, from),
    decreases b.len() - from,
{
    if from < b.len() {
        lemma_keys_behind(jwe, a, b, from + 1);
    }
}

/// Where every secret key comes equally far with either, every list of keys does.
proof fn lemma_same_outcome(one: JWE, two: JWE, jwks: Seq<JWK>, from: int)
    requires
        forall|secret: Seq<u8>| #[trigger]
            secret_outcome(one, secret, 0) == secret_outcome(two, secret, 0),
        0 <= from,
    ensures
        outcome_from(one, jwks, from) == outcome_from(two, jwks, from),
    decreases jwks.len() - from,
{
    if from < jwks.len() {
        lemma_same_outcome(one, two, jwks, from + 1);
    }
}

/// Whether the content of both, and what it is authenticated with, is the same.
pub open spec fn same_content(one: JWE, two: JWE) -> bool {
    &&& one.protected_header@ == two.protected_header@
    &&& one.iv@ == two.iv@
    &&& one.ciphertext@ == two.ciphertext@
    &&& one.tag@ == two.tag@
}

/// Whether the parts of both differ in nothing but the key's id, the algorithm, and the type and
/// curve of the ephemeral key.
pub open spec fn same_part(one: RecipientInfo, two: RecipientInfo) -> bool {
    &&& one.encrypted_key@ == two.encrypted_key@
    &&& one.header.iv@ == two.header.iv@
    &&& one.header.tag@ == two.header.tag@
    &&& one.header.epk.x@ == two.header.epk.x@
}

/// The key's id, the algorithm, and the type and curve of the ephemeral key play no part in a
/// decryption.
pub proof fn law_labels_play_no_part(one: JWE, two: JWE, jwks: Seq<JWK>)
    requires
        same_content(one, two),
        one.recipients@.len() == two.recipients@.len(),
        forall|i: int|
            0 <= i < one.recipients@.len() ==> same_part(
                #[trigger] one.recipients@[i],
                two.recipients@[i],
            ),
    ensures
        outcome(one, jwks) == outcome(two, jwks),
{
    assert forall|secret: Seq<u8>| #[trigger]
        secret_outcome(one, secret, 0) == secret_outcome(two, secret, 0) by {
        lemma_labels_play_no_part(one, two, secret, 0);
    }
    lemma_same_outcome(one, two, jwks, 0);
}

proof fn lemma_labels_play_no_part(one: JWE, two: JWE, secret: Seq<u8>, from: int)
    requires
        same_content(one, two),
        one.recipients@.len() == two.recipients@.len(),
        forall|i: int|
            0 <= i < one.recipients@.len() ==> same_part(
                #[trigger] one.recipients@[i],
                two.recipients@[i],
            ),
        0 <= from,
    ensures
        secret_outcome(one, secret, from) == secret_outcome(two, secret, from),
    decreases one.recipients@.len() - from,
{
    if from < one.recipients@.len() {
        lemma_labels_play_no_part(one, two, secret, from + 1);
    }
}

/// A part whose ephemeral key is no base64url plays no part in a decryption, wherever it stands.
pub proof fn law_unreadable_part_is_passed_over(
    one: JWE,
    two: JWE,
    part: RecipientInfo,
    at: int,
    jwks: Seq<JWK>,
)
    requires
        same_content(one, two),
        0 <= at <= one.recipients@.len(),
        two.recipients@ == one.recipients@.insert(at, part),
        crate::codec::base64url_decoding(part.header.epk.x@) is None,
    ensures
        outcome(one, jwks) == outcome(two, jwks),
{
    assert forall|secret: Seq<u8>| #[trigger]
        secret_outcome(one, secret, 0) == secret_outcome(two, secret, 0) by {
        lemma_unreadable_part(one, two, part, at, secret, 0);
    }
    lemma_same_outcome(one, two, jwks, 0);
}

proof fn lemma_unreadable_part(
    one: JWE,
    two: JWE,
    part: RecipientInfo,
    at: int,
    secret: Seq<u8>,
    from: int,
)
    requires
        same_content(one, two),
        0 <= at <= one.recipients@.len(),
        two.recipients@ == one.recipients@.insert(at, part),
        crate::codec::base64url_decoding(part.header.epk.x@) is None,
        0 <= from <= one.recipients@.len(),
    ensures
        from <= at ==> secret_outcome(one, secret, from) == secret_outcome(two, secret, from),
        from >= at ==> secret_outcome(one, secret, from) == secret_outcome(two, secret, from + 1),
    decreases one.recipients@.len() - from,
{
    if from < one.recipients@.len() {
        lemma_unreadable_part(one, two, part, at, secret, from + 1);
    }
}

/// The ids of the keys that an encryption is for, in order.
pub open spec fn kids(jwe: JWE) -> Seq<Seq<char>> {
    jwe.recipients@.map_values(|info: RecipientInfo| info.header.kid@)
}

/// An encryption names the keys it is for, each once for each time it is given, in order.
pub proof fn law_kids_follow_keys(jwe: JWE, content: Seq<u8>, keys: Seq<crate::did::KeyView>)
    requires
        encrypted(jwe, content, keys),
    ensures
        kids(jwe) == keys.map_values(|key: crate::did::KeyView| key.kid),
{
}

/// An encryption to more recipients names the keys that encryptions to the ones and to the
/// others name, one after the other.
pub proof fn law_kids_of_more_recipients(
    content: Seq<u8>,
    a: Seq<Resolution>,
    b: Seq<Resolution>,
    to_a: JWE,
    to_b: JWE,
    to_both: JWE,
)
    requires
        encrypted(to_a, content, crate::did::all_keys(a)),
        encrypted(to_b, content, crate::did::all_keys(b)),
        encrypted(to_both, content, crate::did::all_keys(a + b)),
    ensures
        kids(to_both) == kids(to_a) + kids(to_b),
{
    law_kids_follow_keys(to_a, content, crate::did::all_keys(a));
    law_kids_follow_keys(to_b, content, crate::did::all_keys(b));
    law_kids_follow_keys(to_both, content, crate::did::all_keys(a + b));
    crate::did::law_keys_of_more_resolutions(a, b);
}

/// The protected header of every encryption.
pub fn protected_header() -> (res: String)
    ensures
        res@ == protected_text(),
        res@ == "eyJlbmMiOiJYQzIwUCJ9"@,
        crate::codec::base64url_decoding(res@) == Some(
            vstd::utf8::encode_utf8("{\"enc\":\"XC20P\"}"@),
        ),
{
    proof {
        lemma_protected_text();
        reveal_strlit("enc");
        reveal_strlit("XC20P");
        reveal_strlit("{\"enc\":\"XC20P\"}");
    }
    let json = json_object_of("enc", "XC20P");
    assert(json@ =~= "{\"enc\":\"XC20P\"}"@);
    base64url_encode(json.as_str().as_bytes())
}

/// Encrypts the content key to a recipient's key, under a nonce and with an ephemeral secret.
pub fn seal_recipient(key: &RecipientKey, iv: &[u8], cek: &[u8], ephemeral_secret: &[u8]) -> (res:
    RecipientInfo)
    requires
        key.public_key@.len() == KEY_LENGTH,
        iv@.len() == NONCE_LENGTH,
        cek@.len() == KEY_LENGTH,
        ephemeral_secret@.len() == KEY_LENGTH,
    ensures
        recipient_is(res, key@, iv@, cek@, ephemeral_secret@),
        part_decodes(res),
        forall|secret: Seq<u8>|
            secret.len() == KEY_LENGTH ==> match #[trigger] unwrapping(res, secret) {
                AttemptView::Opened(found) => crate::crypto::x25519_public(secret)
                    == key.public_key@ ==> found == cek@,
                AttemptView::Skipped => crate::crypto::x25519_public(secret) != key.public_key@,
                _ => false,
            },
{
    let ephemeral_public = x25519_public_of(ephemeral_secret);
    let shared_secret = x25519_shared_of(ephemeral_secret, key.public_key.as_slice());
    let kek = concat_kdf(shared_secret.as_slice(), KEY_BITS, "ECDH-ES+XC20PKW", None);

    let none: Vec<u8> = Vec::new();
    let mut encrypted_key = seal(kek.as_slice(), iv, cek, none.as_slice()).unwrap();
    let ghost sealed = encrypted_key@;
    let tag = encrypted_key.split_off(encrypted_key.len() - TAG_LENGTH);
    assert(encrypted_key@ + tag@ =~= sealed);

    RecipientInfo {
        encrypted_key: base64url_encode(encrypted_key.as_slice()),
        header: RecipientHeader {
            alg: "ECDH-ES+XC20PKW".to_string(),
            iv: base64url_encode(iv),
            tag: base64url_encode(tag.as_slice()),
            epk: EphemeralPublicKey {
                kty: "OKP".to_string(),
                crv: "X25519".to_string(),
                x: base64url_encode(ephemeral_public.as_slice()),
            },
            kid: key.kid.clone(),
        },
    }
}

/// Takes the next step with a key, and with what is decoded of a nonce, a body and a tag.
fn take_nonce_step(
    key: Vec<u8>,
    iv: Option<Vec<u8>>,
    body: Option<Vec<u8>>,
    tag: Option<Vec<u8>>,
) -> (res: Step)
    ensures
        res@ == nonce_step(key@, decoded(iv), decoded(body), decoded(tag)),
{
    let iv = match iv {
        Some(iv) => iv,
        None => return Step::Skip,
    };
    if iv.len() != NONCE_LENGTH {
        return Step::OutOfRange;
    }
    match (body, tag) {
        (Some(body), Some(tag)) => {
            let mut sealed = body;
            append_bytes(&mut sealed, tag.as_slice());
            Step::Open { key, iv, sealed }
        },
        _ => Step::Skip,
    }
}

/// Takes the next step with the decoded parts of a recipient.
pub fn take_key_step(
    public_key: Option<Vec<u8>>,
    iv: Option<Vec<u8>>,
    encrypted_key: Option<Vec<u8>>,
    tag: Option<Vec<u8>>,
) -> (res: Step)
    ensures
        res@ == key_step(decoded(public_key), decoded(iv), decoded(encrypted_key), decoded(tag)),
{
    match public_key {
        Some(key) => if key.len() != KEY_LENGTH {
            Step::Abandon
        } else {
            take_nonce_step(key, iv, encrypted_key, tag)
        },
        None => Step::Skip,
    }
}

/// Takes the next step with a content key and the decoded parts of the content.
pub fn take_content_step(
    cek: Option<Vec<u8>>,
    iv: Option<Vec<u8>>,
    ciphertext: Option<Vec<u8>>,
    tag: Option<Vec<u8>>,
) -> (res: Step)
    ensures
        res@ == content_step(decoded(cek), decoded(iv), decoded(ciphertext), decoded(tag)),
{
    match cek {
        Some(key) => if key.len() != KEY_LENGTH {
            Step::Skip
        } else {
            take_nonce_step(key, iv, ciphertext, tag)
        },
        None => Step::Skip,
    }
}

/// Whether the key stream ends within the message in `sealed`.
fn sealed_overruns(sealed: &[u8]) -> (res: bool)
    ensures
        res == crate::crypto::overruns(sealed@.len() - TAG_LENGTH),
{
    sealed.len() >= TAG_LENGTH && message_overruns(sealed.len() - TAG_LENGTH)
}

/// Decrypts `sealed`. With caution, a message within which the key stream ends is out of range,
/// whether its tag fits or not.
fn open_sealed(key: &[u8], iv: &[u8], sealed: &[u8], aad: &[u8], cautious: bool) -> (res: Attempt)
    requires
        key@.len() == KEY_LENGTH,
        iv@.len() == NONCE_LENGTH,
        cautious || !(opened(key@, iv@, sealed@, aad@) is OutOfRange),
    ensures
        res@ == opened(key@, iv@, sealed@, aad@) || (cautious && res is OutOfRange
            && crate::crypto::overruns(sealed@.len() - TAG_LENGTH)),
{
    if cautious && sealed_overruns(sealed) {
        return Attempt::OutOfRange;
    }
    match open(key, iv, sealed, aad) {
        Some(message) => Attempt::Opened(message),
        None => Attempt::Skipped,
    }
}

/// Recovers the content key from a recipient's part.
fn unwrap_key(info: &RecipientInfo, secret: &[u8], cautious: bool) -> (res: Attempt)
    requires
        secret@.len() == KEY_LENGTH,
        cautious || !(unwrapping(*info, secret@) is OutOfRange),
    ensures
        res@ == unwrapping(*info, secret@) || (cautious && res is OutOfRange && overlong(
            info.encrypted_key@,
            info.header.tag@,
        )),
{
    let step = take_key_step(
        base64url_decode(info.header.epk.x.as_str()),
        base64url_decode(info.header.iv.as_str()),
        base64url_decode(info.encrypted_key.as_str()),
        base64url_decode(info.header.tag.as_str()),
    );
    match step {
        Step::Skip => Attempt::Skipped,
        Step::Abandon => Attempt::Abandoned,
        Step::OutOfRange => Attempt::OutOfRange,
        Step::Open { key, iv, sealed } => {
            let shared_secret = x25519_shared_of(secret, key.as_slice());
            let kek = concat_kdf(shared_secret.as_slice(), KEY_BITS, "ECDH-ES+XC20PKW", None);
            let none: Vec<u8> = Vec::new();
            open_sealed(
                kek.as_slice(),
                iv.as_slice(),
                sealed.as_slice(),
                none.as_slice(),
                cautious,
            )
        },
    }
}

impl JWE {
    /// Encrypts content to the given keys, with a nonce and a key for the content, and a nonce
    /// and an ephemeral secret for each of the given keys. The cipher refuses content that is too
    /// long.
    pub fn encrypt_with(
        content: &[u8],
        keys: &[RecipientKey],
        iv: &[u8],
        cek: &[u8],
        recipient_ivs: &[Vec<u8>],
        ephemeral_secrets: &[Vec<u8>],
    ) -> (res: Result<Self, Error>)
        requires
            !crate::crypto::overruns(content@.len() as int),
            crate::did::keys_ok(crate::did::key_views(keys@)),
            iv@.len() == NONCE_LENGTH,
            cek@.len() == KEY_LENGTH,
            recipient_ivs@.len() == keys@.len(),
            forall|i: int|
                0 <= i < recipient_ivs@.len() ==> (#[trigger] recipient_ivs@[i])@.len()
                    == NONCE_LENGTH,
            ephemeral_secrets@.len() == keys@.len(),
            forall|i: int|
                0 <= i < ephemeral_secrets@.len() ==> (#[trigger] ephemeral_secrets@[i])@.len()
                    == KEY_LENGTH,
        ensures
            match res {
                Ok(jwe) => encrypted_under(
                    jwe,
                    content@,
                    crate::did::key_views(keys@),
                    iv@,
                    cek@,
                    recipient_ivs@.map_values(|nonce: Vec<u8>| nonce@),
                    ephemeral_secrets@.map_values(|secret: Vec<u8>| secret@),
                ),
                Err(e) => e == Error::UnableToGenerateDID,
            },
            res is Ok <==> content@.len() <= crate::crypto::MAX_MESSAGE,
    {
        let protected_b64 = protected_header();
        let ghost views = crate::did::key_views(keys@);
        let mut recipients: Vec<RecipientInfo> = Vec::new();
        for i in 0..keys.len()
            invariant
                views == crate::did::key_views(keys@),
                crate::did::keys_ok(views),
                cek@.len() == KEY_LENGTH,
                recipient_ivs@.len() == keys@.len(),
                forall|k: int|
                    0 <= k < recipient_ivs@.len() ==> (#[trigger] recipient_ivs@[k])@.len()
                        == NONCE_LENGTH,
                ephemeral_secrets@.len() == keys@.len(),
                forall|k: int|
                    0 <= k < ephemeral_secrets@.len() ==> (#[trigger] ephemeral_secrets@[k])@.len()
                        == KEY_LENGTH,
                recipients@.len() == i,
                forall|k: int|
                    0 <= k < i ==> recipient_is(
                        #[trigger] recipients@[k],
                        views[k],
                        recipient_ivs@[k]@,
                        cek@,
                        ephemeral_secrets@[k]@,
                    ) && part_decodes(recipients@[k]),
                forall|k: int, secret: Seq<u8>|
                    0 <= k < i && secret.len() == KEY_LENGTH ==> match #[trigger] unwrapping(
                        recipients@[k],
                        secret,
                    ) {
                        AttemptView::Opened(found) => crate::crypto::x25519_public(secret)
                            == views[k].public_key ==> found == cek@,
                        AttemptView::Skipped => crate::crypto::x25519_public(secret)
                            != views[k].public_key,
                        _ => false,
                    },
        {
            assert(views[i as int].public_key == keys@[i as int].public_key@);
            recipients.push(
                seal_recipient(
                    &keys[i],
                    recipient_ivs[i].as_slice(),
                    cek,
                    ephemeral_secrets[i].as_slice(),
                ),
            );
        }

        let mut encrypted = match seal(cek, iv, content, protected_b64.as_str().as_bytes()) {
            Some(encrypted) => encrypted,
            None => return Err(Error::UnableToGenerateDID),
        };
        let ghost sealed = encrypted@;

        // Split ciphertext and tag
        let tag = encrypted.split_off(encrypted.len() - TAG_LENGTH);
        assert(encrypted@ + tag@ =~= sealed);

        Ok(JWE {
            protected_header: protected_b64,
            iv: base64url_encode(iv),
            ciphertext: base64url_encode(encrypted.as_slice()),
            tag: base64url_encode(tag.as_slice()),
            recipients,
        })
    }

    /// Encrypts content to the keys for key agreement that the resolutions of the recipients'
    /// DIDs give, under keys and nonces that a random number generator gives, if there is one.
    pub fn encrypt_seeded(
        content: &[u8],
        recipients: &[Resolution],
        rng: Option<ChaCha20Rng>,
    ) -> (res: Result<Self, Error>)
        requires
            rng is Some && crate::did::all_name_keys(recipients@) ==> !crate::crypto::overruns(
                content@.len() as int,
            ),
        ensures
            match res {
                Ok(jwe) => encrypted_from(
                    jwe,
                    content@,
                    crate::did::all_keys(recipients@),
                    rng->Some_0,
                ),
                Err(e) => e == if rng is None {
                    Error::NoRandomness
                } else if !crate::did::all_name_keys(recipients@) {
                    Error::UnableToGetVerificationMethod
                } else {
                    Error::UnableToGenerateDID
                },
            },
            res is Ok <==> rng is Some && crate::did::all_name_keys(recipients@) && content@.len()
                <= crate::crypto::MAX_MESSAGE,
    {
        let mut rng = match rng {
            Some(rng) => rng,
            None => return Err(Error::NoRandomness),
        };
        let iv = random_bytes(&mut rng, NONCE_LENGTH);

        // Generate content encryption key (CEK)
        let cek = random_bytes(&mut rng, KEY_LENGTH);

        let keys = match collect_keys(recipients) {
            Ok(keys) => keys,
            Err(e) => return Err(e),
        };
        let ghost first = rng;
        let mut recipient_ivs: Vec<Vec<u8>> = Vec::new();
        let mut ephemeral_secrets: Vec<Vec<u8>> = Vec::new();
        for i in 0..keys.len()
            invariant
                rng == rng_after(first, i as nat),
                recipient_ivs@.len() == i,
                forall|k: int|
                    0 <= k < i ==> (#[trigger] recipient_ivs@[k])@ == drawn_ivs(
                        first,
                        keys@.len(),
                    )[k] && recipient_ivs@[k]@.len() == NONCE_LENGTH,
                ephemeral_secrets@.len() == i,
                forall|k: int|
                    0 <= k < i ==> (#[trigger] ephemeral_secrets@[k])@ == drawn_ephemerals(
                        first,
                        keys@.len(),
                    )[k] && ephemeral_secrets@[k]@.len() == KEY_LENGTH,
        {
            recipient_ivs.push(random_bytes(&mut rng, NONCE_LENGTH));
            ephemeral_secrets.push(random_bytes(&mut rng, KEY_LENGTH));
        }
        Self::encrypt_with(
            content,
            keys.as_slice(),
            iv.as_slice(),
            cek.as_slice(),
            recipient_ivs.as_slice(),
            ephemeral_secrets.as_slice(),
        )
    }

    /// Encrypts content to the keys for key agreement that the resolutions of the recipients'
    /// DIDs give, under random keys and nonces, where the system gives randomness.
    pub fn encrypt(content: &[u8], recipients: &[Resolution]) -> (res: Result<Self, Error>)
        requires
            crate::did::all_name_keys(recipients@) ==> !crate::crypto::overruns(
                content@.len() as int,
            ),
        ensures
            match res {
                Ok(jwe) => {
                    &&& crate::did::all_name_keys(recipients@)
                    &&& content@.len() <= crate::crypto::MAX_MESSAGE
                    &&& encrypted(jwe, content@, crate::did::all_keys(recipients@))
                    &&& exists|rng: rand_chacha::ChaCha20Rng| #[trigger]
                        encrypted_from(jwe, content@, crate::did::all_keys(recipients@), rng)
                },
                Err(Error::UnableToGetVerificationMethod) => !crate::did::all_name_keys(
                    recipients@,
                ),
                Err(Error::UnableToGenerateDID) => crate::did::all_name_keys(recipients@)
                    && content@.len() > crate::crypto::MAX_MESSAGE,
                Err(e) => e == Error::NoRandomness,
            },
    {
        Self::encrypt_seeded(content, recipients, seeded_rng())
    }

    /// Decrypts the content with a content key.
    fn open_content(&self, cek: Vec<u8>, cautious: bool) -> (res: Attempt)
        requires
            cautious || !(content_opening(*self, cek@) is OutOfRange),
        ensures
            res@ == content_opening(*self, cek@) || (cautious && res is OutOfRange && overlong(
                self.ciphertext@,
                self.tag@,
            )),
    {
        let step = take_content_step(
            Some(cek),
            base64url_decode(self.iv.as_str()),
            base64url_decode(self.ciphertext.as_str()),
            base64url_decode(self.tag.as_str()),
        );
        match step {
            Step::Skip => Attempt::Skipped,
            Step::Abandon => Attempt::Abandoned,
            Step::OutOfRange => Attempt::OutOfRange,
            Step::Open { key, iv, sealed } => {
                let aad = self.protected_header.as_str().as_bytes();
                open_sealed(key.as_slice(), iv.as_slice(), sealed.as_slice(), aad, cautious)
            },
        }
    }

    /// Decrypts through a recipient's part, with a secret key.
    fn try_recipient(&self, recipient: &RecipientInfo, secret: &[u8], cautious: bool) -> (res:
        Attempt)
        requires
            secret@.len() == KEY_LENGTH,
            cautious || !(attempt(*self, *recipient, secret@) is OutOfRange),
        ensures
            res@ == attempt(*self, *recipient, secret@) || (cautious && res is OutOfRange && (
            overlong(recipient.encrypted_key@, recipient.header.tag@) || overlong(
                self.ciphertext@,
                self.tag@,
            ))),
    {
        match unwrap_key(recipient, secret, cautious) {
            Attempt::Opened(cek) => self.open_content(cek, cautious),
            other => other,
        }
    }

    /// Decrypts with a secret key, through the first recipient's part that takes it.
    fn try_secret(&self, secret: &[u8], cautious: bool) -> (res: Attempt)
        requires
            secret@.len() == KEY_LENGTH,
            cautious || !(secret_outcome(*self, secret@, 0) is OutOfRange),
        ensures
            res@ == secret_outcome(*self, secret@, 0) || (cautious && res is OutOfRange
                && has_overlong(*self)),
    {
        let mut i: usize = 0;
        while i < self.recipients.len()
            invariant
                secret@.len() == KEY_LENGTH,
                i <= self.recipients@.len(),
                cautious || !(secret_outcome(*self, secret@, 0) is OutOfRange),
                secret_outcome(*self, secret@, 0) == secret_outcome(*self, secret@, i as int),
            decreases self.recipients.len() - i,
        {
            match self.try_recipient(&self.recipients[i], secret, cautious) {
                Attempt::Skipped => {},
                other => return other,
            }
            i = i + 1;
        }
        Attempt::Skipped
    }

    /// Decrypts with the first of the keys that any recipient's part takes.
    fn walk_keys(&self, jwks: &[JWK], cautious: bool) -> (res: Attempt)
        requires
            cautious || !(outcome(*self, jwks@) is OutOfRange),
        ensures
            res@ == outcome(*self, jwks@) || (cautious && res is OutOfRange && has_overlong(
                *self,
            )),
    {
        let mut k: usize = 0;
        while k < jwks.len()
            invariant
                k <= jwks@.len(),
                cautious || !(outcome(*self, jwks@) is OutOfRange),
                outcome(*self, jwks@) == outcome_from(*self, jwks@, k as int),
            decreases jwks.len() - k,
        {
            // Convert JWK to X25519
            match convert_ed25519_to_x25519(&jwks[k]) {
                Ok(secret) => match self.try_secret(secret.as_slice(), cautious) {
                    Attempt::Skipped => {},
                    other => return other,
                },
                Err(_) => {},
            }
            k = k + 1;
        }
        Attempt::Skipped
    }

    /// Decrypts with the first of the keys that any recipient's part takes. A part within which
    /// the key stream ends is out of range, whether its tag fits or not: nothing tells which
    /// but the cipher, which has no answer where it fits.
    pub fn try_keys(&self, jwks: &[JWK]) -> (res: Attempt)
        ensures
            res@ == outcome(*self, jwks@) || (res is OutOfRange && has_overlong(*self)),
    {
        self.walk_keys(jwks, true)
    }

    /// The content, as the first key and recipient that decrypt it give it, and nothing where
    /// none do. Nothing is reached that the cipher has no answer for.
    pub fn decrypt(&self, jwks: &[JWK]) -> (res: Option<Vec<u8>>)
        requires
            !(outcome(*self, jwks@) is OutOfRange),
        ensures
            match res {
                Some(content) => outcome(*self, jwks@) == AttemptView::Opened(content@),
                None => outcome(*self, jwks@) is Skipped || outcome(*self, jwks@) is Abandoned,
            },
    {
        match self.walk_keys(jwks, false) {
            Attempt::Opened(content) => Some(content),
            _ => None,
        }
    }

    /// The content, where a key decrypts it. It is an error if something is reached that the
    /// cipher has no answer for, or a part within which the key stream ends.
    pub fn decrypt_checked(&self, jwks: &[JWK]) -> (res: Result<Option<Vec<u8>>, LengthError>)
        ensures
            match res {
                Ok(Some(content)) => outcome(*self, jwks@) == AttemptView::Opened(content@),
                Ok(None) => outcome(*self, jwks@) is Skipped || outcome(
                    *self,
                    jwks@,
                ) is Abandoned,
                Err(_) => outcome(*self, jwks@) is OutOfRange || has_overlong(*self),
            },
    {
        match self.try_keys(jwks) {
            Attempt::OutOfRange => Err(LengthError),
            _ => Ok(self.decrypt(jwks)),
        }
    }
}

/// The key that encrypts the content key is the SHA-256 hash of the number one, the shared
/// secret, and bytes that are always the same: the name of the algorithm behind its length,
/// two lengths of nothing, and the length of the key in bits.
pub proof fn law_wrapping_key_is_the_hash(shared: Seq<u8>)
    ensures
        wrapping_key(shared) == crate::crypto::sha_256(
            seq![0u8, 0, 0, 1] + shared + (seq![0u8, 0, 0, 15] + vstd::utf8::encode_utf8(
                "ECDH-ES+XC20PKW"@,
            ) + seq![0u8, 0, 0, 0, 0, 0, 0, 0, 0, 0, 1, 0]),
        ),
{
    reveal_strlit("ECDH-ES+XC20PKW");
    vstd::utf8::is_ascii_chars_encode_utf8("ECDH-ES+XC20PKW"@);
    let name = vstd::utf8::encode_utf8("ECDH-ES+XC20PKW"@);
    assert(name.len() == 15);
    assert(crate::bytes::be_32(1) =~= seq![0u8, 0, 0, 1]);
    assert(crate::bytes::be_32(15) =~= seq![0u8, 0, 0, 15]);
    assert(crate::bytes::be_32(0) =~= seq![0u8, 0, 0, 0]);
    assert(crate::bytes::be_32(256) =~= seq![0u8, 0, 1, 0]);
    assert(crate::kdf::kdf_input(shared, 256, "ECDH-ES+XC20PKW"@, Seq::empty()) =~= seq![
        0u8,
        0,
        0,
        1,
    ] + shared + (seq![0u8, 0, 0, 15] + name + seq![0u8, 0, 0, 0, 0, 0, 0, 0, 0, 0, 1, 0]));
}

/// What the texts of an encryption are: the header, the nonce, and the content under the content
/// key, authenticated with the header, its tag apart.
pub proof fn law_encrypted_content(
    jwe: JWE,
    content: Seq<u8>,
    keys: Seq<crate::did::KeyView>,
    iv: Seq<u8>,
    cek: Seq<u8>,
    recipient_ivs: Seq<Seq<u8>>,
    ephemerals: Seq<Seq<u8>>,
)
    requires
        encrypted_under(jwe, content, keys, iv, cek, recipient_ivs, ephemerals),
    ensures
        iv.len() == 24,
        cek.len() == 32,
        jwe.protected_header@ == "eyJlbmMiOiJYQzIwUCJ9"@,
        jwe.iv@ == crate::codec::base64url_encoding(iv),
        crate::crypto::sealing(
            cek,
            iv,
            content,
            vstd::utf8::encode_utf8("eyJlbmMiOiJYQzIwUCJ9"@),
        ) matches Some(sealed) && jwe.ciphertext@ == crate::codec::base64url_encoding(
            sealed.take(sealed.len() - 16),
        ) && jwe.tag@ == crate::codec::base64url_encoding(sealed.skip(sealed.len() - 16)),
        jwe.recipients@.len() == keys.len(),
        recipient_ivs.len() == keys.len(),
        ephemerals.len() == keys.len(),
{
    lemma_protected_text();
}

/// What the texts of a recipient's part are: the content key under the key that the ephemeral
/// secret and the recipient's public key give, its tag apart, the nonce, the ephemeral public
/// key, the id of the recipient's key, and the names of what is used.
pub proof fn law_encrypted_part(
    jwe: JWE,
    content: Seq<u8>,
    keys: Seq<crate::did::KeyView>,
    iv: Seq<u8>,
    cek: Seq<u8>,
    recipient_ivs: Seq<Seq<u8>>,
    ephemerals: Seq<Seq<u8>>,
    i: int,
)
    requires
        encrypted_under(jwe, content, keys, iv, cek, recipient_ivs, ephemerals),
        0 <= i < keys.len(),
    ensures
        ({
            let info = jwe.recipients@[i];
            let sealed = crate::crypto::sealing(
                wrapping_key(crate::crypto::x25519_shared(ephemerals[i], keys[i].public_key)),
                recipient_ivs[i],
                cek,
                Seq::empty(),
            )->Some_0;
            &&& recipient_ivs[i].len() == 24
            &&& ephemerals[i].len() == 32
            &&& info.encrypted_key@ == crate::codec::base64url_encoding(
                sealed.take(sealed.len() - 16),
            )
            &&& info.header.tag@ == crate::codec::base64url_encoding(
                sealed.skip(sealed.len() - 16),
            )
            &&& info.header.iv@ == crate::codec::base64url_encoding(recipient_ivs[i])
            &&& info.header.epk.x@ == crate::codec::base64url_encoding(
                crate::crypto::x25519_public(ephemerals[i]),
            )
            &&& info.header.kid@ == keys[i].kid
            &&& info.header.alg@ == "ECDH-ES+XC20PKW"@
            &&& info.header.epk.kty@ == "OKP"@
            &&& info.header.epk.crv@ == "X25519"@
        }),
{
    assert(recipient_is(jwe.recipients@[i], keys[i], recipient_ivs[i], cek, ephemerals[i]));
}

/// What a generator gives first is the nonce of the content, what it gives next the content key,
/// and then for each key in order a nonce and an ephemeral secret, from where the last draw left
/// it.
pub proof fn law_draws_follow_each_other(
    jwe: JWE,
    content: Seq<u8>,
    keys: Seq<crate::did::KeyView>,
    rng: rand_chacha::ChaCha20Rng,
    count: nat,
    i: int,
)
    ensures
        encrypted_from(jwe, content, keys, rng) ==> {
            let next = crate::crypto::after_draw(rng, 24);
            let behind = crate::crypto::after_draw(next, 32);
            encrypted_under(
                jwe,
                content,
                keys,
                crate::crypto::drawn(rng, 24),
                crate::crypto::drawn(next, 32),
                drawn_ivs(behind, keys.len()),
                drawn_ephemerals(behind, keys.len()),
            )
        },
        drawn_ivs(rng, count).len() == count,
        drawn_ephemerals(rng, count).len() == count,
        count > 0 ==> drawn_ivs(rng, count)[0] == crate::crypto::drawn(rng, 24),
        count > 0 ==> drawn_ephemerals(rng, count)[0] == crate::crypto::drawn(
            crate::crypto::after_draw(rng, 24),
            32,
        ),
        0 <= i < count ==> {
            let behind = crate::crypto::after_draw(crate::crypto::after_draw(rng, 24), 32);
            &&& drawn_ivs(rng, count + 1)[i + 1] == drawn_ivs(behind, count)[i]
            &&& drawn_ephemerals(rng, count + 1)[i + 1] == drawn_ephemerals(behind, count)[i]
        },
{
    if 0 <= i < count {
        lemma_rng_after(rng, i as nat);
    }
}

/// To draw for one key more is to draw for one key and then for the others.
proof fn lemma_rng_after(rng: rand_chacha::ChaCha20Rng, count: nat)
    ensures
        rng_after(rng, count + 1) == rng_after(
            crate::crypto::after_draw(crate::crypto::after_draw(rng, 24), 32),
            count,
        ),
    decreases count,
{
    reveal_with_fuel(rng_after, 2);
    if count > 0 {
        lemma_rng_after(rng, (count - 1) as nat);
    }
}

/// A part whose texts all decode, to an ephemeral key of 32 bytes and a nonce of 24, of a content
/// whose texts do, to a nonce of 24: it comes to what the cipher makes of the content under the
/// key that it makes of the encrypted key. What the cipher does not open, and a content key that
/// has not 32 bytes, is skipped; a message in the last block of the key stream is out of range.
pub proof fn law_readable_parts_are_opened(
    jwe: JWE,
    info: RecipientInfo,
    secret: Seq<u8>,
    epk: Seq<u8>,
    iv: Seq<u8>,
    encrypted_key: Seq<u8>,
    tag: Seq<u8>,
    content_iv: Seq<u8>,
    ciphertext: Seq<u8>,
    content_tag: Seq<u8>,
)
    requires
        crate::codec::base64url_decoding(info.header.epk.x@) == Some(epk),
        crate::codec::base64url_decoding(info.header.iv@) == Some(iv),
        crate::codec::base64url_decoding(info.encrypted_key@) == Some(encrypted_key),
        crate::codec::base64url_decoding(info.header.tag@) == Some(tag),
        crate::codec::base64url_decoding(jwe.iv@) == Some(content_iv),
        crate::codec::base64url_decoding(jwe.ciphertext@) == Some(ciphertext),
        crate::codec::base64url_decoding(jwe.tag@) == Some(content_tag),
        epk.len() == 32,
        iv.len() == 24,
        content_iv.len() == 24,
    ensures
        match crate::crypto::opening(
            wrapping_key(crate::crypto::x25519_shared(secret, epk)),
            iv,
            encrypted_key + tag,
            Seq::empty(),
        ) {
            None => attempt(jwe, info, secret) is Skipped,
            Some(cek) => if 274877906816 < encrypted_key.len() + tag.len() - 16 < 274877906880 {
                attempt(jwe, info, secret) is OutOfRange
            } else if cek.len() != 32 {
                attempt(jwe, info, secret) is Skipped
            } else {
                match crate::crypto::opening(
                    cek,
                    content_iv,
                    ciphertext + content_tag,
                    vstd::utf8::encode_utf8(jwe.protected_header@),
                ) {
                    None => attempt(jwe, info, secret) is Skipped,
                    Some(content) => if 274877906816 < ciphertext.len() + content_tag.len() - 16
                        < 274877906880 {
                        attempt(jwe, info, secret) is OutOfRange
                    } else {
                        attempt(jwe, info, secret) == AttemptView::Opened(content)
                    },
                }
            },
        },
{
}

/// What becomes of parts that do not decode, or to other lengths: they are skipped, but that an
/// ephemeral key of another length ends it all, and a nonce of another length is out of range.
/// The ephemeral key is looked at first, the nonce next.
pub proof fn law_unreadable_parts(jwe: JWE, info: RecipientInfo, secret: Seq<u8>)
    ensures
        match crate::codec::base64url_decoding(info.header.epk.x@) {
            None => attempt(jwe, info, secret) is Skipped,
            Some(epk) => if epk.len() != 32 {
                attempt(jwe, info, secret) is Abandoned
            } else {
                match crate::codec::base64url_decoding(info.header.iv@) {
                    None => attempt(jwe, info, secret) is Skipped,
                    Some(iv) => if iv.len() != 24 {
                        attempt(jwe, info, secret) is OutOfRange
                    } else {
                        crate::codec::base64url_decoding(info.encrypted_key@) is None
                            || crate::codec::base64url_decoding(info.header.tag@) is None
                            ==> attempt(jwe, info, secret) is Skipped
                    },
                }
            },
        },
{
}

/// The same of the content, where a part comes to a content key of 32 bytes.
pub proof fn law_unreadable_content(
    jwe: JWE,
    info: RecipientInfo,
    secret: Seq<u8>,
    epk: Seq<u8>,
    iv: Seq<u8>,
    encrypted_key: Seq<u8>,
    tag: Seq<u8>,
    cek: Seq<u8>,
)
    requires
        crate::codec::base64url_decoding(info.header.epk.x@) == Some(epk),
        crate::codec::base64url_decoding(info.header.iv@) == Some(iv),
        crate::codec::base64url_decoding(info.encrypted_key@) == Some(encrypted_key),
        crate::codec::base64url_decoding(info.header.tag@) == Some(tag),
        epk.len() == 32,
        iv.len() == 24,
        crate::crypto::opening(
            wrapping_key(crate::crypto::x25519_shared(secret, epk)),
            iv,
            encrypted_key + tag,
            Seq::empty(),
        ) == Some(cek),
        cek.len() == 32,
        !crate::crypto::overruns(encrypted_key.len() + tag.len() - 16),
    ensures
        match crate::codec::base64url_decoding(jwe.iv@) {
            None => attempt(jwe, info, secret) is Skipped,
            Some(content_iv) => if content_iv.len() != 24 {
                attempt(jwe, info, secret) is OutOfRange
            } else {
                crate::codec::base64url_decoding(jwe.ciphertext@) is None
                    || crate::codec::base64url_decoding(jwe.tag@) is None ==> attempt(
                    jwe,
                    info,
                    secret,
                ) is Skipped
            },
        },
{
}

/// What a step with decoded parts is: a key and a nonce of the right lengths, and body and tag
/// one after the other, are opened. What is not decoded is skipped, a nonce of another length is
/// out of range, and a key of another length is an end for a recipient's part and skipped for
/// the content.
pub proof fn law_steps(
    key: Option<Seq<u8>>,
    iv: Option<Seq<u8>>,
    body: Option<Seq<u8>>,
    tag: Option<Seq<u8>>,
)
    ensures
        key is None ==> key_step(key, iv, body, tag) is Skip && content_step(
            key,
            iv,
            body,
            tag,
        ) is Skip,
        key matches Some(k) ==> k.len() != 32 ==> key_step(key, iv, body, tag) is Abandon
            && content_step(key, iv, body, tag) is Skip,
        key matches Some(k) ==> k.len() == 32 ==> {
            &&& key_step(key, iv, body, tag) == content_step(key, iv, body, tag)
            &&& match iv {
                None => key_step(key, iv, body, tag) is Skip,
                Some(nonce) => if nonce.len() != 24 {
                    key_step(key, iv, body, tag) is OutOfRange
                } else {
                    match (body, tag) {
                        (Some(b), Some(t)) => key_step(key, iv, body, tag) == (StepView::Open {
                            key: k,
                            iv: nonce,
                            sealed: b + t,
                        }),
                        _ => key_step(key, iv, body, tag) is Skip,
                    }
                },
            }
        },
{
}

/// What is said of steps and attempts is said of their bytes as they are stored.
pub proof fn law_views_of_steps(key: Vec<u8>, iv: Vec<u8>, sealed: Vec<u8>)
    ensures
        Step::Skip@ == StepView::Skip,
        Step::Abandon@ == StepView::Abandon,
        Step::OutOfRange@ == StepView::OutOfRange,
        (Step::Open { key, iv, sealed })@ == (StepView::Open {
            key: key@,
            iv: iv@,
            sealed: sealed@,
        }),
        Attempt::Opened(key)@ == AttemptView::Opened(key@),
        Attempt::Skipped@ == AttemptView::Skipped,
        Attempt::Abandoned@ == AttemptView::Abandoned,
        Attempt::OutOfRange@ == AttemptView::OutOfRange,
        decoded(Some(key)) == Some(key@),
        decoded(None) is None,
{
}

/// The first key is tried first, with each part in order: the first part that is not skipped
/// decides. A key that has no secret, or with which all parts are skipped, leaves it to the
/// others.
pub proof fn law_first_key_goes_first(jwe: JWE, jwk: JWK, others: Seq<JWK>)
    ensures
        match crate::keys::x25519_secret(jwk) {
            Err(_) => outcome(jwe, seq![jwk] + others) == outcome(jwe, others),
            Ok(secret) => {
                &&& (forall|i: int|
                    0 <= i < jwe.recipients@.len() ==> attempt(
                        jwe,
                        #[trigger] jwe.recipients@[i],
                        secret,
                    ) is Skipped) ==> outcome(jwe, seq![jwk] + others) == outcome(jwe, others)
                &&& forall|i: int|
                    0 <= i < jwe.recipients@.len() && !(attempt(
                        jwe,
                        #[trigger] jwe.recipients@[i],
                        secret,
                    ) is Skipped) && (forall|j: int|
                        0 <= j < i ==> attempt(
                            jwe,
                            #[trigger] jwe.recipients@[j],
                            secret,
                        ) is Skipped) ==> outcome(jwe, seq![jwk] + others) == attempt(
                        jwe,
                        jwe.recipients@[i],
                        secret,
                    )
            },
        },
{
    let one = seq![jwk];
    law_keys_are_tried_in_order(jwe, one, others);
    assert(one[0] == jwk);
    reveal_with_fuel(outcome_from, 2);
    match crate::keys::x25519_secret(jwk) {
        Err(_) => {},
        Ok(secret) => {
            if forall|i: int|
                0 <= i < jwe.recipients@.len() ==> attempt(
                    jwe,
                    #[trigger] jwe.recipients@[i],
                    secret,
                ) is Skipped {
                lemma_skipped_recipients(jwe, secret, 0, jwe.recipients@.len() as int);
            }
            assert forall|i: int|
                0 <= i < jwe.recipients@.len() && !(attempt(
                    jwe,
                    #[trigger] jwe.recipients@[i],
                    secret,
                ) is Skipped) && (forall|j: int|
                    0 <= j < i ==> attempt(
                        jwe,
                        #[trigger] jwe.recipients@[j],
                        secret,
                    ) is Skipped) implies outcome(jwe, one + others) == attempt(
                jwe,
                jwe.recipients@[i],
                secret,
            ) by {
                lemma_skipped_recipients(jwe, secret, 0, i);
            }
        },
    }
}

/// Something is overlong only where a body and a tag of the encryption decode to a message that
/// ends in the last block of the key stream.
pub proof fn law_overlong_has_a_cause(jwe: JWE)
    requires
        has_overlong(jwe),
    ensures
        ({
            let message = |body: Seq<char>, tag: Seq<char>|
                crate::codec::base64url_decoding(body)->Some_0.len()
                    + crate::codec::base64url_decoding(tag)->Some_0.len() - 16;
            ||| 274877906816 < message(jwe.ciphertext@, jwe.tag@) < 274877906880
            ||| exists|i: int|
                0 <= i < jwe.recipients@.len() && 274877906816 < message(
                    (#[trigger] jwe.recipients@[i]).encrypted_key@,
                    jwe.recipients@[i].header.tag@,
                ) < 274877906880
        }),
{
}

/// Each part of an encryption to the keys of a document has the id of an entry with a readable
/// key, one part for each such entry, in the order of the entries.
pub proof fn law_parts_are_for_entries(
    jwe: JWE,
    content: Seq<u8>,
    agreements: Seq<crate::did::KeyAgreement>,
)
    requires
        encrypted(jwe, content, crate::did::usable_keys(agreements)),
    ensures
        exists|places: Seq<int>|
            {
                &&& #[trigger] crate::did::are_readable_places(agreements, places)
                &&& places.len() == jwe.recipients@.len()
                &&& forall|i: int|
                    0 <= i < places.len() ==> jwe.recipients@[i].header.kid@
                        == agreements[#[trigger] places[i]].kid@
            },
{
    let keys = crate::did::usable_keys(agreements);
    crate::did::law_keys_come_from_entries(agreements);
    let places = choose|places: Seq<int>|
        {
            &&& #[trigger] crate::did::are_readable_places(agreements, places)
            &&& places.len() == keys.len()
            &&& forall|i: int|
                0 <= i < places.len() ==> keys[i].kid == agreements[#[trigger] places[i]].kid@
                    && Some(keys[i].public_key) == crate::did::key_of(
                    crate::did::key_bytes(agreements[places[i]].method),
                )
        };
    let (iv, cek, recipient_ivs, ephemerals) = choose|
        iv: Seq<u8>,
        cek: Seq<u8>,
        recipient_ivs: Seq<Seq<u8>>,
        ephemerals: Seq<Seq<u8>>,
    |
        encrypted_under(jwe, content, keys, iv, cek, recipient_ivs, ephemerals);
    assert forall|i: int| 0 <= i < places.len() implies jwe.recipients@[i].header.kid@
        == agreements[#[trigger] places[i]].kid@ by {
        law_encrypted_part(jwe, content, keys, iv, cek, recipient_ivs, ephemerals, i);
    }
    assert(crate::did::are_readable_places(agreements, places));
}

} // verus!
