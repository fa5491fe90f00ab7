//! Encryption to recipients, and decryption with their keys.
use base64::engine::general_purpose::URL_SAFE_NO_PAD;
use base64::Engine;
use chacha20poly1305::aead::Aead;
use chacha20poly1305::{KeyInit, XChaCha20Poly1305, XNonce};
use dag_jwe::crypto::{message_overruns, MAX_MESSAGE, REFUSED_MESSAGE};
use dag_jwe::did::{
    DidDocument, KeyAgreement, RecipientKey, Resolution, VerificationMethod,
    VerificationMethodMap,
};
use dag_jwe::error::Error;
use dag_jwe::jwe::{
    protected_header, seal_recipient, take_content_step, take_key_step, Attempt, LengthError,
    RecipientInfo, Step, JWE,
};
use dag_jwe::kdf::concat_kdf;
use dag_jwe::keys::{convert_ed25519_to_x25519, OctetParams, Params, JWK};
use rand_chacha::rand_core::{OsRng, RngCore, SeedableRng};
use rand_chacha::ChaCha20Rng;
use x25519_dalek::{PublicKey, StaticSecret};

fn ed25519(seed: &[u8]) -> JWK {
    JWK {
        params: Params::OKP(OctetParams {
            curve: "Ed25519".to_string(),
            public_key: vec![],
            private_key: Some(seed.to_vec()),
        }),
    }
}

fn generate_ed25519() -> JWK {
    let mut seed = [0u8; 32];
    OsRng.fill_bytes(&mut seed);
    ed25519(&seed)
}

fn public_key(jwk: &JWK) -> Vec<u8> {
    let secret = convert_ed25519_to_x25519(jwk).unwrap();
    let secret = StaticSecret::from(<[u8; 32]>::try_from(secret.as_slice()).unwrap());
    PublicKey::from(&secret).as_bytes().to_vec()
}

/// The resolution of a DID whose document gives the key for key agreement in base58.
fn resolved(jwk: &JWK, kid: &str) -> Resolution {
    Resolution {
        failed: false,
        document: Some(DidDocument {
            key_agreement: Some(vec![KeyAgreement {
                kid: kid.to_string(),
                method: VerificationMethod::Embedded(VerificationMethodMap {
                    public_key_base58: Some(bs58::encode(public_key(jwk)).into_string()),
                    public_key_jwk: None,
                    public_key_multibase: None,
                }),
            }]),
        }),
    }
}

const SEED: [u8; 32] = [
    0x9d, 0x61, 0xb1, 0x9d, 0xef, 0xfd, 0x5a, 0x60, 0xba, 0x84, 0x4a, 0xf4, 0x92, 0xec, 0x2c,
    0xc4, 0x44, 0x49, 0xc5, 0x69, 0x7b, 0x32, 0x69, 0x19, 0x70, 0x3b, 0xac, 0x03, 0x1c, 0xae,
    0x7f, 0x60,
];

fn sample() -> JWE {
    let receiver = ed25519(&SEED);
    let key = RecipientKey { kid: "did:example:1#k".to_string(), public_key: public_key(&receiver) };
    JWE::encrypt_with(
        b"Hello, DAG JWE!",
        &[key],
        &[1; 24],
        &[7; 32],
        &[vec![2; 24]],
        &[vec![3; 32]],
    )
    .unwrap()
}

#[test]
fn test_encryption() {
    let sender = generate_ed25519();
    let receiver = generate_ed25519();
    let third_party = generate_ed25519();

    let receiver_did = resolved(&receiver, "did:key:receiver#key");

    let content = b"Hello, DAG JWE!";

    // Test with random encryption
    let jwe = JWE::encrypt(content, &[receiver_did]).unwrap();

    let decrypted = &jwe.decrypt(&[receiver.clone()]).unwrap();

    assert_eq!(decrypted.as_slice(), content);

    let not_decrypted = &jwe.decrypt(&[sender.clone()]);

    assert!(not_decrypted.is_none());

    let not_decrypted_by_third_party = &jwe.decrypt(&[third_party.clone()]);

    assert!(not_decrypted_by_third_party.is_none());

    let decrypted_with_multiple_jwks = &jwe.decrypt(&[receiver, sender, third_party]).unwrap();

    assert_eq!(decrypted_with_multiple_jwks.as_slice(), content);
}

#[test]
fn test_encryption_with_multiple_recipients() {
    let sender = generate_ed25519();
    let receiver = generate_ed25519();
    let third_party = generate_ed25519();

    let sender_did = resolved(&sender, "did:key:sender#key");
    let receiver_did = resolved(&receiver, "did:key:receiver#key");

    let content = b"Hello, DAG JWE!";

    // Test with random encryption
    let jwe = JWE::encrypt(content, &[sender_did, receiver_did]).unwrap();

    let decrypted = &jwe.decrypt(&[receiver.clone()]).unwrap();

    assert_eq!(decrypted.as_slice(), content);

    let decrypted2 = &jwe.decrypt(&[sender.clone()]).unwrap();

    assert_eq!(decrypted2.as_slice(), content);

    let not_decrypted_by_third_party = &jwe.decrypt(&[third_party.clone()]);

    assert!(not_decrypted_by_third_party.is_none());

    let decrypted_with_multiple_jwks = &jwe.decrypt(&[receiver, sender, third_party]).unwrap();

    assert_eq!(decrypted_with_multiple_jwks.as_slice(), content);
}

#[test]
fn header_is_base64url_json() {
    assert_eq!(protected_header(), "eyJlbmMiOiJYQzIwUCJ9");
    let json = URL_SAFE_NO_PAD.decode(protected_header()).unwrap();
    assert_eq!(json, b"{\"enc\":\"XC20P\"}");
}

#[test]
fn encryption_with_given_nonces_and_keys_is_exact() {
    let jwe = sample();
    assert_eq!(jwe.protected_header, "eyJlbmMiOiJYQzIwUCJ9");
    assert_eq!(jwe.iv, "AQEBAQEBAQEBAQEBAQEBAQEBAQEBAQEB");
    assert_eq!(jwe.ciphertext, "-RFvIabAzdt8rLfJcE52");
    assert_eq!(jwe.tag, "ntIq23BPTEN_Z0HZosC7Fg");
    assert_eq!(jwe.recipients.len(), 1);
    let recipient = &jwe.recipients[0];
    assert_eq!(recipient.encrypted_key, "ZZx_HgsThw55YnHr9IoBr3du_3D4zmiL0xjH5S3o2Io");
    assert_eq!(recipient.header.tag, "-h7hJDvUq3ApMFt0WmyTig");
    assert_eq!(recipient.header.iv, "AgICAgICAgICAgICAgICAgICAgICAgIC");
    assert_eq!(recipient.header.alg, "ECDH-ES+XC20PKW");
    assert_eq!(recipient.header.kid, "did:example:1#k");
    assert_eq!(recipient.header.epk.kty, "OKP");
    assert_eq!(recipient.header.epk.crv, "X25519");
    assert_eq!(recipient.header.epk.x, "Xf7dO2vUf2-ijuFdlp1bsOpTd01Ii9r53xxuASSz7yI");
}

#[test]
fn each_encryption_draws_its_own_nonces_and_keys() {
    let receiver = ed25519(&SEED);
    let recipients = [resolved(&receiver, "k"), resolved(&receiver, "k")];
    let first = JWE::encrypt(b"x", &recipients).unwrap();
    let second = JWE::encrypt(b"x", &recipients).unwrap();
    assert_ne!(first.iv, second.iv);
    assert_ne!(first.recipients[0].header.iv, first.recipients[1].header.iv);
    assert_ne!(first.recipients[0].header.epk.x, first.recipients[1].header.epk.x);
    assert_ne!(first.recipients[0].header.epk.x, second.recipients[0].header.epk.x);
    assert_eq!(URL_SAFE_NO_PAD.decode(&first.iv).unwrap().len(), 24);
    assert_eq!(URL_SAFE_NO_PAD.decode(&first.recipients[0].encrypted_key).unwrap().len(), 32);
}

#[test]
fn one_seed_gives_one_encryption() {
    let receiver = ed25519(&SEED);
    let recipients = [resolved(&receiver, "a"), resolved(&receiver, "b")];
    let rng = || Some(ChaCha20Rng::from_seed([3; 32]));
    let jwe = JWE::encrypt_seeded(b"x", &recipients, rng()).unwrap();
    assert_eq!(JWE::encrypt_seeded(b"x", &recipients, rng()), Ok(jwe.clone()));

    // The nonce of the content comes first, the content key second, and then for each
    // recipient a nonce and an ephemeral secret.
    let mut expected = ChaCha20Rng::from_seed([3; 32]);
    let mut iv = [0; 24];
    expected.fill_bytes(&mut iv);
    let mut cek = [0; 32];
    expected.fill_bytes(&mut cek);
    let mut recipient_ivs = vec![vec![0; 24], vec![0; 24]];
    let mut ephemeral_secrets = vec![vec![0; 32], vec![0; 32]];
    for i in 0..2 {
        expected.fill_bytes(&mut recipient_ivs[i]);
        expected.fill_bytes(&mut ephemeral_secrets[i]);
    }
    let key = |kid: &str| RecipientKey {
        kid: kid.to_string(),
        public_key: public_key(&receiver),
    };
    assert_eq!(
        JWE::encrypt_with(
            b"x",
            &[key("a"), key("b")],
            &iv,
            &cek,
            &recipient_ivs,
            &ephemeral_secrets
        ),
        Ok(jwe)
    );
}

#[test]
fn encryption_takes_randomness() {
    let recipients = [resolved(&ed25519(&SEED), "k")];
    assert_eq!(JWE::encrypt_seeded(b"x", &recipients, None), Err(Error::NoRandomness));
    let no_document = Resolution { failed: false, document: None };
    assert_eq!(JWE::encrypt_seeded(b"x", &[no_document], None), Err(Error::NoRandomness));
}

#[test]
fn failed_resolutions_are_left_out() {
    let receiver = ed25519(&SEED);
    let failed = Resolution { failed: true, document: None };
    let jwe = JWE::encrypt(b"x", &[failed, resolved(&receiver, "kept")]).unwrap();
    assert_eq!(jwe.recipients.len(), 1);
    assert_eq!(jwe.recipients[0].header.kid, "kept");
    assert_eq!(jwe.decrypt(&[receiver]), Some(b"x".to_vec()));
}

#[test]
fn missing_documents_and_keys_are_errors() {
    let no_document = Resolution { failed: false, document: None };
    assert_eq!(
        JWE::encrypt(b"x", &[no_document]),
        Err(Error::UnableToGetVerificationMethod)
    );
    let no_keys =
        Resolution { failed: false, document: Some(DidDocument { key_agreement: None }) };
    assert_eq!(
        JWE::encrypt(b"x", &[resolved(&ed25519(&SEED), "k"), no_keys]),
        Err(Error::UnableToGetVerificationMethod)
    );
}

#[test]
fn empty_content_and_no_recipients() {
    let jwe = JWE::encrypt(b"", &[]).unwrap();
    assert_eq!(jwe.ciphertext, "");
    assert!(jwe.recipients.is_empty());
    assert_eq!(jwe.decrypt(&[ed25519(&SEED)]), None);
    let jwe = JWE::encrypt(b"", &[resolved(&ed25519(&SEED), "k")]).unwrap();
    assert_eq!(jwe.decrypt(&[ed25519(&SEED)]), Some(vec![]));
}

#[test]
fn keys_without_a_secret_are_passed_over() {
    let jwe = sample();
    let other = JWK { params: Params::Other };
    let public = JWK {
        params: Params::OKP(OctetParams {
            curve: "Ed25519".to_string(),
            public_key: vec![],
            private_key: None,
        }),
    };
    assert_eq!(jwe.decrypt(&[other.clone(), public.clone()]), None);
    assert_eq!(
        jwe.decrypt(&[other, public, ed25519(&SEED)]),
        Some(b"Hello, DAG JWE!".to_vec())
    );
}

#[test]
fn sealed_part_opens_for_its_holder() {
    let opened = Attempt::Opened(b"Hello, DAG JWE!".to_vec());
    assert_eq!(sample().try_keys(&[ed25519(&SEED)]), opened);
    assert_eq!(sample().try_keys(&[ed25519(&[9; 32])]), Attempt::Skipped);
    assert_eq!(sample().try_keys(&[]), Attempt::Skipped);
    // Keys are tried in order.
    assert_eq!(sample().try_keys(&[ed25519(&[9; 32]), ed25519(&SEED)]), opened);
}

#[test]
fn no_fixed_secret_opens() {
    // The agreement of a fixed secret with the receiver's public key is not what the part is
    // under.
    let jwe = JWE::encrypt(b"x", &[resolved(&ed25519(&SEED), "k")]).unwrap();
    let receiver = <[u8; 32]>::try_from(public_key(&ed25519(&SEED)).as_slice()).unwrap();
    let part = &jwe.recipients[0];
    let iv = URL_SAFE_NO_PAD.decode(&part.header.iv).unwrap();
    let mut sealed = URL_SAFE_NO_PAD.decode(&part.encrypted_key).unwrap();
    sealed.extend(URL_SAFE_NO_PAD.decode(&part.header.tag).unwrap());
    let shared = StaticSecret::from([0; 32]).diffie_hellman(&PublicKey::from(receiver));
    let kek = concat_kdf(shared.as_bytes(), 256, "ECDH-ES+XC20PKW", None);
    let cipher = XChaCha20Poly1305::new_from_slice(&kek).unwrap();
    assert!(cipher.decrypt(XNonce::from_slice(&iv), sealed.as_slice()).is_err());
}

#[test]
fn one_content_key_serves_all() {
    let keys = [ed25519(&[1; 32]), ed25519(&[2; 32])];
    let recipients = [resolved(&keys[0], "a"), resolved(&keys[1], "b")];
    let jwe = JWE::encrypt(b"x", &recipients).unwrap();
    let content_keys: Vec<Vec<u8>> =
        (0..2).map(|i| content_key(&jwe.recipients[i], &keys[i])).collect();
    assert_eq!(content_keys[0], content_keys[1]);
    assert_eq!(content_keys[0].len(), 32);
}

/// The content key, as the cipher itself gives it.
fn content_key(part: &RecipientInfo, jwk: &JWK) -> Vec<u8> {
    let array = |bytes: &[u8]| <[u8; 32]>::try_from(bytes).unwrap();
    let secret = StaticSecret::from(array(&convert_ed25519_to_x25519(jwk).unwrap()));
    let epk = PublicKey::from(array(&URL_SAFE_NO_PAD.decode(&part.header.epk.x).unwrap()));
    let shared = secret.diffie_hellman(&epk);
    let kek = concat_kdf(shared.as_bytes(), 256, "ECDH-ES+XC20PKW", None);
    let iv = URL_SAFE_NO_PAD.decode(&part.header.iv).unwrap();
    let mut sealed = URL_SAFE_NO_PAD.decode(&part.encrypted_key).unwrap();
    sealed.extend(URL_SAFE_NO_PAD.decode(&part.header.tag).unwrap());
    XChaCha20Poly1305::new_from_slice(&kek)
        .unwrap()
        .decrypt(XNonce::from_slice(&iv), sealed.as_slice())
        .unwrap()
}

#[test]
fn texts_decode_to_their_lengths() {
    let jwe = JWE::encrypt(b"twelve bytes", &[resolved(&ed25519(&SEED), "k")]).unwrap();
    let length = |text: &str| URL_SAFE_NO_PAD.decode(text).unwrap().len();
    assert_eq!(length(&jwe.iv), 24);
    assert_eq!(length(&jwe.tag), 16);
    assert_eq!(length(&jwe.ciphertext), 12);
    let part = &jwe.recipients[0];
    assert_eq!(length(&part.encrypted_key), 32);
    assert_eq!(length(&part.header.tag), 16);
    assert_eq!(length(&part.header.iv), 24);
    assert_eq!(length(&part.header.epk.x), 32);
}

#[test]
fn what_is_found_is_read_through_some_part() {
    let keys = [ed25519(&[9; 32]), ed25519(&SEED)];
    let found = sample().decrypt(&keys).unwrap();
    let reads = |jwk: &JWK| sample().decrypt(&[jwk.clone()]) == Some(found.clone());
    assert!(!reads(&keys[0]));
    assert!(reads(&keys[1]));
}

#[test]
fn texts_that_are_no_base64url_are_skipped() {
    // Padding, another alphabet, a digit too many, and bits left over
    for text in ["AAA=", "+A", "A", "AB", "AAB"] {
        let mut jwe = sample();
        jwe.recipients[0].header.epk.x = text.to_string();
        assert_eq!(jwe.try_keys(&[ed25519(&SEED)]), Attempt::Skipped);
    }
    // A text of one byte
    let mut jwe = sample();
    jwe.recipients[0].header.epk.x = "AA".to_string();
    assert_eq!(jwe.try_keys(&[ed25519(&SEED)]), Attempt::Abandoned);
}

#[test]
fn labels_play_no_part() {
    let mut jwe = sample();
    jwe.recipients[0].header.kid = "other".to_string();
    jwe.recipients[0].header.alg = String::new();
    jwe.recipients[0].header.epk.kty = "EC".to_string();
    jwe.recipients[0].header.epk.crv = "P-256".to_string();
    assert_eq!(jwe.decrypt(&[ed25519(&SEED)]), Some(b"Hello, DAG JWE!".to_vec()));
}

#[test]
fn recipients_are_named_in_order() {
    let receiver = ed25519(&SEED);
    let failed = Resolution { failed: true, document: None };
    let recipients = [
        resolved(&receiver, "b"),
        failed,
        resolved(&receiver, "a"),
        resolved(&receiver, "b"),
    ];
    let jwe = JWE::encrypt(b"x", &recipients).unwrap();
    let kids: Vec<&str> = jwe.recipients.iter().map(|part| part.header.kid.as_str()).collect();
    assert_eq!(kids, ["b", "a", "b"]);
}

#[test]
fn changed_parts_do_not_open() {
    let receiver = [ed25519(&SEED)];
    let mut jwe = sample();
    jwe.protected_header = "e30".to_string();
    assert_eq!(jwe.decrypt(&receiver), None);
    let mut jwe = sample();
    jwe.tag = "AAAAAAAAAAAAAAAAAAAAAA".to_string();
    assert_eq!(jwe.decrypt(&receiver), None);
    let mut jwe = sample();
    jwe.recipients[0].encrypted_key = "AAAA".to_string();
    assert_eq!(jwe.decrypt(&receiver), None);
}

#[test]
fn unreadable_parts_are_skipped() {
    let receiver = [ed25519(&SEED)];
    let mut jwe = sample();
    let mut broken = jwe.recipients[0].clone();
    broken.header.epk.x = "!".to_string();
    jwe.recipients.insert(0, broken);
    assert_eq!(jwe.decrypt(&receiver), Some(b"Hello, DAG JWE!".to_vec()));
    jwe.recipients[0] = jwe.recipients[1].clone();
    jwe.recipients[0].header.iv = "=".to_string();
    assert_eq!(jwe.decrypt(&receiver), Some(b"Hello, DAG JWE!".to_vec()));
    jwe.ciphertext = "?".to_string();
    assert_eq!(jwe.decrypt(&receiver), None);
}

#[test]
fn first_recipient_that_opens_decides() {
    let receiver = [ed25519(&SEED)];
    let mut jwe = sample();
    let first = jwe.recipients[0].clone();
    jwe.recipients.push(first);
    jwe.recipients[1].header.epk.x = "AAAA".to_string();
    assert_eq!(jwe.try_keys(&receiver), Attempt::Opened(b"Hello, DAG JWE!".to_vec()));
}

#[test]
fn short_ephemeral_key_ends_the_decryption() {
    let receiver = [ed25519(&SEED)];
    let mut jwe = sample();
    let mut broken = jwe.recipients[0].clone();
    broken.header.epk.x = "AAAA".to_string();
    jwe.recipients.insert(0, broken);
    assert_eq!(jwe.try_keys(&receiver), Attempt::Abandoned);
    assert_eq!(jwe.decrypt(&receiver), None);
    assert_eq!(jwe.decrypt_checked(&receiver), Ok(None));
}

#[test]
fn nonces_of_another_length_are_errors() {
    let receiver = [ed25519(&SEED)];
    let mut jwe = sample();
    jwe.recipients[0].header.iv = "AAAA".to_string();
    assert_eq!(jwe.decrypt_checked(&receiver), Err(LengthError));
    let mut jwe = sample();
    jwe.iv = "AAAA".to_string();
    assert_eq!(jwe.decrypt_checked(&receiver), Err(LengthError));
    assert_eq!(sample().decrypt_checked(&receiver), Ok(Some(b"Hello, DAG JWE!".to_vec())));
}

#[test]
fn key_steps() {
    let key = Some(vec![3; 32]);
    let iv = Some(vec![4; 24]);
    let body = Some(vec![5]);
    let tag = Some(vec![6, 7]);
    let step = |key: &Option<Vec<u8>>, iv: &Option<Vec<u8>>, body, tag| {
        take_key_step(key.clone(), iv.clone(), body, tag)
    };
    assert_eq!(
        step(&key, &iv, body.clone(), tag.clone()),
        Step::Open { key: vec![3; 32], iv: vec![4; 24], sealed: vec![5, 6, 7] }
    );
    assert_eq!(step(&None, &iv, body.clone(), tag.clone()), Step::Skip);
    assert_eq!(step(&Some(vec![3; 31]), &None, None, None), Step::Abandon);
    assert_eq!(step(&key, &None, body.clone(), tag.clone()), Step::Skip);
    assert_eq!(step(&key, &Some(vec![4; 12]), None, None), Step::OutOfRange);
    assert_eq!(step(&key, &iv, None, tag.clone()), Step::Skip);
    assert_eq!(step(&key, &iv, body, None), Step::Skip);
}

#[test]
fn content_steps() {
    let open = Step::Open { key: vec![3; 32], iv: vec![4; 24], sealed: vec![1, 2] };
    let iv = Some(vec![4; 24]);
    assert_eq!(
        take_content_step(Some(vec![3; 32]), iv.clone(), Some(vec![1]), Some(vec![2])),
        open
    );
    assert_eq!(take_content_step(None, iv.clone(), None, None), Step::Skip);
    assert_eq!(take_content_step(Some(vec![3; 31]), Some(vec![]), None, None), Step::Skip);
    assert_eq!(take_content_step(Some(vec![3; 32]), Some(vec![]), None, None), Step::OutOfRange);
    assert_eq!(take_content_step(Some(vec![3; 32]), None, None, None), Step::Skip);
}

#[test]
fn recipient_part_holds_the_content_key() {
    let key = RecipientKey { kid: "k".to_string(), public_key: public_key(&ed25519(&SEED)) };
    let info = seal_recipient(&key, &[2; 24], &[7; 32], &[3; 32]);
    assert_eq!(info, sample_recipient("k"));
}

fn sample_recipient(kid: &str) -> RecipientInfo {
    let mut info = sample().recipients[0].clone();
    info.header.kid = kid.to_string();
    info
}

#[test]
fn lengths_of_messages() {
    assert_eq!(MAX_MESSAGE, 64 * (u64::from(u32::MAX) - 1));
    assert_eq!(REFUSED_MESSAGE, 64 * u64::from(u32::MAX));
    assert!(!message_overruns(0));
    assert!(!message_overruns(MAX_MESSAGE as usize));
    assert!(message_overruns(MAX_MESSAGE as usize + 1));
    assert!(message_overruns(REFUSED_MESSAGE as usize - 1));
    assert!(!message_overruns(REFUSED_MESSAGE as usize));
}
