//! Secret and public keys, and the derivation of keys.
use dag_jwe::did::{
    accept_key, collect_keys, receiver_public_key, recipient_keys, DidDocument, KeyAgreement,
    RecipientKey, Resolution, VerificationMethod, VerificationMethodMap,
};
use dag_jwe::error::{Error, JwkError};
use dag_jwe::kdf::{concat_kdf, concat_kdf_input, KEY_BITS};
use dag_jwe::keys::{
    clamp_hash, convert_ed25519_to_x25519, decode_multicodec_key, decode_public_key_multibase,
    OctetParams, Params, JWK,
};

const PUBLIC: &str = "d85e07ec22b0ad881537c2f44d662d1a143cf830c57aca4305d85c7a90f6b62e";
const PUBLIC_BASE58: &str = "FZcE15oUsucaD1KrmN8ZXPKqKGydxGu2ijeLNGyxA2Nq";
const PUBLIC_MULTIBASE: &str = "z6LSrEnPXPcLyNLKJPhdJ1eWqyYKARWket5BbiN1rjdUsQ9b";

fn hex(text: &str) -> Vec<u8> {
    (0..text.len() / 2).map(|i| u8::from_str_radix(&text[2 * i..2 * i + 2], 16).unwrap()).collect()
}

fn okp(curve: &str, public_key: Vec<u8>, private_key: Option<Vec<u8>>) -> JWK {
    JWK { params: Params::OKP(OctetParams { curve: curve.to_string(), public_key, private_key }) }
}

fn method(
    base58: Option<&str>,
    jwk: Option<JWK>,
    multibase: Option<&str>,
) -> VerificationMethod {
    VerificationMethod::Embedded(VerificationMethodMap {
        public_key_base58: base58.map(str::to_string),
        public_key_jwk: jwk,
        public_key_multibase: multibase.map(str::to_string),
    })
}

#[test]
fn ed25519_seed_gives_x25519_secret() {
    let seed = hex("9d61b19deffd5a60ba844af492ec2cc44449c5697b326919703bac031cae7f60");
    assert_eq!(
        convert_ed25519_to_x25519(&okp("Ed25519", vec![], Some(seed))),
        Ok(hex("307c83864f2833cb427a2ef1c00a013cfdff2768d980c0a3a520f006904de94f"))
    );
    assert_eq!(
        convert_ed25519_to_x25519(&okp("Ed25519", vec![], Some(vec![]))),
        Ok(hex("c883e1357eefb8bdf1542850d66d8007d620e4050b5715dc83f4a921d36ce94e"))
    );
}

#[test]
fn keys_without_a_secret() {
    assert_eq!(
        convert_ed25519_to_x25519(&okp("Ed25519", vec![1; 32], None)),
        Err(Error::JWK(JwkError::MissingPrivateKey))
    );
    assert_eq!(
        convert_ed25519_to_x25519(&okp("X25519", vec![1; 32], Some(vec![1; 32]))),
        Err(Error::JWK(JwkError::KeyTypeNotImplemented))
    );
    assert_eq!(
        convert_ed25519_to_x25519(&JWK { params: Params::Other }),
        Err(Error::JWK(JwkError::KeyTypeNotImplemented))
    );
}

#[test]
fn clamping_fixes_five_bits() {
    let mut expected = vec![0xff; 32];
    expected[0] = 0xf8;
    expected[31] = 0x7f;
    assert_eq!(clamp_hash(&[0xff; 64]), expected);
    let mut expected = vec![0; 32];
    expected[31] = 0x40;
    assert_eq!(clamp_hash(&[0; 64]), expected);
}

#[test]
fn derivation_input() {
    assert_eq!(
        concat_kdf_input(&[1, 2], 256, "A", Some(b"xyz")),
        vec![
            0, 0, 0, 1, 1, 2, 0, 0, 0, 1, 65, 0, 0, 0, 0, 0, 0, 0, 3, 120, 121, 122, 0, 0, 1, 0
        ]
    );
}

#[test]
fn derived_keys() {
    let secret: Vec<u8> = (0..32).collect();
    assert_eq!(
        concat_kdf(&secret, KEY_BITS, "ECDH-ES+XC20PKW", None),
        hex("2dbb1958e93d3e87c5243500fcdfb8843c65429bf0ffc9cfd387a3cc319d2bc2")
    );
    assert_eq!(
        concat_kdf(&[1, 2], 256, "A", Some(b"xyz")),
        hex("840de0767ca050ea85a92e84e0f998ee6b27247ff9ee741425385bff144d1a79")
    );
}

#[test]
fn multibase_keys() {
    assert_eq!(decode_public_key_multibase(PUBLIC_MULTIBASE), Some(hex(PUBLIC)));
    assert_eq!(decode_public_key_multibase(""), None);
    assert_eq!(decode_public_key_multibase("z"), None);
    assert_eq!(decode_public_key_multibase("m6LSr"), None);
    assert_eq!(decode_public_key_multibase("z0"), None);
    assert_eq!(decode_public_key_multibase("z\u{e9}"), None);
    // An Ed25519 key
    assert_eq!(
        decode_public_key_multibase("z6Mku1sGbL3vDT73KWAZSw6QNUsq8rFVNA9PQkZGCYwy5FAD"),
        None
    );
}

#[test]
fn multicodec_keys() {
    let mut bytes = vec![0xec, 0x01];
    bytes.extend_from_slice(&[5; 32]);
    assert_eq!(decode_multicodec_key(&bytes), Some(vec![5; 32]));
    bytes.push(5);
    assert_eq!(decode_multicodec_key(&bytes), None);
    bytes.truncate(33);
    assert_eq!(decode_multicodec_key(&bytes), None);
    assert_eq!(decode_multicodec_key(&[]), None);
    assert_eq!(decode_multicodec_key(&[0xec]), None);
}

#[test]
fn public_keys_of_each_form() {
    assert_eq!(receiver_public_key(&method(Some(PUBLIC_BASE58), None, None)), Some(hex(PUBLIC)));
    let jwk = okp("X25519", vec![8; 32], None);
    assert_eq!(receiver_public_key(&method(None, Some(jwk), None)), Some(vec![8; 32]));
    assert_eq!(
        receiver_public_key(&method(None, None, Some(PUBLIC_MULTIBASE))),
        Some(hex(PUBLIC))
    );
    assert_eq!(receiver_public_key(&method(None, None, None)), None);
    assert_eq!(receiver_public_key(&VerificationMethod::Reference), None);
}

#[test]
fn base58_keys_begin_with_their_zeros() {
    let mut key = vec![0; 32];
    key[31] = 57;
    let ones = "1".repeat(31);
    let text = format!("{}z", ones);
    assert_eq!(receiver_public_key(&method(Some(&text), None, None)), Some(key.clone()));
    key[30] = 1;
    key[31] = 0;
    // 256 is 4 * 58 + 24.
    let text = format!("{}5R", "1".repeat(30));
    assert_eq!(receiver_public_key(&method(Some(&text), None, None)), Some(key));
    for text in ["0", "O", "I", "l"] {
        let text = format!("{}{}", ones, text);
        assert_eq!(receiver_public_key(&method(Some(&text), None, None)), None);
    }
}

#[test]
fn first_form_counts_even_if_unreadable() {
    let jwk = okp("X25519", vec![8; 32], None);
    assert_eq!(
        receiver_public_key(&method(Some("0"), Some(jwk.clone()), Some(PUBLIC_MULTIBASE))),
        None
    );
    assert_eq!(
        receiver_public_key(&method(Some(PUBLIC_BASE58), Some(jwk), None)),
        Some(hex(PUBLIC))
    );
    let ed25519 = okp("Ed25519", vec![8; 32], None);
    assert_eq!(receiver_public_key(&method(None, Some(ed25519), Some(PUBLIC_MULTIBASE))), None);
    let other = JWK { params: Params::Other };
    assert_eq!(receiver_public_key(&method(None, Some(other), Some(PUBLIC_MULTIBASE))), None);
}

#[test]
fn keys_have_32_bytes() {
    assert_eq!(accept_key(Some(vec![1; 32])), Some(vec![1; 32]));
    assert_eq!(accept_key(Some(vec![1; 33])), None);
    assert_eq!(accept_key(None), None);
    let short = okp("X25519", vec![8; 31], None);
    assert_eq!(receiver_public_key(&method(None, Some(short), None)), None);
    // Base58 of one byte
    assert_eq!(receiver_public_key(&method(Some("2"), None, None)), None);
}

fn agreement(kid: &str, method: VerificationMethod) -> KeyAgreement {
    KeyAgreement { kid: kid.to_string(), method }
}

fn document(agreements: Vec<KeyAgreement>) -> Resolution {
    Resolution { failed: false, document: Some(DidDocument { key_agreement: Some(agreements) }) }
}

#[test]
fn usable_keys_keep_their_order() {
    let jwk = |byte: u8| method(None, Some(okp("X25519", vec![byte; 32], None)), None);
    let first = document(vec![
        agreement("a", jwk(1)),
        agreement("b", VerificationMethod::Reference),
        agreement("c", jwk(2)),
    ]);
    let key = |kid: &str, byte: u8| RecipientKey {
        kid: kid.to_string(),
        public_key: vec![byte; 32],
    };
    assert_eq!(recipient_keys(&first), Ok(vec![key("a", 1), key("c", 2)]));
    let failed = Resolution { failed: true, document: None };
    assert_eq!(recipient_keys(&failed), Ok(vec![]));
    let second = document(vec![agreement("d", jwk(3))]);
    assert_eq!(
        collect_keys(&[first.clone(), failed, second]),
        Ok(vec![key("a", 1), key("c", 2), key("d", 3)])
    );
    let missing = Resolution { failed: false, document: None };
    assert_eq!(recipient_keys(&missing), Err(Error::UnableToGetVerificationMethod));
    assert_eq!(collect_keys(&[first, missing]), Err(Error::UnableToGetVerificationMethod));
    assert_eq!(collect_keys(&[]), Ok(vec![]));
}
