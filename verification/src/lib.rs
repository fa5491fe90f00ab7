//! Encrypted DAG cleartexts: framing of IPLD values as padded identity CIDs, and
//! multi-recipient JSON Web Encryption with XChaCha20-Poly1305.
pub mod bytes;
pub mod cbor;
pub mod cid;
pub mod codec;
pub mod crypto;
pub mod dag;
pub mod did;
pub mod error;
pub mod ipld;
pub mod js;
pub mod jwe;
pub mod kdf;
pub mod keys;
pub mod text;
pub mod varint;
