# dag-jwe

Encrypted DAG cleartexts, verified with Verus.

A JavaScript value becomes an IPLD value, its DAG-CBOR encoding becomes the content of a version 1
identifier under the identity hash, and the identifier, padded to whole blocks, is the cleartext.
A cleartext, or any other content, is encrypted as a JSON Web Encryption to several recipients:
the content once with XChaCha20-Poly1305, and the content key once for each recipient's X25519 key.

| Module | What it holds |
| --- | --- |
| `text`, `varint`, `bytes` | The order of texts, unsigned varints, byte strings |
| `cid` | Identifiers that carry their content |
| `cbor`, `ipld` | The extent of CBOR items, IPLD values and their DAG-CBOR encoding |
| `js` | JavaScript values as IPLD, and back |
| `dag` | Cleartexts |
| `codec`, `crypto`, `kdf` | Base64url, base58, JSON; hashes, key agreement, cipher, randomness; key derivation |
| `keys`, `did` | Secret keys from JSON Web Keys, public keys from DID documents |
| `jwe` | Encryption and decryption |

What the library asks of other crates stands in functions marked `external_body`, in an
`assume_specification`, and in spec functions without a body that name their results; the comment
above each names the function it stands for. The proof functions whose names begin with `law_` state what
holds between functions, such as that a cleartext gives back the value it was made of, and that a
recipient's key comes to the content.

DAG-CBOR is that of libipld 0.12. Its encoder writes infinite floats, and those that are not a
number, in a form that its decoder does not read, so such values have a cleartext that does not
decode.

`app/` holds what is not verified: the JSON form of an encryption, the resolution of DIDs, and the
JavaScript values themselves.
