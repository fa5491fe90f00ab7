//! Cleartexts: a value as a padded identifier that holds the value itself, and back.
use vstd::prelude::*;

use crate::cid::{CidError, SimpleCid};
use crate::ipld::{decode_ipld, encode_ipld};
use crate::js::{ipld_to_js_value, js_value_to_ipld, JsBuild, JsValue};

verus! {

/// The block size of a padding for which none is given.
pub const ENC_BLOCK_SIZE: usize = 24;

/// The multicodec code of DAG-CBOR.
pub const DAG_CBOR_CODE: u64 = 0x71;

/// Why a cleartext cannot be prepared or decoded.
#[derive(Clone, Copy, Debug, PartialEq, Eq, Structural)]
pub enum DagError {
    /// The value has no DAG-CBOR encoding.
    Encode,
    /// The block size is zero.
    ZeroBlockSize,
    /// The bytes hold no identifier.
    Cid(CidError),
    /// The content of the identifier is not DAG-CBOR.
    UnsupportedCodec,
    /// The content of the identifier is no DAG-CBOR encoding of a value.
    Decode,
}

/// The block size to pad to.
pub open spec fn block_of(block_size: Option<usize>) -> nat {
    match block_size {
        Some(size) => size as nat,
        None => ENC_BLOCK_SIZE as nat,
    }
}

/// How many bytes fill `length` bytes up to whole blocks.
pub open spec fn pad_length(length: nat, block: nat) -> nat {
    if length % block == 0 {
        0
    } else {
        (block - length % block) as nat
    }
}

/// `bytes`, filled up with zeros to whole blocks.
pub open spec fn padded(bytes: Seq<u8>, block: nat) -> Seq<u8> {
    bytes + Seq::new(pad_length(bytes.len(), block), |i: int| 0u8)
}

/// Padding fills the last block and adds no block.
pub proof fn law_padded_length(bytes: Seq<u8>, block: nat)
    requires
        block > 0,
    ensures
        padded(bytes, block).len() % block == 0,
        bytes.len() <= padded(bytes, block).len() < bytes.len() + block,
{
    let length = bytes.len();
    let over = length % block;
    vstd::arithmetic::div_mod::lemma_fundamental_div_mod(length as int, block as int);
    vstd::arithmetic::div_mod::lemma_mod_bound(length as int, block as int);
    if over != 0 {
        let whole = length / block;
        assert(length + (block - over) == block * (whole + 1)) by (nonlinear_arith)
            requires
                length == block * whole + over,
        ;
        vstd::arithmetic::div_mod::lemma_mod_multiples_basic((whole + 1) as int, block as int);
        vstd::arithmetic::mul::lemma_mul_is_commutative((whole + 1) as int, block as int);
    }
}

/// Fills `bytes` up with zeros to whole blocks, of 24 bytes if no size is given.
pub fn pad(bytes: &[u8], block_size: Option<usize>) -> (res: Vec<u8>)
    requires
        block_size != Some(0usize),
    ensures
        res@ == padded(bytes@, block_of(block_size)),
{
    let block: usize = match block_size {
        Some(size) => size,
        None => ENC_BLOCK_SIZE,
    };
    let pad_len: usize = (block - (bytes.len() % block)) % block;
    let mut res: Vec<u8> = Vec::new();
    res.extend_from_slice(bytes);
    for i in 0..pad_len
        invariant
            res@ == bytes@ + Seq::new(i as nat, |k: int| 0u8),
    {
        res.push(0);
    }
    proof {
        let over = bytes@.len() % block as nat;
        if over == 0 {
            vstd::arithmetic::div_mod::lemma_mod_self_0(block as int);
        } else {
            vstd::arithmetic::div_mod::lemma_small_mod((block - over) as nat, block as nat);
        }
    }
    res
}

/// The value that an identifier holds.
pub open spec fn identity_tree(codec: u64, digest: Seq<u8>) -> Result<
    crate::ipld::IpldTree,
    DagError,
> {
    if codec != DAG_CBOR_CODE {
        Err(DagError::UnsupportedCodec)
    } else {
        match crate::ipld::decoded_tree(digest) {
            Some(tree) => Ok(tree),
            None => Err(DagError::Decode),
        }
    }
}

/// The value that a cleartext holds.
pub open spec fn cleartext_tree(bytes: Seq<u8>) -> Result<crate::ipld::IpldTree, DagError> {
    match crate::cid::cid_parts(bytes) {
        Ok((codec, digest)) => identity_tree(codec, digest),
        Err(e) => Err(DagError::Cid(e)),
    }
}

/// Padding does not change what a cleartext holds.
pub proof fn law_padding_is_passed_over(codec: u64, digest: Seq<u8>, block: nat)
    requires
        block > 0,
        digest.len() <= usize::MAX,
    ensures
        cleartext_tree(padded(crate::cid::cid_bytes(codec, digest), block)) == identity_tree(
            codec,
            digest,
        ),
        cleartext_tree(crate::cid::cid_bytes(codec, digest)) == identity_tree(codec, digest),
{
    let bytes = crate::cid::cid_bytes(codec, digest);
    let zeros = Seq::new(pad_length(bytes.len(), block), |i: int| 0u8);
    crate::cid::law_cid_round_trip(codec, digest, zeros);
    crate::cid::law_cid_round_trip(codec, digest, Seq::empty());
}

/// Whatever stands behind what decodes, the same value is read.
pub proof fn law_bytes_behind_play_no_part(bytes: Seq<u8>, rest: Seq<u8>)
    requires
        cleartext_tree(bytes) is Ok,
    ensures
        cleartext_tree(bytes + rest) == cleartext_tree(bytes),
{
    crate::cid::law_bytes_behind_play_no_part(bytes, rest);
}

/// Values that differ in nothing but the order of properties, at any depth, and in properties
/// that do not count, have one encoding, or none.
pub proof fn law_alike_values_have_one_encoding(a: JsValue, b: JsValue)
    requires
        crate::js::alike(a, b),
    ensures
        crate::ipld::dag_cbor_encoding(crate::js::js_tree(a)) == crate::ipld::dag_cbor_encoding(
            crate::js::js_tree(b),
        ),
{
    crate::js::law_alike_values_are_one(a, b);
}

/// Encodes a value in DAG-CBOR, as the content of an identifier under the identity hash.
pub fn encode_identity_cid(value: &JsValue) -> (res: Result<SimpleCid, DagError>)
    requires
        crate::js::js_ok(*value),
    ensures
        match res {
            Ok(cid) => cid.codec == DAG_CBOR_CODE && crate::ipld::dag_cbor_encoding(
                crate::js::js_tree(*value),
            ) == Some(cid.digest@),
            Err(e) => e == DagError::Encode && crate::ipld::dag_cbor_encoding(
                crate::js::js_tree(*value),
            ) is None,
        },
        res is Ok <==> crate::ipld::integers_fit(crate::js::js_tree(*value)),
        res matches Ok(cid) ==> crate::ipld::plain_tree(crate::js::js_tree(*value))
            ==> identity_tree(cid.codec, cid.digest@) == Ok::<crate::ipld::IpldTree, DagError>(
            crate::js::js_tree(*value),
        ),
{
    let ipld = js_value_to_ipld(value);
    match encode_ipld(&ipld) {
        Some(bytes) => Ok(SimpleCid::new_v1(DAG_CBOR_CODE, bytes)),
        None => Err(DagError::Encode),
    }
}

/// Decodes the value that an identifier holds.
pub fn decode_identity_cid(cid: &SimpleCid) -> (res: Result<JsBuild, DagError>)
    ensures
        match res {
            Ok(js) => identity_tree(cid.codec, cid.digest@) matches Ok(tree) && crate::js::builds(
                js,
                tree,
            ),
            Err(e) => identity_tree(cid.codec, cid.digest@) == Err::<
                crate::ipld::IpldTree,
                DagError,
            >(e),
        },
{
    if cid.codec != DAG_CBOR_CODE {
        return Err(DagError::UnsupportedCodec);
    }
    match decode_ipld(cid.digest.as_slice()) {
        Some(ipld) => Ok(ipld_to_js_value(ipld)),
        None => Err(DagError::Decode),
    }
}

/// Prepares a value for encryption: the identifier that holds it, padded. A block size of zero
/// is only for values that cannot be encoded.
pub fn prepare_cleartext(cleartext: &JsValue, block_size: Option<usize>) -> (res: Result<
    Vec<u8>,
    DagError,
>)
    requires
        crate::js::js_ok(*cleartext),
        block_size == Some(0usize) ==> !crate::ipld::integers_fit(crate::js::js_tree(*cleartext)),
    ensures
        match res {
            Ok(bytes) => crate::ipld::dag_cbor_encoding(crate::js::js_tree(*cleartext)) matches Some(
                digest,
            ) && bytes@ == padded(
                crate::cid::cid_bytes(DAG_CBOR_CODE, digest),
                block_of(block_size),
            ),
            Err(e) => e == DagError::Encode && crate::ipld::dag_cbor_encoding(
                crate::js::js_tree(*cleartext),
            ) is None,
        },
        res is Ok <==> crate::ipld::integers_fit(crate::js::js_tree(*cleartext)),
        res matches Ok(bytes) ==> crate::ipld::plain_tree(crate::js::js_tree(*cleartext))
            ==> cleartext_tree(bytes@) == Ok::<crate::ipld::IpldTree, DagError>(
            crate::js::js_tree(*cleartext),
        ),
{
    let cid = match encode_identity_cid(cleartext) {
        Ok(cid) => cid,
        Err(e) => return Err(e),
    };
    let bytes = pad(cid.to_bytes().as_slice(), block_size);
    proof {
        law_padding_is_passed_over(cid.codec, cid.digest@, block_of(block_size));
    }
    Ok(bytes)
}

/// Prepares a value for encryption, with any block size: zero is an error, where the value can
/// be encoded.
pub fn prepare_cleartext_checked(cleartext: &JsValue, block_size: Option<usize>) -> (res: Result<
    Vec<u8>,
    DagError,
>)
    requires
        crate::js::js_ok(*cleartext),
    ensures
        match res {
            Ok(bytes) => block_size != Some(0usize) && (crate::ipld::dag_cbor_encoding(
                crate::js::js_tree(*cleartext),
            ) matches Some(digest) && bytes@ == padded(
                crate::cid::cid_bytes(DAG_CBOR_CODE, digest),
                block_of(block_size),
            )),
            Err(DagError::Encode) => crate::ipld::dag_cbor_encoding(
                crate::js::js_tree(*cleartext),
            ) is None,
            Err(e) => e == DagError::ZeroBlockSize && block_size == Some(0usize)
                && crate::ipld::dag_cbor_encoding(crate::js::js_tree(*cleartext)) is Some,
        },
        res is Ok <==> block_size != Some(0usize) && crate::ipld::integers_fit(
            crate::js::js_tree(*cleartext),
        ),
        res matches Ok(bytes) ==> crate::ipld::plain_tree(crate::js::js_tree(*cleartext))
            ==> cleartext_tree(bytes@) == Ok::<crate::ipld::IpldTree, DagError>(
            crate::js::js_tree(*cleartext),
        ),
{
    match block_size {
        Some(0) => match encode_identity_cid(cleartext) {
            Ok(_) => Err(DagError::ZeroBlockSize),
            Err(e) => Err(e),
        },
        _ => prepare_cleartext(cleartext, block_size),
    }
}

/// Decodes a cleartext, which holds the whole digest if it begins as an identifier does.
pub fn decode_cleartext(bytes: &[u8]) -> (res: Result<JsBuild, DagError>)
    requires
        crate::cid::cid_parts(bytes@) != Err::<(u64, Seq<u8>), CidError>(CidError::Truncated),
    ensures
        match res {
            Ok(js) => cleartext_tree(bytes@) matches Ok(tree) && crate::js::builds(js, tree),
            Err(e) => cleartext_tree(bytes@) == Err::<crate::ipld::IpldTree, DagError>(e),
        },
{
    match SimpleCid::from_bytes(bytes) {
        Ok(cid) => decode_identity_cid(&cid),
        Err(e) => Err(DagError::Cid(e)),
    }
}

/// Decodes any bytes as a cleartext; a digest that they do not hold whole is an error.
pub fn decode_cleartext_checked(bytes: &[u8]) -> (res: Result<JsBuild, DagError>)
    ensures
        match res {
            Ok(js) => cleartext_tree(bytes@) matches Ok(tree) && crate::js::builds(js, tree),
            Err(e) => cleartext_tree(bytes@) == Err::<crate::ipld::IpldTree, DagError>(e),
        },
{
    match SimpleCid::from_bytes_checked(bytes) {
        Err(CidError::Truncated) => Err(DagError::Cid(CidError::Truncated)),
        _ => decode_cleartext(bytes),
    }
}

/// Blocks have the size that is given, and 24 bytes where none is.
pub proof fn law_block_sizes(size: usize)
    ensures
        block_of(Some(size)) == size,
        block_of(None) == 24,
{
}

/// What is padded begins with the bytes as they are, and ends in zeros, fewer than a block has,
/// up to the end of a block.
pub proof fn law_padding_is_zeros(bytes: Seq<u8>, block: nat)
    requires
        block > 0,
    ensures
        padded(bytes, block).take(bytes.len() as int) == bytes,
        forall|i: int|
            bytes.len() <= i < padded(bytes, block).len() ==> #[trigger] padded(bytes, block)[i]
                == 0,
        padded(bytes, block).len() % block == 0,
        bytes.len() <= padded(bytes, block).len() < bytes.len() + block,
{
    law_padded_length(bytes, block);
    assert(padded(bytes, block).take(bytes.len() as int) =~= bytes);
}

/// An identifier of the codec of DAG-CBOR holds what its digest decodes to, and one of any other
/// codec holds nothing.
pub proof fn law_identifiers_hold_their_digest(
    codec: u64,
    digest: Seq<u8>,
    tree: crate::ipld::IpldTree,
)
    ensures
        codec != 0x71 ==> identity_tree(codec, digest) == Err::<crate::ipld::IpldTree, DagError>(
            DagError::UnsupportedCodec,
        ),
        crate::ipld::decoded_tree(digest) == Some(tree) ==> identity_tree(0x71, digest) == Ok::<
            crate::ipld::IpldTree,
            DagError,
        >(tree),
        crate::ipld::decoded_tree(digest) is None ==> identity_tree(0x71, digest) == Err::<
            crate::ipld::IpldTree,
            DagError,
        >(DagError::Decode),
{
}

/// A cleartext is the bytes of an identifier: a one, the codec 0x71, a zero, the length of the
/// encoding, the encoding, and zeros. It holds what the encoding decodes to.
pub proof fn law_cleartexts_hold_their_encoding(digest: Seq<u8>, block: nat, rest: Seq<u8>)
    requires
        block > 0,
        digest.len() <= usize::MAX,
    ensures
        ({
            let length = crate::varint::varint(digest.len());
            let bytes = padded(crate::cid::cid_bytes(DAG_CBOR_CODE, digest), block);
            &&& bytes.len() >= 3 + length.len() + digest.len()
            &&& bytes.take(3) == seq![1u8, 0x71, 0]
            &&& bytes.subrange(3, 3 + length.len() as int) == length
            &&& bytes.subrange(3 + length.len() as int, 3 + length.len() + digest.len() as int)
                == digest
            &&& cleartext_tree(bytes + rest) == match crate::ipld::decoded_tree(digest) {
                Some(tree) => Ok::<crate::ipld::IpldTree, DagError>(tree),
                None => Err(DagError::Decode),
            }
        }),
{
    let length = crate::varint::varint(digest.len());
    let whole = crate::cid::cid_bytes(DAG_CBOR_CODE, digest);
    let bytes = padded(whole, block);
    let zeros = bytes.skip(whole.len() as int);
    assert(whole == seq![1u8, 0x71, 0] + length + digest) by {
        lemma_identifier_bytes(digest);
    }
    assert(bytes =~= whole + zeros) by {
        law_padding_is_zeros(whole, block);
    }
    assert(bytes.take(3) =~= seq![1u8, 0x71, 0]);
    assert(bytes.subrange(3, 3 + length.len() as int) =~= length);
    assert(bytes.subrange(3 + length.len() as int, 3 + length.len() + digest.len() as int)
        =~= digest);
    assert(bytes + rest =~= whole + (zeros + rest));
    crate::cid::law_cid_round_trip(DAG_CBOR_CODE, digest, zeros + rest);
}

/// The bytes of an identifier of the codec of DAG-CBOR, written out.
proof fn lemma_identifier_bytes(digest: Seq<u8>)
    ensures
        crate::cid::cid_bytes(0x71, digest) == seq![1u8, 0x71, 0] + crate::varint::varint(
            digest.len(),
        ) + digest,
{
    assert(crate::varint::varint(0) =~= seq![0u8]);
    assert(crate::varint::varint(1) =~= seq![1u8]);
    assert(crate::varint::varint(0x71) =~= seq![0x71u8]);
    assert(crate::cid::cid_bytes(0x71, digest) =~= seq![1u8, 0x71, 0] + crate::varint::varint(
        digest.len(),
    ) + digest);
}

/// Bytes that are no identifier are no cleartext, for the same reason.
pub proof fn law_no_cleartext_without_an_identifier(bytes: Seq<u8>, e: CidError)
    requires
        crate::cid::cid_parts(bytes) == Err::<(u64, Seq<u8>), CidError>(e),
    ensures
        cleartext_tree(bytes) == Err::<crate::ipld::IpldTree, DagError>(DagError::Cid(e)),
{
}

} // verus!
