//! Version 1 content identifiers that carry their content themselves, under the identity hash.
use vstd::prelude::*;
use vstd::slice::{slice_subrange, slice_to_vec};

use crate::bytes::append_bytes;
use crate::varint::{decode_varint, encode_varint, VarintError};

verus! {

/// The multihash code of the identity hash.
pub const IDENTITY_CODE: u64 = 0x00;

/// The version number of a version 1 identifier.
pub const VERSION_1: u64 = 0x01;

/// Why bytes are no identifier that this library reads.
#[derive(Clone, Copy, Debug, PartialEq, Eq, Structural)]
pub enum CidError {
    /// One of the four leading numbers cannot be read.
    Varint(VarintError),
    /// The version is not 1.
    UnsupportedVersion,
    /// The hash is not the identity hash.
    UnsupportedHash,
    /// The digest is longer than the bytes that are left.
    Truncated,
}

/// A version 1 identifier under the identity hash: a content codec, and the content.
#[derive(Clone, Debug, PartialEq, Eq)]
pub struct SimpleCid {
    pub codec: u64,
    pub digest: Vec<u8>,
}

/// The bytes of an identifier: version, codec, hash code, length of the digest, digest.
pub open spec fn cid_bytes(codec: u64, digest: Seq<u8>) -> Seq<u8> {
    crate::varint::varint(VERSION_1 as nat) + crate::varint::varint(codec as nat)
        + crate::varint::varint(IDENTITY_CODE as nat) + crate::varint::varint(digest.len())
        + digest
}

/// What the numbers at the front of `bytes` say: the codec, the claimed length of the digest,
/// and the bytes from the digest on.
pub open spec fn cid_header(bytes: Seq<u8>) -> Result<(u64, u64, Seq<u8>), CidError> {
    match crate::varint::varint_decoding(bytes) {
        Err(e) => Err(CidError::Varint(e)),
        Ok((version, after_version)) => if version != VERSION_1 {
            Err(CidError::UnsupportedVersion)
        } else {
            match crate::varint::varint_decoding(after_version) {
                Err(e) => Err(CidError::Varint(e)),
                Ok((codec, after_codec)) => match crate::varint::varint_decoding(after_codec) {
                    Err(e) => Err(CidError::Varint(e)),
                    Ok((hash_code, after_hash)) => if hash_code != IDENTITY_CODE {
                        Err(CidError::UnsupportedHash)
                    } else {
                        match crate::varint::varint_decoding(after_hash) {
                            Err(e) => Err(CidError::Varint(e)),
                            Ok((length, digest)) => Ok((codec, length, digest)),
                        }
                    },
                },
            }
        },
    }
}

/// The codec and the digest of the identifier at the front of `bytes`; bytes behind the
/// digest are passed over.
pub open spec fn cid_parts(bytes: Seq<u8>) -> Result<(u64, Seq<u8>), CidError> {
    match cid_header(bytes) {
        Err(e) => Err(e),
        Ok((codec, length, digest)) => if (length as usize) > digest.len() {
            Err(CidError::Truncated)
        } else {
            Ok((codec, digest.take((length as usize) as int)))
        },
    }
}

impl SimpleCid {
    /// The identifier with the given codec and digest.
    pub fn new_v1(codec: u64, digest: Vec<u8>) -> (res: Self)
        ensures
            res.codec == codec,
            res.digest@ == digest@,
    {
        SimpleCid { codec, digest }
    }

    /// Appends the bytes of the identifier to `w`, and gives their number.
    pub fn write_bytes(&self, w: &mut Vec<u8>) -> (written: usize)
        ensures
            final(w)@ == old(w)@ + cid_bytes(self.codec, self.digest@),
            written == cid_bytes(self.codec, self.digest@).len(),
    {
        let before: usize = w.len();
        append_bytes(w, encode_varint(VERSION_1).as_slice());
        append_bytes(w, encode_varint(self.codec).as_slice());
        append_bytes(w, encode_varint(IDENTITY_CODE).as_slice());
        append_bytes(w, encode_varint(self.digest.len() as u64).as_slice());
        append_bytes(w, self.digest.as_slice());
        assert(w@ =~= old(w)@ + cid_bytes(self.codec, self.digest@));
        w.len() - before
    }

    /// The bytes of the identifier.
    pub fn to_bytes(&self) -> (res: Vec<u8>)
        ensures
            res@ == cid_bytes(self.codec, self.digest@),
    {
        let mut bytes: Vec<u8> = Vec::new();
        self.write_bytes(&mut bytes);
        bytes
    }

    /// Reads an identifier from the front of `bytes`, which holds the whole digest if it holds
    /// a readable header.
    pub fn from_bytes(bytes: &[u8]) -> (res: Result<Self, CidError>)
        requires
            cid_parts(bytes@) != Err::<(u64, Seq<u8>), CidError>(CidError::Truncated),
        ensures
            match res {
                Ok(cid) => cid_parts(bytes@) == Ok::<(u64, Seq<u8>), CidError>(
                    (cid.codec, cid.digest@),
                ),
                Err(e) => cid_parts(bytes@) == Err::<(u64, Seq<u8>), CidError>(e),
            },
    {
        Self::from_bytes_checked(bytes)
    }

    /// Reads an identifier from the front of any `bytes`; a digest that they do not hold whole
    /// is an error.
    pub fn from_bytes_checked(bytes: &[u8]) -> (res: Result<Self, CidError>)
        ensures
            match res {
                Ok(cid) => cid_parts(bytes@) == Ok::<(u64, Seq<u8>), CidError>(
                    (cid.codec, cid.digest@),
                ),
                Err(e) => cid_parts(bytes@) == Err::<(u64, Seq<u8>), CidError>(e),
            },
    {
        // Read version
        let (version, rest) = match decode_varint(bytes) {
            Ok(read) => read,
            Err(e) => return Err(CidError::Varint(e)),
        };
        if version != VERSION_1 {
            return Err(CidError::UnsupportedVersion);
        }

        // Read codec
        let (codec, rest) = match decode_varint(rest) {
            Ok(read) => read,
            Err(e) => return Err(CidError::Varint(e)),
        };

        // Read hash code
        let (hash_code, rest) = match decode_varint(rest) {
            Ok(read) => read,
            Err(e) => return Err(CidError::Varint(e)),
        };
        if hash_code != IDENTITY_CODE {
            return Err(CidError::UnsupportedHash);
        }

        // Read hash length
        let (hash_len, rest) = match decode_varint(rest) {
            Ok(read) => read,
            Err(e) => return Err(CidError::Varint(e)),
        };

        // Read digest
        let length: usize = hash_len as usize;
        if length > rest.len() {
            return Err(CidError::Truncated);
        }
        let digest = slice_to_vec(slice_subrange(rest, 0, length));
        Ok(Self::new_v1(codec, digest))
    }
}

/// An identifier reads back from its bytes, whatever follows them.
pub proof fn law_cid_round_trip(codec: u64, digest: Seq<u8>, rest: Seq<u8>)
    requires
        digest.len() <= usize::MAX,
    ensures
        cid_parts(cid_bytes(codec, digest) + rest) == Ok::<(u64, Seq<u8>), CidError>(
            (codec, digest),
        ),
{
    let length = crate::varint::varint(digest.len()) + (digest + rest);
    let hash = crate::varint::varint(IDENTITY_CODE as nat) + length;
    let content = crate::varint::varint(codec as nat) + hash;
    let all = cid_bytes(codec, digest) + rest;
    assert(all =~= crate::varint::varint(VERSION_1 as nat) + content);
    crate::varint::law_varint_round_trip(VERSION_1, content);
    crate::varint::law_varint_round_trip(codec, hash);
    crate::varint::law_varint_round_trip(IDENTITY_CODE, length);
    crate::varint::law_varint_round_trip(digest.len() as u64, digest + rest);
    assert((digest + rest).take(digest.len() as int) =~= digest);
}

/// Whether the four numbers at the front of `bytes` are numbers of 64 bits, and the last of
/// them one that a length can be.
pub open spec fn numbers_fit(bytes: Seq<u8>) -> bool {
    match crate::varint::varint_decoding(bytes) {
        Ok((_, after_version)) => match crate::varint::varint_decoding(after_version) {
            Ok((_, after_codec)) => match crate::varint::varint_decoding(after_codec) {
                Ok((_, after_hash)) => match crate::varint::varint_decoding(after_hash) {
                    Ok((length, _)) => crate::varint::number_fits(bytes)
                        && crate::varint::number_fits(after_version) && crate::varint::number_fits(
                        after_codec,
                    ) && crate::varint::number_fits(after_hash) && length <= usize::MAX,
                    Err(_) => false,
                },
                Err(_) => false,
            },
            Err(_) => false,
        },
        Err(_) => false,
    }
}

/// What reads as an identifier begins with the bytes of that identifier.
pub proof fn law_identifier_begins_the_bytes(bytes: Seq<u8>)
    requires
        cid_parts(bytes) is Ok,
        numbers_fit(bytes),
    ensures
        cid_parts(bytes) matches Ok((codec, digest)) && cid_bytes(codec, digest).is_prefix_of(
            bytes,
        ),
{
    crate::varint::law_varint_begins_the_bytes(bytes);
    let after_version = crate::varint::varint_decoding(bytes)->Ok_0.1;
    crate::varint::law_varint_begins_the_bytes(after_version);
    let after_codec = crate::varint::varint_decoding(after_version)->Ok_0.1;
    crate::varint::law_varint_begins_the_bytes(after_codec);
    let after_hash = crate::varint::varint_decoding(after_codec)->Ok_0.1;
    crate::varint::law_varint_begins_the_bytes(after_hash);
    let (length, rest) = crate::varint::varint_decoding(after_hash)->Ok_0;
    let (codec, digest) = cid_parts(bytes)->Ok_0;
    assert(digest.len() == length);
    assert(rest =~= digest + rest.skip(length as int));
    assert(bytes =~= cid_bytes(codec, digest) + rest.skip(length as int));
}

/// What stands behind an identifier plays no part in reading it.
pub proof fn law_bytes_behind_play_no_part(bytes: Seq<u8>, rest: Seq<u8>)
    requires
        cid_parts(bytes) is Ok,
    ensures
        cid_parts(bytes + rest) == cid_parts(bytes),
{
    crate::varint::law_bytes_behind_are_left_over(bytes, rest);
    let after_version = crate::varint::varint_decoding(bytes)->Ok_0.1;
    crate::varint::law_bytes_behind_are_left_over(after_version, rest);
    let after_codec = crate::varint::varint_decoding(after_version)->Ok_0.1;
    crate::varint::law_bytes_behind_are_left_over(after_codec, rest);
    let after_hash = crate::varint::varint_decoding(after_codec)->Ok_0.1;
    crate::varint::law_bytes_behind_are_left_over(after_hash, rest);
    let (length, digest) = crate::varint::varint_decoding(after_hash)->Ok_0;
    let end = (length as usize) as int;
    assert((digest + rest).take(end) =~= digest.take(end));
}

/// The bytes of an identifier, place by place: a one, the codec, a zero, the length of the
/// digest, and the digest as it is.
pub proof fn law_places_of_an_identifier(codec: u64, digest: Seq<u8>)
    ensures
        ({
            let bytes = cid_bytes(codec, digest);
            let number = crate::varint::varint(codec as nat);
            let length = crate::varint::varint(digest.len());
            &&& bytes.len() == 2 + number.len() + length.len() + digest.len()
            &&& bytes[0] == 1
            &&& bytes.subrange(1, 1 + number.len() as int) == number
            &&& bytes[1 + number.len() as int] == 0
            &&& bytes.subrange(
                2 + number.len() as int,
                2 + number.len() + length.len() as int,
            ) == length
            &&& bytes.skip(bytes.len() - digest.len()) == digest
        }),
{
    let bytes = cid_bytes(codec, digest);
    let number = crate::varint::varint(codec as nat);
    let length = crate::varint::varint(digest.len());
    assert(crate::varint::varint(0) =~= seq![0u8]);
    assert(crate::varint::varint(1) =~= seq![1u8]);
    assert(bytes =~= seq![1u8] + number + seq![0u8] + length + digest);
    assert(bytes.subrange(1, 1 + number.len() as int) =~= number);
    assert(bytes.subrange(2 + number.len() as int, 2 + number.len() + length.len() as int)
        =~= length);
    assert(bytes.skip(bytes.len() - digest.len()) =~= digest);
}

/// Another version than one, another hash than the identity hash, and a digest that is not there
/// whole are errors, each its own, whatever else stands in the bytes.
pub proof fn law_identifiers_that_are_refused(version: u64, codec: u64, hash: u64, rest: Seq<u8>)
    ensures
        version != 1 ==> cid_parts(crate::varint::varint(version as nat) + rest) == Err::<
            (u64, Seq<u8>),
            CidError,
        >(CidError::UnsupportedVersion),
        hash != 0 ==> cid_parts(
            seq![1u8] + crate::varint::varint(codec as nat) + crate::varint::varint(hash as nat)
                + rest,
        ) == Err::<(u64, Seq<u8>), CidError>(CidError::UnsupportedHash),
        rest.len() < hash <= usize::MAX ==> cid_parts(
            seq![1u8] + crate::varint::varint(codec as nat) + seq![0u8] + crate::varint::varint(
                hash as nat,
            ) + rest,
        ) == Err::<(u64, Seq<u8>), CidError>(CidError::Truncated),
{
    let number = crate::varint::varint(codec as nat);
    let code = crate::varint::varint(hash as nat);
    assert(crate::varint::varint(0) =~= seq![0u8]);
    assert(crate::varint::varint(1) =~= seq![1u8]);
    crate::varint::law_varint_round_trip(version, rest);
    crate::varint::law_varint_round_trip(hash, rest);
    assert(seq![1u8] + number + code + rest =~= crate::varint::varint(1) + (number + (code + rest)));
    crate::varint::law_varint_round_trip(1, number + (code + rest));
    crate::varint::law_varint_round_trip(codec, code + rest);
    let zero = crate::varint::varint(0);
    assert(seq![1u8] + number + seq![0u8] + code + rest =~= crate::varint::varint(1) + (number + (
    zero + (code + rest))));
    crate::varint::law_varint_round_trip(1, number + (zero + (code + rest)));
    crate::varint::law_varint_round_trip(codec, zero + (code + rest));
    crate::varint::law_varint_round_trip(0, code + rest);
}

/// Where one of the four numbers at the front cannot be read, the error is that of reading it.
pub proof fn law_unreadable_numbers_are_refused(codec: u64, bytes: Seq<u8>, e: VarintError)
    requires
        crate::varint::varint_decoding(bytes) == Err::<(u64, Seq<u8>), VarintError>(e),
    ensures
        cid_parts(bytes) == Err::<(u64, Seq<u8>), CidError>(CidError::Varint(e)),
        cid_parts(seq![1u8] + bytes) == Err::<(u64, Seq<u8>), CidError>(CidError::Varint(e)),
        cid_parts(seq![1u8] + crate::varint::varint(codec as nat) + bytes) == Err::<
            (u64, Seq<u8>),
            CidError,
        >(CidError::Varint(e)),
        cid_parts(seq![1u8] + crate::varint::varint(codec as nat) + seq![0u8] + bytes) == Err::<
            (u64, Seq<u8>),
            CidError,
        >(CidError::Varint(e)),
{
    let number = crate::varint::varint(codec as nat);
    let zero = crate::varint::varint(0);
    assert(zero =~= seq![0u8]);
    assert(crate::varint::varint(1) =~= seq![1u8]);
    crate::varint::law_varint_round_trip(1, bytes);
    assert(seq![1u8] + number + bytes =~= crate::varint::varint(1) + (number + bytes));
    crate::varint::law_varint_round_trip(1, number + bytes);
    crate::varint::law_varint_round_trip(codec, bytes);
    assert(seq![1u8] + number + seq![0u8] + bytes =~= crate::varint::varint(1) + (number + (zero
        + bytes)));
    crate::varint::law_varint_round_trip(1, number + (zero + bytes));
    crate::varint::law_varint_round_trip(codec, zero + bytes);
    crate::varint::law_varint_round_trip(0, bytes);
}

} // verus!
