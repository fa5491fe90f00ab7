//! Unsigned varints: little-endian groups of seven bits, the high bit of a byte saying
//! that another byte follows.
use vstd::arithmetic::power::pow;
use vstd::prelude::*;

verus! {

/// Why the bytes at the front of a buffer are no unsigned varint.
#[derive(Clone, Copy, Debug, PartialEq, Eq, Structural)]
pub enum VarintError {
    /// The buffer ends before the last byte of the number.
    Insufficient,
    /// The number goes on after its tenth byte.
    Overflow,
    /// The last of several bytes is zero.
    NotMinimal,
}

/// The bytes of the number `n`.
pub open spec fn varint(n: nat) -> Seq<u8>
    decreases n,
{
    if n < 128 {
        seq![n as u8]
    } else {
        seq![(128 + n % 128) as u8] + varint(n / 128)
    }
}

/// How many bytes at the front of `bytes` say that another byte follows.
pub open spec fn continued(bytes: Seq<u8>) -> nat
    decreases bytes.len(),
{
    if bytes.len() > 0 && bytes[0] >= 128 {
        1 + continued(bytes.drop_first())
    } else {
        0
    }
}

/// The number that the low seven bits of each byte make up, lowest group first.
pub open spec fn group_value(bytes: Seq<u8>) -> nat
    decreases bytes.len(),
{
    if bytes.len() == 0 {
        0
    } else {
        (bytes[0] % 128) as nat + 128 * group_value(bytes.drop_first())
    }
}

/// What reading a 64-bit number from the front of `bytes` gives: the number and the bytes
/// after it. Of a tenth byte only the lowest bit fits.
pub open spec fn varint_decoding(bytes: Seq<u8>) -> Result<(u64, Seq<u8>), VarintError> {
    let last = continued(bytes) as int;
    if last >= 10 {
        Err(VarintError::Overflow)
    } else if last == bytes.len() {
        Err(VarintError::Insufficient)
    } else if last > 0 && bytes[last] == 0 {
        Err(VarintError::NotMinimal)
    } else {
        Ok(
            (
                (group_value(bytes.take(last + 1)) % 0x1_0000_0000_0000_0000) as u64,
                bytes.skip(last + 1),
            ),
        )
    }
}

/// `unsigned_varint::encode::u64`: writes the number into a ten-byte buffer and gives the
/// bytes written.
#[verifier::external_body]
pub(crate) fn encode_varint(number: u64) -> (res: Vec<u8>)
    ensures
        res@ == varint(number as nat),
{
    let mut buffer = unsigned_varint::encode::u64_buffer();
    unsigned_varint::encode::u64(number, &mut buffer).to_vec()
}

/// `unsigned_varint::decode::u64`: reads a number of at most ten bytes from the front of the
/// buffer, and gives it with the bytes after it. It fails on a number that the buffer does
/// not hold whole, on one of more than ten bytes, and on one that ends in a needless zero.
#[verifier::external_body]
pub(crate) fn decode_varint(buffer: &[u8]) -> (res: Result<(u64, &[u8]), VarintError>)
    ensures
        match res {
            Ok((number, rest)) => varint_decoding(buffer@) == Ok::<(u64, Seq<u8>), VarintError>(
                (number, rest@),
            ),
            Err(e) => varint_decoding(buffer@) == Err::<(u64, Seq<u8>), VarintError>(e),
        },
{
    match unsigned_varint::decode::u64(buffer) {
        Ok(read) => Ok(read),
        Err(unsigned_varint::decode::Error::Insufficient) => Err(VarintError::Insufficient),
        Err(unsigned_varint::decode::Error::Overflow) => Err(VarintError::Overflow),
        Err(_) => Err(VarintError::NotMinimal),
    }
}

/// A number below the `k`-th power of 128 takes at most `k` bytes.
proof fn lemma_varint_length(n: nat, k: nat)
    requires
        k >= 1,
        n < pow(128, k),
    ensures
        1 <= varint(n).len() <= k,
    decreases k,
{
    reveal(pow);
    if n >= 128 {
        assert(pow(128, k) == 128 * pow(128, (k - 1) as nat));
        assert(n / 128 < pow(128, (k - 1) as nat)) by (nonlinear_arith)
            requires
                n < 128 * pow(128, (k - 1) as nat),
        ;
        lemma_varint_length(n / 128, (k - 1) as nat);
    }
}

/// How the bytes of a number read when `rest` follows them.
proof fn lemma_varint_reads(n: nat, rest: Seq<u8>)
    ensures
        varint(n).len() >= 1,
        continued(varint(n) + rest) == varint(n).len() - 1,
        group_value(varint(n)) == n,
        varint(n).last() == 0 ==> n == 0,
        n >= 128 ==> varint(n).last() != 0,
    decreases n,
{
    let bytes = varint(n);
    let all = bytes + rest;
    reveal_with_fuel(group_value, 2);
    if n >= 128 {
        lemma_varint_reads(n / 128, rest);
        assert(bytes.drop_first() =~= varint(n / 128));
        assert(all.drop_first() =~= varint(n / 128) + rest);
    }
}

/// A written number reads back, whatever follows it, and what follows it is left over.
pub proof fn law_varint_round_trip(n: u64, rest: Seq<u8>)
    ensures
        varint_decoding(varint(n as nat) + rest) == Ok::<(u64, Seq<u8>), VarintError>((n, rest)),
{
    let bytes = varint(n as nat);
    let all = bytes + rest;
    lemma_varint_reads(n as nat, rest);
    assert(n < pow(128, 10)) by {
        reveal_with_fuel(pow, 11);
    }
    lemma_varint_length(n as nat, 10);
    let last = continued(all) as int;
    assert(all.take(last + 1) =~= bytes);
    assert(all.skip(last + 1) =~= rest);
}

/// Whether the number at the front of `bytes` is one of 64 bits.
pub open spec fn number_fits(bytes: Seq<u8>) -> bool {
    group_value(bytes.take((continued(bytes) + 1) as int)) < 0x1_0000_0000_0000_0000
}

/// All bytes that say so are followed by another, up to one that does not.
pub proof fn lemma_continued(bytes: Seq<u8>)
    ensures
        continued(bytes) <= bytes.len(),
        forall|i: int| 0 <= i < continued(bytes) ==> #[trigger] bytes[i] >= 128,
        continued(bytes) < bytes.len() ==> bytes[continued(bytes) as int] < 128,
    decreases bytes.len(),
{
    if bytes.len() > 0 && bytes[0] >= 128 {
        let rest = bytes.drop_first();
        lemma_continued(rest);
        assert forall|i: int| 0 <= i < continued(bytes) implies #[trigger] bytes[i] >= 128 by {
            if i > 0 {
                assert(bytes[i] == rest[i - 1]);
            }
        }
    }
}

/// Bytes that end as a number does, and without a needless zero, are those of the number that
/// they make up.
proof fn lemma_varint_of_value(bytes: Seq<u8>)
    requires
        bytes.len() >= 1,
        forall|i: int| 0 <= i < bytes.len() - 1 ==> #[trigger] bytes[i] >= 128,
        bytes.last() < 128,
        bytes.len() > 1 ==> bytes.last() != 0,
    ensures
        varint(group_value(bytes)) == bytes,
        bytes.len() > 1 ==> group_value(bytes) >= 128,
        group_value(bytes) == 0 ==> bytes.last() == 0,
    decreases bytes.len(),
{
    let rest = bytes.drop_first();
    reveal_with_fuel(group_value, 2);
    if bytes.len() == 1 {
        assert(bytes =~= seq![bytes[0]]);
    } else {
        assert forall|i: int| 0 <= i < rest.len() - 1 implies #[trigger] rest[i] >= 128 by {
            assert(rest[i] == bytes[i + 1]);
        }
        assert(rest.last() == bytes.last());
        lemma_varint_of_value(rest);
        let value = group_value(bytes);
        assert(value % 128 == bytes[0] % 128 && value / 128 == group_value(rest));
        assert(varint(value) =~= bytes);
    }
}

/// What reads as a number of 64 bits begins with the bytes of that number, and what is left
/// over follows them.
pub proof fn law_varint_begins_the_bytes(bytes: Seq<u8>)
    requires
        varint_decoding(bytes) is Ok,
        number_fits(bytes),
    ensures
        varint_decoding(bytes) matches Ok((n, rest)) && bytes == varint(n as nat) + rest,
{
    lemma_continued(bytes);
    let last = continued(bytes) as int;
    let number = bytes.take(last + 1);
    lemma_varint_of_value(number);
    assert(bytes =~= number + bytes.skip(last + 1));
}

/// What stands behind a number plays no part in reading it, and is left over.
pub proof fn law_bytes_behind_are_left_over(bytes: Seq<u8>, rest: Seq<u8>)
    requires
        varint_decoding(bytes) is Ok,
    ensures
        varint_decoding(bytes + rest) == match varint_decoding(bytes) {
            Ok((n, left)) => Ok::<(u64, Seq<u8>), VarintError>((n, left + rest)),
            Err(e) => Err(e),
        },
{
    lemma_continued(bytes);
    lemma_continued_before(bytes, rest);
    let last = continued(bytes) as int;
    let all = bytes + rest;
    assert(all.take(last + 1) =~= bytes.take(last + 1));
    assert(all.skip(last + 1) =~= bytes.skip(last + 1) + rest);
}

/// A number that ends, ends before what stands behind it.
proof fn lemma_continued_before(bytes: Seq<u8>, rest: Seq<u8>)
    requires
        continued(bytes) < bytes.len(),
    ensures
        continued(bytes + rest) == continued(bytes),
    decreases bytes.len(),
{
    let all = bytes + rest;
    if bytes[0] >= 128 {
        lemma_continued_before(bytes.drop_first(), rest);
        assert(all.drop_first() =~= bytes.drop_first() + rest);
    }
}

} // verus!
