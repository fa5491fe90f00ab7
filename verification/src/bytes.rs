//! Byte strings.
use byteorder::{BigEndian, WriteBytesExt};
use vstd::prelude::*;

verus! {

/// The lowest four bytes of a number, highest byte first.
pub open spec fn be_32(n: nat) -> Seq<u8> {
    seq![
        (n / 0x100_0000 % 0x100) as u8,
        (n / 0x1_0000 % 0x100) as u8,
        (n / 0x100 % 0x100) as u8,
        (n % 0x100) as u8,
    ]
}

/// Four bytes keep a number up to multiples of 2^32.
pub proof fn lemma_be_32_of_low(n: u64)
    ensures
        be_32((n as u32) as nat) == be_32(n as nat),
{
    let low = n as u32;
    assert(low as u64 / 0x100_0000 % 0x100 == n / 0x100_0000 % 0x100) by (bit_vector)
        requires
            low == n as u32,
    ;
    assert(low as u64 / 0x1_0000 % 0x100 == n / 0x1_0000 % 0x100) by (bit_vector)
        requires
            low == n as u32,
    ;
    assert(low as u64 / 0x100 % 0x100 == n / 0x100 % 0x100) by (bit_vector)
        requires
            low == n as u32,
    ;
    assert(low as u64 % 0x100 == n % 0x100) by (bit_vector)
        requires
            low == n as u32,
    ;
}

/// Appends `more` to `bytes`.
pub(crate) fn append_bytes(bytes: &mut Vec<u8>, more: &[u8])
    ensures
        final(bytes)@ == old(bytes)@ + more@,
{
    bytes.extend_from_slice(more);
}

/// `write_u32` of `byteorder::WriteBytesExt`, big-endian, on a vector: appends the four bytes
/// of the number, highest byte first. A vector takes every write.
#[verifier::external_body]
pub(crate) fn append_be_32(bytes: &mut Vec<u8>, number: u32)
    ensures
        final(bytes)@ == old(bytes)@ + be_32(number as nat),
{
    bytes.write_u32::<BigEndian>(number).unwrap();
}

/// The four bytes make up the number again, up to multiples of 2^32.
pub proof fn law_be_32_is_the_number(n: nat)
    ensures
        be_32(n).len() == 4,
        be_32(n)[0] * 0x100_0000 + be_32(n)[1] * 0x1_0000 + be_32(n)[2] * 0x100 + be_32(n)[3] == n
            % 0x1_0000_0000,
{
    let n1 = n / 0x100;
    let n2 = n1 / 0x100;
    let n3 = n2 / 0x100;
    vstd::arithmetic::div_mod::lemma_div_denominator(n as int, 0x100, 0x100);
    vstd::arithmetic::div_mod::lemma_div_denominator(n as int, 0x1_0000, 0x100);
    assert(n == 0x100 * n1 + n % 0x100);
    assert(n1 == 0x100 * n2 + n1 % 0x100);
    assert(n2 == 0x100 * n3 + n2 % 0x100);
    assert(n3 == 0x100 * (n3 / 0x100) + n3 % 0x100);
    assert(be_32(n) =~= seq![
        (n3 % 0x100) as u8,
        (n2 % 0x100) as u8,
        (n1 % 0x100) as u8,
        (n % 0x100) as u8,
    ]);
}

} // verus!
