//! Where a CBOR item ends, and whether the lengths that it claims fit the bytes that hold it.
use vstd::prelude::*;

verus! {

/// How far the item at some position reaches.
pub enum Extent {
    /// It ends before this position.
    Ends(int),
    /// It breaks off, or a byte in it begins no item.
    Malformed,
    /// A string or a list in it claims more bytes or items than there are bytes left.
    Oversized,
}

/// The number that two bytes make up, highest byte first.
pub open spec fn number_16(bytes: Seq<u8>, pos: int) -> nat {
    (256 * bytes[pos] + bytes[pos + 1]) as nat
}

/// The number that four bytes make up, highest byte first.
pub open spec fn number_32(bytes: Seq<u8>, pos: int) -> nat {
    0x1_0000 * number_16(bytes, pos) + number_16(bytes, pos + 2)
}

/// The number that eight bytes make up, highest byte first.
pub open spec fn number_64(bytes: Seq<u8>, pos: int) -> nat {
    0x1_0000_0000 * number_32(bytes, pos) + number_32(bytes, pos + 4)
}

/// The number that belongs to the initial byte at `pos`, and the position after it.
pub open spec fn argument(bytes: Seq<u8>, pos: int) -> Option<(nat, int)> {
    let info = bytes[pos] % 32;
    if info < 24 {
        Some((info as nat, pos + 1))
    } else if info == 24 && pos + 1 < bytes.len() {
        Some((bytes[pos + 1] as nat, pos + 2))
    } else if info == 25 && pos + 2 < bytes.len() {
        Some((number_16(bytes, pos + 1), pos + 3))
    } else if info == 26 && pos + 4 < bytes.len() {
        Some((number_32(bytes, pos + 1), pos + 5))
    } else if info == 27 && pos + 8 < bytes.len() {
        Some((number_64(bytes, pos + 1), pos + 9))
    } else {
        None
    }
}

/// The end of something that reaches up to `end`, if the bytes do.
pub open spec fn up_to(bytes: Seq<u8>, end: int) -> Extent {
    if end <= bytes.len() {
        Extent::Ends(end)
    } else {
        Extent::Malformed
    }
}

/// The extent of the item at `pos`.
pub open spec fn item_extent(bytes: Seq<u8>, pos: int) -> Extent
    decreases bytes.len() - pos, 0int,
{
    if !(0 <= pos < bytes.len()) {
        Extent::Malformed
    } else {
        let initial = bytes[pos];
        if initial == 0x9f || initial == 0xbf {
            // A list or a map of indefinite length
            open_ended_extent(bytes, pos + 1)
        } else if initial < 0xc0 {
            match argument(bytes, pos) {
                None => Extent::Malformed,
                Some((number, after)) => if initial < 0x40 {
                    // An integer
                    Extent::Ends(after)
                } else if initial < 0x80 {
                    // A string of bytes or text
                    if number > bytes.len() - after {
                        Extent::Oversized
                    } else {
                        Extent::Ends(after + number)
                    }
                } else if initial < 0xa0 {
                    // A list
                    if number > bytes.len() - after {
                        Extent::Oversized
                    } else {
                        items_extent(bytes, after, number)
                    }
                } else {
                    // A map
                    items_extent(bytes, after, 2 * number)
                },
            }
        } else if initial == 0xd8 {
            // A link: tag 42 before a string of bytes with a one-byte length
            if pos + 3 < bytes.len() && bytes[pos + 1] == 42 && bytes[pos + 2] == 0x58 {
                up_to(bytes, pos + 4 + bytes[pos + 3])
            } else {
                Extent::Malformed
            }
        } else if 0xf4 <= initial <= 0xf7 {
            // A boolean or null
            Extent::Ends(pos + 1)
        } else if initial == 0xfa {
            up_to(bytes, pos + 5)
        } else if initial == 0xfb {
            up_to(bytes, pos + 9)
        } else {
            Extent::Malformed
        }
    }
}

/// The extent of `count` items from `pos` on.
pub open spec fn items_extent(bytes: Seq<u8>, pos: int, count: nat) -> Extent
    decreases bytes.len() - pos, 1int,
{
    if count == 0 {
        Extent::Ends(pos)
    } else {
        match item_extent(bytes, pos) {
            Extent::Ends(next) => if pos < next <= bytes.len() {
                items_extent(bytes, next, (count - 1) as nat)
            } else {
                Extent::Malformed
            },
            other => other,
        }
    }
}

/// The extent of the items from `pos` on, up to and with the byte that closes them.
pub open spec fn open_ended_extent(bytes: Seq<u8>, pos: int) -> Extent
    decreases bytes.len() - pos, 1int,
{
    if !(0 <= pos < bytes.len()) {
        Extent::Malformed
    } else if bytes[pos] == 0xff {
        Extent::Ends(pos + 1)
    } else {
        match item_extent(bytes, pos) {
            Extent::Ends(next) => if pos < next <= bytes.len() {
                open_ended_extent(bytes, next)
            } else {
                Extent::Malformed
            },
            other => other,
        }
    }
}

/// Whether every string and list of the item at the front claims no more than there is.
pub open spec fn claims_fit(bytes: Seq<u8>) -> bool {
    item_extent(bytes, 0) != Extent::Oversized
}

/// An item or a run of items that ends, ends within the bytes, behind where it starts.
proof fn lemma_extent_within(bytes: Seq<u8>, pos: int, count: nat)
    requires
        0 <= pos <= bytes.len(),
    ensures
        item_extent(bytes, pos) matches Extent::Ends(end) ==> pos < end <= bytes.len(),
        items_extent(bytes, pos, count) matches Extent::Ends(end) ==> pos <= end <= bytes.len(),
        open_ended_extent(bytes, pos) matches Extent::Ends(end) ==> pos < end <= bytes.len(),
    decreases bytes.len() - pos,
{
    if pos < bytes.len() {
        lemma_extent_within(bytes, pos + 1, 0);
        if let Some((number, after)) = argument(bytes, pos) {
            lemma_extent_within(bytes, after, number);
            lemma_extent_within(bytes, after, 2 * number);
        }
        if let Extent::Ends(next) = item_extent(bytes, pos) {
            if pos < next <= bytes.len() {
                if count > 0 {
                    lemma_extent_within(bytes, next, (count - 1) as nat);
                } else {
                    lemma_extent_within(bytes, next, 0);
                }
            }
        }
    }
}

/// How far an item reaches, in executable form.
#[derive(Clone, Copy)]
enum Reach {
    Ends(usize),
    Malformed,
    Oversized,
}

impl Reach {
    spec fn extent(self) -> Extent {
        match self {
            Reach::Ends(end) => Extent::Ends(end as int),
            Reach::Malformed => Extent::Malformed,
            Reach::Oversized => Extent::Oversized,
        }
    }
}

fn read_16(bytes: &[u8], pos: usize) -> (res: u64)
    requires
        pos + 2 <= bytes.len(),
    ensures
        res == number_16(bytes@, pos as int),
        res < 0x1_0000,
{
    256 * (bytes[pos] as u64) + bytes[pos + 1] as u64
}

fn read_32(bytes: &[u8], pos: usize) -> (res: u64)
    requires
        pos + 4 <= bytes.len(),
    ensures
        res == number_32(bytes@, pos as int),
        res < 0x1_0000_0000,
{
    0x1_0000 * read_16(bytes, pos) + read_16(bytes, pos + 2)
}

fn read_64(bytes: &[u8], pos: usize) -> (res: u64)
    requires
        pos + 8 <= bytes.len(),
    ensures
        res == number_64(bytes@, pos as int),
{
    0x1_0000_0000 * read_32(bytes, pos) + read_32(bytes, pos + 4)
}

fn read_argument(bytes: &[u8], pos: usize) -> (res: Option<(u64, usize)>)
    requires
        pos < bytes.len(),
    ensures
        match res {
            Some((number, after)) => argument(bytes@, pos as int) == Some(
                (number as nat, after as int),
            ) && pos < after <= bytes.len(),
            None => argument(bytes@, pos as int) is None,
        },
{
    let info: u8 = bytes[pos] % 32;
    let left: usize = bytes.len() - pos - 1;
    if info < 24 {
        Some((info as u64, pos + 1))
    } else if info == 24 && left >= 1 {
        Some((bytes[pos + 1] as u64, pos + 2))
    } else if info == 25 && left >= 2 {
        Some((read_16(bytes, pos + 1), pos + 3))
    } else if info == 26 && left >= 4 {
        Some((read_32(bytes, pos + 1), pos + 5))
    } else if info == 27 && left >= 8 {
        Some((read_64(bytes, pos + 1), pos + 9))
    } else {
        None
    }
}

/// The end of something that takes `length` bytes from `pos` on.
fn reach_of(bytes: &[u8], pos: usize, length: usize) -> (res: Reach)
    requires
        pos <= bytes.len(),
    ensures
        res.extent() == up_to(bytes@, pos + length),
{
    if length <= bytes.len() - pos {
        Reach::Ends(pos + length)
    } else {
        Reach::Malformed
    }
}

fn item_reach(bytes: &[u8], pos: usize) -> (res: Reach)
    requires
        pos <= bytes.len(),
    ensures
        res.extent() == item_extent(bytes@, pos as int),
    decreases bytes.len() - pos, 0int,
{
    if pos == bytes.len() {
        return Reach::Malformed;
    }
    let initial: u8 = bytes[pos];
    let left: usize = bytes.len() - pos;
    if initial == 0x9f || initial == 0xbf {
        open_ended_reach(bytes, pos + 1)
    } else if initial < 0xc0 {
        match read_argument(bytes, pos) {
            None => Reach::Malformed,
            Some((number, after)) => if initial < 0x40 {
                Reach::Ends(after)
            } else if initial < 0xa0 && number > (bytes.len() - after) as u64 {
                Reach::Oversized
            } else if initial < 0x80 {
                Reach::Ends(after + number as usize)
            } else if initial < 0xa0 {
                items_reach(bytes, after, number as u128)
            } else {
                items_reach(bytes, after, 2 * (number as u128))
            },
        }
    } else if initial == 0xd8 {
        if left > 3 && bytes[pos + 1] == 42 && bytes[pos + 2] == 0x58 {
            reach_of(bytes, pos + 4, bytes[pos + 3] as usize)
        } else {
            Reach::Malformed
        }
    } else if 0xf4 <= initial && initial <= 0xf7 {
        Reach::Ends(pos + 1)
    } else if initial == 0xfa {
        reach_of(bytes, pos, 5)
    } else if initial == 0xfb {
        reach_of(bytes, pos, 9)
    } else {
        Reach::Malformed
    }
}

fn items_reach(bytes: &[u8], pos: usize, count: u128) -> (res: Reach)
    requires
        pos <= bytes.len(),
    ensures
        res.extent() == items_extent(bytes@, pos as int, count as nat),
    decreases bytes.len() - pos, 1int,
{
    let mut at: usize = pos;
    let mut left: u128 = count;
    while left > 0
        invariant
            pos <= at <= bytes.len(),
            items_extent(bytes@, pos as int, count as nat) == items_extent(
                bytes@,
                at as int,
                left as nat,
            ),
        decreases left,
    {
        proof {
            lemma_extent_within(bytes@, at as int, 0);
        }
        match item_reach(bytes, at) {
            Reach::Ends(next) => {
                at = next;
                left = left - 1;
            },
            other => return other,
        }
    }
    Reach::Ends(at)
}

fn open_ended_reach(bytes: &[u8], pos: usize) -> (res: Reach)
    requires
        pos <= bytes.len(),
    ensures
        res.extent() == open_ended_extent(bytes@, pos as int),
    decreases bytes.len() - pos, 1int,
{
    let mut at: usize = pos;
    while at < bytes.len() && bytes[at] != 0xff
        invariant
            pos <= at <= bytes.len(),
            open_ended_extent(bytes@, pos as int) == open_ended_extent(bytes@, at as int),
        decreases bytes.len() - at,
    {
        proof {
            lemma_extent_within(bytes@, at as int, 0);
        }
        match item_reach(bytes, at) {
            Reach::Ends(next) => {
                at = next;
            },
            other => return other,
        }
    }
    reach_of(bytes, at, 1)
}

/// Whether every string and list of the item at the front of `bytes` claims no more bytes or
/// items than there are bytes left.
pub fn lengths_fit(bytes: &[u8]) -> (res: bool)
    ensures
        res == claims_fit(bytes@),
{
    match item_reach(bytes, 0) {
        Reach::Oversized => false,
        _ => true,
    }
}

/// The number that belongs to an initial byte is the one it holds itself, or the one that the
/// next one, two, four or eight bytes make up.
pub proof fn law_arguments_are_numbers(bytes: Seq<u8>, pos: int)
    requires
        0 <= pos < bytes.len(),
    ensures
        bytes[pos] % 32 < 24 ==> argument(bytes, pos) == Some(((bytes[pos] % 32) as nat, pos + 1)),
        bytes[pos] % 32 == 24 && pos + 1 < bytes.len() ==> argument(bytes, pos) == Some(
            (bytes[pos + 1] as nat, pos + 2),
        ),
        bytes[pos] % 32 == 25 && pos + 2 < bytes.len() ==> argument(bytes, pos) == Some(
            ((bytes[pos + 1] * 0x100 + bytes[pos + 2]) as nat, pos + 3),
        ),
        bytes[pos] % 32 == 26 && pos + 4 < bytes.len() ==> argument(bytes, pos) == Some(
            (
                (bytes[pos + 1] * 0x100_0000 + bytes[pos + 2] * 0x1_0000 + bytes[pos + 3] * 0x100
                    + bytes[pos + 4]) as nat,
                pos + 5,
            ),
        ),
        bytes[pos] % 32 == 27 && pos + 8 < bytes.len() ==> argument(bytes, pos) == Some(
            (
                (bytes[pos + 1] * 0x100_0000_0000_0000 + bytes[pos + 2] * 0x1_0000_0000_0000
                    + bytes[pos + 3] * 0x100_0000_0000 + bytes[pos + 4] * 0x1_0000_0000 + bytes[pos
                    + 5] * 0x100_0000 + bytes[pos + 6] * 0x1_0000 + bytes[pos + 7] * 0x100
                    + bytes[pos + 8]) as nat,
                pos + 9,
            ),
        ),
        bytes[pos] % 32 >= 28 ==> argument(bytes, pos) is None,
{
}

/// Whether a string or a list begins at `pos` that claims more bytes or items than there are
/// bytes behind its number.
pub open spec fn overclaims(bytes: Seq<u8>, pos: int) -> bool {
    &&& 0 <= pos < bytes.len()
    &&& 0x40 <= bytes[pos] < 0xa0
    &&& argument(bytes, pos) matches Some((number, after)) && number > bytes.len() - after
}

/// Claims do not fit only where some byte begins a string or a list that claims too much.
pub proof fn law_unfitting_claims_have_a_cause(bytes: Seq<u8>)
    ensures
        !claims_fit(bytes) ==> exists|pos: int|
            0 <= pos < bytes.len() && 0x40 <= bytes[pos] < 0xa0 && (#[trigger] argument(
                bytes,
                pos,
            ) matches Some((number, after)) && number > bytes.len() - after),
{
    lemma_oversized_has_a_cause(bytes, 0, 0);
    if !claims_fit(bytes) {
        let pos = choose|pos: int| #[trigger] overclaims(bytes, pos);
        assert(argument(bytes, pos) is Some);
    }
}

proof fn lemma_oversized_has_a_cause(bytes: Seq<u8>, pos: int, count: nat)
    requires
        0 <= pos <= bytes.len(),
    ensures
        item_extent(bytes, pos) is Oversized ==> exists|p: int| #[trigger] overclaims(bytes, p),
        items_extent(bytes, pos, count) is Oversized ==> exists|p: int| #[trigger]
            overclaims(bytes, p),
        open_ended_extent(bytes, pos) is Oversized ==> exists|p: int| #[trigger]
            overclaims(bytes, p),
    decreases bytes.len() - pos,
{
    if pos < bytes.len() {
        lemma_oversized_has_a_cause(bytes, pos + 1, 0);
        if let Some((number, after)) = argument(bytes, pos) {
            lemma_oversized_has_a_cause(bytes, after, number);
            lemma_oversized_has_a_cause(bytes, after, 2 * number);
            if 0x40 <= bytes[pos] < 0xa0 && number > bytes.len() - after {
                assert(overclaims(bytes, pos));
            }
        }
        if let Extent::Ends(next) = item_extent(bytes, pos) {
            if pos < next <= bytes.len() {
                if count > 0 {
                    lemma_oversized_has_a_cause(bytes, next, (count - 1) as nat);
                } else {
                    lemma_oversized_has_a_cause(bytes, next, 0);
                }
            }
        }
    }
}

/// Bytes that begin with a string or a list that claims too much do not fit.
pub proof fn law_claims_at_the_front_are_held(bytes: Seq<u8>, number: nat, after: int)
    requires
        bytes.len() > 0,
        0x40 <= bytes[0] < 0xa0,
        argument(bytes, 0) == Some((number, after)),
        number > bytes.len() - after,
    ensures
        !claims_fit(bytes),
{
}

/// Nor do those that begin with a list of which one item, behind others that end, claims too
/// much.
pub proof fn law_claims_in_a_list_are_held(
    bytes: Seq<u8>,
    number: nat,
    after: int,
    before: nat,
    pos: int,
)
    requires
        bytes.len() > 0,
        0x80 <= bytes[0] < 0xa0,
        argument(bytes, 0) == Some((number, after)),
        items_extent(bytes, after, before) == Extent::Ends(pos),
        before < number,
        item_extent(bytes, pos) is Oversized,
    ensures
        !claims_fit(bytes),
{
    lemma_next_item(bytes, after, before, number, pos);
}

proof fn lemma_next_item(bytes: Seq<u8>, from: int, before: nat, count: nat, pos: int)
    requires
        0 <= from,
        items_extent(bytes, from, before) == Extent::Ends(pos),
        before < count,
        item_extent(bytes, pos) is Oversized,
    ensures
        items_extent(bytes, from, count) is Oversized,
    decreases before,
{
    if before > 0 {
        let next = item_extent(bytes, from)->Ends_0;
        lemma_next_item(bytes, next, (before - 1) as nat, (count - 1) as nat, pos);
    }
}

/// Where items end: an integer behind its number, a string as many bytes behind its number as
/// that says, a link behind the bytes of its identifier, a boolean or null behind its one byte,
/// and a float behind its four or eight bytes.
pub proof fn law_ends_of_single_items(bytes: Seq<u8>, pos: int)
    requires
        0 <= pos < bytes.len(),
    ensures
        bytes[pos] < 0x40 ==> match argument(bytes, pos) {
            Some((_, after)) => item_extent(bytes, pos) == Extent::Ends(after),
            None => item_extent(bytes, pos) is Malformed,
        },
        0x40 <= bytes[pos] < 0x80 ==> match argument(bytes, pos) {
            Some((number, after)) => number <= bytes.len() - after ==> item_extent(bytes, pos)
                == Extent::Ends(after + number),
            None => item_extent(bytes, pos) is Malformed,
        },
        pos + 4 <= bytes.len() && bytes.subrange(pos, pos + 3) == seq![0xd8u8, 42, 0x58]
            ==> item_extent(bytes, pos) == if pos + 4 + bytes[pos + 3] <= bytes.len() {
            Extent::Ends(pos + 4 + bytes[pos + 3])
        } else {
            Extent::Malformed
        },
        0xf4 <= bytes[pos] <= 0xf7 ==> item_extent(bytes, pos) == Extent::Ends(pos + 1),
        bytes[pos] == 0xfa && pos + 5 <= bytes.len() ==> item_extent(bytes, pos) == Extent::Ends(
            pos + 5,
        ),
        bytes[pos] == 0xfb && pos + 9 <= bytes.len() ==> item_extent(bytes, pos) == Extent::Ends(
            pos + 9,
        ),
{
    if pos + 4 <= bytes.len() && bytes.subrange(pos, pos + 3) == seq![0xd8u8, 42, 0x58] {
        let link = bytes.subrange(pos, pos + 3);
        assert(link[0] == bytes[pos] && link[1] == bytes[pos + 1] && link[2] == bytes[pos + 2]);
    }
}

/// A list ends behind as many items as its number says, and a map behind twice as many. Items
/// follow each other, each from where the last one ends.
pub proof fn law_ends_of_lists_and_maps(
    bytes: Seq<u8>,
    pos: int,
    number: nat,
    after: int,
    end: int,
)
    requires
        0 <= pos < bytes.len(),
        argument(bytes, pos) == Some((number, after)),
    ensures
        0x80 <= bytes[pos] < 0xa0 && number <= bytes.len() - after && items_extent(
            bytes,
            after,
            number,
        ) == Extent::Ends(end) ==> item_extent(bytes, pos) == Extent::Ends(end),
        0xa0 <= bytes[pos] < 0xc0 && items_extent(bytes, after, number + number) == Extent::Ends(
            end,
        ) ==> item_extent(bytes, pos) == Extent::Ends(end),
        0xa0 <= bytes[pos] < 0xc0 ==> (item_extent(bytes, pos) is Oversized <==> items_extent(
            bytes,
            after,
            number + number,
        ) is Oversized),
{
}

/// No items end where they begin, and one more ends where the others do that follow the first.
pub proof fn law_items_follow_each_other(bytes: Seq<u8>, pos: int, next: int, count: nat)
    requires
        0 <= pos,
        item_extent(bytes, pos) == Extent::Ends(next),
    ensures
        items_extent(bytes, pos, 0) == Extent::Ends(pos),
        items_extent(bytes, pos, count + 1) == items_extent(bytes, next, count),
        0 < pos && (bytes[pos - 1] == 0x9f || bytes[pos - 1] == 0xbf) && next < bytes.len()
            && bytes[next] == 0xff && bytes[pos] != 0xff ==> item_extent(bytes, pos - 1)
            == Extent::Ends(next + 1),
        bytes[pos] != 0xff ==> open_ended_extent(bytes, pos) == open_ended_extent(bytes, next),
{
    assert(pos < bytes.len());
    lemma_extent_within(bytes, pos, 0);
    reveal_with_fuel(open_ended_extent, 3);
}

/// An item ends where it ends, whatever stands behind it.
pub proof fn law_items_end_where_they_end(bytes: Seq<u8>, rest: Seq<u8>)
    requires
        item_extent(bytes, 0) is Ends,
    ensures
        item_extent(bytes + rest, 0) == item_extent(bytes, 0),
        claims_fit(bytes + rest),
{
    lemma_extent_with_more(bytes, rest, 0, 0);
}

proof fn lemma_extent_with_more(bytes: Seq<u8>, rest: Seq<u8>, pos: int, count: nat)
    requires
        0 <= pos <= bytes.len(),
    ensures
        item_extent(bytes, pos) is Ends ==> item_extent(bytes + rest, pos) == item_extent(
            bytes,
            pos,
        ),
        items_extent(bytes, pos, count) is Ends ==> items_extent(bytes + rest, pos, count)
            == items_extent(bytes, pos, count),
        open_ended_extent(bytes, pos) is Ends ==> open_ended_extent(bytes + rest, pos)
            == open_ended_extent(bytes, pos),
    decreases bytes.len() - pos,
{
    let all = bytes + rest;
    if pos < bytes.len() {
        assert(all[pos] == bytes[pos]);
        lemma_extent_with_more(bytes, rest, pos + 1, 0);
        if let Some((number, after)) = argument(bytes, pos) {
            assert(argument(all, pos) == Some((number, after)));
            lemma_extent_with_more(bytes, rest, after, number);
            lemma_extent_with_more(bytes, rest, after, 2 * number);
        }
        if let Extent::Ends(next) = item_extent(bytes, pos) {
            lemma_extent_within(bytes, pos, 0);
            assert(item_extent(all, pos) == Extent::Ends(next));
            if count > 0 {
                lemma_extent_with_more(bytes, rest, next, (count - 1) as nat);
            } else {
                lemma_extent_with_more(bytes, rest, next, 0);
            }
        }
    }
}

} // verus!
