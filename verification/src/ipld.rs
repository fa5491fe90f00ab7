//! IPLD values, and their DAG-CBOR encoding.
use byteorder::{BigEndian, ByteOrder};
use libipld::codec::Codec;
use vstd::prelude::*;
use vstd::slice::slice_to_vec;

use crate::cbor::lengths_fit;

verus! {

/// An IPLD value of the IPLD library.
#[verifier::external_type_specification]
#[verifier::external_body]
pub struct ExIpld(libipld::Ipld);

/// An IPLD value.
#[derive(Debug, PartialEq)]
pub enum IpldValue {
    /// The absence of a value.
    Null,
    Bool(bool),
    Integer(i128),
    /// A floating point number, by its bits.
    Float(u64),
    String(String),
    Bytes(Vec<u8>),
    List(Vec<IpldValue>),
    /// Keys and values, by increasing key.
    StringMap(Vec<(String, IpldValue)>),
    /// A link to another value, as the IPLD library holds it.
    Link(libipld::Ipld),
}

/// Whether these are the bits of a float that is not a number: all bits of the exponent are
/// set, and some of the mantissa.
pub open spec fn is_nan(bits: u64) -> bool {
    (bits / 0x10_0000_0000_0000) % 0x800 == 0x7ff && bits % 0x10_0000_0000_0000 != 0
}

/// The bits of a float, with one pattern for all that are not a number: which of these
/// arithmetic gives is the machine's.
pub open spec fn float_of(bits: u64) -> u64 {
    if is_nan(bits) {
        0x7ff8_0000_0000_0000
    } else {
        bits
    }
}

/// What an IPLD value is, apart from how it is stored.
pub enum IpldTree {
    Null,
    Bool(bool),
    Integer(i128),
    /// A float, by its bits, or by one pattern where it is not a number.
    Float(u64),
    String(Seq<char>),
    Bytes(Seq<u8>),
    List(Seq<IpldTree>),
    StringMap(Seq<(Seq<char>, IpldTree)>),
    Link(libipld::Ipld),
}

impl IpldValue {
    /// The value, apart from how it is stored.
    pub open spec fn tree(self) -> IpldTree
        decreases self,
    {
        match self {
            IpldValue::Null => IpldTree::Null,
            IpldValue::Bool(b) => IpldTree::Bool(b),
            IpldValue::Integer(i) => IpldTree::Integer(i),
            IpldValue::Float(bits) => IpldTree::Float(float_of(bits)),
            IpldValue::String(s) => IpldTree::String(s@),
            IpldValue::Bytes(bytes) => IpldTree::Bytes(bytes@),
            IpldValue::List(items) => IpldTree::List(
                Seq::new(
                    items@.len(),
                    |i: int|
                        if 0 <= i < items@.len() {
                            items@[i].tree()
                        } else {
                            IpldTree::Null
                        },
                ),
            ),
            IpldValue::StringMap(entries) => IpldTree::StringMap(
                Seq::new(
                    entries@.len(),
                    |i: int|
                        if 0 <= i < entries@.len() {
                            (entries@[i].0@, entries@[i].1.tree())
                        } else {
                            (Seq::empty(), IpldTree::Null)
                        },
                ),
            ),
            IpldValue::Link(link) => IpldTree::Link(link),
        }
    }
}

/// Whether keys increase from each entry to the next.
pub open spec fn keys_increase(entries: Seq<(Seq<char>, IpldTree)>) -> bool {
    forall|i: int, j: int|
        0 <= i < j < entries.len() ==> crate::text::precedes(
            (#[trigger] entries[i]).0,
            (#[trigger] entries[j]).0,
        )
}

/// Whether the keys of every map in the value increase, and every link in it is one.
pub open spec fn tree_ok(tree: IpldTree) -> bool
    decreases tree,
{
    match tree {
        IpldTree::List(items) => forall|i: int|
            0 <= i < items.len() ==> tree_ok(#[trigger] items[i]),
        IpldTree::StringMap(entries) => {
            &&& keys_increase(entries)
            &&& forall|i: int| 0 <= i < entries.len() ==> tree_ok((#[trigger] entries[i]).1)
        },
        IpldTree::Link(link) => ipld_tree(link) == tree,
        _ => true,
    }
}

/// What a value of the IPLD library holds.
pub uninterp spec fn ipld_tree(value: libipld::Ipld) -> IpldTree;

/// An IPLD value whose parts are values of the IPLD library.
enum IpldNode {
    Null,
    Bool(bool),
    Integer(i128),
    Float(u64),
    String(String),
    Bytes(Vec<u8>),
    List(Vec<libipld::Ipld>),
    StringMap(Vec<(String, libipld::Ipld)>),
    Link(libipld::Ipld),
}

impl IpldNode {
    spec fn tree(self) -> IpldTree {
        match self {
            IpldNode::Null => IpldTree::Null,
            IpldNode::Bool(b) => IpldTree::Bool(b),
            IpldNode::Integer(i) => IpldTree::Integer(i),
            IpldNode::Float(bits) => IpldTree::Float(float_of(bits)),
            IpldNode::String(s) => IpldTree::String(s@),
            IpldNode::Bytes(bytes) => IpldTree::Bytes(bytes@),
            IpldNode::List(items) => IpldTree::List(
                items@.map_values(|item: libipld::Ipld| ipld_tree(item)),
            ),
            IpldNode::StringMap(entries) => IpldTree::StringMap(
                entries@.map_values(
                    |entry: (String, libipld::Ipld)| (entry.0@, ipld_tree(entry.1)),
                ),
            ),
            IpldNode::Link(link) => IpldTree::Link(link),
        }
    }

    /// Whether the keys of a map increase, and a link is one.
    spec fn ok(self) -> bool {
        match self.tree() {
            IpldTree::StringMap(entries) => keys_increase(entries),
            IpldTree::Link(link) => ipld_tree(link) == self.tree(),
            _ => true,
        }
    }
}

/// Takes a `libipld::Ipld` apart: its variant, with the parts as they are. A float is given by
/// its bits, of which nothing is said where it is not a number, a map by its entries, which
/// `BTreeMap` hands out by increasing key, a link by the value itself.
#[verifier::external_body]
fn unpack_node(value: libipld::Ipld) -> (res: IpldNode)
    ensures
        res.tree() == ipld_tree(value),
        res.ok(),
{
    match value {
        libipld::Ipld::Null => IpldNode::Null,
        libipld::Ipld::Bool(b) => IpldNode::Bool(b),
        libipld::Ipld::Integer(i) => IpldNode::Integer(i),
        libipld::Ipld::Float(f) => IpldNode::Float(f.to_bits()),
        libipld::Ipld::String(s) => IpldNode::String(s),
        libipld::Ipld::Bytes(bytes) => IpldNode::Bytes(bytes),
        libipld::Ipld::List(items) => IpldNode::List(items),
        libipld::Ipld::StringMap(map) => IpldNode::StringMap(map.into_iter().collect()),
        libipld::Ipld::Link(cid) => IpldNode::Link(libipld::Ipld::Link(cid)),
    }
}

/// Builds a `libipld::Ipld` of the given variant with the given parts. A float is made from
/// its bits, big-endian, by `byteorder::BigEndian::read_f64`.
#[verifier::external_body]
fn pack_node(node: IpldNode) -> (res: libipld::Ipld)
    requires
        node.ok(),
    ensures
        ipld_tree(res) == node.tree(),
{
    match node {
        IpldNode::Null => libipld::Ipld::Null,
        IpldNode::Bool(b) => libipld::Ipld::Bool(b),
        IpldNode::Integer(i) => libipld::Ipld::Integer(i),
        IpldNode::Float(bits) => libipld::Ipld::Float(BigEndian::read_f64(&bits.to_be_bytes())),
        IpldNode::String(s) => libipld::Ipld::String(s),
        IpldNode::Bytes(bytes) => libipld::Ipld::Bytes(bytes),
        IpldNode::List(items) => libipld::Ipld::List(items),
        IpldNode::StringMap(entries) => libipld::Ipld::StringMap(entries.into_iter().collect()),
        IpldNode::Link(link) => link,
    }
}

/// `Clone` of `libipld::Ipld`, which is derived: the clone is the same value.
pub assume_specification[ <libipld::Ipld as Clone>::clone ](value: &libipld::Ipld) -> (res:
    libipld::Ipld)
    ensures
        res == *value,
;

/// Reads a value of the IPLD library.
pub fn from_libipld(value: libipld::Ipld) -> (res: IpldValue)
    ensures
        res.tree() == ipld_tree(value),
        tree_ok(res.tree()),
    decreases ipld_tree(value),
{
    match unpack_node(value) {
        IpldNode::Null => IpldValue::Null,
        IpldNode::Bool(b) => IpldValue::Bool(b),
        IpldNode::Integer(i) => IpldValue::Integer(i),
        IpldNode::Float(bits) => IpldValue::Float(bits),
        IpldNode::String(s) => IpldValue::String(s),
        IpldNode::Bytes(bytes) => IpldValue::Bytes(bytes),
        IpldNode::List(items) => {
            let ghost trees = ipld_tree(value)->List_0;
            let mut values: Vec<IpldValue> = Vec::new();
            for item in iter: items
                invariant
                    ipld_tree(value) == IpldTree::List(trees),
                    trees == items@.map_values(|item: libipld::Ipld| ipld_tree(item)),
                    iter.seq() == items@,
                    values@.len() == iter.index(),
                    forall|i: int|
                        0 <= i < values@.len() ==> (#[trigger] values@[i]).tree() == trees[i]
                            && tree_ok(values@[i].tree()),
            {
                assert(decreases_to!(ipld_tree(value) => ipld_tree(value)->List_0[iter.index()]));
                values.push(from_libipld(item));
            }
            let res = IpldValue::List(values);
            assert(res.tree()->List_0 =~= trees);
            res
        },
        IpldNode::StringMap(entries) => {
            let ghost trees = ipld_tree(value)->StringMap_0;
            let mut values: Vec<(String, IpldValue)> = Vec::new();
            for entry in iter: entries
                invariant
                    ipld_tree(value) == IpldTree::StringMap(trees),
                    trees == entries@.map_values(
                        |entry: (String, libipld::Ipld)| (entry.0@, ipld_tree(entry.1)),
                    ),
                    iter.seq() == entries@,
                    values@.len() == iter.index(),
                    forall|i: int|
                        0 <= i < values@.len() ==> (#[trigger] values@[i]).0@ == trees[i].0
                            && values@[i].1.tree() == trees[i].1 && tree_ok(values@[i].1.tree()),
            {
                let (key, part) = entry;
                assert(decreases_to!(
                    ipld_tree(value) => ipld_tree(value)->StringMap_0[iter.index()].1
                ));
                values.push((key, from_libipld(part)));
            }
            let res = IpldValue::StringMap(values);
            assert(res.tree()->StringMap_0 =~= trees);
            res
        },
        IpldNode::Link(link) => IpldValue::Link(link),
    }
}

impl IpldValue {
    /// A value of the IPLD library that holds the same.
    pub fn to_libipld(&self) -> (res: libipld::Ipld)
        requires
            tree_ok(self.tree()),
        ensures
            ipld_tree(res) == self.tree(),
        decreases self,
    {
        let node = match self {
            IpldValue::Null => IpldNode::Null,
            IpldValue::Bool(b) => IpldNode::Bool(*b),
            IpldValue::Integer(i) => IpldNode::Integer(*i),
            IpldValue::Float(bits) => IpldNode::Float(*bits),
            IpldValue::String(s) => IpldNode::String(s.clone()),
            IpldValue::Bytes(bytes) => IpldNode::Bytes(slice_to_vec(bytes.as_slice())),
            IpldValue::List(items) => {
                let ghost trees = self.tree()->List_0;
                let mut parts: Vec<libipld::Ipld> = Vec::new();
                for i in 0..items.len()
                    invariant
                        *self == IpldValue::List(*items),
                        self.tree() == IpldTree::List(trees),
                        tree_ok(self.tree()),
                        parts@.len() == i,
                        forall|k: int| 0 <= k < i ==> ipld_tree(#[trigger] parts@[k]) == trees[k],
                {
                    assert(tree_ok(self.tree()->List_0[i as int]));
                    parts.push(items[i].to_libipld());
                }
                let node = IpldNode::List(parts);
                assert(node.tree()->List_0 =~= trees);
                node
            },
            IpldValue::StringMap(entries) => {
                let ghost trees = self.tree()->StringMap_0;
                let mut parts: Vec<(String, libipld::Ipld)> = Vec::new();
                for i in 0..entries.len()
                    invariant
                        *self == IpldValue::StringMap(*entries),
                        self.tree() == IpldTree::StringMap(trees),
                        tree_ok(self.tree()),
                        parts@.len() == i,
                        forall|k: int|
                            0 <= k < i ==> (#[trigger] parts@[k]).0@ == trees[k].0 && ipld_tree(
                                parts@[k].1,
                            ) == trees[k].1,
                {
                    assert(entries@[i as int].1.tree() == trees[i as int].1);
                    parts.push((entries[i].0.clone(), entries[i].1.to_libipld()));
                }
                let node = IpldNode::StringMap(parts);
                assert(node.tree()->StringMap_0 =~= trees);
                node
            },
            IpldValue::Link(link) => IpldNode::Link(link.clone()),
        };
        pack_node(node)
    }

    /// A value that holds the same.
    pub fn duplicate(&self) -> (res: IpldValue)
        ensures
            res.tree() == self.tree(),
        decreases self,
    {
        match self {
            IpldValue::Null => IpldValue::Null,
            IpldValue::Bool(b) => IpldValue::Bool(*b),
            IpldValue::Integer(i) => IpldValue::Integer(*i),
            IpldValue::Float(bits) => IpldValue::Float(*bits),
            IpldValue::String(s) => IpldValue::String(s.clone()),
            IpldValue::Bytes(bytes) => IpldValue::Bytes(slice_to_vec(bytes.as_slice())),
            IpldValue::List(items) => {
                let mut values: Vec<IpldValue> = Vec::new();
                for i in 0..items.len()
                    invariant
                        *self == IpldValue::List(*items),
                        values@.len() == i,
                        forall|k: int|
                            0 <= k < i ==> (#[trigger] values@[k]).tree() == items@[k].tree(),
                {
                    assert(decreases_to!(*self => self->List_0@[i as int]));
                    values.push(items[i].duplicate());
                }
                let res = IpldValue::List(values);
                assert(res.tree()->List_0 =~= self.tree()->List_0);
                res
            },
            IpldValue::StringMap(entries) => {
                let mut values: Vec<(String, IpldValue)> = Vec::new();
                for i in 0..entries.len()
                    invariant
                        *self == IpldValue::StringMap(*entries),
                        values@.len() == i,
                        forall|k: int|
                            0 <= k < i ==> (#[trigger] values@[k]).0@ == entries@[k].0@
                                && values@[k].1.tree() == entries@[k].1.tree(),
                {
                    assert(decreases_to!(*self => self->StringMap_0@[i as int].1));
                    values.push((entries[i].0.clone(), entries[i].1.duplicate()));
                }
                let res = IpldValue::StringMap(values);
                assert(res.tree()->StringMap_0 =~= self.tree()->StringMap_0);
                res
            },
            IpldValue::Link(link) => IpldValue::Link(link.clone()),
        }
    }
}

/// Whether every integer in the value lies in the range that CBOR can hold.
pub open spec fn integers_fit(tree: IpldTree) -> bool
    decreases tree,
{
    match tree {
        IpldTree::Integer(i) => -0x1_0000_0000_0000_0000 <= i < 0x1_0000_0000_0000_0000,
        IpldTree::List(items) => forall|i: int|
            0 <= i < items.len() ==> integers_fit(#[trigger] items[i]),
        IpldTree::StringMap(entries) => forall|i: int|
            0 <= i < entries.len() ==> integers_fit((#[trigger] entries[i]).1),
        _ => true,
    }
}

/// Whether a value decodes from its own encoding.
pub open spec fn reads_back(tree: IpldTree) -> bool {
    match dag_cbor_encoding(tree) {
        Some(bytes) => decoded_tree(bytes) == Some(tree),
        None => false,
    }
}

/// Whether the value holds no infinite or undefined float, and no link but such as decode from
/// their own encoding.
pub open spec fn plain_tree(tree: IpldTree) -> bool
    decreases tree,
{
    match tree {
        // All bits of the exponent are set in an infinity and in what is not a number.
        IpldTree::Float(bits) => (bits / 0x10_0000_0000_0000) % 0x800 != 0x7ff,
        IpldTree::List(items) => forall|i: int|
            0 <= i < items.len() ==> plain_tree(#[trigger] items[i]),
        IpldTree::StringMap(entries) => forall|i: int|
            0 <= i < entries.len() ==> plain_tree((#[trigger] entries[i]).1),
        IpldTree::Link(_) => reads_back(tree),
        _ => true,
    }
}

/// The DAG-CBOR encoding of a value, where it has one.
pub uninterp spec fn dag_cbor_encoding(tree: IpldTree) -> Option<Seq<u8>>;

/// The value that DAG-CBOR bytes encode, where they encode one.
pub uninterp spec fn dag_cbor_decoding(bytes: Seq<u8>) -> Option<IpldTree>;

/// The value that bytes encode in DAG-CBOR: none where a claimed length does not fit them.
pub open spec fn decoded_tree(bytes: Seq<u8>) -> Option<IpldTree> {
    if crate::cbor::claims_fit(bytes) {
        dag_cbor_decoding(bytes)
    } else {
        None
    }
}

/// `encode` of `libipld::cbor::DagCborCodec`: fails on integers that CBOR cannot hold, and on
/// nothing else. The bytes claim no lengths beyond their own, and decode to the value, where its
/// links do and its floats are finite: of links the decoder reads identifiers of 23 to 254
/// bytes, and the form in which other floats are written it does not read.
#[verifier::external_body]
fn dag_cbor_encode(value: &libipld::Ipld) -> (res: Option<Vec<u8>>)
    ensures
        match res {
            Some(bytes) => dag_cbor_encoding(ipld_tree(*value)) == Some(bytes@),
            None => dag_cbor_encoding(ipld_tree(*value)) is None,
        },
        res is Some <==> integers_fit(ipld_tree(*value)),
        res matches Some(bytes) ==> plain_tree(ipld_tree(*value)) ==> decoded_tree(bytes@) == Some(
            ipld_tree(*value),
        ),
{
    libipld::cbor::DagCborCodec.encode(value).ok()
}

/// `decode` of `libipld::cbor::DagCborCodec`, for a `libipld::Ipld`: reads the item at the
/// front of the bytes. It reserves room for the lengths that a string or a list claims before
/// it reads them, so no length may be claimed that the bytes cannot hold.
#[verifier::external_body]
fn dag_cbor_decode(bytes: &[u8]) -> (res: Option<libipld::Ipld>)
    requires
        crate::cbor::claims_fit(bytes@),
    ensures
        match res {
            Some(value) => dag_cbor_decoding(bytes@) == Some(ipld_tree(value)),
            None => dag_cbor_decoding(bytes@) is None,
        },
{
    libipld::cbor::DagCborCodec.decode(bytes).ok()
}

/// Encodes a value in DAG-CBOR. There is no encoding of integers outside CBOR's range.
pub fn encode_ipld(value: &IpldValue) -> (res: Option<Vec<u8>>)
    requires
        tree_ok(value.tree()),
    ensures
        match res {
            Some(bytes) => dag_cbor_encoding(value.tree()) == Some(bytes@),
            None => dag_cbor_encoding(value.tree()) is None,
        },
        res is Some <==> integers_fit(value.tree()),
        res matches Some(bytes) ==> plain_tree(value.tree()) ==> decoded_tree(bytes@) == Some(
            value.tree(),
        ),
{
    dag_cbor_encode(&value.to_libipld())
}

/// Decodes the DAG-CBOR item at the front of `bytes`.
pub fn decode_ipld(bytes: &[u8]) -> (res: Option<IpldValue>)
    ensures
        match res {
            Some(value) => decoded_tree(bytes@) == Some(value.tree()) && tree_ok(value.tree()),
            None => decoded_tree(bytes@) is None,
        },
{
    if !lengths_fit(bytes) {
        return None;
    }
    match dag_cbor_decode(bytes) {
        Some(value) => Some(from_libipld(value)),
        None => None,
    }
}

/// What a value is, is its kind, and its number, truth value, text, bytes or link as they are
/// stored; of a float that is not a number, only that.
pub proof fn law_plain_kinds_are_kept(b: bool, i: i128, bits: u64, s: String, bytes: Vec<u8>, link:
    libipld::Ipld)
    ensures
        IpldValue::Null.tree() == IpldTree::Null,
        IpldValue::Bool(b).tree() == IpldTree::Bool(b),
        IpldValue::Integer(i).tree() == IpldTree::Integer(i),
        IpldValue::Float(bits).tree() == IpldTree::Float(float_of(bits)),
        IpldValue::String(s).tree() == IpldTree::String(s@),
        IpldValue::Bytes(bytes).tree() == IpldTree::Bytes(bytes@),
        IpldValue::Link(link).tree() == IpldTree::Link(link),
{
}

/// What a list is, is what its items are, in order; and of a map, what its keys and parts are.
pub proof fn law_parts_are_kept(items: Vec<IpldValue>, entries: Vec<(String, IpldValue)>)
    ensures
        IpldValue::List(items).tree() matches IpldTree::List(trees) && trees.len() == items@.len()
            && forall|i: int| 0 <= i < trees.len() ==> #[trigger] trees[i] == items@[i].tree(),
        IpldValue::StringMap(entries).tree() matches IpldTree::StringMap(trees) && trees.len()
            == entries@.len() && forall|i: int|
            0 <= i < trees.len() ==> (#[trigger] trees[i]).0 == entries@[i].0@ && trees[i].1
                == entries@[i].1.tree(),
{
}

/// The same of a value of the IPLD library, taken apart.
proof fn law_nodes_keep_their_kinds(
    b: bool,
    i: i128,
    bits: u64,
    s: String,
    bytes: Vec<u8>,
    items: Vec<libipld::Ipld>,
    entries: Vec<(String, libipld::Ipld)>,
    link: libipld::Ipld,
)
    ensures
        IpldNode::Null.tree() == IpldTree::Null,
        IpldNode::Bool(b).tree() == IpldTree::Bool(b),
        IpldNode::Integer(i).tree() == IpldTree::Integer(i),
        IpldNode::Float(bits).tree() == IpldTree::Float(float_of(bits)),
        IpldNode::String(s).tree() == IpldTree::String(s@),
        IpldNode::Bytes(bytes).tree() == IpldTree::Bytes(bytes@),
        IpldNode::Link(link).tree() == IpldTree::Link(link),
        IpldNode::List(items).tree() matches IpldTree::List(trees) && trees.len() == items@.len()
            && forall|k: int| 0 <= k < trees.len() ==> #[trigger] trees[k] == ipld_tree(items@[k]),
        IpldNode::StringMap(entries).tree() matches IpldTree::StringMap(trees) && trees.len()
            == entries@.len() && forall|k: int|
            0 <= k < trees.len() ==> (#[trigger] trees[k]).0 == entries@[k].0@ && trees[k].1
                == ipld_tree(entries@[k].1),
{
}

/// Floats are told apart by their bits, but for those that are not a number: with all bits of
/// the exponent set and some of the mantissa, they are all one.
pub proof fn law_floats_are_their_bits(a: u64, b: u64)
    ensures
        (a / 0x10_0000_0000_0000) % 0x800 != 0x7ff ==> float_of(a) == a,
        a % 0x10_0000_0000_0000 == 0 ==> float_of(a) == a,
        (a / 0x10_0000_0000_0000) % 0x800 == 0x7ff && a % 0x10_0000_0000_0000 != 0 && (b
            / 0x10_0000_0000_0000) % 0x800 == 0x7ff && b % 0x10_0000_0000_0000 != 0 ==> float_of(a)
            == float_of(b),
        float_of(a) == float_of(b) ==> a == b || ((a / 0x10_0000_0000_0000) % 0x800 == 0x7ff && a
            % 0x10_0000_0000_0000 != 0 && (b / 0x10_0000_0000_0000) % 0x800 == 0x7ff && b
            % 0x10_0000_0000_0000 != 0),
{
}

/// The integers that fit are those from -2^64 up to 2^64, and what is no integer does not stand
/// in the way.
pub proof fn law_integers_that_fit(
    tree: IpldTree,
    key: Seq<char>,
    items: Seq<IpldTree>,
    entries: Seq<(Seq<char>, IpldTree)>,
)
    ensures
        tree matches IpldTree::Integer(i) ==> (integers_fit(tree) <==> -18446744073709551616 <= i
            < 18446744073709551616),
        !(tree is Integer) && !(tree is List) && !(tree is StringMap) ==> integers_fit(tree),
        integers_fit(IpldTree::List(items.push(tree))) <==> integers_fit(IpldTree::List(items))
            && integers_fit(tree),
        integers_fit(IpldTree::StringMap(entries.push((key, tree)))) <==> integers_fit(
            IpldTree::StringMap(entries),
        ) && integers_fit(tree),
        integers_fit(IpldTree::List(Seq::empty())),
        integers_fit(IpldTree::StringMap(Seq::empty())),
{
    lemma_all_fit(items, tree);
    let more = entries.push((key, tree));
    assert(more[entries.len() as int].1 == tree);
    if integers_fit(IpldTree::StringMap(more)) {
        assert forall|i: int| 0 <= i < entries.len() implies integers_fit(
            (#[trigger] entries[i]).1,
        ) by {
            assert(integers_fit(IpldTree::StringMap(more)->StringMap_0[i].1));
        }
        assert(integers_fit(IpldTree::StringMap(more)->StringMap_0[entries.len() as int].1));
    }
    if integers_fit(IpldTree::StringMap(entries)) && integers_fit(tree) {
        assert forall|i: int| 0 <= i < more.len() implies integers_fit((#[trigger] more[i]).1) by {
            if i < entries.len() {
                assert(integers_fit(IpldTree::StringMap(entries)->StringMap_0[i].1));
            }
        }
    }
}

proof fn lemma_all_fit(items: Seq<IpldTree>, tree: IpldTree)
    ensures
        integers_fit(IpldTree::List(items.push(tree))) <==> integers_fit(IpldTree::List(items))
            && integers_fit(tree),
{
    let more = items.push(tree);
    assert(more[items.len() as int] == tree);
    if integers_fit(IpldTree::List(more)) {
        assert forall|i: int| 0 <= i < items.len() implies integers_fit(#[trigger] items[i]) by {
            assert(integers_fit(IpldTree::List(more)->List_0[i]));
        }
        assert(integers_fit(IpldTree::List(more)->List_0[items.len() as int]));
    }
    if integers_fit(IpldTree::List(items)) && integers_fit(tree) {
        assert forall|i: int| 0 <= i < more.len() implies integers_fit(#[trigger] more[i]) by {
            if i < items.len() {
                assert(integers_fit(IpldTree::List(items)->List_0[i]));
            }
        }
    }
}

/// Values without links whose floats have an exponent with a bit that is not set are plain.
pub proof fn law_values_that_are_plain(
    tree: IpldTree,
    items: Seq<IpldTree>,
    entries: Seq<(Seq<char>, IpldTree)>,
)
    ensures
        tree is Null || tree is Bool || tree is Integer || tree is String || tree is Bytes
            ==> plain_tree(tree),
        tree matches IpldTree::Float(bits) ==> (bits / 0x10_0000_0000_0000) % 0x800 != 0x7ff
            ==> plain_tree(tree),
        (forall|i: int| 0 <= i < items.len() ==> plain_tree(#[trigger] items[i])) ==> plain_tree(
            IpldTree::List(items),
        ),
        (forall|i: int| 0 <= i < entries.len() ==> plain_tree((#[trigger] entries[i]).1))
            ==> plain_tree(IpldTree::StringMap(entries)),
{
}

/// Values are in order unless a map in them has a key before which an entry stands that does not
/// come before it.
pub proof fn law_values_in_order(
    tree: IpldTree,
    items: Seq<IpldTree>,
    entries: Seq<(Seq<char>, IpldTree)>,
)
    ensures
        tree is Null || tree is Bool || tree is Integer || tree is Float || tree is String
            || tree is Bytes ==> tree_ok(tree),
        (forall|i: int| 0 <= i < items.len() ==> tree_ok(#[trigger] items[i])) ==> tree_ok(
            IpldTree::List(items),
        ),
        (forall|i: int, j: int|
            0 <= i < j < entries.len() ==> crate::text::precedes(
                (#[trigger] entries[i]).0,
                (#[trigger] entries[j]).0,
            )) && (forall|i: int| 0 <= i < entries.len() ==> tree_ok((#[trigger] entries[i]).1))
            ==> tree_ok(IpldTree::StringMap(entries)),
{
}

/// Bytes whose claimed lengths fit them decode as the codec has it.
pub proof fn law_fitting_bytes_decode(bytes: Seq<u8>)
    ensures
        crate::cbor::claims_fit(bytes) ==> decoded_tree(bytes) == dag_cbor_decoding(bytes),
        decoded_tree(bytes) is Some ==> decoded_tree(bytes) == dag_cbor_decoding(bytes),
{
}

} // verus!
