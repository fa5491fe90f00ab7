//! JavaScript values as IPLD, and back.
use vstd::prelude::*;

use crate::ipld::IpldValue;
use crate::text::comes_before;

verus! {

/// A JavaScript value, as far as it takes part in a conversion to IPLD.
#[derive(Debug, PartialEq)]
pub struct JsValue {
    /// What a direct deserialization as IPLD gives; nothing where it fails.
    pub converted: Option<IpldValue>,
    pub shape: JsShape,
}

/// What kind of JavaScript value it is.
#[derive(Debug, PartialEq)]
pub enum JsShape {
    Undefined,
    Null,
    Bool(bool),
    /// A number without a fractional part.
    Integer(i128),
    /// A number with a fractional part, or none at all, by its bits.
    Float(u64),
    String(String),
    Array(Vec<JsValue>),
    /// Any other value, with its own properties in their order.
    Object(Vec<JsProperty>),
}

/// A property of a JavaScript object.
#[derive(Debug, PartialEq)]
pub struct JsProperty {
    /// The key, where it is a string.
    pub key: Option<String>,
    /// The value, where it can be read.
    pub value: Option<JsValue>,
}

/// Whether every IPLD value that a conversion may hand on has its maps in order.
pub open spec fn js_ok(value: JsValue) -> bool
    decreases value,
{
    match value.converted {
        Some(ipld) => crate::ipld::tree_ok(ipld.tree()),
        None => match value.shape {
            JsShape::Array(items) => forall|i: int|
                0 <= i < items@.len() ==> js_ok(#[trigger] items@[i]),
            JsShape::Object(properties) => forall|i: int|
                0 <= i < properties@.len() ==> match (#[trigger] properties@[i]).value {
                    Some(part) => js_ok(part),
                    None => true,
                },
            _ => true,
        },
    }
}

/// How many entries at the front have a key before `key`.
pub open spec fn rank(entries: Seq<(Seq<char>, crate::ipld::IpldTree)>, key: Seq<char>) -> nat
    decreases entries.len(),
{
    if entries.len() > 0 && crate::text::precedes(entries[0].0, key) {
        1 + rank(entries.drop_first(), key)
    } else {
        0
    }
}

/// Entries by increasing key, with the value of `key` set to `tree`.
pub open spec fn with_entry(
    entries: Seq<(Seq<char>, crate::ipld::IpldTree)>,
    key: Seq<char>,
    tree: crate::ipld::IpldTree,
) -> Seq<(Seq<char>, crate::ipld::IpldTree)> {
    let at = rank(entries, key) as int;
    if at < entries.len() && entries[at].0 == key {
        entries.update(at, (key, tree))
    } else {
        entries.insert(at, (key, tree))
    }
}

/// The IPLD value of a JavaScript value: the direct deserialization where there is one, and
/// else by the kind of value, part by part.
pub open spec fn js_tree(value: JsValue) -> crate::ipld::IpldTree
    decreases value,
{
    match value.converted {
        Some(ipld) => ipld.tree(),
        None => match value.shape {
            JsShape::Undefined => crate::ipld::IpldTree::Null,
            JsShape::Null => crate::ipld::IpldTree::Null,
            JsShape::Bool(b) => crate::ipld::IpldTree::Bool(b),
            JsShape::Integer(i) => crate::ipld::IpldTree::Integer(i),
            JsShape::Float(bits) => crate::ipld::IpldTree::Float(crate::ipld::float_of(bits)),
            JsShape::String(s) => crate::ipld::IpldTree::String(s@),
            JsShape::Array(items) => crate::ipld::IpldTree::List(
                Seq::new(
                    items@.len(),
                    |i: int|
                        if 0 <= i < items@.len() {
                            js_tree(items@[i])
                        } else {
                            crate::ipld::IpldTree::Null
                        },
                ),
            ),
            JsShape::Object(properties) => crate::ipld::IpldTree::StringMap(
                object_entries(properties@),
            ),
        },
    }
}

/// The entries that the properties of an object give: those with a string for a key and a
/// value that can be read and is not undefined. Of equal keys the last counts.
pub open spec fn object_entries(properties: Seq<JsProperty>) -> Seq<
    (Seq<char>, crate::ipld::IpldTree),
>
    decreases properties,
{
    if properties.len() == 0 {
        Seq::empty()
    } else {
        let before = object_entries(properties.drop_last());
        let last = properties[properties.len() - 1];
        match (last.key, last.value) {
            (Some(key), Some(part)) => if part.shape is Undefined {
                before
            } else {
                with_entry(before, key@, js_tree(part))
            },
            _ => before,
        }
    }
}

/// What entries of a map hold, apart from how they are stored.
spec fn entry_trees(entries: Seq<(String, IpldValue)>) -> Seq<(Seq<char>, crate::ipld::IpldTree)> {
    entries.map_values(|entry: (String, IpldValue)| (entry.0@, entry.1.tree()))
}

/// Entries before the rank of a key come before it, and the entry at the rank does not.
proof fn lemma_rank(entries: Seq<(Seq<char>, crate::ipld::IpldTree)>, key: Seq<char>)
    ensures
        rank(entries, key) <= entries.len(),
        forall|i: int|
            0 <= i < rank(entries, key) ==> crate::text::precedes(
                (#[trigger] entries[i]).0,
                key,
            ),
        rank(entries, key) < entries.len() ==> !crate::text::precedes(
            entries[rank(entries, key) as int].0,
            key,
        ),
    decreases entries.len(),
{
    if entries.len() > 0 && crate::text::precedes(entries[0].0, key) {
        let rest = entries.drop_first();
        lemma_rank(rest, key);
        assert forall|i: int| 0 <= i < rank(entries, key) implies crate::text::precedes(
            (#[trigger] entries[i]).0,
            key,
        ) by {
            if i > 0 {
                assert(entries[i] == rest[i - 1]);
            }
        }
    }
}

/// The rank of a key is the first position whose entry does not come before it.
proof fn lemma_rank_is(entries: Seq<(Seq<char>, crate::ipld::IpldTree)>, key: Seq<char>, at: int)
    requires
        0 <= at <= entries.len(),
        forall|i: int|
            0 <= i < at ==> crate::text::precedes((#[trigger] entries[i]).0, key),
        at < entries.len() ==> !crate::text::precedes(entries[at].0, key),
    ensures
        rank(entries, key) == at,
{
    lemma_rank(entries, key);
    let found = rank(entries, key) as int;
    if found < at {
        assert(crate::text::precedes(entries[found].0, key));
    }
    if at < found {
        assert(crate::text::precedes(entries[at].0, key));
    }
}

/// The entries stay in order.
pub proof fn law_with_entry_keeps_order(
    entries: Seq<(Seq<char>, crate::ipld::IpldTree)>,
    key: Seq<char>,
    tree: crate::ipld::IpldTree,
)
    requires
        crate::ipld::keys_increase(entries),
    ensures
        crate::ipld::keys_increase(with_entry(entries, key, tree)),
{
    lemma_rank(entries, key);
    let at = rank(entries, key) as int;
    let after = with_entry(entries, key, tree);
    if !(at < entries.len() && entries[at].0 == key) {
        assert forall|i: int, j: int| 0 <= i < j < after.len() implies crate::text::precedes(
            (#[trigger] after[i]).0,
            (#[trigger] after[j]).0,
        ) by {
            if j < at {
                assert(after[i] == entries[i] && after[j] == entries[j]);
            } else if j == at {
                assert(after[i] == entries[i]);
            } else {
                assert(after[j] == entries[j - 1]);
                crate::text::law_precedes_total(entries[at].0, key);
                assert(crate::text::precedes(key, entries[at].0));
                if at < j - 1 {
                    assert(crate::text::precedes(entries[at].0, entries[j - 1].0));
                    crate::text::law_precedes_transitive(key, entries[at].0, entries[j - 1].0);
                }
                if i < at {
                    assert(after[i] == entries[i]);
                } else if i > at {
                    assert(after[i] == entries[i - 1]);
                }
            }
        }
    }
}

/// Whether some entry gives `key` the value `tree`.
pub open spec fn has_entry(
    entries: Seq<(Seq<char>, crate::ipld::IpldTree)>,
    key: Seq<char>,
    tree: crate::ipld::IpldTree,
) -> bool {
    exists|i: int| 0 <= i < entries.len() && #[trigger] entries[i] == (key, tree)
}

/// Setting a key gives it that value and no other, and leaves every other key as it was.
pub proof fn law_with_entry_sets_one_key(
    entries: Seq<(Seq<char>, crate::ipld::IpldTree)>,
    key: Seq<char>,
    tree: crate::ipld::IpldTree,
    other: Seq<char>,
    found: crate::ipld::IpldTree,
)
    requires
        crate::ipld::keys_increase(entries),
    ensures
        has_entry(with_entry(entries, key, tree), other, found) <==> if other == key {
            found == tree
        } else {
            has_entry(entries, other, found)
        },
{
    lemma_rank(entries, key);
    law_with_entry_keeps_order(entries, key, tree);
    let at = rank(entries, key) as int;
    let after = with_entry(entries, key, tree);
    assert(after[at] == (key, tree));
    let present = at < entries.len() && entries[at].0 == key;
    if has_entry(after, other, found) {
        let i = choose|i: int| 0 <= i < after.len() && #[trigger] after[i] == (other, found);
        if other == key && i != at {
            crate::text::law_precedes_irreflexive(key);
            if i < at {
                assert(crate::text::precedes(after[i].0, after[at].0));
            } else {
                assert(crate::text::precedes(after[at].0, after[i].0));
            }
        }
        if other != key {
            let k = if present || i < at { i } else { i - 1 };
            assert(entries[k] == (other, found));
        }
    }
    if other != key && has_entry(entries, other, found) {
        let i = choose|i: int| 0 <= i < entries.len() && #[trigger] entries[i] == (other, found);
        let k = if present || i < at { i } else { i + 1 };
        assert(after[k] == (other, found));
    }
}

/// The IPLD value of the last property with the key `key` that counts, if there is one.
pub open spec fn last_part(properties: Seq<JsProperty>, key: Seq<char>) -> Option<
    crate::ipld::IpldTree,
>
    decreases properties.len(),
{
    if properties.len() == 0 {
        None
    } else {
        let last = properties[properties.len() - 1];
        match (last.key, last.value) {
            (Some(name), Some(part)) => if name@ == key && !(part.shape is Undefined) {
                Some(js_tree(part))
            } else {
                last_part(properties.drop_last(), key)
            },
            _ => last_part(properties.drop_last(), key),
        }
    }
}

/// An object's entries are in order, and give each key the value of its last property that
/// counts; properties without a string for a key, without a readable value, or with an
/// undefined one leave no trace.
pub proof fn law_object_entries(
    properties: Seq<JsProperty>,
    key: Seq<char>,
    found: crate::ipld::IpldTree,
)
    ensures
        crate::ipld::keys_increase(object_entries(properties)),
        has_entry(object_entries(properties), key, found) <==> last_part(properties, key) == Some(
            found,
        ),
    decreases properties.len(),
{
    if properties.len() > 0 {
        let before = object_entries(properties.drop_last());
        law_object_entries(properties.drop_last(), key, found);
        let last = properties[properties.len() - 1];
        if let (Some(name), Some(part)) = (last.key, last.value) {
            if !(part.shape is Undefined) {
                law_with_entry_keeps_order(before, name@, js_tree(part));
                law_with_entry_sets_one_key(before, name@, js_tree(part), key, found);
            }
        }
    }
}

/// Entries in order are fixed by which keys have which values.
proof fn lemma_entries_in_order(
    a: Seq<(Seq<char>, crate::ipld::IpldTree)>,
    b: Seq<(Seq<char>, crate::ipld::IpldTree)>,
)
    requires
        crate::ipld::keys_increase(a),
        crate::ipld::keys_increase(b),
        forall|key: Seq<char>, tree: crate::ipld::IpldTree| #[trigger]
            has_entry(a, key, tree) <==> has_entry(b, key, tree),
    ensures
        a == b,
    decreases a.len(),
{
    if a.len() == 0 {
        if b.len() > 0 {
            assert(b[0] == (b[0].0, b[0].1));
            assert(has_entry(b, b[0].0, b[0].1));
            assert(has_entry(a, b[0].0, b[0].1));
        }
        assert(a =~= b);
    } else {
        assert(a[0] == (a[0].0, a[0].1));
        assert(has_entry(a, a[0].0, a[0].1));
        let j = choose|j: int| 0 <= j < b.len() && #[trigger] b[j] == (a[0].0, a[0].1);
        assert(b[0] == (b[0].0, b[0].1));
        assert(has_entry(b, b[0].0, b[0].1));
        assert(has_entry(a, b[0].0, b[0].1));
        let i = choose|i: int| 0 <= i < a.len() && #[trigger] a[i] == (b[0].0, b[0].1);
        if j > 0 {
            crate::text::law_precedes_irreflexive(a[0].0);
            assert(crate::text::precedes(b[0].0, b[j].0));
            if i > 0 {
                assert(crate::text::precedes(a[0].0, a[i].0));
                crate::text::law_precedes_transitive(a[0].0, b[0].0, a[0].0);
            }
        }
        assert(a[0] == b[0]);
        let rest_a = a.drop_first();
        let rest_b = b.drop_first();
        assert forall|key: Seq<char>, tree: crate::ipld::IpldTree| #[trigger]
            has_entry(rest_a, key, tree) <==> has_entry(rest_b, key, tree) by {
            lemma_later_entries(a, key, tree);
            lemma_later_entries(b, key, tree);
            assert(has_entry(a, key, tree) <==> has_entry(b, key, tree));
        }
        lemma_entries_in_order(rest_a, rest_b);
        assert(a =~= seq![a[0]] + rest_a);
        assert(b =~= seq![b[0]] + rest_b);
    }
}

/// Of entries in order, all but the first have another key than it.
proof fn lemma_later_entries(
    entries: Seq<(Seq<char>, crate::ipld::IpldTree)>,
    key: Seq<char>,
    tree: crate::ipld::IpldTree,
)
    requires
        crate::ipld::keys_increase(entries),
        entries.len() > 0,
    ensures
        crate::ipld::keys_increase(entries.drop_first()),
        has_entry(entries.drop_first(), key, tree) <==> has_entry(entries, key, tree) && key
            != entries[0].0,
{
    let rest = entries.drop_first();
    if has_entry(rest, key, tree) {
        let i = choose|i: int| 0 <= i < rest.len() && #[trigger] rest[i] == (key, tree);
        assert(entries[i + 1] == (key, tree));
        crate::text::law_precedes_irreflexive(key);
        assert(crate::text::precedes(entries[0].0, entries[i + 1].0));
    }
    if has_entry(entries, key, tree) && key != entries[0].0 {
        let i = choose|i: int| 0 <= i < entries.len() && #[trigger] entries[i] == (key, tree);
        assert(rest[i - 1] == (key, tree));
    }
}

/// Objects whose keys have the same values have the same entries, in whatever order their
/// properties stand, and whichever are undefined.
pub proof fn law_order_of_properties_plays_no_part(p: Seq<JsProperty>, q: Seq<JsProperty>)
    requires
        forall|key: Seq<char>| #[trigger] last_part(p, key) == last_part(q, key),
    ensures
        object_entries(p) == object_entries(q),
{
    law_object_entries(p, Seq::empty(), crate::ipld::IpldTree::Null);
    law_object_entries(q, Seq::empty(), crate::ipld::IpldTree::Null);
    assert forall|key: Seq<char>, tree: crate::ipld::IpldTree| #[trigger]
        has_entry(object_entries(p), key, tree) <==> has_entry(object_entries(q), key, tree) by {
        law_object_entries(p, key, tree);
        law_object_entries(q, key, tree);
        assert(last_part(p, key) == last_part(q, key));
    }
    lemma_entries_in_order(object_entries(p), object_entries(q));
}

/// Whether a property has a string for a key, and a value that can be read and is not undefined.
pub open spec fn counts(property: JsProperty) -> bool {
    &&& property.key is Some
    &&& property.value matches Some(part) && !(part.shape is Undefined)
}

/// Whether the property at `i` counts, and is the last with its key that does.
pub open spec fn is_last(properties: Seq<JsProperty>, i: int) -> bool {
    &&& 0 <= i < properties.len()
    &&& counts(properties[i])
    &&& forall|j: int|
        i < j < properties.len() && counts(#[trigger] properties[j]) ==> properties[j].key->Some_0@
            != properties[i].key->Some_0@
}

/// Whether two values differ in nothing but the order of properties, at any depth, and in
/// properties that do not count. Of values that deserialize directly, the results are compared.
pub open spec fn alike(a: JsValue, b: JsValue) -> bool
    decreases a,
{
    if a.converted is Some || b.converted is Some {
        js_tree(a) == js_tree(b)
    } else {
        match (a.shape, b.shape) {
            (JsShape::Array(x), JsShape::Array(y)) => {
                &&& x@.len() == y@.len()
                &&& forall|i: int| 0 <= i < x@.len() ==> alike(#[trigger] x@[i], y@[i])
            },
            (JsShape::Object(x), JsShape::Object(y)) => {
                &&& forall|i: int| #[trigger]
                    is_last(x@, i) ==> 0 <= i < x@.len() && exists|j: int| #[trigger]
                        is_last(y@, j) && x@[i].key->Some_0@ == y@[j].key->Some_0@ && alike(
                            x@[i].value->Some_0,
                            y@[j].value->Some_0,
                        )
                &&& forall|j: int| #[trigger]
                    is_last(y@, j) ==> exists|i: int| #[trigger]
                        is_last(x@, i) && x@[i].key->Some_0@ == y@[j].key->Some_0@
            },
            _ => js_tree(a) == js_tree(b),
        }
    }
}

/// The value of a key is that of the last property with it that counts.
proof fn lemma_last_part(properties: Seq<JsProperty>, key: Seq<char>)
    ensures
        match last_part(properties, key) {
            Some(tree) => exists|i: int| #[trigger]
                is_last(properties, i) && properties[i].key->Some_0@ == key && js_tree(
                    properties[i].value->Some_0,
                ) == tree,
            None => forall|i: int| #[trigger]
                is_last(properties, i) ==> properties[i].key->Some_0@ != key,
        },
    decreases properties.len(),
{
    if properties.len() > 0 {
        let before = properties.drop_last();
        let end = properties.len() - 1;
        let last = properties[end];
        lemma_last_part(before, key);
        if counts(last) && last.key->Some_0@ == key {
            assert(is_last(properties, end));
        } else if last_part(before, key) is Some {
            let i = choose|i: int| #[trigger]
                is_last(before, i) && before[i].key->Some_0@ == key && js_tree(
                    before[i].value->Some_0,
                ) == last_part(before, key)->Some_0;
            assert forall|j: int|
                i < j < properties.len() && counts(#[trigger] properties[j]) implies
                properties[j].key->Some_0@ != properties[i].key->Some_0@ by {
                if j < end {
                    assert(before[j] == properties[j]);
                }
            }
            assert(is_last(properties, i));
        } else {
            assert forall|i: int| #[trigger]
                is_last(properties, i) implies properties[i].key->Some_0@ != key by {
                if i < end {
                    assert forall|j: int| i < j < before.len() && counts(#[trigger] before[j])
                        implies before[j].key->Some_0@ != before[i].key->Some_0@ by {
                        assert(before[j] == properties[j]);
                    }
                    assert(is_last(before, i));
                }
            }
        }
    }
}

/// Two properties that are both the last with a key are the same one.
proof fn lemma_one_is_last(properties: Seq<JsProperty>, i: int, j: int)
    requires
        is_last(properties, i),
        is_last(properties, j),
        properties[i].key->Some_0@ == properties[j].key->Some_0@,
    ensures
        i == j,
{
}

/// Values that differ in nothing but the order of properties, at any depth, and in properties
/// that do not count, are one IPLD value.
pub proof fn law_alike_values_are_one(a: JsValue, b: JsValue)
    requires
        alike(a, b),
    ensures
        js_tree(a) == js_tree(b),
    decreases a,
{
    if a.converted is None && b.converted is None {
        match (a.shape, b.shape) {
            (JsShape::Array(x), JsShape::Array(y)) => {
                assert forall|i: int| 0 <= i < x@.len() implies js_tree(#[trigger] x@[i])
                    == js_tree(y@[i]) by {
                    assert(decreases_to!(a => a.shape->Array_0@[i]));
                    law_alike_values_are_one(a.shape->Array_0@[i], b.shape->Array_0@[i]);
                }
                assert(js_tree(a)->List_0 =~= js_tree(b)->List_0);
            },
            (JsShape::Object(x), JsShape::Object(y)) => {
                assert forall|key: Seq<char>| #[trigger] last_part(x@, key) == last_part(
                    y@,
                    key,
                ) by {
                    lemma_last_part(x@, key);
                    lemma_last_part(y@, key);
                    if last_part(x@, key) is Some {
                        let i = choose|i: int| #[trigger]
                            is_last(x@, i) && x@[i].key->Some_0@ == key && js_tree(
                                x@[i].value->Some_0,
                            ) == last_part(x@, key)->Some_0;
                        let j = choose|j: int| #[trigger]
                            is_last(y@, j) && x@[i].key->Some_0@ == y@[j].key->Some_0@ && alike(
                                x@[i].value->Some_0,
                                y@[j].value->Some_0,
                            );
                        assert(decreases_to!(a => a.shape->Object_0@[i].value->Some_0));
                        law_alike_values_are_one(
                            a.shape->Object_0@[i].value->Some_0,
                            b.shape->Object_0@[j].value->Some_0,
                        );
                        let k = choose|k: int| #[trigger]
                            is_last(y@, k) && y@[k].key->Some_0@ == key && js_tree(
                                y@[k].value->Some_0,
                            ) == last_part(y@, key)->Some_0;
                        lemma_one_is_last(y@, j, k);
                    } else if last_part(y@, key) is Some {
                        let j = choose|j: int| #[trigger]
                            is_last(y@, j) && y@[j].key->Some_0@ == key && js_tree(
                                y@[j].value->Some_0,
                            ) == last_part(y@, key)->Some_0;
                        let i = choose|i: int| #[trigger]
                            is_last(x@, i) && x@[i].key->Some_0@ == y@[j].key->Some_0@;
                        assert(is_last(x@, i));
                    }
                }
                law_order_of_properties_plays_no_part(x@, y@);
            },
            _ => {},
        }
    }
}

/// Sets the value of `key` in entries that are in order.
fn put_entry(entries: &mut Vec<(String, IpldValue)>, key: String, value: IpldValue)
    ensures
        entry_trees(final(entries)@) == with_entry(entry_trees(old(entries)@), key@, value.tree()),
{
    let ghost trees = entry_trees(entries@);
    let mut at: usize = 0;
    while at < entries.len() && comes_before(entries[at].0.as_str(), key.as_str())
        invariant
            trees == entry_trees(entries@),
            entries@ == old(entries)@,
            at <= entries@.len(),
            forall|i: int|
                0 <= i < at ==> crate::text::precedes((#[trigger] trees[i]).0, key@),
        decreases entries.len() - at,
    {
        at = at + 1;
    }
    proof {
        lemma_rank_is(trees, key@, at as int);
    }
    if at < entries.len() && entries[at].0 == key {
        entries.set(at, (key, value));
    } else {
        entries.insert(at, (key, value));
    }
}

/// The IPLD value of a JavaScript value. Every value has one.
pub fn js_value_to_ipld(value: &JsValue) -> (res: IpldValue)
    requires
        js_ok(*value),
    ensures
        res.tree() == js_tree(*value),
        crate::ipld::tree_ok(res.tree()),
        match value.converted {
            Some(ipld) => res.tree() == ipld.tree(),
            None => match value.shape {
                JsShape::Undefined => res == IpldValue::Null,
                JsShape::Null => res == IpldValue::Null,
                JsShape::Bool(b) => res == IpldValue::Bool(b),
                JsShape::Integer(i) => res == IpldValue::Integer(i),
                JsShape::Float(bits) => res == IpldValue::Float(bits),
                JsShape::String(s) => res matches IpldValue::String(t) && t@ == s@,
                JsShape::Array(items) => res matches IpldValue::List(list) && list@.len()
                    == items@.len(),
                JsShape::Object(_) => res is StringMap,
            },
        },
    decreases value,
{
    // First try the direct deserialization
    match &value.converted {
        Some(ipld) => return ipld.duplicate(),
        None => {},
    }
    match &value.shape {
        JsShape::Undefined => IpldValue::Null,
        JsShape::Null => IpldValue::Null,
        JsShape::Bool(b) => IpldValue::Bool(*b),
        JsShape::Integer(i) => IpldValue::Integer(*i),
        JsShape::Float(bits) => IpldValue::Float(*bits),
        JsShape::String(s) => IpldValue::String(s.clone()),
        JsShape::Array(items) => {
            let mut list: Vec<IpldValue> = Vec::new();
            for i in 0..items.len()
                invariant
                    value.shape == JsShape::Array(*items),
                    value.converted is None,
                    js_ok(*value),
                    list@.len() == i,
                    forall|k: int|
                        0 <= k < i ==> (#[trigger] list@[k]).tree() == js_tree(items@[k])
                            && crate::ipld::tree_ok(list@[k].tree()),
            {
                assert(js_ok(value.shape->Array_0@[i as int]));
                list.push(js_value_to_ipld(&items[i]));
            }
            let res = IpldValue::List(list);
            assert(res.tree()->List_0 =~= js_tree(*value)->List_0);
            res
        },
        JsShape::Object(properties) => {
            let mut entries: Vec<(String, IpldValue)> = Vec::new();
            for i in 0..properties.len()
                invariant
                    value.shape == JsShape::Object(*properties),
                    value.converted is None,
                    js_ok(*value),
                    entry_trees(entries@) == object_entries(properties@.take(i as int)),
                    forall|k: int|
                        0 <= k < entries@.len() ==> crate::ipld::tree_ok(
                            (#[trigger] entries@[k]).1.tree(),
                        ),
            {
                assert(properties@.take(i + 1).drop_last() =~= properties@.take(i as int));
                match (&properties[i].key, &properties[i].value) {
                    (Some(key), Some(part)) => {
                        match &part.shape {
                            JsShape::Undefined => {},
                            _ => {
                                let ghost before = entries@;
                                let converted = js_value_to_ipld(part);
                                let ghost tree = converted.tree();
                                put_entry(&mut entries, key.clone(), converted);
                                proof {
                                    lemma_put_keeps(before, entries@, key@, tree);
                                }
                            },
                        }
                    },
                    _ => {},
                }
            }
            assert(properties@.take(properties@.len() as int) =~= properties@);
            let res = IpldValue::StringMap(entries);
            assert(res.tree()->StringMap_0 =~= entry_trees(entries@));
            proof {
                law_object_entries(properties@, Seq::empty(), crate::ipld::IpldTree::Null);
            }
            res
        },
    }
}

/// Values that are in order stay so when one that is in order is set among them.
proof fn lemma_put_keeps(
    before: Seq<(String, IpldValue)>,
    after: Seq<(String, IpldValue)>,
    key: Seq<char>,
    tree: crate::ipld::IpldTree,
)
    requires
        entry_trees(after) == with_entry(entry_trees(before), key, tree),
        crate::ipld::tree_ok(tree),
        forall|k: int|
            0 <= k < before.len() ==> crate::ipld::tree_ok((#[trigger] before[k]).1.tree()),
    ensures
        forall|k: int|
            0 <= k < after.len() ==> crate::ipld::tree_ok((#[trigger] after[k]).1.tree()),
{
    let trees = entry_trees(before);
    lemma_rank(trees, key);
    let at = rank(trees, key) as int;
    assert(entry_trees(after).len() == after.len());
    assert forall|k: int| 0 <= k < after.len() implies crate::ipld::tree_ok(
        (#[trigger] after[k]).1.tree(),
    ) by {
        assert(entry_trees(after)[k].1 == after[k].1.tree());
        if k != at {
            let i = if k < at || (at < trees.len() && trees[at].0 == key) { k } else { k - 1 };
            assert(entry_trees(after)[k] == trees[i]);
            assert(trees[i].1 == before[i].1.tree());
        }
    }
}

/// A JavaScript value to be built.
#[derive(Debug, PartialEq)]
pub enum JsBuild {
    Null,
    Bool(bool),
    /// The number nearest to an integer.
    Integer(i128),
    /// A number, by its bits.
    Float(u64),
    String(String),
    Uint8Array(Vec<u8>),
    Array(Vec<JsBuild>),
    /// An object with these properties, set in this order.
    Object(Vec<(String, JsBuild)>),
    /// The JSON form of a link.
    Link(libipld::Ipld),
}

/// Whether `js` is the JavaScript value for an IPLD value: kind for kind, and part for part.
pub open spec fn builds(js: JsBuild, tree: crate::ipld::IpldTree) -> bool
    decreases js,
{
    match (js, tree) {
        (JsBuild::Null, crate::ipld::IpldTree::Null) => true,
        (JsBuild::Bool(a), crate::ipld::IpldTree::Bool(b)) => a == b,
        (JsBuild::Integer(a), crate::ipld::IpldTree::Integer(b)) => a == b,
        (JsBuild::Float(a), crate::ipld::IpldTree::Float(b)) => crate::ipld::float_of(a) == b,
        (JsBuild::String(a), crate::ipld::IpldTree::String(b)) => a@ == b,
        (JsBuild::Uint8Array(a), crate::ipld::IpldTree::Bytes(b)) => a@ == b,
        (JsBuild::Array(a), crate::ipld::IpldTree::List(b)) => {
            &&& a@.len() == b.len()
            &&& forall|i: int| 0 <= i < a@.len() ==> builds(#[trigger] a@[i], b[i])
        },
        (JsBuild::Object(a), crate::ipld::IpldTree::StringMap(b)) => {
            &&& a@.len() == b.len()
            &&& forall|i: int|
                0 <= i < a@.len() ==> (#[trigger] a@[i]).0@ == b[i].0 && builds(a@[i].1, b[i].1)
        },
        (JsBuild::Link(a), crate::ipld::IpldTree::Link(b)) => a == b,
        _ => false,
    }
}

/// The JavaScript value for an IPLD value.
pub fn ipld_to_js_value(ipld: IpldValue) -> (res: JsBuild)
    ensures
        builds(res, ipld.tree()),
        match ipld {
            IpldValue::Null => res == JsBuild::Null,
            IpldValue::Bool(b) => res == JsBuild::Bool(b),
            IpldValue::Integer(i) => res == JsBuild::Integer(i),
            IpldValue::Float(bits) => res == JsBuild::Float(bits),
            IpldValue::String(s) => res == JsBuild::String(s),
            IpldValue::Bytes(bytes) => res == JsBuild::Uint8Array(bytes),
            IpldValue::List(list) => res matches JsBuild::Array(array) && array@.len()
                == list@.len(),
            IpldValue::StringMap(map) => res matches JsBuild::Object(object) && object@.len()
                == map@.len() && forall|k: int|
                0 <= k < map@.len() ==> (#[trigger] object@[k]).0@ == map@[k].0@,
            IpldValue::Link(link) => res == JsBuild::Link(link),
        },
    decreases ipld,
{
    match ipld {
        IpldValue::Null => JsBuild::Null,
        IpldValue::Bool(b) => JsBuild::Bool(b),
        IpldValue::Integer(i) => JsBuild::Integer(i),
        IpldValue::Float(bits) => JsBuild::Float(bits),
        IpldValue::String(s) => JsBuild::String(s),
        IpldValue::Bytes(bytes) => JsBuild::Uint8Array(bytes),
        IpldValue::List(list) => {
            let mut array: Vec<JsBuild> = Vec::new();
            for item in iter: list
                invariant
                    ipld == IpldValue::List(list),
                    iter.seq() == list@,
                    array@.len() == iter.index(),
                    forall|k: int|
                        0 <= k < array@.len() ==> builds(#[trigger] array@[k], list@[k].tree()),
            {
                assert(decreases_to!(ipld => ipld->List_0@[iter.index()]));
                array.push(ipld_to_js_value(item));
            }
            JsBuild::Array(array)
        },
        IpldValue::StringMap(map) => {
            let mut object: Vec<(String, JsBuild)> = Vec::new();
            for entry in iter: map
                invariant
                    ipld == IpldValue::StringMap(map),
                    iter.seq() == map@,
                    object@.len() == iter.index(),
                    forall|k: int|
                        0 <= k < object@.len() ==> (#[trigger] object@[k]).0@ == map@[k].0@
                            && builds(object@[k].1, map@[k].1.tree()),
            {
                assert(decreases_to!(ipld => ipld->StringMap_0@[iter.index()].1));
                let (key, value) = entry;
                object.push((key, ipld_to_js_value(value)));
            }
            JsBuild::Object(object)
        },
        IpldValue::Link(link) => JsBuild::Link(link),
    }
}

/// What deserializes directly is taken as it is, whatever kind of value it is.
pub proof fn law_direct_deserialization_is_kept(value: JsValue, ipld: IpldValue)
    requires
        value.converted == Some(ipld),
    ensures
        js_tree(value) == ipld.tree(),
        js_ok(value) <==> crate::ipld::tree_ok(ipld.tree()),
{
}

/// Other values keep their kind, and their number, truth value or text as it is; what is
/// undefined becomes null.
pub proof fn law_kinds_of_values_are_kept(value: JsValue)
    requires
        value.converted is None,
    ensures
        value.shape is Undefined || value.shape is Null ==> js_tree(value)
            == crate::ipld::IpldTree::Null,
        value.shape matches JsShape::Bool(b) ==> js_tree(value) == crate::ipld::IpldTree::Bool(b),
        value.shape matches JsShape::Integer(i) ==> js_tree(value)
            == crate::ipld::IpldTree::Integer(i),
        value.shape matches JsShape::Float(bits) ==> js_tree(value)
            == crate::ipld::IpldTree::Float(crate::ipld::float_of(bits)),
        value.shape matches JsShape::String(s) ==> js_tree(value)
            == crate::ipld::IpldTree::String(s@),
        value.shape matches JsShape::Array(items) ==> (js_tree(value)
            matches crate::ipld::IpldTree::List(trees) && trees.len() == items@.len()
            && forall|i: int| 0 <= i < trees.len() ==> #[trigger] trees[i] == js_tree(items@[i])),
        !(value.shape is Array) && !(value.shape is Object) ==> js_ok(value),
{
}

/// An object has an entry for each of its properties that counts: one with a string for a key
/// and a value that can be read and is not undefined, behind which no such property has its key.
pub proof fn law_properties_are_entries(
    value: JsValue,
    properties: Vec<JsProperty>,
    at: int,
    key: String,
    part: JsValue,
)
    requires
        value.converted is None,
        value.shape == JsShape::Object(properties),
        0 <= at < properties@.len(),
        properties@[at].key == Some(key),
        properties@[at].value == Some(part),
        !(part.shape is Undefined),
        forall|j: int|
            at < j < properties@.len() ==> match ((#[trigger] properties@[j]).key, properties@[j].value) {
                (Some(other), Some(behind)) => other@ != key@ || behind.shape is Undefined,
                _ => true,
            },
    ensures
        js_tree(value) matches crate::ipld::IpldTree::StringMap(entries) && exists|k: int|
            0 <= k < entries.len() && (#[trigger] entries[k]).0 == key@ && entries[k].1 == js_tree(
                part,
            ),
{
    assert(is_last(properties@, at));
    lemma_last_part(properties@, key@);
    assert(last_part(properties@, key@) is Some);
    let k = choose|k: int| #[trigger]
        is_last(properties@, k) && properties@[k].key->Some_0@ == key@ && js_tree(
            properties@[k].value->Some_0,
        ) == last_part(properties@, key@)->Some_0;
    lemma_one_is_last(properties@, at, k);
    law_object_entries(properties@, key@, js_tree(part));
    let entries = object_entries(properties@);
    assert(has_entry(entries, key@, js_tree(part)));
    let i = choose|i: int| 0 <= i < entries.len() && #[trigger] entries[i] == (key@, js_tree(part));
    assert(js_tree(value)->StringMap_0[i] == (key@, js_tree(part)));
}

/// An object has no other entries, and has them by increasing key.
pub proof fn law_entries_are_properties(value: JsValue, properties: Vec<JsProperty>, at: int)
    requires
        value.converted is None,
        value.shape == JsShape::Object(properties),
        js_tree(value) matches crate::ipld::IpldTree::StringMap(entries) ==> 0 <= at
            < entries.len(),
    ensures
        js_tree(value) matches crate::ipld::IpldTree::StringMap(entries) && {
            &&& forall|i: int, j: int|
                0 <= i < j < entries.len() ==> crate::text::precedes(
                    (#[trigger] entries[i]).0,
                    (#[trigger] entries[j]).0,
                )
            &&& exists|i: int|
                0 <= i < properties@.len() && match ((#[trigger] properties@[i]).key, properties@[i].value) {
                    (Some(key), Some(part)) => key@ == entries[at].0 && !(part.shape is Undefined)
                        && js_tree(part) == entries[at].1,
                    _ => false,
                }
        },
{
    let entries = object_entries(properties@);
    let (key, tree) = entries[at];
    assert(entries[at] == (key, tree));
    assert(has_entry(entries, key, tree));
    law_object_entries(properties@, key, tree);
    lemma_last_part(properties@, key);
    let i = choose|i: int| #[trigger]
        is_last(properties@, i) && properties@[i].key->Some_0@ == key && js_tree(
            properties@[i].value->Some_0,
        ) == tree;
    assert(properties@[i].key is Some);
}

/// The JavaScript value for an IPLD value is of its kind, with the number, truth value, text,
/// bytes or link as it is; floats up to which one it is that is not a number.
pub proof fn law_built_values_keep_their_kinds(js: JsBuild, ipld: IpldValue)
    requires
        builds(js, ipld.tree()),
    ensures
        ipld is Null ==> js == JsBuild::Null,
        ipld matches IpldValue::Bool(b) ==> js == JsBuild::Bool(b),
        ipld matches IpldValue::Integer(i) ==> js == JsBuild::Integer(i),
        ipld matches IpldValue::Float(bits) ==> (js matches JsBuild::Float(built)
            && crate::ipld::float_of(built) == crate::ipld::float_of(bits)),
        ipld matches IpldValue::String(s) ==> (js matches JsBuild::String(built) && built@ == s@),
        ipld matches IpldValue::Bytes(bytes) ==> (js matches JsBuild::Uint8Array(built) && built@
            == bytes@),
        ipld matches IpldValue::List(items) ==> (js matches JsBuild::Array(built) && built@.len()
            == items@.len() && forall|i: int|
            0 <= i < items@.len() ==> builds(#[trigger] built@[i], items@[i].tree())),
        ipld matches IpldValue::StringMap(entries) ==> (js matches JsBuild::Object(built)
            && built@.len() == entries@.len() && forall|i: int|
            0 <= i < entries@.len() ==> (#[trigger] built@[i]).0@ == entries@[i].0@ && builds(
                built@[i].1,
                entries@[i].1.tree(),
            )),
        ipld matches IpldValue::Link(link) ==> js == JsBuild::Link(link),
{
    crate::ipld::law_plain_kinds_are_kept(
        ipld->Bool_0,
        ipld->Integer_0,
        ipld->Float_0,
        ipld->String_0,
        ipld->Bytes_0,
        ipld->Link_0,
    );
    crate::ipld::law_parts_are_kept(ipld->List_0, ipld->StringMap_0);
    if let IpldValue::List(items) = ipld {
        let built = js->Array_0;
        assert forall|i: int| 0 <= i < items@.len() implies builds(
            #[trigger] built@[i],
            items@[i].tree(),
        ) by {
            assert(ipld.tree()->List_0[i] == items@[i].tree());
        }
    }
    if let IpldValue::StringMap(entries) = ipld {
        let built = js->Object_0;
        assert forall|i: int| 0 <= i < entries@.len() implies (#[trigger] built@[i]).0@
            == entries@[i].0@ && builds(built@[i].1, entries@[i].1.tree()) by {
            assert(ipld.tree()->StringMap_0[i].1 == entries@[i].1.tree());
        }
    }
}

/// A JavaScript value is the one for one IPLD value only.
pub proof fn law_built_values_tell_values_apart(
    js: JsBuild,
    one: crate::ipld::IpldTree,
    two: crate::ipld::IpldTree,
)
    requires
        builds(js, one),
        builds(js, two),
    ensures
        one == two,
    decreases js,
{
    match js {
        JsBuild::Array(items) => {
            let a = one->List_0;
            let b = two->List_0;
            assert forall|i: int| 0 <= i < a.len() implies a[i] == b[i] by {
                assert(decreases_to!(js => js->Array_0@[i]));
                law_built_values_tell_values_apart(js->Array_0@[i], a[i], b[i]);
            }
            assert(a =~= b);
        },
        JsBuild::Object(entries) => {
            let a = one->StringMap_0;
            let b = two->StringMap_0;
            assert forall|i: int| 0 <= i < a.len() implies a[i] == b[i] by {
                assert(entries@[i].0@ == a[i].0);
                assert(decreases_to!(js => js->Object_0@[i].1));
                law_built_values_tell_values_apart(js->Object_0@[i].1, a[i].1, b[i].1);
            }
            assert(a =~= b);
        },
        _ => {},
    }
}

/// What comes back of a JavaScript value is that value: the same number, truth value or text,
/// null for null and for what is undefined, and of an array what comes back of its items.
pub proof fn law_values_come_back(value: JsValue, js: JsBuild)
    requires
        value.converted is None,
        builds(js, js_tree(value)),
    ensures
        value.shape is Undefined || value.shape is Null ==> js == JsBuild::Null,
        value.shape matches JsShape::Bool(b) ==> js == JsBuild::Bool(b),
        value.shape matches JsShape::Integer(i) ==> js == JsBuild::Integer(i),
        value.shape matches JsShape::Float(bits) ==> (js matches JsBuild::Float(back)
            && crate::ipld::float_of(back) == crate::ipld::float_of(bits)),
        value.shape matches JsShape::String(s) ==> (js matches JsBuild::String(back) && back@
            == s@),
        value.shape matches JsShape::Array(items) ==> (js matches JsBuild::Array(back)
            && back@.len() == items@.len() && forall|i: int|
            0 <= i < items@.len() ==> builds(#[trigger] back@[i], js_tree(items@[i]))),
{
    law_kinds_of_values_are_kept(value);
    if let JsShape::Array(items) = value.shape {
        let back = js->Array_0;
        assert forall|i: int| 0 <= i < items@.len() implies builds(
            #[trigger] back@[i],
            js_tree(items@[i]),
        ) by {
            assert(js_tree(value)->List_0[i] == js_tree(items@[i]));
        }
    }
}

/// Of an object come back its properties that count, each with its key and what comes back of
/// its value, and no others.
pub proof fn law_properties_come_back(value: JsValue, properties: Vec<JsProperty>, js: JsBuild)
    requires
        value.converted is None,
        value.shape == JsShape::Object(properties),
        builds(js, js_tree(value)),
    ensures
        js matches JsBuild::Object(back) && {
            &&& forall|k: int|
                0 <= k < back@.len() ==> exists|i: int|
                    0 <= i < properties@.len() && match ((#[trigger] properties@[i]).key, properties@[i].value) {
                        (Some(key), Some(part)) => key@ == (#[trigger] back@[k]).0@
                            && !(part.shape is Undefined) && builds(back@[k].1, js_tree(part)),
                        _ => false,
                    }
            &&& forall|i: int|
                0 <= i < properties@.len() ==> match ((#[trigger] properties@[i]).key, properties@[i].value) {
                    (Some(key), Some(part)) => part.shape is Undefined || exists|k: int|
                        0 <= k < back@.len() && (#[trigger] back@[k]).0@ == key@,
                    _ => true,
                }
        },
{
    let back = js->Object_0;
    let entries = object_entries(properties@);
    assert(js_tree(value) == crate::ipld::IpldTree::StringMap(entries));
    assert(js == JsBuild::Object(back));
    assert forall|k: int| 0 <= k < back@.len() implies exists|i: int|
        0 <= i < properties@.len() && match ((#[trigger] properties@[i]).key, properties@[i].value) {
            (Some(key), Some(part)) => key@ == (#[trigger] back@[k]).0@ && !(
            part.shape is Undefined) && builds(back@[k].1, js_tree(part)),
            _ => false,
        } by {
        law_entries_are_properties(value, properties, k);
        assert(back@[k].0@ == entries[k].0);
    }
    assert forall|i: int| 0 <= i < properties@.len() implies match ((
    #[trigger] properties@[i]).key, properties@[i].value) {
        (Some(key), Some(part)) => part.shape is Undefined || exists|k: int|
            0 <= k < back@.len() && (#[trigger] back@[k]).0@ == key@,
        _ => true,
    } by {
        if counts(properties@[i]) {
            let key = properties@[i].key->Some_0;
            lemma_key_is_there(properties@, i);
            lemma_last_part(properties@, key@);
            let tree = last_part(properties@, key@)->Some_0;
            law_object_entries(properties@, key@, tree);
            let k = choose|k: int| 0 <= k < entries.len() && #[trigger] entries[k] == (key@, tree);
            assert(back@[k].0@ == entries[k].0);
        }
    }
}

/// A key with a property that counts has a value.
proof fn lemma_key_is_there(properties: Seq<JsProperty>, i: int)
    requires
        0 <= i < properties.len(),
        counts(properties[i]),
    ensures
        last_part(properties, properties[i].key->Some_0@) is Some,
    decreases properties.len(),
{
    if i < properties.len() - 1 {
        assert(properties.drop_last()[i] == properties[i]);
        lemma_key_is_there(properties.drop_last(), i);
    }
}

} // verus!
