//! The data model: nodes of a nested, heterogeneous object graph, and the
//! mathematical model they are viewed as in specifications.
use vstd::prelude::*;

verus! {

broadcast use vstd::seq::axiom_seq_index_decreases;

/// A key of a mapping, or an element of an explicit path: either text or an
/// integer, and the distinction is authoritative.
#[derive(Debug, PartialEq, Eq)]
pub enum Key {
    Text(Vec<u8>),
    Num(i64),
}

/// A node of the object graph. A node exposes at most one of the three access
/// capabilities: `Mapping` (keyed lookup/store), `Sequence` (integer-indexed
/// lookup/store) or `Object` (named-field lookup/store). `Null`, `Num` and
/// `Text` are leaves.
///
/// A mapping is kept as its entries in insertion order; a lookup returns the
/// first entry with a matching key, and a store replaces the first matching
/// entry or appends a new one. The same holds of an object's fields.
#[derive(Debug, PartialEq, Eq)]
pub enum Value {
    Null,
    Num(i64),
    Text(Vec<u8>),
    Mapping(Vec<(Key, Value)>),
    Sequence(Vec<Value>),
    Object(Vec<(Vec<u8>, Value)>),
}

/// The mathematical model of a `Key`.
#[verifier::ext_equal]
pub enum KeyModel {
    Text(Seq<u8>),
    Num(int),
}

/// The mathematical model of a `Value`: the same tree over `Seq` and `int`.
#[verifier::ext_equal]
pub enum Node {
    Null,
    Num(int),
    Text(Seq<u8>),
    Mapping(Seq<(KeyModel, Node)>),
    Sequence(Seq<Node>),
    Object(Seq<(Seq<u8>, Node)>),
}

impl Key {
    /// The model of this key.
    pub open spec fn dv(self) -> KeyModel {
        match self {
            Key::Text(t) => KeyModel::Text(t@),
            Key::Num(n) => KeyModel::Num(n as int),
        }
    }
}

/// The model of a mapping's entries.
pub open spec fn map_dv(entries: Seq<(Key, Value)>) -> Seq<(KeyModel, Node)>
    decreases entries,
{
    Seq::new(
        entries.len(),
        |i: int|
            if 0 <= i < entries.len() {
                (entries[i].0.dv(), entries[i].1.dv())
            } else {
                (KeyModel::Num(0), Node::Null)
            },
    )
}

/// The model of a sequence's items.
pub open spec fn seq_dv(items: Seq<Value>) -> Seq<Node>
    decreases items,
{
    Seq::new(
        items.len(),
        |i: int|
            if 0 <= i < items.len() {
                items[i].dv()
            } else {
                Node::Null
            },
    )
}

/// The model of an object's fields.
pub open spec fn obj_dv(fields: Seq<(Vec<u8>, Value)>) -> Seq<(Seq<u8>, Node)>
    decreases fields,
{
    Seq::new(
        fields.len(),
        |i: int|
            if 0 <= i < fields.len() {
                (fields[i].0@, fields[i].1.dv())
            } else {
                (Seq::empty(), Node::Null)
            },
    )
}

impl Value {
    /// The model of this node: the whole tree, deeply.
    pub open spec fn dv(self) -> Node
        decreases self,
    {
        match self {
            Value::Null => Node::Null,
            Value::Num(n) => Node::Num(n as int),
            Value::Text(t) => Node::Text(t@),
            Value::Mapping(entries) => Node::Mapping(map_dv(entries@)),
            Value::Sequence(items) => Node::Sequence(seq_dv(items@)),
            Value::Object(fields) => Node::Object(obj_dv(fields@)),
        }
    }
}

/// The model of a sequence of keys.
pub open spec fn keys_dv(keys: Seq<Key>) -> Seq<KeyModel> {
    Seq::new(keys.len(), |i: int| keys[i].dv())
}

/// The model of a sequence of path segments.
pub open spec fn segs_dv(segs: Seq<Vec<u8>>) -> Seq<Seq<u8>> {
    Seq::new(segs.len(), |i: int| segs[i]@)
}

} // verus!
