//! The mathematical model of path resolution and mutation: how a node and a
//! segment select exactly one access strategy, by a fixed priority order, and
//! what a read or a write at that segment yields.
//!
//! String-form segments are probed in this order: a segment of exactly one
//! ASCII digit first attempts a generic indexed access (an integer index
//! against a sequence, or an integer key against a mapping); on failure it
//! falls through to the general classification. The general classification is
//! exclusive: a mapping is addressed by the segment text as key; otherwise an
//! all-digit segment is parsed to a sequence index; otherwise the segment
//! names an object field. Explicit-form segments carry their own type: a
//! mapping is addressed by the key as it is, otherwise text names a field and
//! an integer indexes a sequence. A terminal write selects its strategy by
//! the same priority; an all-digit terminal segment is always parsed to an
//! integer index before a sequence store, mirroring intermediate traversal.
use vstd::prelude::*;

use crate::value::Key;
use crate::value::KeyModel;
use crate::value::Node;
use crate::value::keys_dv;

verus! {

/// The path delimiter, the ASCII full stop.
pub const DOT: u8 = 46;

/// Whether a byte is an ASCII digit.
pub open spec fn is_digit(b: u8) -> bool {
    48 <= b <= 57
}

/// Whether every byte of a segment is an ASCII digit (true of the empty
/// segment).
pub open spec fn all_digits(s: Seq<u8>) -> bool {
    forall|i: int| 0 <= i < s.len() ==> is_digit(#[trigger] s[i])
}

/// The index named by a segment of exactly one ASCII digit, if it is one.
pub open spec fn spec_single_digit_index(s: Seq<u8>) -> Option<usize> {
    if s.len() == 1 && is_digit(s[0]) {
        Some((s[0] - 48) as usize)
    } else {
        None
    }
}

/// The numeric value of a digit string, most significant digit first.
pub open spec fn digits_val(s: Seq<u8>) -> int
    decreases s.len(),
{
    if s.len() == 0 {
        0
    } else {
        digits_val(s.drop_last()) * 10 + (s.last() - 48)
    }
}

/// The sequence index a segment parses to: defined only for a nonempty
/// all-digit segment whose value fits in `usize`.
pub open spec fn parse_index_spec(s: Seq<u8>) -> Option<usize> {
    if s.len() > 0 && all_digits(s) && digits_val(s) <= usize::MAX {
        Some(digits_val(s) as usize)
    } else {
        None
    }
}

/// The index of the first entry with the given key, if any.
pub open spec fn find_idx<K, V>(entries: Seq<(K, V)>, k: K) -> Option<int>
    decreases entries.len(),
{
    if entries.len() == 0 {
        None
    } else if entries[0].0 == k {
        Some(0int)
    } else {
        match find_idx(entries.drop_first(), k) {
            Some(j) => Some(j + 1),
            None => None,
        }
    }
}

/// The value stored under the given key, if any.
pub open spec fn find_val<K, V>(entries: Seq<(K, V)>, k: K) -> Option<V> {
    match find_idx(entries, k) {
        Some(j) => Some(entries[j].1),
        None => None,
    }
}

/// A store under a key: the first matching entry is replaced, or a new entry
/// is appended.
pub open spec fn store_at<K, V>(entries: Seq<(K, V)>, k: K, v: V) -> Seq<(K, V)> {
    match find_idx(entries, k) {
        Some(j) => entries.update(j, (k, v)),
        None => entries.push((k, v)),
    }
}

/// `find_idx` names the first matching entry and nothing before it.
pub proof fn lemma_find_idx<K, V>(entries: Seq<(K, V)>, k: K)
    ensures
        match find_idx(entries, k) {
            Some(j) => 0 <= j < entries.len() && entries[j].0 == k && (forall|l: int|
                0 <= l < j ==> (#[trigger] entries[l]).0 != k),
            None => forall|l: int| 0 <= l < entries.len() ==> (#[trigger] entries[l]).0 != k,
        },
    decreases entries.len(),
{
    if entries.len() > 0 && entries[0].0 != k {
        lemma_find_idx(entries.drop_first(), k);
        assert(forall|l: int|
            1 <= l < entries.len() ==> #[trigger] entries[l] == entries.drop_first()[l - 1]);
    }
}

/// The first matching entry determines `find_idx`.
pub proof fn lemma_find_idx_unique<K, V>(entries: Seq<(K, V)>, k: K, j: int)
    requires
        0 <= j < entries.len(),
        entries[j].0 == k,
        forall|l: int| 0 <= l < j ==> (#[trigger] entries[l]).0 != k,
    ensures
        find_idx(entries, k) == Some(j),
    decreases entries.len(),
{
    if j > 0 {
        lemma_find_idx_unique(entries.drop_first(), k, j - 1);
        assert(forall|l: int|
            1 <= l < entries.len() ==> #[trigger] entries[l] == entries.drop_first()[l - 1]);
    }
}

/// Entry sequences with equal keys agree on `find_idx`, for every key.
pub proof fn lemma_find_idx_same_keys<K, V>(a: Seq<(K, V)>, b: Seq<(K, V)>, k: K)
    requires
        a.len() == b.len(),
        forall|i: int| 0 <= i < a.len() ==> (#[trigger] a[i]).0 == (#[trigger] b[i]).0,
    ensures
        find_idx(a, k) == find_idx(b, k),
    decreases a.len(),
{
    if a.len() > 0 {
        lemma_find_idx_same_keys(a.drop_first(), b.drop_first(), k);
        assert(forall|l: int| 1 <= l < a.len() ==> #[trigger] a[l] == a.drop_first()[l - 1]);
        assert(forall|l: int| 1 <= l < b.len() ==> #[trigger] b[l] == b.drop_first()[l - 1]);
    }
}

/// After a store, a lookup of the same key finds the stored value.
pub proof fn lemma_store_then_find<K, V>(entries: Seq<(K, V)>, k: K, v: V)
    ensures
        find_val(store_at(entries, k, v), k) == Some(v),
{
    lemma_find_idx(entries, k);
    match find_idx(entries, k) {
        Some(j) => {
            lemma_find_idx_unique(entries.update(j, (k, v)), k, j);
        }
        None => {
            lemma_find_idx_unique(entries.push((k, v)), k, entries.len() as int);
        }
    }
}

/// The single access strategy the prober selects for a node and a segment.
pub enum Strategy {
    Mapping,
    Sequence,
    Attribute,
}

/// The general classification of a string-form segment against a node, by
/// fixed priority: a mapping is keyed by the segment text; otherwise an
/// all-digit segment indexes a sequence; otherwise the segment names a field.
pub open spec fn classify_text(node: Node, seg: Seq<u8>) -> Strategy {
    if node is Mapping {
        Strategy::Mapping
    } else if all_digits(seg) {
        Strategy::Sequence
    } else {
        Strategy::Attribute
    }
}

/// The classification of an explicit-form key against a node: a mapping is
/// keyed by the key as it is; otherwise text names a field and an integer
/// indexes a sequence.
pub open spec fn classify_key(node: Node, k: KeyModel) -> Strategy {
    if node is Mapping {
        Strategy::Mapping
    } else if k is Text {
        Strategy::Attribute
    } else {
        Strategy::Sequence
    }
}

/// Where one segment lands in a node: a mapping entry, a sequence slot, an
/// object field, or nowhere.
pub enum SegLoc {
    MapIdx(int),
    SeqIdx(int),
    ObjIdx(int),
    Miss,
}

/// Where a generic indexed access by integer `i` lands: a slot of a sequence,
/// or an integer-keyed entry of a mapping.
pub open spec fn index_locate(node: Node, i: int) -> SegLoc {
    match node {
        Node::Sequence(items) => if 0 <= i < items.len() {
            SegLoc::SeqIdx(i)
        } else {
            SegLoc::Miss
        },
        Node::Mapping(entries) => match find_idx(entries, KeyModel::Num(i)) {
            Some(j) => SegLoc::MapIdx(j),
            None => SegLoc::Miss,
        },
        _ => SegLoc::Miss,
    }
}

/// Where a string-form segment lands in a node: the single-digit fast path
/// first, then the general classification on its failure.
pub open spec fn locate_text(node: Node, seg: Seq<u8>) -> SegLoc {
    let fast = match spec_single_digit_index(seg) {
        Some(d) => index_locate(node, d as int),
        None => SegLoc::Miss,
    };
    if !(fast is Miss) {
        fast
    } else {
        match classify_text(node, seg) {
            Strategy::Mapping => match node {
                Node::Mapping(entries) => match find_idx(entries, KeyModel::Text(seg)) {
                    Some(j) => SegLoc::MapIdx(j),
                    None => SegLoc::Miss,
                },
                _ => SegLoc::Miss,
            },
            Strategy::Sequence => match (node, parse_index_spec(seg)) {
                (Node::Sequence(items), Some(ix)) => if ix < items.len() {
                    SegLoc::SeqIdx(ix as int)
                } else {
                    SegLoc::Miss
                },
                _ => SegLoc::Miss,
            },
            Strategy::Attribute => match node {
                Node::Object(fields) => match find_idx(fields, seg) {
                    Some(j) => SegLoc::ObjIdx(j),
                    None => SegLoc::Miss,
                },
                _ => SegLoc::Miss,
            },
        }
    }
}

/// Where an explicit-form key lands in a node. There is no fast path: the
/// key's own type is authoritative.
pub open spec fn locate_key(node: Node, k: KeyModel) -> SegLoc {
    match classify_key(node, k) {
        Strategy::Mapping => match node {
            Node::Mapping(entries) => match find_idx(entries, k) {
                Some(j) => SegLoc::MapIdx(j),
                None => SegLoc::Miss,
            },
            _ => SegLoc::Miss,
        },
        Strategy::Attribute => match (node, k) {
            (Node::Object(fields), KeyModel::Text(name)) => match find_idx(fields, name) {
                Some(j) => SegLoc::ObjIdx(j),
                None => SegLoc::Miss,
            },
            _ => SegLoc::Miss,
        },
        Strategy::Sequence => match (node, k) {
            (Node::Sequence(items), KeyModel::Num(n)) => if 0 <= n < items.len() {
                SegLoc::SeqIdx(n)
            } else {
                SegLoc::Miss
            },
            _ => SegLoc::Miss,
        },
    }
}

/// The subnode at a location.
pub open spec fn get_at(node: Node, loc: SegLoc) -> Option<Node> {
    match (node, loc) {
        (Node::Mapping(entries), SegLoc::MapIdx(j)) => Some(entries[j].1),
        (Node::Sequence(items), SegLoc::SeqIdx(j)) => Some(items[j]),
        (Node::Object(fields), SegLoc::ObjIdx(j)) => Some(fields[j].1),
        _ => None,
    }
}

/// The node with the subnode at a location replaced. Keys and field names are
/// untouched; a miss leaves the node as it is.
pub open spec fn set_at(node: Node, loc: SegLoc, sub: Node) -> Node {
    match (node, loc) {
        (Node::Mapping(entries), SegLoc::MapIdx(j)) => Node::Mapping(
            entries.update(j, (entries[j].0, sub)),
        ),
        (Node::Sequence(items), SegLoc::SeqIdx(j)) => Node::Sequence(items.update(j, sub)),
        (Node::Object(fields), SegLoc::ObjIdx(j)) => Node::Object(
            fields.update(j, (fields[j].0, sub)),
        ),
        _ => node,
    }
}

/// One string-form read step.
pub open spec fn resolve_text(node: Node, seg: Seq<u8>) -> Option<Node> {
    get_at(node, locate_text(node, seg))
}

/// One explicit-form read step.
pub open spec fn resolve_key(node: Node, k: KeyModel) -> Option<Node> {
    get_at(node, locate_key(node, k))
}

/// The read walk over string-form segments, from segment `i` on: the node
/// reached, or nothing on the first segment that fails to resolve.
pub open spec fn resolve_text_path(node: Node, segs: Seq<Seq<u8>>, i: int) -> Option<Node>
    decreases segs.len() - i,
{
    if i < 0 || i >= segs.len() {
        Some(node)
    } else {
        match resolve_text(node, segs[i]) {
            Some(sub) => resolve_text_path(sub, segs, i + 1),
            None => None,
        }
    }
}

/// The read walk over explicit-form keys, from key `i` on.
pub open spec fn resolve_key_path(node: Node, keys: Seq<KeyModel>, i: int) -> Option<Node>
    decreases keys.len() - i,
{
    if i < 0 || i >= keys.len() {
        Some(node)
    } else {
        match resolve_key(node, keys[i]) {
            Some(sub) => resolve_key_path(sub, keys, i + 1),
            None => None,
        }
    }
}

/// The terminal write of a string-form segment under the general
/// classification: a mapping stores under the segment text; an all-digit
/// segment is parsed and stores into a sequence slot in range; otherwise an
/// object stores the named field. Anything else rejects the write.
pub open spec fn write_text_general(node: Node, seg: Seq<u8>, val: Node) -> Option<Node> {
    match classify_text(node, seg) {
        Strategy::Mapping => match node {
            Node::Mapping(entries) => Some(
                Node::Mapping(store_at(entries, KeyModel::Text(seg), val)),
            ),
            _ => None,
        },
        Strategy::Sequence => match (node, parse_index_spec(seg)) {
            (Node::Sequence(items), Some(ix)) => if ix < items.len() {
                Some(Node::Sequence(items.update(ix as int, val)))
            } else {
                None
            },
            _ => None,
        },
        Strategy::Attribute => match node {
            Node::Object(fields) => Some(Node::Object(store_at(fields, seg, val))),
            _ => None,
        },
    }
}

/// The terminal write of a string-form segment: a segment of one ASCII digit
/// against a mapping stores under the integer key, as the generic indexed
/// store would; everything else follows the general classification. On a
/// sequence the fast path and the general rule agree, so only the mapping
/// case is special.
pub open spec fn write_text(node: Node, seg: Seq<u8>, val: Node) -> Option<Node> {
    match (spec_single_digit_index(seg), node) {
        (Some(d), Node::Mapping(entries)) => Some(
            Node::Mapping(store_at(entries, KeyModel::Num(d as int), val)),
        ),
        _ => write_text_general(node, seg, val),
    }
}

/// The terminal write of an explicit-form key: a mapping stores under the key
/// as it is; text stores a named field of an object; an integer stores into a
/// sequence slot in range. Anything else rejects the write.
pub open spec fn write_key(node: Node, k: KeyModel, val: Node) -> Option<Node> {
    match classify_key(node, k) {
        Strategy::Mapping => match node {
            Node::Mapping(entries) => Some(Node::Mapping(store_at(entries, k, val))),
            _ => None,
        },
        Strategy::Attribute => match (node, k) {
            (Node::Object(fields), KeyModel::Text(name)) => Some(
                Node::Object(store_at(fields, name, val)),
            ),
            _ => None,
        },
        Strategy::Sequence => match (node, k) {
            (Node::Sequence(items), KeyModel::Num(n)) => if 0 <= n < items.len() {
                Some(Node::Sequence(items.update(n, val)))
            } else {
                None
            },
            _ => None,
        },
    }
}

/// The write walk over string-form segments from segment `i` on: the new
/// node, or nothing when the terminal write is rejected. A non-terminal
/// segment that fails to resolve leaves the node exactly as it was.
pub open spec fn assign_text_at(node: Node, segs: Seq<Seq<u8>>, i: int, val: Node) -> Option<Node>
    decreases segs.len() - i,
{
    if i < 0 || i >= segs.len() {
        Some(node)
    } else if i == segs.len() - 1 {
        write_text(node, segs[i], val)
    } else {
        let loc = locate_text(node, segs[i]);
        match get_at(node, loc) {
            Some(sub) => match assign_text_at(sub, segs, i + 1, val) {
                Some(sub2) => Some(set_at(node, loc, sub2)),
                None => None,
            },
            None => Some(node),
        }
    }
}

/// The write walk over explicit-form keys from key `i` on. An empty key list
/// writes nothing and leaves the node as it was.
pub open spec fn assign_key_at(node: Node, keys: Seq<KeyModel>, i: int, val: Node) -> Option<Node>
    decreases keys.len() - i,
{
    if i < 0 || i >= keys.len() {
        Some(node)
    } else if i == keys.len() - 1 {
        write_key(node, keys[i], val)
    } else {
        let loc = locate_key(node, keys[i]);
        match get_at(node, loc) {
            Some(sub) => match assign_key_at(sub, keys, i + 1, val) {
                Some(sub2) => Some(set_at(node, loc, sub2)),
                None => None,
            },
            None => Some(node),
        }
    }
}

/// A path, as the caller hands it over: either a dot-delimited string, or an
/// explicit ordered list of typed keys.
pub enum Path {
    Text(Vec<u8>),
    Keys(Vec<Key>),
}

/// The mathematical model of a `Path`.
pub enum PathModel {
    Text(Seq<u8>),
    Keys(Seq<KeyModel>),
}

impl Path {
    /// The model of this path.
    pub open spec fn model(self) -> PathModel {
        match self {
            Path::Text(s) => PathModel::Text(s@),
            Path::Keys(ks) => PathModel::Keys(keys_dv(ks@)),
        }
    }
}

/// What a whole path resolves to in a node, if everything resolves.
pub open spec fn spec_resolve(target: Node, path: PathModel) -> Option<Node> {
    match path {
        PathModel::Text(s) => resolve_text_path(target, crate::bytesplit::spec_split(s, DOT), 0),
        PathModel::Keys(ks) => resolve_key_path(target, ks, 0),
    }
}

/// The read operation: the node the path reaches, or the default on a null
/// root or on the first segment that fails to resolve.
pub open spec fn spec_gloom(target: Node, path: PathModel, default: Node) -> Node {
    if target is Null {
        default
    } else {
        match spec_resolve(target, path) {
            Some(n) => n,
            None => default,
        }
    }
}

} // verus!
