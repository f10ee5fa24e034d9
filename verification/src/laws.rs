//! The laws the two operations obey, stated over the model and proved.
use vstd::prelude::*;

use crate::assign::AssignError;
use crate::assign::spec_assign;
use crate::bytesplit::lemma_split_len;
use crate::bytesplit::spec_split;
use crate::resolve::DOT;
use crate::resolve::PathModel;
use crate::resolve::SegLoc;
use crate::resolve::assign_key_at;
use crate::resolve::assign_text_at;
use crate::resolve::digits_val;
use crate::resolve::get_at;
use crate::resolve::lemma_find_idx;
use crate::resolve::lemma_find_idx_same_keys;
use crate::resolve::lemma_store_then_find;
use crate::resolve::locate_key;
use crate::resolve::locate_text;
use crate::resolve::resolve_key;
use crate::resolve::resolve_key_path;
use crate::resolve::resolve_text;
use crate::resolve::resolve_text_path;
use crate::resolve::set_at;
use crate::resolve::spec_gloom;
use crate::resolve::spec_resolve;
use crate::resolve::store_at;
use crate::resolve::write_key;
use crate::resolve::write_text;
use crate::value::KeyModel;
use crate::value::Node;

verus! {

/// Whether the write walk from segment `i` reaches the terminal segment:
/// every non-terminal segment resolves.
pub open spec fn reaches_terminal_text(node: Node, segs: Seq<Seq<u8>>, i: int) -> bool
    decreases segs.len() - i,
{
    if i >= segs.len() - 1 {
        true
    } else {
        match resolve_text(node, segs[i]) {
            Some(sub) => reaches_terminal_text(sub, segs, i + 1),
            None => false,
        }
    }
}

/// Whether the write walk from key `i` reaches the terminal key.
pub open spec fn reaches_terminal_key(node: Node, keys: Seq<KeyModel>, i: int) -> bool
    decreases keys.len() - i,
{
    if i >= keys.len() - 1 {
        true
    } else {
        match resolve_key(node, keys[i]) {
            Some(sub) => reaches_terminal_key(sub, keys, i + 1),
            None => false,
        }
    }
}

/// Whether a write along this path reaches its terminal segment, so that the
/// terminal store is attempted at all.
pub open spec fn reaches_terminal(target: Node, path: PathModel) -> bool {
    match path {
        PathModel::Text(s) => reaches_terminal_text(target, spec_split(s, DOT), 0),
        PathModel::Keys(ks) => ks.len() > 0 && reaches_terminal_key(target, ks, 0),
    }
}

/// After a terminal string-form write, a read of the same segment finds the
/// stored value, and the written node is not null.
proof fn lemma_write_then_resolve_text(node: Node, seg: Seq<u8>, val: Node)
    requires
        write_text(node, seg, val) is Some,
    ensures
        ({
            let w = write_text(node, seg, val)->Some_0;
            resolve_text(w, seg) == Some(val) && !(w is Null)
        }),
{
    if seg.len() == 1 {
        reveal_with_fuel(digits_val, 2);
        assert(seg.drop_last() =~= Seq::<u8>::empty());
        assert(digits_val(seg) == seg[0] - 48);
    }
    match node {
        Node::Mapping(entries) => {
            let k = match spec_single_digit_index_model(seg) {
                Some(d) => KeyModel::Num(d),
                None => KeyModel::Text(seg),
            };
            lemma_store_then_find(entries, k, val);
            lemma_find_idx(store_at(entries, k, val), k);
        }
        Node::Sequence(items) => {
        }
        Node::Object(fields) => {
            lemma_store_then_find(fields, seg, val);
            lemma_find_idx(store_at(fields, seg, val), seg);
        }
        _ => {
        }
    }
}

/// The single-digit fast index of a segment, as a model integer.
pub open spec fn spec_single_digit_index_model(seg: Seq<u8>) -> Option<int> {
    match crate::resolve::spec_single_digit_index(seg) {
        Some(d) => Some(d as int),
        None => None,
    }
}

/// A string-form location points into the node it was computed from.
proof fn lemma_locate_text_bounds(node: Node, seg: Seq<u8>)
    ensures
        match locate_text(node, seg) {
            SegLoc::MapIdx(j) => node is Mapping && 0 <= j < node->Mapping_0.len(),
            SegLoc::SeqIdx(j) => node is Sequence && 0 <= j < node->Sequence_0.len(),
            SegLoc::ObjIdx(j) => node is Object && 0 <= j < node->Object_0.len(),
            SegLoc::Miss => true,
        },
{
    match node {
        Node::Mapping(entries) => {
            match spec_single_digit_index_model(seg) {
                Some(d) => {
                    lemma_find_idx(entries, KeyModel::Num(d));
                }
                None => {
                }
            }
            lemma_find_idx(entries, KeyModel::Text(seg));
        }
        Node::Object(fields) => {
            lemma_find_idx(fields, seg);
        }
        _ => {
        }
    }
}

/// An explicit-form location points into the node it was computed from.
proof fn lemma_locate_key_bounds(node: Node, k: KeyModel)
    ensures
        match locate_key(node, k) {
            SegLoc::MapIdx(j) => node is Mapping && 0 <= j < node->Mapping_0.len(),
            SegLoc::SeqIdx(j) => node is Sequence && 0 <= j < node->Sequence_0.len(),
            SegLoc::ObjIdx(j) => node is Object && 0 <= j < node->Object_0.len(),
            SegLoc::Miss => true,
        },
{
    match node {
        Node::Mapping(entries) => {
            lemma_find_idx(entries, k);
        }
        Node::Object(fields) => {
            if let KeyModel::Text(name) = k {
                lemma_find_idx(fields, name);
            }
        }
        _ => {
        }
    }
}

/// Replacing the subnode at a segment's location moves neither the location
/// nor anything the location's resolution depends on: the same segment still
/// lands there, and now reads the new subnode.
proof fn lemma_set_at_stable_text(node: Node, seg: Seq<u8>, x: Node)
    requires
        !(locate_text(node, seg) is Miss),
    ensures
        ({
            let loc = locate_text(node, seg);
            let w = set_at(node, loc, x);
            locate_text(w, seg) == loc && get_at(w, loc) == Some(x) && !(w is Null)
        }),
{
    let loc = locate_text(node, seg);
    match node {
        Node::Mapping(entries) => {
            if let SegLoc::MapIdx(j) = loc {
                match spec_single_digit_index_model(seg) {
                    Some(d) => {
                        lemma_find_idx(entries, KeyModel::Num(d));
                    }
                    None => {
                    }
                }
                lemma_find_idx(entries, KeyModel::Text(seg));
                assert(0 <= j < entries.len());
                let entries2 = entries.update(j, (entries[j].0, x));
                assert(forall|l: int|
                    0 <= l < entries.len() ==> (#[trigger] entries2[l]).0 == entries[l].0);
                match spec_single_digit_index_model(seg) {
                    Some(d) => {
                        lemma_find_idx_same_keys(entries, entries2, KeyModel::Num(d));
                    }
                    None => {
                    }
                }
                lemma_find_idx_same_keys(entries, entries2, KeyModel::Text(seg));
            }
        }
        Node::Sequence(items) => {
        }
        Node::Object(fields) => {
            if let SegLoc::ObjIdx(j) = loc {
                lemma_find_idx(fields, seg);
                assert(0 <= j < fields.len());
                let fields2 = fields.update(j, (fields[j].0, x));
                assert(forall|l: int|
                    0 <= l < fields.len() ==> (#[trigger] fields2[l]).0 == fields[l].0);
                lemma_find_idx_same_keys(fields, fields2, seg);
            }
        }
        _ => {
        }
    }
}

/// As above, for an explicit-form key.
proof fn lemma_set_at_stable_key(node: Node, k: KeyModel, x: Node)
    requires
        !(locate_key(node, k) is Miss),
    ensures
        ({
            let loc = locate_key(node, k);
            let w = set_at(node, loc, x);
            locate_key(w, k) == loc && get_at(w, loc) == Some(x) && !(w is Null)
        }),
{
    let loc = locate_key(node, k);
    match node {
        Node::Mapping(entries) => {
            if let SegLoc::MapIdx(j) = loc {
                lemma_find_idx(entries, k);
                let entries2 = entries.update(j, (entries[j].0, x));
                assert(forall|l: int|
                    0 <= l < entries.len() ==> (#[trigger] entries2[l]).0 == entries[l].0);
                lemma_find_idx_same_keys(entries, entries2, k);
            }
        }
        Node::Object(fields) => {
            if let SegLoc::ObjIdx(j) = loc {
                if let KeyModel::Text(name) = k {
                    lemma_find_idx(fields, name);
                    let fields2 = fields.update(j, (fields[j].0, x));
                    assert(forall|l: int|
                        0 <= l < fields.len() ==> (#[trigger] fields2[l]).0 == fields[l].0);
                    lemma_find_idx_same_keys(fields, fields2, name);
                }
            }
        }
        _ => {
        }
    }
}

/// After a terminal explicit-form write, a read of the same key finds the
/// stored value, and the written node is not null.
proof fn lemma_write_then_resolve_key(node: Node, k: KeyModel, val: Node)
    requires
        write_key(node, k, val) is Some,
    ensures
        ({
            let w = write_key(node, k, val)->Some_0;
            resolve_key(w, k) == Some(val) && !(w is Null)
        }),
{
    match node {
        Node::Mapping(entries) => {
            lemma_store_then_find(entries, k, val);
            lemma_find_idx(store_at(entries, k, val), k);
        }
        Node::Object(fields) => {
            if let KeyModel::Text(name) = k {
                lemma_store_then_find(fields, name, val);
                lemma_find_idx(store_at(fields, name, val), name);
            }
        }
        _ => {
        }
    }
}

/// Putting back the very subnode a location holds changes nothing.
proof fn lemma_set_at_same(node: Node, loc: SegLoc, sub: Node)
    requires
        get_at(node, loc) == Some(sub),
        match loc {
            SegLoc::MapIdx(j) => node is Mapping && 0 <= j < node->Mapping_0.len(),
            SegLoc::SeqIdx(j) => node is Sequence && 0 <= j < node->Sequence_0.len(),
            SegLoc::ObjIdx(j) => node is Object && 0 <= j < node->Object_0.len(),
            SegLoc::Miss => true,
        },
    ensures
        set_at(node, loc, sub) == node,
{
    match (node, loc) {
        (Node::Mapping(entries), SegLoc::MapIdx(j)) => {
            assert((entries[j].0, sub) =~~= entries[j]);
            assert(entries.update(j, (entries[j].0, sub)) =~~= entries);
            assert(set_at(node, loc, sub) =~~= node);
        }
        (Node::Sequence(items), SegLoc::SeqIdx(j)) => {
            assert(items.update(j, sub) =~~= items);
            assert(set_at(node, loc, sub) =~~= node);
        }
        (Node::Object(fields), SegLoc::ObjIdx(j)) => {
            assert((fields[j].0, sub) =~~= fields[j]);
            assert(fields.update(j, (fields[j].0, sub)) =~~= fields);
            assert(set_at(node, loc, sub) =~~= node);
        }
        _ => {
        }
    }
}

/// A string-form write that reached its terminal segment and was accepted
/// leaves a root in which the same path reads back the stored value.
proof fn lemma_assign_resolves_text(node: Node, segs: Seq<Seq<u8>>, i: int, val: Node)
    requires
        0 <= i < segs.len(),
        reaches_terminal_text(node, segs, i),
        assign_text_at(node, segs, i, val) is Some,
    ensures
        ({
            let w = assign_text_at(node, segs, i, val)->Some_0;
            resolve_text_path(w, segs, i) == Some(val) && !(w is Null)
        }),
    decreases segs.len() - i,
{
    if i == segs.len() - 1 {
        lemma_write_then_resolve_text(node, segs[i], val);
        let w = write_text(node, segs[i], val)->Some_0;
        assert(assign_text_at(node, segs, i, val) == Some(w));
        assert(resolve_text_path(val, segs, i + 1) == Some(val));
        assert(resolve_text_path(w, segs, i) == Some(val));
    } else {
        let loc = locate_text(node, segs[i]);
        let sub = get_at(node, loc)->Some_0;
        assert(resolve_text(node, segs[i]) == Some(sub));
        assert(reaches_terminal_text(sub, segs, i + 1));
        assert(assign_text_at(sub, segs, i + 1, val) is Some);
        lemma_assign_resolves_text(sub, segs, i + 1, val);
        let sub2 = assign_text_at(sub, segs, i + 1, val)->Some_0;
        lemma_set_at_stable_text(node, segs[i], sub2);
        let w = set_at(node, loc, sub2);
        assert(assign_text_at(node, segs, i, val) == Some(w));
        assert(resolve_text(w, segs[i]) == Some(sub2));
        assert(resolve_text_path(w, segs, i) == resolve_text_path(sub2, segs, i + 1));
    }
}

/// As above, for an explicit-form write.
proof fn lemma_assign_resolves_key(node: Node, keys: Seq<KeyModel>, i: int, val: Node)
    requires
        0 <= i < keys.len(),
        reaches_terminal_key(node, keys, i),
        assign_key_at(node, keys, i, val) is Some,
    ensures
        ({
            let w = assign_key_at(node, keys, i, val)->Some_0;
            resolve_key_path(w, keys, i) == Some(val) && !(w is Null)
        }),
    decreases keys.len() - i,
{
    if i == keys.len() - 1 {
        lemma_write_then_resolve_key(node, keys[i], val);
        let w = write_key(node, keys[i], val)->Some_0;
        assert(assign_key_at(node, keys, i, val) == Some(w));
        assert(resolve_key_path(val, keys, i + 1) == Some(val));
        assert(resolve_key_path(w, keys, i) == Some(val));
    } else {
        let loc = locate_key(node, keys[i]);
        let sub = get_at(node, loc)->Some_0;
        assert(resolve_key(node, keys[i]) == Some(sub));
        assert(reaches_terminal_key(sub, keys, i + 1));
        assert(assign_key_at(sub, keys, i + 1, val) is Some);
        lemma_assign_resolves_key(sub, keys, i + 1, val);
        let sub2 = assign_key_at(sub, keys, i + 1, val)->Some_0;
        lemma_set_at_stable_key(node, keys[i], sub2);
        let w = set_at(node, loc, sub2);
        assert(assign_key_at(node, keys, i, val) == Some(w));
        assert(resolve_key(w, keys[i]) == Some(sub2));
        assert(resolve_key_path(w, keys, i) == resolve_key_path(sub2, keys, i + 1));
    }
}

/// A string-form write whose walk misses before the terminal segment changes
/// nothing.
proof fn lemma_assign_miss_noop_text(node: Node, segs: Seq<Seq<u8>>, i: int, val: Node)
    requires
        0 <= i < segs.len(),
        !reaches_terminal_text(node, segs, i),
    ensures
        assign_text_at(node, segs, i, val) == Some(node),
    decreases segs.len() - i,
{
    let loc = locate_text(node, segs[i]);
    lemma_locate_text_bounds(node, segs[i]);
    match get_at(node, loc) {
        Some(sub) => {
            lemma_assign_miss_noop_text(sub, segs, i + 1, val);
            lemma_set_at_same(node, loc, sub);
        }
        None => {
        }
    }
}

/// As above, for an explicit-form write.
proof fn lemma_assign_miss_noop_key(node: Node, keys: Seq<KeyModel>, i: int, val: Node)
    requires
        0 <= i < keys.len(),
        !reaches_terminal_key(node, keys, i),
    ensures
        assign_key_at(node, keys, i, val) == Some(node),
    decreases keys.len() - i,
{
    let loc = locate_key(node, keys[i]);
    lemma_locate_key_bounds(node, keys[i]);
    match get_at(node, loc) {
        Some(sub) => {
            lemma_assign_miss_noop_key(sub, keys, i + 1, val);
            lemma_set_at_same(node, loc, sub);
        }
        None => {
        }
    }
}

/// Law: when every segment resolves, the read returns exactly the node
/// reached, independent of the default.
pub proof fn lemma_get_ignores_default(target: Node, path: PathModel, d1: Node, d2: Node)
    requires
        !(target is Null),
        spec_resolve(target, path) is Some,
    ensures
        spec_gloom(target, path, d1) == spec_gloom(target, path, d2),
        Some(spec_gloom(target, path, d1)) == spec_resolve(target, path),
{
}

/// Law: a read against a null root returns the default, whatever the path.
pub proof fn lemma_get_null_root(path: PathModel, d: Node)
    ensures
        spec_gloom(Node::Null, path, d) == d,
{
}

/// Law: a path with an unresolvable segment reads as the default.
pub proof fn lemma_get_miss_default(target: Node, path: PathModel, d: Node)
    requires
        spec_resolve(target, path) is None,
    ensures
        spec_gloom(target, path, d) == d,
{
}

/// Law: a write to a null root is an illegal-root error, whatever the path
/// and the value.
pub proof fn lemma_assign_null_root(path: PathModel, val: Node)
    ensures
        spec_assign(Node::Null, path, val) == Err::<Node, AssignError>(AssignError::IllegalRoot),
{
}

/// Law: after a write that reaches its terminal segment and is accepted, a
/// read of the same path returns the stored value, whatever the default.
pub proof fn lemma_assign_then_get(target: Node, path: PathModel, val: Node, d: Node)
    requires
        reaches_terminal(target, path),
        spec_assign(target, path, val) is Ok,
    ensures
        spec_gloom(spec_assign(target, path, val)->Ok_0, path, d) == val,
{
    match path {
        PathModel::Text(s) => {
            lemma_split_len(s, DOT);
            lemma_assign_resolves_text(target, spec_split(s, DOT), 0, val);
        }
        PathModel::Keys(ks) => {
            lemma_assign_resolves_key(target, ks, 0, val);
        }
    }
}

/// Law: a write whose walk misses before the terminal segment returns the
/// root unchanged and raises no error.
pub proof fn lemma_assign_miss_noop(target: Node, path: PathModel, val: Node)
    requires
        !(target is Null),
        !reaches_terminal(target, path),
    ensures
        spec_assign(target, path, val) == Ok::<Node, AssignError>(target),
{
    match path {
        PathModel::Text(s) => {
            lemma_split_len(s, DOT);
            lemma_assign_miss_noop_text(target, spec_split(s, DOT), 0, val);
        }
        PathModel::Keys(ks) => {
            if ks.len() > 0 {
                lemma_assign_miss_noop_key(target, ks, 0, val);
            }
        }
    }
}

} // verus!
