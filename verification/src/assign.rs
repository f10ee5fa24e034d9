//! The mutation engine: walk all but the last segment as a read would, then
//! perform the terminal write by the same priority rule. A null root is an
//! error; a rejected terminal write is an error; a non-terminal segment that
//! fails to resolve makes the whole call a silent no-op.
use vstd::prelude::*;

use vstd::slice::slice_to_vec;

use crate::bytesplit::lemma_split_len;
use crate::bytesplit::spec_split;
use crate::probe::get_single_digit_index;
use crate::probe::is_all_digits;
use crate::probe::map_find;
use crate::probe::obj_find;
use crate::probe::parse_index;
use crate::resolve::DOT;
use crate::resolve::Path;
use crate::resolve::PathModel;
use crate::resolve::assign_key_at;
use crate::resolve::assign_text_at;
use crate::resolve::digits_val;
use crate::resolve::store_at;
use crate::resolve::write_key;
use crate::resolve::write_text;
use crate::value::Key;
use crate::value::Node;
use crate::value::Value;
use crate::value::keys_dv;
use crate::value::map_dv;
use crate::value::obj_dv;
use crate::value::segs_dv;
use crate::value::seq_dv;

verus! {

/// Why a write was refused: the root was null, or the terminal write was
/// rejected by the addressed node.
#[derive(Debug, PartialEq, Eq)]
pub enum AssignError {
    IllegalRoot,
    WriteRejected,
}

/// A write outcome as a result: a rejected write is the error.
pub open spec fn write_result(o: Option<Node>) -> Result<Node, AssignError> {
    match o {
        Some(n) => Ok(n),
        None => Err(AssignError::WriteRejected),
    }
}

/// The model of an executable write result.
pub open spec fn result_dv(r: Result<Value, AssignError>) -> Result<Node, AssignError> {
    match r {
        Ok(v) => Ok(v.dv()),
        Err(e) => Err(e),
    }
}

/// The write operation on the model: an error on a null root or a rejected
/// terminal write, otherwise the root with at most one slot replaced — the
/// root unchanged when a non-terminal segment fails to resolve.
pub open spec fn spec_assign(target: Node, path: PathModel, val: Node) -> Result<
    Node,
    AssignError,
> {
    if target is Null {
        Err(AssignError::IllegalRoot)
    } else {
        match path {
            PathModel::Text(s) => write_result(assign_text_at(target, spec_split(s, DOT), 0, val)),
            PathModel::Keys(ks) => write_result(assign_key_at(target, ks, 0, val)),
        }
    }
}

/// A key equal in model to the given one.
fn copy_key(k: &Key) -> (r: Key)
    ensures
        r.dv() == k.dv(),
{
    match k {
        Key::Text(t) => Key::Text(slice_to_vec(t.as_slice())),
        Key::Num(n) => Key::Num(*n),
    }
}

/// The terminal write of a string-form segment.
fn write_text_step(node: Value, seg: &[u8], val: Value) -> (r: Result<Value, AssignError>)
    ensures
        result_dv(r) == write_result(write_text(node.dv(), seg@, val.dv())),
{
    let ghost vdv = val.dv();
    match node {
        Value::Mapping(mut entries) => {
            let ghost m0 = map_dv(entries@);
            let key = match get_single_digit_index(seg) {
                Some(d) => Key::Num(d as i64),
                None => Key::Text(slice_to_vec(seg)),
            };
            let ghost kdv = key.dv();
            let jopt = map_find(&entries, &key);
            let ghost e0 = entries@;
            match jopt {
                Some(j) => {
                    entries[j] = (key, val);
                }
                None => {
                    entries.push((key, val));
                }
            }
            proof {
                assert(map_dv(entries@) =~= store_at(m0, kdv, vdv));
            }
            Ok(Value::Mapping(entries))
        }
        Value::Sequence(mut items) => {
            proof {
                if seg@.len() == 1 {
                    reveal_with_fuel(digits_val, 2);
                    assert(seg@.drop_last() =~= Seq::<u8>::empty());
                    assert(digits_val(seg@) == seg@[0] - 48);
                }
            }
            let ghost s0 = seq_dv(items@);
            if is_all_digits(seg) {
                match parse_index(seg) {
                    Some(ix) => {
                        if ix < items.len() {
                            items[ix] = val;
                            proof {
                                assert(seq_dv(items@) =~= s0.update(ix as int, vdv));
                            }
                            Ok(Value::Sequence(items))
                        } else {
                            Err(AssignError::WriteRejected)
                        }
                    }
                    None => Err(AssignError::WriteRejected),
                }
            } else {
                Err(AssignError::WriteRejected)
            }
        }
        Value::Object(mut fields) => {
            let ghost f0 = obj_dv(fields@);
            if is_all_digits(seg) {
                Err(AssignError::WriteRejected)
            } else {
                let name = slice_to_vec(seg);
                let jopt = obj_find(&fields, seg);
                match jopt {
                    Some(j) => {
                        fields[j] = (name, val);
                    }
                    None => {
                        fields.push((name, val));
                    }
                }
                proof {
                    assert(obj_dv(fields@) =~= store_at(f0, seg@, vdv));
                }
                Ok(Value::Object(fields))
            }
        }
        _ => Err(AssignError::WriteRejected),
    }
}

/// The terminal write of an explicit-form key.
fn write_key_step(node: Value, k: &Key, val: Value) -> (r: Result<Value, AssignError>)
    ensures
        result_dv(r) == write_result(write_key(node.dv(), k.dv(), val.dv())),
{
    let ghost vdv = val.dv();
    match node {
        Value::Mapping(mut entries) => {
            let ghost m0 = map_dv(entries@);
            let key = copy_key(k);
            let ghost kdv = key.dv();
            let jopt = map_find(&entries, &key);
            match jopt {
                Some(j) => {
                    entries[j] = (key, val);
                }
                None => {
                    entries.push((key, val));
                }
            }
            proof {
                assert(map_dv(entries@) =~= store_at(m0, kdv, vdv));
            }
            Ok(Value::Mapping(entries))
        }
        Value::Object(mut fields) => {
            let ghost f0 = obj_dv(fields@);
            match k {
                Key::Text(name) => {
                    let owned = slice_to_vec(name.as_slice());
                    let jopt = obj_find(&fields, name.as_slice());
                    match jopt {
                        Some(j) => {
                            fields[j] = (owned, val);
                        }
                        None => {
                            fields.push((owned, val));
                        }
                    }
                    proof {
                        assert(obj_dv(fields@) =~= store_at(f0, name@, vdv));
                    }
                    Ok(Value::Object(fields))
                }
                Key::Num(_) => Err(AssignError::WriteRejected),
            }
        }
        Value::Sequence(mut items) => {
            let ghost s0 = seq_dv(items@);
            match k {
                Key::Num(n) => {
                    let nv: i64 = *n;
                    if 0 <= nv && (nv as u64) < (items.len() as u64) {
                        items[nv as usize] = val;
                        proof {
                            assert(seq_dv(items@) =~= s0.update(nv as int, vdv));
                        }
                        Ok(Value::Sequence(items))
                    } else {
                        Err(AssignError::WriteRejected)
                    }
                }
                Key::Text(_) => Err(AssignError::WriteRejected),
            }
        }
        _ => Err(AssignError::WriteRejected),
    }
}

/// The write walk over string-form segments from segment `i` on.
fn assign_text_rec(node: Value, segs: &Vec<Vec<u8>>, i: usize, val: Value) -> (r: Result<
    Value,
    AssignError,
>)
    requires
        i < segs@.len(),
    ensures
        result_dv(r) == write_result(assign_text_at(node.dv(), segs_dv(segs@), i as int, val.dv())),
    decreases segs@.len() - i,
{
    if i == segs.len() - 1 {
        return write_text_step(node, segs[i].as_slice(), val);
    }
    let seg = segs[i].as_slice();
    match node {
        Value::Mapping(mut entries) => {
            let ghost m0 = map_dv(entries@);
            let fast: Option<usize> = match get_single_digit_index(seg) {
                Some(d) => map_find(&entries, &Key::Num(d as i64)),
                None => None,
            };
            let jopt: Option<usize> = match fast {
                Some(j) => Some(j),
                None => map_find(&entries, &Key::Text(slice_to_vec(seg))),
            };
            match jopt {
                Some(j) => {
                    let ghost e0 = entries@;
                    let (k, sub) = entries.remove(j);
                    match assign_text_rec(sub, segs, i + 1, val) {
                        Ok(sub2) => {
                            let ghost s2 = sub2.dv();
                            entries.insert(j, (k, sub2));
                            proof {
                                assert(entries@ =~= e0.update(j as int, (k, e0[j as int].1)).update(
                                    j as int,
                                    (k, entries@[j as int].1),
                                ));
                                assert(map_dv(entries@) =~= m0.update(j as int, (m0[j as int].0, s2)));
                            }
                            Ok(Value::Mapping(entries))
                        }
                        Err(e) => Err(e),
                    }
                }
                None => Ok(Value::Mapping(entries)),
            }
        }
        Value::Sequence(mut items) => {
            proof {
                if seg@.len() == 1 {
                    reveal_with_fuel(digits_val, 2);
                    assert(seg@.drop_last() =~= Seq::<u8>::empty());
                    assert(digits_val(seg@) == seg@[0] - 48);
                }
            }
            let ghost s0 = seq_dv(items@);
            let ixopt: Option<usize> = if is_all_digits(seg) {
                parse_index(seg)
            } else {
                None
            };
            match ixopt {
                Some(ix) => {
                    if ix < items.len() {
                        let ghost i0 = items@;
                        let sub = items.remove(ix);
                        match assign_text_rec(sub, segs, i + 1, val) {
                            Ok(sub2) => {
                                let ghost s2 = sub2.dv();
                                items.insert(ix, sub2);
                                proof {
                                    assert(items@ =~= i0.update(ix as int, items@[ix as int]));
                                    assert(seq_dv(items@) =~= s0.update(ix as int, s2));
                                }
                                Ok(Value::Sequence(items))
                            }
                            Err(e) => Err(e),
                        }
                    } else {
                        Ok(Value::Sequence(items))
                    }
                }
                None => Ok(Value::Sequence(items)),
            }
        }
        Value::Object(mut fields) => {
            let ghost f0 = obj_dv(fields@);
            let jopt: Option<usize> = if is_all_digits(seg) {
                None
            } else {
                obj_find(&fields, seg)
            };
            match jopt {
                Some(j) => {
                    let ghost e0 = fields@;
                    let (name, sub) = fields.remove(j);
                    match assign_text_rec(sub, segs, i + 1, val) {
                        Ok(sub2) => {
                            let ghost s2 = sub2.dv();
                            fields.insert(j, (name, sub2));
                            proof {
                                assert(fields@ =~= e0.update(j as int, (name, fields@[j as int].1)));
                                assert(obj_dv(fields@) =~= f0.update(j as int, (f0[j as int].0, s2)));
                            }
                            Ok(Value::Object(fields))
                        }
                        Err(e) => Err(e),
                    }
                }
                None => Ok(Value::Object(fields)),
            }
        }
        other => Ok(other),
    }
}

/// The write walk over explicit-form keys from key `i` on.
fn assign_key_rec(node: Value, keys: &Vec<Key>, i: usize, val: Value) -> (r: Result<
    Value,
    AssignError,
>)
    requires
        i < keys@.len(),
    ensures
        result_dv(r) == write_result(assign_key_at(node.dv(), keys_dv(keys@), i as int, val.dv())),
    decreases keys@.len() - i,
{
    if i == keys.len() - 1 {
        return write_key_step(node, &keys[i], val);
    }
    let k = &keys[i];
    match node {
        Value::Mapping(mut entries) => {
            let ghost m0 = map_dv(entries@);
            match map_find(&entries, k) {
                Some(j) => {
                    let ghost e0 = entries@;
                    let (key, sub) = entries.remove(j);
                    match assign_key_rec(sub, keys, i + 1, val) {
                        Ok(sub2) => {
                            let ghost s2 = sub2.dv();
                            entries.insert(j, (key, sub2));
                            proof {
                                assert(entries@ =~= e0.update(j as int, (key, entries@[j as int].1)));
                                assert(map_dv(entries@) =~= m0.update(j as int, (m0[j as int].0, s2)));
                            }
                            Ok(Value::Mapping(entries))
                        }
                        Err(e) => Err(e),
                    }
                }
                None => Ok(Value::Mapping(entries)),
            }
        }
        Value::Object(mut fields) => {
            let ghost f0 = obj_dv(fields@);
            let jopt: Option<usize> = match k {
                Key::Text(name) => obj_find(&fields, name.as_slice()),
                Key::Num(_) => None,
            };
            match jopt {
                Some(j) => {
                    let ghost e0 = fields@;
                    let (name, sub) = fields.remove(j);
                    match assign_key_rec(sub, keys, i + 1, val) {
                        Ok(sub2) => {
                            let ghost s2 = sub2.dv();
                            fields.insert(j, (name, sub2));
                            proof {
                                assert(fields@ =~= e0.update(j as int, (name, fields@[j as int].1)));
                                assert(obj_dv(fields@) =~= f0.update(j as int, (f0[j as int].0, s2)));
                            }
                            Ok(Value::Object(fields))
                        }
                        Err(e) => Err(e),
                    }
                }
                None => Ok(Value::Object(fields)),
            }
        }
        Value::Sequence(mut items) => {
            let ghost s0 = seq_dv(items@);
            let ixopt: Option<usize> = match k {
                Key::Num(n) => {
                    let nv: i64 = *n;
                    if 0 <= nv && (nv as u64) < (items.len() as u64) {
                        Some(nv as usize)
                    } else {
                        None
                    }
                }
                Key::Text(_) => None,
            };
            match ixopt {
                Some(ix) => {
                    let ghost i0 = items@;
                    let sub = items.remove(ix);
                    match assign_key_rec(sub, keys, i + 1, val) {
                        Ok(sub2) => {
                            let ghost s2 = sub2.dv();
                            items.insert(ix, sub2);
                            proof {
                                assert(items@ =~= i0.update(ix as int, items@[ix as int]));
                                assert(seq_dv(items@) =~= s0.update(ix as int, s2));
                            }
                            Ok(Value::Sequence(items))
                        }
                        Err(e) => Err(e),
                    }
                }
                None => Ok(Value::Sequence(items)),
            }
        }
        other => Ok(other),
    }
}

/// The write walk of a dot-delimited path, from the root.
pub fn assign_path_str(obj: Value, path: &[u8], val: Value) -> (r: Result<Value, AssignError>)
    ensures
        result_dv(r) == spec_assign(obj.dv(), PathModel::Text(path@), val.dv()),
{
    if matches!(obj, Value::Null) {
        return Err(AssignError::IllegalRoot);
    }
    proof {
        assert(!(obj.dv() is Null));
        lemma_split_len(path@, DOT);
    }
    let segs = crate::bytesplit::split_segments(path, DOT);
    assign_text_rec(obj, &segs, 0, val)
}

/// The write walk of an explicit ordered list of typed keys, from the root.
/// An empty list writes nothing and returns the root unchanged.
pub fn assign_path_tuple(obj: Value, path: &Vec<Key>, val: Value) -> (r: Result<
    Value,
    AssignError,
>)
    ensures
        result_dv(r) == spec_assign(obj.dv(), PathModel::Keys(keys_dv(path@)), val.dv()),
{
    if matches!(obj, Value::Null) {
        return Err(AssignError::IllegalRoot);
    }
    proof {
        assert(!(obj.dv() is Null));
    }
    if path.len() == 0 {
        return Ok(obj);
    }
    assign_key_rec(obj, path, 0, val)
}

/// The write operation: store `val` at the node `path` addresses in `obj` and
/// return the root. A null root is an error; a rejected terminal write is an
/// error; a non-terminal segment that fails to resolve returns the root
/// unchanged, with no error.
pub fn assign(obj: Value, path: &Path, val: Value) -> (r: Result<Value, AssignError>)
    ensures
        result_dv(r) == spec_assign(obj.dv(), path.model(), val.dv()),
{
    match path {
        Path::Text(s) => assign_path_str(obj, s.as_slice(), val),
        Path::Keys(ks) => assign_path_tuple(obj, ks, val),
    }
}

} // verus!
