//! Path-addressed read and write access into deeply nested, heterogeneous
//! data structures: mappings, sequences and attribute-bearing objects mixed
//! at arbitrary depth. A dotted path such as `a.b.1` (or an explicit ordered
//! list of typed keys) selects a node; `gloom` reads it or falls back to a
//! caller-supplied default, and `assign` stores a value at it and hands the
//! root back, changed in no other place.
use vstd::prelude::*;

mod assign;
mod bytesplit;
mod laws;
mod probe;
mod resolve;
mod value;

pub use assign::AssignError;
pub use assign::assign;
pub use assign::assign_path_str;
pub use assign::assign_path_tuple;
pub use assign::spec_assign;
pub use bytesplit::ByteSplit;
pub use bytesplit::ByteSplitImpl;
pub use bytesplit::split_segments;
pub use laws::lemma_assign_miss_noop;
pub use laws::lemma_assign_null_root;
pub use laws::lemma_assign_then_get;
pub use laws::lemma_get_ignores_default;
pub use laws::lemma_get_miss_default;
pub use laws::lemma_get_null_root;
pub use laws::reaches_terminal;
pub use probe::get_single_digit_index;
pub use resolve::DOT;
pub use resolve::Path;
pub use resolve::PathModel;
pub use resolve::spec_gloom;
pub use resolve::spec_resolve;
pub use value::Key;
pub use value::Value;

use crate::bytesplit::spec_split;
use crate::probe::resolve_key_step;
use crate::probe::resolve_text_step;
use crate::resolve::resolve_key_path;
use crate::resolve::resolve_text_path;
use crate::value::keys_dv;
use crate::value::segs_dv;

verus! {

/// The read walk of a dot-delimited path: the node it reaches, or the
/// default on the first segment that fails to resolve. Never an error.
pub fn gloom_str<'a>(target: &'a Value, path: &[u8], default: &'a Value) -> (r: &'a Value)
    ensures
        r.dv() == match resolve_text_path(target.dv(), spec_split(path@, DOT), 0) {
            Some(n) => n,
            None => default.dv(),
        },
{
    let segs = split_segments(path, DOT);
    let mut location: &'a Value = target;
    let mut i: usize = 0;
    while i < segs.len()
        invariant
            i <= segs@.len(),
            segs_dv(segs@) == spec_split(path@, DOT),
            resolve_text_path(target.dv(), segs_dv(segs@), 0) == resolve_text_path(
                location.dv(),
                segs_dv(segs@),
                i as int,
            ),
        decreases segs@.len() - i,
    {
        match resolve_text_step(location, segs[i].as_slice()) {
            Some(next) => {
                location = next;
                i += 1;
            }
            None => {
                return default;
            }
        }
    }
    location
}

/// The read walk of an explicit ordered list of typed keys: the node it
/// reaches, or the default on the first key that fails to resolve.
pub fn gloom_tuple<'a>(target: &'a Value, path: &Vec<Key>, default: &'a Value) -> (r: &'a Value)
    ensures
        r.dv() == match resolve_key_path(target.dv(), keys_dv(path@), 0) {
            Some(n) => n,
            None => default.dv(),
        },
{
    let mut location: &'a Value = target;
    let mut i: usize = 0;
    while i < path.len()
        invariant
            i <= path@.len(),
            resolve_key_path(target.dv(), keys_dv(path@), 0) == resolve_key_path(
                location.dv(),
                keys_dv(path@),
                i as int,
            ),
        decreases path@.len() - i,
    {
        match resolve_key_step(location, &path[i]) {
            Some(next) => {
                location = next;
                i += 1;
            }
            None => {
                return default;
            }
        }
    }
    location
}

/// The read operation: resolve `path` in `target` and return the node it
/// reaches; a null root or any segment that fails to resolve yields the
/// default instead. Traversal failure is never an error.
pub fn gloom<'a>(target: &'a Value, path: &Path, default: &'a Value) -> (r: &'a Value)
    ensures
        r.dv() == spec_gloom(target.dv(), path.model(), default.dv()),
{
    if matches!(target, Value::Null) {
        return default;
    }
    proof {
        assert(!(target.dv() is Null));
    }
    match path {
        Path::Text(s) => gloom_str(target, s.as_slice(), default),
        Path::Keys(ks) => gloom_tuple(target, ks, default),
    }
}

} // verus!
