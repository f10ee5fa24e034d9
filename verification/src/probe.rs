//! Executable probing: digit tests, index parsing, entry lookup, and the
//! single-segment read steps, each proved against the model in `resolve`.
use vstd::prelude::*;

use vstd::slice::slice_index_get;
use vstd::slice::slice_to_vec;

use crate::resolve::all_digits;
use crate::resolve::digits_val;
use crate::resolve::find_idx;
use crate::resolve::is_digit;
use crate::resolve::lemma_find_idx;
use crate::resolve::lemma_find_idx_unique;
use crate::resolve::parse_index_spec;
use crate::resolve::resolve_key;
use crate::resolve::resolve_text;
use crate::resolve::spec_single_digit_index;
use crate::value::Key;
use crate::value::Node;
use crate::value::Value;
use crate::value::map_dv;
use crate::value::obj_dv;
use crate::value::seq_dv;

verus! {

/// Whether two byte strings hold the same bytes.
pub fn bytes_eq(a: &[u8], b: &[u8]) -> (r: bool)
    ensures
        r == (a@ == b@),
{
    if a.len() != b.len() {
        return false;
    }
    let mut i: usize = 0;
    while i < a.len()
        invariant
            i <= a@.len(),
            a@.len() == b@.len(),
            forall|l: int| 0 <= l < i ==> a@[l] == b@[l],
        decreases a@.len() - i,
    {
        if *slice_index_get(a, i) != *slice_index_get(b, i) {
            return false;
        }
        i += 1;
    }
    proof {
        assert(a@ =~= b@);
    }
    true
}

/// The index named by a segment of exactly one ASCII digit, if it is one.
pub fn get_single_digit_index(s: &[u8]) -> (r: Option<usize>)
    ensures
        r == spec_single_digit_index(s@),
{
    if s.len() != 1 {
        return None;
    }
    let b = *slice_index_get(s, 0);
    if !(48 <= b && b <= 57) {
        return None;
    }
    Some((b - 48) as usize)
}

/// Whether every byte of a segment is an ASCII digit (true of the empty
/// segment).
pub fn is_all_digits(s: &[u8]) -> (r: bool)
    ensures
        r == all_digits(s@),
{
    let mut i: usize = 0;
    while i < s.len()
        invariant
            i <= s@.len(),
            forall|l: int| 0 <= l < i ==> is_digit(#[trigger] s@[l]),
        decreases s@.len() - i,
    {
        let b = *slice_index_get(s, i);
        if !(48 <= b && b <= 57) {
            return false;
        }
        i += 1;
    }
    true
}

/// The value of a digit string is never negative.
pub proof fn lemma_digits_val_nonneg(s: Seq<u8>)
    requires
        all_digits(s),
    ensures
        digits_val(s) >= 0,
    decreases s.len(),
{
    if s.len() > 0 {
        assert(forall|l: int| 0 <= l < s.len() - 1 ==> s.drop_last()[l] == #[trigger] s[l]);
        lemma_digits_val_nonneg(s.drop_last());
    }
}

/// A digit string is worth at least any of its prefixes.
pub proof fn lemma_digits_val_prefix(s: Seq<u8>, m: int)
    requires
        all_digits(s),
        0 <= m <= s.len(),
    ensures
        digits_val(s.take(m)) <= digits_val(s),
    decreases s.len() - m,
{
    if m < s.len() {
        assert(forall|l: int| 0 <= l < m ==> s.take(m)[l] == #[trigger] s[l]);
        lemma_digits_val_nonneg(s.take(m));
        assert(s.take(m + 1).drop_last() =~= s.take(m));
        assert(digits_val(s.take(m + 1)) == digits_val(s.take(m)) * 10 + (s[m] - 48));
        lemma_digits_val_prefix(s, m + 1);
    } else {
        assert(s.take(m) =~= s);
    }
}

/// The sequence index a segment parses to, or nothing when the segment is
/// empty, holds a non-digit, or names a value too large for `usize`.
pub fn parse_index(s: &[u8]) -> (r: Option<usize>)
    ensures
        r == parse_index_spec(s@),
{
    if s.len() == 0 {
        return None;
    }
    let mut acc: usize = 0;
    let mut i: usize = 0;
    while i < s.len()
        invariant
            i <= s@.len(),
            s@.len() > 0,
            all_digits(s@.take(i as int)),
            acc == digits_val(s@.take(i as int)),
        decreases s@.len() - i,
    {
        let b = *slice_index_get(s, i);
        if !(48 <= b && b <= 57) {
            return None;
        }
        let d = (b - 48) as usize;
        proof {
            assert(s@.take(i as int + 1).drop_last() =~= s@.take(i as int));
            assert(forall|l: int|
                0 <= l < i + 1 ==> s@.take(i as int + 1)[l] == #[trigger] s@[l]);
            assert(digits_val(s@.take(i as int + 1)) == acc * 10 + d);
        }
        let acc10 = match acc.checked_mul(10) {
            Some(x) => x,
            None => {
                proof {
                    if all_digits(s@) {
                        lemma_digits_val_prefix(s@, i as int + 1);
                    }
                }
                return None;
            }
        };
        let acc2 = match acc10.checked_add(d) {
            Some(x) => x,
            None => {
                proof {
                    if all_digits(s@) {
                        lemma_digits_val_prefix(s@, i as int + 1);
                    }
                }
                return None;
            }
        };
        acc = acc2;
        i += 1;
    }
    proof {
        assert(s@.take(s@.len() as int) =~= s@);
    }
    Some(acc)
}

/// Whether two keys denote the same key.
pub fn key_matches(a: &Key, b: &Key) -> (r: bool)
    ensures
        r == (a.dv() == b.dv()),
{
    match (a, b) {
        (Key::Text(x), Key::Text(y)) => bytes_eq(x.as_slice(), y.as_slice()),
        (Key::Num(x), Key::Num(y)) => *x == *y,
        _ => false,
    }
}

/// The index of the first mapping entry with the given key, if any.
pub fn map_find(entries: &Vec<(Key, Value)>, k: &Key) -> (r: Option<usize>)
    ensures
        match r {
            Some(j) => j < entries@.len() && find_idx(map_dv(entries@), k.dv()) == Some(j as int),
            None => find_idx(map_dv(entries@), k.dv()) is None,
        },
{
    let mut i: usize = 0;
    while i < entries.len()
        invariant
            i <= entries@.len(),
            forall|l: int| 0 <= l < i ==> (#[trigger] map_dv(entries@)[l]).0 != k.dv(),
        decreases entries@.len() - i,
    {
        if key_matches(&entries[i].0, k) {
            proof {
                lemma_find_idx_unique(map_dv(entries@), k.dv(), i as int);
            }
            return Some(i);
        }
        i += 1;
    }
    proof {
        lemma_find_idx(map_dv(entries@), k.dv());
    }
    None
}

/// The index of the first object field with the given name, if any.
pub fn obj_find(fields: &Vec<(Vec<u8>, Value)>, name: &[u8]) -> (r: Option<usize>)
    ensures
        match r {
            Some(j) => j < fields@.len() && find_idx(obj_dv(fields@), name@) == Some(j as int),
            None => find_idx(obj_dv(fields@), name@) is None,
        },
{
    let mut i: usize = 0;
    while i < fields.len()
        invariant
            i <= fields@.len(),
            forall|l: int| 0 <= l < i ==> (#[trigger] obj_dv(fields@)[l]).0 != name@,
        decreases fields@.len() - i,
    {
        if bytes_eq(fields[i].0.as_slice(), name) {
            proof {
                lemma_find_idx_unique(obj_dv(fields@), name@, i as int);
            }
            return Some(i);
        }
        i += 1;
    }
    proof {
        lemma_find_idx(obj_dv(fields@), name@);
    }
    None
}

/// One string-form read step against a node.
pub fn resolve_text_step<'a>(node: &'a Value, seg: &[u8]) -> (r: Option<&'a Value>)
    ensures
        match r {
            Some(v) => resolve_text(node.dv(), seg@) == Some(v.dv()),
            None => resolve_text(node.dv(), seg@) is None,
        },
{
    match node {
        Value::Mapping(entries) => {
            proof {
                assert(node.dv() == Node::Mapping(map_dv(entries@)));
            }
            let fast: Option<usize> = match get_single_digit_index(seg) {
                Some(d) => map_find(entries, &Key::Num(d as i64)),
                None => None,
            };
            let jopt: Option<usize> = match fast {
                Some(j) => Some(j),
                None => map_find(entries, &Key::Text(slice_to_vec(seg))),
            };
            match jopt {
                Some(j) => Some(&entries[j].1),
                None => None,
            }
        }
        Value::Sequence(items) => {
            proof {
                assert(node.dv() == Node::Sequence(seq_dv(items@)));
                if seg@.len() == 1 {
                    reveal_with_fuel(digits_val, 2);
                    assert(seg@.drop_last() =~= Seq::<u8>::empty());
                    assert(digits_val(seg@) == seg@[0] - 48);
                }
            }
            if is_all_digits(seg) {
                match parse_index(seg) {
                    Some(ix) => if ix < items.len() {
                        Some(&items[ix])
                    } else {
                        None
                    },
                    None => None,
                }
            } else {
                None
            }
        }
        Value::Object(fields) => {
            proof {
                assert(node.dv() == Node::Object(obj_dv(fields@)));
            }
            if is_all_digits(seg) {
                None
            } else {
                match obj_find(fields, seg) {
                    Some(j) => Some(&fields[j].1),
                    None => None,
                }
            }
        }
        _ => None,
    }
}

/// One explicit-form read step against a node.
pub fn resolve_key_step<'a>(node: &'a Value, k: &Key) -> (r: Option<&'a Value>)
    ensures
        match r {
            Some(v) => resolve_key(node.dv(), k.dv()) == Some(v.dv()),
            None => resolve_key(node.dv(), k.dv()) is None,
        },
{
    match node {
        Value::Mapping(entries) => {
            proof {
                assert(node.dv() == Node::Mapping(map_dv(entries@)));
            }
            match map_find(entries, k) {
                Some(j) => Some(&entries[j].1),
                None => None,
            }
        }
        Value::Object(fields) => {
            proof {
                assert(node.dv() == Node::Object(obj_dv(fields@)));
            }
            match k {
                Key::Text(name) => match obj_find(fields, name.as_slice()) {
                    Some(j) => Some(&fields[j].1),
                    None => None,
                },
                Key::Num(_) => None,
            }
        }
        Value::Sequence(items) => {
            proof {
                assert(node.dv() == Node::Sequence(seq_dv(items@)));
            }
            match k {
                Key::Num(n) => {
                    let nv: i64 = *n;
                    if 0 <= nv && (nv as u64) < (items.len() as u64) {
                        Some(&items[nv as usize])
                    } else {
                        None
                    }
                }
                Key::Text(_) => None,
            }
        }
        _ => None,
    }
}

} // verus!
