//! Splitting a byte slice on a separator byte, keeping empty parts, so that a
//! dot-delimited path always yields at least one segment: an empty path is one
//! empty segment.
use vstd::prelude::*;

use vstd::slice::slice_subrange;
use vstd::slice::slice_to_vec;

use crate::value::segs_dv;

verus! {

/// The index of the first occurrence of a byte, if any.
pub open spec fn first_pos(s: Seq<u8>, b: u8) -> Option<int>
    decreases s.len(),
{
    if s.len() == 0 {
        None
    } else if s[0] == b {
        Some(0int)
    } else {
        match first_pos(s.drop_first(), b) {
            Some(j) => Some(j + 1),
            None => None,
        }
    }
}

/// `first_pos` names the first occurrence and nothing before it.
pub proof fn lemma_first_pos(s: Seq<u8>, b: u8)
    ensures
        match first_pos(s, b) {
            Some(j) => 0 <= j < s.len() && s[j] == b && (forall|l: int|
                0 <= l < j ==> #[trigger] s[l] != b),
            None => forall|l: int| 0 <= l < s.len() ==> #[trigger] s[l] != b,
        },
    decreases s.len(),
{
    if s.len() > 0 && s[0] != b {
        lemma_first_pos(s.drop_first(), b);
        assert(forall|l: int| 1 <= l < s.len() ==> #[trigger] s[l] == s.drop_first()[l - 1]);
    }
}

/// The first occurrence determines `first_pos`.
pub proof fn lemma_first_pos_unique(s: Seq<u8>, b: u8, j: int)
    requires
        0 <= j < s.len(),
        s[j] == b,
        forall|l: int| 0 <= l < j ==> #[trigger] s[l] != b,
    ensures
        first_pos(s, b) == Some(j),
    decreases s.len(),
{
    if j > 0 {
        lemma_first_pos_unique(s.drop_first(), b, j - 1);
        assert(forall|l: int| 1 <= l < s.len() ==> #[trigger] s[l] == s.drop_first()[l - 1]);
    }
}

/// The parts of a byte string split on a separator, in order, empty parts
/// kept: always at least one part.
pub open spec fn spec_split(s: Seq<u8>, sep: u8) -> Seq<Seq<u8>>
    decreases s.len(),
{
    match first_pos(s, sep) {
        Some(j) => if 0 <= j < s.len() {
            seq![s.take(j)] + spec_split(s.skip(j + 1), sep)
        } else {
            seq![s]
        },
        None => seq![s],
    }
}

/// A split has at least one part.
pub proof fn lemma_split_len(s: Seq<u8>, sep: u8)
    ensures
        spec_split(s, sep).len() >= 1,
{
    lemma_first_pos(s, sep);
}

/// Relies on memchr::memchr: the index of the first occurrence of `needle` in
/// `haystack`, or nothing when `needle` does not occur in it.
#[verifier::external_body]
fn find_byte(needle: u8, haystack: &[u8]) -> (r: Option<usize>)
    ensures
        match r {
            Some(i) => i < haystack@.len() && haystack@[i as int] == needle && (forall|j: int|
                0 <= j < i ==> #[trigger] haystack@[j] != needle),
            None => forall|j: int| 0 <= j < haystack@.len() ==> #[trigger] haystack@[j] != needle,
        },
{
    memchr::memchr(needle, haystack)
}

/// An iterator over the parts of a byte slice split on a separator byte,
/// empty parts kept.
pub struct ByteSplitImpl<'a> {
    slice: &'a [u8],
    separator: u8,
    position: usize,
    add_next: bool,
}

impl<'a> ByteSplitImpl<'a> {
    /// The cursor stays inside the slice, and is spent only at its end.
    pub closed spec fn wf(self) -> bool {
        self.position <= self.slice@.len() && (!self.add_next ==> self.position
            == self.slice@.len())
    }

    /// The parts not yet handed out.
    pub closed spec fn remaining(self) -> Seq<Seq<u8>> {
        if self.add_next {
            spec_split(self.slice@.skip(self.position as int), self.separator)
        } else {
            Seq::empty()
        }
    }

    /// The next part: the bytes before the next separator, or the tail after
    /// the last one (possibly empty), or nothing once the tail was handed out.
    pub fn next(&mut self) -> (r: Option<&'a [u8]>)
        requires
            old(self).wf(),
        ensures
            final(self).wf(),
            match r {
                Some(part) => old(self).remaining().len() >= 1 && part@ == old(
                    self,
                ).remaining()[0] && final(self).remaining() == old(self).remaining().drop_first(),
                None => old(self).remaining().len() == 0 && final(self).remaining() == old(
                    self,
                ).remaining(),
            },
    {
        if !self.add_next {
            return None;
        }
        let ghost tail = self.slice@.skip(self.position as int);
        proof {
            lemma_first_pos(tail, self.separator);
        }
        let rest = slice_subrange(self.slice, self.position, self.slice.len());
        assert(rest@ == tail);
        match find_byte(self.separator, rest) {
            Some(off) => {
                proof {
                    lemma_first_pos_unique(tail, self.separator, off as int);
                }
                let part = slice_subrange(self.slice, self.position, self.position + off);
                assert(part@ =~= tail.take(off as int));
                let ghost before = *self;
                self.position = self.position + off + 1;
                proof {
                    assert(self.slice@.skip(self.position as int) =~= tail.skip(off + 1));
                    assert(before.remaining() == seq![tail.take(off as int)] + spec_split(
                        tail.skip(off + 1),
                        self.separator,
                    ));
                    assert(self.remaining() =~= before.remaining().drop_first());
                }
                Some(part)
            }
            None => {
                let part = slice_subrange(self.slice, self.position, self.slice.len());
                assert(part@ == tail);
                let ghost before = *self;
                self.position = self.slice.len();
                self.add_next = false;
                proof {
                    assert(before.remaining() == seq![tail]);
                    assert(self.remaining() =~= before.remaining().drop_first());
                }
                Some(part)
            }
        }
    }
}

/// Splitting a byte slice on a separator byte, part by part.
pub trait ByteSplit<'a>: View<V = Seq<u8>> {
    /// An iterator over the parts of `self` split on `separator`.
    fn byte_split(&'a self, separator: u8) -> (r: ByteSplitImpl<'a>)
        ensures
            r.wf(),
            r.remaining() == spec_split(self@, separator),
    ;
}

impl<'a> ByteSplit<'a> for &'a [u8] {
    fn byte_split(&'a self, separator: u8) -> (r: ByteSplitImpl<'a>) {
        let r = ByteSplitImpl { slice: *self, separator, position: 0, add_next: true };
        proof {
            assert(r.slice@.skip(0) =~= self@);
        }
        r
    }
}

/// The segments of a byte string split on a separator, as owned parts.
pub fn split_segments(s: &[u8], sep: u8) -> (r: Vec<Vec<u8>>)
    ensures
        segs_dv(r@) == spec_split(s@, sep),
{
    let mut out: Vec<Vec<u8>> = Vec::new();
    let mut it = s.byte_split(sep);
    proof {
        assert(segs_dv(out@) + it.remaining() =~= spec_split(s@, sep));
    }
    loop
        invariant
            it.wf(),
            segs_dv(out@) + it.remaining() == spec_split(s@, sep),
        ensures
            segs_dv(out@) == spec_split(s@, sep),
        decreases it.remaining().len(),
    {
        let ghost out0 = out@;
        let ghost rem0 = it.remaining();
        let nxt = it.next();
        match nxt {
            Some(part) => {
                out.push(slice_to_vec(part));
                proof {
                    assert(segs_dv(out@) =~= segs_dv(out0) + seq![part@]);
                    assert(segs_dv(out@) + it.remaining() =~= segs_dv(out0) + rem0);
                }
            }
            None => {
                proof {
                    assert(segs_dv(out@) + it.remaining() =~= segs_dv(out@));
                }
                break ;
            }
        }
    }
    out
}

} // verus!
