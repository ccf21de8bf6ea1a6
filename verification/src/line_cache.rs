//! A precomputed index of line-ending offsets for random-access lookups.

use vstd::prelude::*;
use vstd::slice::slice_index_get;
use vstd::string::StringSliceAdditionalSpecFns;

use crate::model::{NL, lemma_newline_offsets_props, lemma_newline_offsets_push, newline_offsets};

verus! {

/// The entries a correct index holds for the buffer `s`: one entry per line
/// feed, in offset order, the `k`-th pairing the one-based number of the line
/// that ends there with the line feed's byte offset.
pub open spec fn is_index_for(entries: Seq<(usize, usize)>, s: Seq<u8>) -> bool {
    let offs = newline_offsets(s);
    &&& entries.len() == offs.len()
    &&& forall|k: int|
        0 <= k < entries.len() ==> (#[trigger] entries[k]).0 == k + 1 && entries[k].1 == offs[k]
}

/// The last entry whose recorded offset is at most `pos`, or `(0, 0)` where
/// no entry qualifies.
pub open spec fn last_le(entries: Seq<(usize, usize)>, pos: int) -> (usize, usize)
    decreases entries.len(),
{
    if entries.len() == 0 {
        (0usize, 0usize)
    } else if entries.last().1 <= pos {
        entries.last()
    } else {
        last_le(entries.drop_last(), pos)
    }
}

/// What a lookup at `pos` answers over the entries: the line number of the
/// last line ending at or before `pos`, and the distance from that ending.
pub open spec fn lookup_of(entries: Seq<(usize, usize)>, pos: int) -> (int, int) {
    let e = last_le(entries, pos);
    (e.0 as int, pos - e.1)
}

/// A pre-computed line cache, caching line ending offsets to speed up later
/// line:col computations.
#[derive(Clone, Debug)]
pub struct LineCache(pub Vec<(usize, usize)>);

impl LineCache {
    /// The structural invariant: entries are numbered consecutively from 1
    /// and their offsets are strictly increasing.
    pub open spec fn wf(self) -> bool {
        &&& forall|k: int| 0 <= k < self.0@.len() ==> (#[trigger] self.0@[k]).0 == k + 1
        &&& forall|k: int, l: int| 0 <= k < l < self.0@.len() ==> self.0@[k].1 < self.0@[l].1
    }

    /// Builds the index in one pass: one entry per line feed of `s`.
    pub fn new(s: &str) -> (r: Self)
        ensures
            r.wf(),
            is_index_for(r.0@, s.spec_bytes()),
    {
        let b: &[u8] = s.as_bytes();
        let mut v: Vec<(usize, usize)> = Vec::new();
        let mut i: usize = 0;
        proof {
            assert(b@.subrange(0, 0) =~= Seq::<u8>::empty());
        }
        while i < b.len()
            invariant
                i <= b@.len(),
                is_index_for(v@, b@.subrange(0, i as int)),
            decreases b@.len() - i,
        {
            proof {
                lemma_newline_offsets_props(b@.subrange(0, i as int));
                crate::model::lemma_count_newlines_le_len(b@.subrange(0, i as int));
                assert(v@.len() <= i);
                assert(b@.subrange(0, i + 1) =~= b@.subrange(0, i as int).push(b@[i as int]));
                lemma_newline_offsets_push(b@.subrange(0, i as int), b@[i as int]);
            }
            if *slice_index_get(b, i) == NL {
                let lnr = v.len() + 1;
                v.push((lnr, i));
            }
            i = i + 1;
        }
        proof {
            assert(b@.subrange(0, b@.len() as int) =~= b@);
            lemma_newline_offsets_props(b@);
        }
        LineCache(v)
    }

    /// Returns the zero-based (line, col) information for byte offset `pos`:
    /// the number of the line `pos` falls on (where an offset pointing at a
    /// line feed already counts to the following line) and the distance from
    /// the last line ending at or before `pos` (or from the buffer start).
    pub fn run(&self, pos: usize) -> (r: (usize, usize))
        requires
            self.wf(),
        ensures
            r.0 == lookup_of(self.0@, pos as int).0,
            r.1 == lookup_of(self.0@, pos as int).1,
    {
        let mut lnr: usize = 0;
        let mut bkpt: usize = 0;
        let mut k: usize = 0;
        proof {
            assert(self.0@.subrange(0, 0) =~= Seq::<(usize, usize)>::empty());
        }
        while k < self.0.len()
            invariant
                k <= self.0@.len(),
                self.wf(),
                bkpt <= pos,
                (lnr, bkpt) == last_le(self.0@.subrange(0, k as int), pos as int),
            decreases self.0@.len() - k,
        {
            proof {
                assert(self.0@.subrange(0, k + 1).drop_last() =~= self.0@.subrange(0, k as int));
            }
            let e = self.0[k];
            if e.1 <= pos {
                lnr = e.0;
                bkpt = e.1;
            } else {
                proof {
                    lemma_last_le_skip_high(self.0@.subrange(0, k + 1), pos as int);
                }
            }
            k = k + 1;
        }
        proof {
            assert(self.0@.subrange(0, self.0@.len() as int) =~= self.0@);
        }
        (lnr, pos - bkpt)
    }
}

/// Where the last entry's offset lies beyond `pos`, dropping that entry does
/// not change the answer.
proof fn lemma_last_le_skip_high(entries: Seq<(usize, usize)>, pos: int)
    requires
        entries.len() > 0,
        entries.last().1 > pos,
    ensures
        last_le(entries, pos) == last_le(entries.drop_last(), pos),
{
}

} // verus!
