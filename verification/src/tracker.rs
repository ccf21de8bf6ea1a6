//! Incremental forward-only position tracking.

use vstd::prelude::*;
use vstd::slice::slice_index_get;
use vstd::slice::slice_subrange;

use crate::model::{
    CR, NL, column_after, count_newlines, lemma_column_after_concat, lemma_column_after_push,
    lemma_count_newlines_concat, lemma_count_newlines_push,
};

verus! {

/// A position tracker, only useful if the requested offset information only
/// proceeds forwards or the implied failure at backwards moves is just
/// annoying, but not fatal.
#[derive(Clone, Copy, Debug)]
pub struct PosTrackerExtern {
    pub offset: usize,
    pub line: usize,
    pub column: usize,
}

/// What one successful or failed advance leaves behind. On failure (a
/// backward move) the state is untouched; on success the state moves to
/// `new_offset` and the returned triple holds the scanned bytes, the number
/// of line feeds crossed, and the column contribution of the scanned range.
pub open spec fn advance_result(
    pre: PosTrackerExtern,
    post: PosTrackerExtern,
    s: Seq<u8>,
    new_offset: usize,
    r: Option<(&[u8], usize, usize)>,
) -> bool {
    match r {
        None => new_offset < pre.offset && post == pre,
        Some(t) => {
            let scanned = s.subrange(pre.offset as int, new_offset as int);
            &&& pre.offset <= new_offset
            &&& t.0@ == scanned
            &&& t.1 == count_newlines(scanned)
            &&& t.2 == column_after(scanned)
            &&& post.offset == new_offset
            &&& post.line == pre.line + t.1
            &&& post.column == if t.1 == 0 {
                pre.column + t.2
            } else {
                t.2 as int
            }
        },
    }
}

impl PosTrackerExtern {
    /// The arithmetic invariant every reachable tracker state satisfies: the
    /// line and column counters never exceed the number of consumed bytes.
    pub open spec fn wf(self) -> bool {
        &&& self.line <= self.offset
        &&& self.column <= self.offset
    }

    /// The tracker's state agrees with the buffer `s`: line and column are
    /// exactly those of the consumed prefix of `s`.
    pub open spec fn tracks(self, s: Seq<u8>) -> bool {
        &&& self.offset <= s.len()
        &&& self.line == count_newlines(s.subrange(0, self.offset as int))
        &&& self.column == column_after(s.subrange(0, self.offset as int))
    }

    /// Advances the cursor to `new_offset` by scanning `dat` over the
    /// half-open range from the current offset, or fails without touching
    /// the state where `new_offset` lies behind the cursor. Always give
    /// `dat` as an argument (but its content over the tracked region should
    /// not change), to prevent borrowing conflicts or such.
    pub fn update<'a>(&mut self, dat: &'a [u8], new_offset: usize) -> (r: Option<
        (&'a [u8], usize, usize),
    >)
        requires
            new_offset <= dat@.len(),
            old(self).wf(),
        ensures
            advance_result(*old(self), *final(self), dat@, new_offset, r),
            final(self).wf(),
            old(self).tracks(dat@) && r is Some ==> final(self).tracks(dat@),
    {
        if new_offset < self.offset {
            return None;
        }
        let slc: &[u8] = slice_subrange(dat, self.offset, new_offset);
        let mut ldif: usize = 0;
        let mut cdif: usize = 0;
        let mut i: usize = 0;
        proof {
            assert(slc@.subrange(0, 0) =~= Seq::<u8>::empty());
        }
        while i < slc.len()
            invariant
                i <= slc@.len(),
                ldif <= i,
                cdif <= i,
                ldif == count_newlines(slc@.subrange(0, i as int)),
                cdif == column_after(slc@.subrange(0, i as int)),
            decreases slc@.len() - i,
        {
            proof {
                assert(slc@.subrange(0, i + 1) =~= slc@.subrange(0, i as int).push(
                    slc@[i as int],
                ));
                lemma_count_newlines_push(slc@.subrange(0, i as int), slc@[i as int]);
                lemma_column_after_push(slc@.subrange(0, i as int), slc@[i as int]);
            }
            let b = *slice_index_get(slc, i);
            if b == NL {
                cdif = 0;
                ldif = ldif + 1;
            } else if b != CR {
                cdif = cdif + 1;
            }
            i = i + 1;
        }
        proof {
            assert(slc@.subrange(0, slc@.len() as int) =~= slc@);
            assert(dat@.subrange(0, new_offset as int) =~= dat@.subrange(0, self.offset as int)
                + slc@);
            lemma_count_newlines_concat(dat@.subrange(0, self.offset as int), slc@);
            lemma_column_after_concat(dat@.subrange(0, self.offset as int), slc@);
        }
        self.offset = new_offset;
        self.line = self.line + ldif;
        if ldif != 0 {
            self.column = 0;
        }
        self.column = self.column + cdif;
        Some((slc, ldif, cdif))
    }
}

impl Default for PosTrackerExtern {
    /// A fresh tracker: at offset 0, on line 0, in column 0.
    fn default() -> (r: Self)
        ensures
            r.offset == 0,
            r.line == 0,
            r.column == 0,
    {
        PosTrackerExtern { offset: 0, line: 0, column: 0 }
    }
}

/// Similar to [`PosTrackerExtern`], but keeps a reference to the source
/// around, so that the user doesn't need to supply the `dat` argument to
/// `update` every time. Basically just a simple convenience shim.
#[derive(Clone, Copy, Debug)]
pub struct PosTrackerDatRef<'a> {
    pub dat: &'a [u8],
    pub inner: PosTrackerExtern,
}

impl<'a> PosTrackerDatRef<'a> {
    /// Binds `dat` to a fresh tracker.
    pub fn new(dat: &'a [u8]) -> (r: Self)
        ensures
            r.dat@ == dat@,
            r.inner.offset == 0,
            r.inner.line == 0,
            r.inner.column == 0,
    {
        Self { dat, inner: Default::default() }
    }

    /// A snapshot (copy) of the embedded tracker's state.
    pub fn inner(&self) -> (r: PosTrackerExtern)
        ensures
            r == self.inner,
    {
        self.inner
    }

    /// A simple wrapper around [`PosTrackerExtern::update`].
    pub fn update(&mut self, new_offset: usize) -> (r: Option<(&'a [u8], usize, usize)>)
        requires
            new_offset <= old(self).dat@.len(),
            old(self).inner.wf(),
        ensures
            final(self).dat == old(self).dat,
            advance_result(old(self).inner, final(self).inner, old(self).dat@, new_offset, r),
            final(self).inner.wf(),
            old(self).inner.tracks(old(self).dat@) && r is Some ==> final(self).inner.tracks(
                final(self).dat@,
            ),
    {
        self.inner.update(self.dat, new_offset)
    }
}

} // verus!
