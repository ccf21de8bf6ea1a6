//! The library's laws: correctness of index lookups, their idempotence,
//! agreement between the index and the tracker, and carriage-return
//! neutrality of the tracker's coordinates.

use vstd::prelude::*;

use crate::line_cache::{is_index_for, last_le, lookup_of};
use crate::model::{
    CR, NL, column_after, count_newlines, lemma_column_after_concat, lemma_count_newlines_concat,
    lemma_newline_offsets_props, newline_offsets,
};
use crate::tracker::PosTrackerExtern;

verus! {

/// Where the entries' offsets are increasing, `entries[j]` is the answer for
/// every `pos` from its own offset up to (excluding) the next entry's offset.
proof fn lemma_last_le_at(entries: Seq<(usize, usize)>, pos: int, j: int)
    requires
        forall|k: int, l: int| 0 <= k < l < entries.len() ==> entries[k].1 < entries[l].1,
        0 <= j < entries.len(),
        entries[j].1 <= pos,
        j + 1 < entries.len() ==> pos < entries[j + 1].1,
    ensures
        last_le(entries, pos) == entries[j],
    decreases entries.len(),
{
    if j < entries.len() - 1 {
        assert(entries.last().1 > pos);
        assert(entries.drop_last() =~= entries.subrange(0, entries.len() - 1));
        lemma_last_le_at(entries.drop_last(), pos, j);
    }
}

/// Where every entry's offset lies beyond `pos`, the lookup falls back to
/// the start of the buffer.
proof fn lemma_last_le_below(entries: Seq<(usize, usize)>, pos: int)
    requires
        forall|k: int, l: int| 0 <= k < l < entries.len() ==> entries[k].1 < entries[l].1,
        entries.len() > 0 ==> pos < entries[0].1,
    ensures
        last_le(entries, pos) == (0usize, 0usize),
    decreases entries.len(),
{
    if entries.len() > 0 {
        assert(entries.last().1 > pos);
        lemma_last_le_below(entries.drop_last(), pos);
    }
}

/// The entries of a correct index carry strictly increasing offsets.
proof fn lemma_index_entries_sorted(entries: Seq<(usize, usize)>, s: Seq<u8>)
    requires
        is_index_for(entries, s),
    ensures
        forall|k: int, l: int| 0 <= k < l < entries.len() ==> entries[k].1 < entries[l].1,
{
    lemma_newline_offsets_props(s);
    assert forall|k: int, l: int|
        0 <= k < l < entries.len() implies entries[k].1 < entries[l].1 by {
        assert(entries[k].1 == newline_offsets(s)[k]);
        assert(entries[l].1 == newline_offsets(s)[l]);
    }
}

/// Index correctness before the first line feed: for `pos` on the first
/// line, a lookup answers line 0 and column `pos`.
pub proof fn lemma_lookup_first_line(entries: Seq<(usize, usize)>, s: Seq<u8>, pos: int)
    requires
        is_index_for(entries, s),
        0 <= pos,
        newline_offsets(s).len() > 0 ==> pos < newline_offsets(s)[0],
    ensures
        lookup_of(entries, pos) == (0int, pos),
{
    lemma_index_entries_sorted(entries, s);
    if entries.len() > 0 {
        assert(entries[0].1 == newline_offsets(s)[0]);
    }
    lemma_last_le_below(entries, pos);
}

/// Index correctness between line feeds: with `o_i` the `i`-th line-feed
/// offset of the buffer (`i` counted from 1), a lookup at any `pos` with
/// `o_i <= pos`, and `pos < o_(i+1)` where a next line feed exists, answers
/// line `i` and column `pos - o_i`.
pub proof fn lemma_lookup_interval(entries: Seq<(usize, usize)>, s: Seq<u8>, i: int, pos: int)
    requires
        is_index_for(entries, s),
        1 <= i <= newline_offsets(s).len(),
        newline_offsets(s)[i - 1] <= pos,
        i < newline_offsets(s).len() ==> pos < newline_offsets(s)[i],
    ensures
        lookup_of(entries, pos) == (i, pos - newline_offsets(s)[i - 1]),
{
    lemma_index_entries_sorted(entries, s);
    assert(entries[i - 1].1 == newline_offsets(s)[i - 1]);
    if i < entries.len() {
        assert(entries[i].1 == newline_offsets(s)[i]);
    }
    lemma_last_le_at(entries, pos, i - 1);
}

/// Idempotence of repeated lookups: the index is read-only and the answer a
/// function of the entries and the offset alone, so any two results that
/// meet the lookup's postcondition for the same index and offset are equal.
pub proof fn lemma_lookup_idempotent(
    entries: Seq<(usize, usize)>,
    pos: int,
    r1: (int, int),
    r2: (int, int),
)
    requires
        r1 == lookup_of(entries, pos),
        r2 == lookup_of(entries, pos),
    ensures
        r1 == r2,
{
}

/// A tracker in its initial state tracks every buffer: nothing has been
/// consumed yet.
pub proof fn lemma_fresh_tracker_tracks(t: PosTrackerExtern, s: Seq<u8>)
    requires
        t.offset == 0,
        t.line == 0,
        t.column == 0,
    ensures
        t.tracks(s),
{
    assert(s.subrange(0, 0) =~= Seq::<u8>::empty());
}

/// A byte run without line feeds or carriage returns advances the column by
/// exactly its length and crosses no line.
proof fn lemma_plain_run(s: Seq<u8>)
    requires
        forall|j: int| 0 <= j < s.len() ==> s[j] != NL && s[j] != CR,
    ensures
        count_newlines(s) == 0,
        column_after(s) == s.len(),
    decreases s.len(),
{
    if s.len() > 0 {
        lemma_plain_run(s.drop_last());
    }
}

/// Tracker/index agreement: a tracker advanced (through any increasing
/// sequence of offsets, hence `tracks`) to an offset on the first line, with
/// no carriage return among the consumed bytes and no line feed at or before
/// the offset, reports the same line and column as an index lookup there.
/// Beyond the first line the two components deliberately differ: the index
/// counts a column from the line feed that ended the previous line (and
/// counts carriage returns), the tracker from the first byte after it.
pub proof fn lemma_tracker_index_agree(
    entries: Seq<(usize, usize)>,
    s: Seq<u8>,
    t: PosTrackerExtern,
    pos: int,
)
    requires
        is_index_for(entries, s),
        t.tracks(s),
        t.offset == pos,
        forall|j: int| 0 <= j < s.len() && j <= pos ==> s[j] != NL,
        forall|j: int| 0 <= j < pos ==> s[j] != CR,
    ensures
        t.line == lookup_of(entries, pos).0,
        t.column == lookup_of(entries, pos).1,
{
    lemma_newline_offsets_props(s);
    if newline_offsets(s).len() > 0 {
        assert(s[newline_offsets(s)[0]] == NL);
        assert(pos < newline_offsets(s)[0]);
    }
    lemma_lookup_first_line(entries, s, pos);
    assert(forall|j: int|
        0 <= j < s.subrange(0, pos).len() ==> #[trigger] s.subrange(0, pos)[j] != NL
            && s.subrange(0, pos)[j] != CR);
    lemma_plain_run(s.subrange(0, pos));
}

/// Carriage-return neutrality: inserting a carriage return anywhere in a
/// buffer changes neither the line count nor the column the tracker derives
/// from it; in particular a `\r\n` pair behaves exactly as a lone `\n`.
pub proof fn lemma_cr_neutral(x: Seq<u8>, y: Seq<u8>)
    ensures
        count_newlines(x + seq![CR] + y) == count_newlines(x + y),
        column_after(x + seq![CR] + y) == column_after(x + y),
{
    assert(seq![CR].drop_last() =~= Seq::<u8>::empty());
    assert(count_newlines(Seq::<u8>::empty()) == 0);
    assert(column_after(Seq::<u8>::empty()) == 0);
    assert(count_newlines(seq![CR]) == 0);
    assert(column_after(seq![CR]) == 0);
    lemma_count_newlines_concat(x, seq![CR]);
    lemma_count_newlines_concat(x + seq![CR], y);
    lemma_count_newlines_concat(x, y);
    lemma_column_after_concat(x, seq![CR]);
    lemma_column_after_concat(x + seq![CR], y);
    lemma_column_after_concat(x, y);
}

} // verus!
