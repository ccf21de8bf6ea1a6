//! Ground-truth specification of line/column coordinates over a byte buffer.

use vstd::prelude::*;

verus! {

/// The byte value of a line feed (`\n`).
pub const NL: u8 = 10;

/// The byte value of a carriage return (`\r`).
pub const CR: u8 = 13;

/// The number of line-feed bytes in `s`: the zero-based line number of the
/// position reached after consuming all of `s`.
pub open spec fn count_newlines(s: Seq<u8>) -> nat
    decreases s.len(),
{
    if s.len() == 0 {
        0
    } else {
        count_newlines(s.drop_last()) + if s.last() == NL {
            1nat
        } else {
            0nat
        }
    }
}

/// The zero-based column of the position reached after consuming all of `s`:
/// the number of bytes since the last line feed (or since the start, if there
/// is none) that are neither line feeds nor carriage returns.
pub open spec fn column_after(s: Seq<u8>) -> nat
    decreases s.len(),
{
    if s.len() == 0 {
        0
    } else if s.last() == NL {
        0
    } else if s.last() == CR {
        column_after(s.drop_last())
    } else {
        column_after(s.drop_last()) + 1
    }
}

/// The offsets of the line-feed bytes of `s`, in increasing order.
pub open spec fn newline_offsets(s: Seq<u8>) -> Seq<int>
    decreases s.len(),
{
    if s.len() == 0 {
        Seq::empty()
    } else {
        newline_offsets(s.drop_last()) + if s.last() == NL {
            seq![s.len() - 1]
        } else {
            Seq::empty()
        }
    }
}

pub proof fn lemma_count_newlines_push(s: Seq<u8>, b: u8)
    ensures
        count_newlines(s.push(b)) == count_newlines(s) + if b == NL {
            1nat
        } else {
            0nat
        },
{
    assert(s.push(b).drop_last() =~= s);
}

pub proof fn lemma_column_after_push(s: Seq<u8>, b: u8)
    ensures
        column_after(s.push(b)) == if b == NL {
            0nat
        } else if b == CR {
            column_after(s)
        } else {
            column_after(s) + 1
        },
{
    assert(s.push(b).drop_last() =~= s);
}

pub proof fn lemma_newline_offsets_push(s: Seq<u8>, b: u8)
    ensures
        newline_offsets(s.push(b)) == newline_offsets(s) + if b == NL {
            seq![s.len() as int]
        } else {
            Seq::<int>::empty()
        },
{
    assert(s.push(b).drop_last() =~= s);
}

pub proof fn lemma_count_newlines_le_len(s: Seq<u8>)
    ensures
        count_newlines(s) <= s.len(),
    decreases s.len(),
{
    if s.len() > 0 {
        lemma_count_newlines_le_len(s.drop_last());
    }
}

pub proof fn lemma_column_after_le_len(s: Seq<u8>)
    ensures
        column_after(s) <= s.len(),
    decreases s.len(),
{
    if s.len() > 0 {
        lemma_column_after_le_len(s.drop_last());
    }
}

/// Line feeds are counted piecewise: the count over a concatenation is the
/// sum of the counts over the parts.
pub proof fn lemma_count_newlines_concat(x: Seq<u8>, y: Seq<u8>)
    ensures
        count_newlines(x + y) == count_newlines(x) + count_newlines(y),
    decreases y.len(),
{
    if y.len() == 0 {
        assert(x + y =~= x);
    } else {
        lemma_count_newlines_concat(x, y.drop_last());
        assert((x + y).drop_last() =~= x + y.drop_last());
    }
}

/// The column after a concatenation: where the second part holds a line feed
/// the column restarts inside it, otherwise the parts' columns add up.
pub proof fn lemma_column_after_concat(x: Seq<u8>, y: Seq<u8>)
    ensures
        column_after(x + y) == if count_newlines(y) == 0 {
            column_after(x) + column_after(y)
        } else {
            column_after(y)
        },
    decreases y.len(),
{
    if y.len() == 0 {
        assert(x + y =~= x);
    } else {
        lemma_column_after_concat(x, y.drop_last());
        assert((x + y).drop_last() =~= x + y.drop_last());
        assert(count_newlines(y) == count_newlines(y.drop_last()) + if y.last() == NL {
            1nat
        } else {
            0nat
        });
    }
}

/// Every recorded offset points at a line feed, offsets are strictly
/// increasing, and there are exactly as many as there are line feeds.
pub proof fn lemma_newline_offsets_props(s: Seq<u8>)
    ensures
        newline_offsets(s).len() == count_newlines(s),
        forall|k: int|
            0 <= k < newline_offsets(s).len() ==> 0 <= #[trigger] newline_offsets(s)[k] < s.len()
                && s[newline_offsets(s)[k]] == NL,
        forall|k: int, l: int|
            0 <= k < l < newline_offsets(s).len() ==> newline_offsets(s)[k]
                < newline_offsets(s)[l],
    decreases s.len(),
{
    if s.len() > 0 {
        lemma_newline_offsets_props(s.drop_last());
        assert(forall|k: int|
            0 <= k < newline_offsets(s.drop_last()).len()
                ==> s[#[trigger] newline_offsets(s.drop_last())[k]] == s.drop_last()[newline_offsets(
                s.drop_last(),
            )[k]]);
    }
}

} // verus!
