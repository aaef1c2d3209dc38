use vstd::prelude::*;

use crate::catalog::{
    alphabetical_words, end_rank, is_first_index, range_words, start_rank, word_at, RankBound,
    RankRange,
};
use crate::order::lex_le;

verus! {

/// The word of each rank is the word at that position of the full list.
pub proof fn law_word_at_matches_all_words(ws: Seq<Seq<char>>, i: int)
    requires
        0 <= i < ws.len(),
    ensures
        word_at(ws, i) == Some(ws[i]),
{
}

/// The unbounded range selects the full list, in the same order.
pub proof fn law_full_range_is_all_words(ws: Seq<Seq<char>>)
    ensures
        ws.len() > 0 ==> range_words(
            ws,
            (RankRange { start: RankBound::Unbounded, end: RankBound::Unbounded }),
        ) == Some(ws),
{
    assert(ws.subrange(0, ws.len() as int) =~= ws);
}

/// The range `..k` selects the first `k` words in rank order, for `0 < k <= N`.
pub proof fn law_prefix_range(ws: Seq<Seq<char>>, k: usize)
    requires
        0 < k <= ws.len(),
    ensures
        range_words(ws, (RankRange { start: RankBound::Unbounded, end: RankBound::Excluded(k) }))
            == Some(ws.take(k as int)),
        ws.take(k as int).len() == k,
{
    assert(ws.subrange(0, k as int) =~= ws.take(k as int));
}

/// A range fails where the last rank it asks for is at or past the end of the
/// list, or where its first rank comes after its last.
pub proof fn law_invalid_range_fails(ws: Seq<Seq<char>>, range: RankRange)
    ensures
        (end_rank(range.end, ws.len()) matches Some(e) && (e >= ws.len() || start_rank(
            range.start,
        ) > e)) ==> range_words(ws, range) is None,
{
}

/// The alphabetical query on the unbounded range gives a rearrangement of the
/// full list in which each word precedes or equals the next.
pub proof fn law_alphabetical_full_range(ws: Seq<Seq<char>>, out: Option<Seq<Seq<char>>>)
    requires
        ws.len() > 0,
        alphabetical_words(
            ws,
            (RankRange { start: RankBound::Unbounded, end: RankBound::Unbounded }),
            out,
        ),
    ensures
        out matches Some(o) && o.to_multiset() == ws.to_multiset() && forall|i: int|
            0 <= i < o.len() - 1 ==> lex_le(#[trigger] o[i], o[i + 1]),
{
    law_full_range_is_all_words(ws);
    let o = out->0;
    assert forall|i: int| 0 <= i < o.len() - 1 implies lex_le(#[trigger] o[i], o[i + 1]) by {
        assert(lex_le(o[i], o[i + 1]));
    }
}

/// A word is in the list exactly where it has a first rank.
pub proof fn law_contains_iff_indexed(ws: Seq<Seq<char>>, w: Seq<char>)
    ensures
        ws.contains(w) <==> exists|i: int| is_first_index(ws, w, i),
    decreases ws.len(),
{
    if ws.contains(w) {
        let k = choose|k: int| 0 <= k < ws.len() && ws[k] == w;
        if ws[0] == w {
            assert(is_first_index(ws, w, 0));
        } else {
            let rest = ws.drop_first();
            assert(rest[k - 1] == w);
            law_contains_iff_indexed(rest, w);
            let j = choose|j: int| is_first_index(rest, w, j);
            assert forall|m: int| 0 <= m < j + 1 implies ws[m] != w by {
                if m > 0 {
                    assert(ws[m] == rest[m - 1]);
                }
            }
            assert(is_first_index(ws, w, j + 1));
        }
    }
}

/// In a list without repeated words, the first rank of the word of rank `i` is
/// `i`.
pub proof fn law_index_of_word_at(ws: Seq<Seq<char>>, i: int)
    requires
        0 <= i < ws.len(),
        forall|a: int, b: int| 0 <= a < b < ws.len() ==> ws[a] != ws[b],
    ensures
        is_first_index(ws, ws[i], i),
{
}

} // verus!
