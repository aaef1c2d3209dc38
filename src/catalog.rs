use vstd::prelude::*;

use crate::lines::{split_lines, text_lines};
use crate::order::{sort_words, sorted, views};

verus! {

/// One end of a range of ranks.
#[derive(Clone, Copy, Debug, PartialEq, Eq)]
pub enum RankBound {
    Included(usize),
    Excluded(usize),
    Unbounded,
}

/// A range of ranks, given by its two ends, as Rust's range expressions give
/// them (`..10` has an unbounded start and an excluded end of 10).
#[derive(Clone, Copy, Debug, PartialEq, Eq)]
pub struct RankRange {
    pub start: RankBound,
    pub end: RankBound,
}

/// The first rank that a range selects. An excluded start is read as no start
/// at all: the range then begins at rank 0.
pub open spec fn start_rank(b: RankBound) -> int {
    match b {
        RankBound::Included(i) => i as int,
        RankBound::Excluded(_) => 0,
        RankBound::Unbounded => 0,
    }
}

/// The last rank that a range asks for, in a catalog of `n` words; `None`
/// where an excluded end of 0 leaves no last rank.
pub open spec fn end_rank(b: RankBound, n: nat) -> Option<int> {
    match b {
        RankBound::Included(i) => Some(i as int),
        RankBound::Excluded(i) => if i > 0 {
            Some(i - 1)
        } else {
            None
        },
        RankBound::Unbounded => Some(n - 1),
    }
}

/// The words that `range` selects from `ws`, in rank order; `None` where the
/// range is invalid: no last rank, a last rank past the end, or a first rank
/// after the last.
pub open spec fn range_words(ws: Seq<Seq<char>>, range: RankRange) -> Option<Seq<Seq<char>>> {
    match end_rank(range.end, ws.len()) {
        None => None,
        Some(e) => {
            let s = start_rank(range.start);
            if s > e || e >= ws.len() {
                None
            } else {
                Some(ws.subrange(s, e + 1))
            }
        },
    }
}

/// `out` is what the alphabetical query on `range` gives: nothing where the
/// range is invalid, else the selected words rearranged in lexicographic order.
pub open spec fn alphabetical_words(
    ws: Seq<Seq<char>>,
    range: RankRange,
    out: Option<Seq<Seq<char>>>,
) -> bool {
    match range_words(ws, range) {
        None => out is None,
        Some(sel) => out matches Some(o) && o.to_multiset() == sel.to_multiset() && sorted(o),
    }
}

/// The word of rank `i`, if there is one.
pub open spec fn word_at(ws: Seq<Seq<char>>, i: int) -> Option<Seq<char>> {
    if 0 <= i < ws.len() {
        Some(ws[i])
    } else {
        None
    }
}

/// `i` is the first rank at which `w` stands.
pub open spec fn is_first_index(ws: Seq<Seq<char>>, w: Seq<char>, i: int) -> bool {
    &&& 0 <= i < ws.len()
    &&& ws[i] == w
    &&& forall|j: int| 0 <= j < i ==> ws[j] != w
}

/// The characters of an optional string.
pub open spec fn opt_view(o: Option<String>) -> Option<Seq<char>> {
    match o {
        Some(s) => Some(s@),
        None => None,
    }
}

/// The words of an optional list of strings.
pub open spec fn opt_views(o: Option<Vec<String>>) -> Option<Seq<Seq<char>>> {
    match o {
        Some(v) => Some(views(v@)),
        None => None,
    }
}

impl RankRange {
    /// `..`: every rank.
    pub fn full() -> (r: RankRange)
        ensures
            r == (RankRange { start: RankBound::Unbounded, end: RankBound::Unbounded }),
    {
        RankRange { start: RankBound::Unbounded, end: RankBound::Unbounded }
    }

    /// `..end`: the ranks below `end`.
    pub fn up_to(end: usize) -> (r: RankRange)
        ensures
            r == (RankRange { start: RankBound::Unbounded, end: RankBound::Excluded(end) }),
    {
        RankRange { start: RankBound::Unbounded, end: RankBound::Excluded(end) }
    }

    /// `..=end`: the ranks up to `end`.
    pub fn up_to_inclusive(end: usize) -> (r: RankRange)
        ensures
            r == (RankRange { start: RankBound::Unbounded, end: RankBound::Included(end) }),
    {
        RankRange { start: RankBound::Unbounded, end: RankBound::Included(end) }
    }

    /// `start..`: the ranks from `start` on.
    pub fn starting_at(start: usize) -> (r: RankRange)
        ensures
            r == (RankRange { start: RankBound::Included(start), end: RankBound::Unbounded }),
    {
        RankRange { start: RankBound::Included(start), end: RankBound::Unbounded }
    }

    /// `start..end`: the ranks from `start` on and below `end`.
    pub fn between(start: usize, end: usize) -> (r: RankRange)
        ensures
            r == (RankRange { start: RankBound::Included(start), end: RankBound::Excluded(end) }),
    {
        RankRange { start: RankBound::Included(start), end: RankBound::Excluded(end) }
    }

    /// `start..=end`: the ranks from `start` up to `end`.
    pub fn between_inclusive(start: usize, end: usize) -> (r: RankRange)
        ensures
            r == (RankRange { start: RankBound::Included(start), end: RankBound::Included(end) }),
    {
        RankRange { start: RankBound::Included(start), end: RankBound::Included(end) }
    }
}

/// A fixed list of words in rank order: rank 0 is the most frequent word.
pub struct WordCatalog {
    words: Vec<String>,
}

impl View for WordCatalog {
    type V = Seq<Seq<char>>;

    closed spec fn view(&self) -> Seq<Seq<char>> {
        views(self.words@)
    }
}

impl WordCatalog {
    /// A catalog of the given words, the first of rank 0.
    pub fn new(words: Vec<String>) -> (r: WordCatalog)
        ensures
            r@ == views(words@),
    {
        WordCatalog { words }
    }

    /// A catalog of the lines of a newline-delimited text, one word per line,
    /// the first line of rank 0.
    pub fn from_lines(text: &str) -> (r: WordCatalog)
        ensures
            r@ == text_lines(text@),
    {
        WordCatalog { words: split_lines(text) }
    }

    /// The number of words in the catalog.
    pub fn len(&self) -> (r: usize)
        ensures
            r == self@.len(),
    {
        self.words.len()
    }
}

/// All the words of the catalog, in rank order.
pub fn get_words(catalog: &WordCatalog) -> (r: Vec<String>)
    ensures
        views(r@) == catalog@,
{
    let mut out: Vec<String> = Vec::new();
    let mut i: usize = 0;
    while i < catalog.words.len()
        invariant
            i <= catalog.words.len(),
            views(out@) == catalog@.take(i as int),
        decreases catalog.words.len() - i,
    {
        let ghost before = out@;
        let w = catalog.words[i].clone();
        out.push(w);
        assert(views(out@) =~= views(before).push(catalog@[i as int]));
        i = i + 1;
        assert(views(out@) =~= catalog@.take(i as int));
    }
    assert(catalog@.take(i as int) =~= catalog@);
    out
}

/// The words whose ranks fall in `range`, in rank order; `None` where the
/// range is invalid.
pub fn get_words_range(catalog: &WordCatalog, range: RankRange) -> (r: Option<Vec<String>>)
    ensures
        opt_views(r) == range_words(catalog@, range),
{
    let n = catalog.words.len();
    let start: usize = match range.start {
        RankBound::Included(i) => i,
        RankBound::Excluded(_) => 0,
        RankBound::Unbounded => 0,
    };
    let end: usize = match range.end {
        RankBound::Included(i) => i,
        RankBound::Excluded(i) => {
            if i > 0 {
                i - 1
            } else {
                return None;
            }
        },
        RankBound::Unbounded => {
            if n > 0 {
                n - 1
            } else {
                return None;
            }
        },
    };
    if start > end || end >= n {
        return None;
    }
    let mut out: Vec<String> = Vec::new();
    let mut i: usize = start;
    while i <= end
        invariant
            start <= i <= end + 1,
            end < n == catalog.words.len(),
            views(out@) == catalog@.subrange(start as int, i as int),
        decreases end + 1 - i,
    {
        let ghost before = out@;
        let w = catalog.words[i].clone();
        out.push(w);
        assert(views(out@) =~= views(before).push(catalog@[i as int]));
        i = i + 1;
        assert(views(out@) =~= catalog@.subrange(start as int, i as int));
    }
    Some(out)
}

/// The words whose ranks fall in `range`, in lexicographic order; `None`
/// where the range is invalid.
pub fn get_words_range_a(catalog: &WordCatalog, range: RankRange) -> (r: Option<Vec<String>>)
    ensures
        alphabetical_words(catalog@, range, opt_views(r)),
{
    match get_words_range(catalog, range) {
        Some(words) => Some(sort_words(words)),
        None => None,
    }
}

/// The word of the given rank; `None` past the last rank.
pub fn get_word(catalog: &WordCatalog, position: usize) -> (r: Option<String>)
    ensures
        opt_view(r) == word_at(catalog@, position as int),
{
    if position < catalog.words.len() {
        Some(catalog.words[position].clone())
    } else {
        None
    }
}

/// Whether `word` is in the catalog, under exact string equality.
pub fn is_top_word(catalog: &WordCatalog, word: &str) -> (r: bool)
    ensures
        r == catalog@.contains(word@),
{
    get_word_index(catalog, word).is_some()
}

/// The first rank at which `word` stands; `None` where it is not in the
/// catalog.
pub fn get_word_index(catalog: &WordCatalog, word: &str) -> (r: Option<usize>)
    ensures
        match r {
            Some(i) => is_first_index(catalog@, word@, i as int),
            None => !catalog@.contains(word@),
        },
{
    let target = word.to_owned();
    let mut i: usize = 0;
    while i < catalog.words.len()
        invariant
            i <= catalog.words.len(),
            target@ == word@,
            forall|j: int| 0 <= j < i ==> catalog@[j] != word@,
        decreases catalog.words.len() - i,
    {
        if catalog.words[i] == target {
            return Some(i);
        }
        i = i + 1;
    }
    None
}

} // verus!
