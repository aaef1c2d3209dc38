//! The most frequently used words of English, held as a catalog in rank order
//! (rank 0 is the most frequent), with lookups by rank, by range of ranks, by
//! membership and by reverse index.

use vstd::prelude::*;

pub mod catalog;
pub mod laws;
pub mod lines;
pub mod order;

pub use catalog::{
    get_word, get_word_index, get_words, get_words_range, get_words_range_a, is_top_word,
    RankBound, RankRange, WordCatalog,
};

verus! {

} // verus!
