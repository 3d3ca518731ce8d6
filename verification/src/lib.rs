//! N-gram generation over sequences of word tokens.
//!
//! The library produces, for each requested window length `n`, every
//! contiguous window of `n` tokens, rendered as a single text value:
//! unigrams are handed back as zero-copy references into the input,
//! longer grams as freshly built delimiter-joined strings. An eager
//! generator materialises the whole result; a lazy producer yields the
//! same grams one at a time.

mod generate;
mod gram;
mod lazy;
mod model;

pub use gram::Gram;
pub use lazy::NGramIterator;
pub use model::GramModel;

pub use generate::generate_ngrams;
pub use generate::generate_ngrams_owned;
pub use lazy::ngrams_as_iterator;

pub use gram::grams_view;
pub use lazy::block_from;
pub use lazy::produced_from;
pub use model::delim_seq;
pub use model::gram_at;
pub use model::gram_texts;
pub use model::joined;
pub use model::length_block;
pub use model::ngram_seq;
pub use model::token_views;

pub use lazy::lemma_lazy_agrees_with_eager;
pub use model::lemma_blocks_in_request_order;
pub use model::lemma_generation_deterministic;
pub use model::lemma_gram_count;
pub use model::lemma_invalid_length_no_grams;
pub use model::lemma_ngram_seq_push;
pub use model::lemma_unigrams_borrow_tokens;
pub use model::lemma_windows_in_start_order;
