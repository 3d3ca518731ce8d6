//! Lazy n-gram production: the same grams as the eager generator, pulled
//! one at a time from an explicit cursor over (length index, window start).

use vstd::prelude::*;
use crate::gram::Gram;
use crate::model::{
    GramModel, delim_seq, gram_at, length_block, ngram_seq, token_views,
};
use crate::generate::join_window;

verus! {

/// The grams of one length whose windows start at `start` or later, in
/// ascending window-start order.
pub open spec fn block_from(tokens: Seq<Seq<char>>, delim: Seq<char>, n: int, start: int) -> Seq<GramModel> {
    if 1 <= n && 0 <= start && start + n <= tokens.len() {
        Seq::new((tokens.len() - n - start + 1) as nat, |i: int| gram_at(tokens, delim, n, start + i))
    } else {
        Seq::empty()
    }
}

/// The grams still to come from cursor position (`li`, `start`): the rest
/// of the current length's block, then the full blocks of the remaining
/// lengths.
pub open spec fn produced_from(
    tokens: Seq<Seq<char>>,
    delim: Seq<char>,
    lengths: Seq<usize>,
    li: int,
    start: int,
) -> Seq<GramModel>
    decreases lengths.len() - li,
{
    if li < 0 || li >= lengths.len() {
        Seq::empty()
    } else {
        block_from(tokens, delim, lengths[li] as int, start)
            + produced_from(tokens, delim, lengths, li + 1, 0)
    }
}

/// A block read from its first window is the whole block.
proof fn lemma_block_from_zero(tokens: Seq<Seq<char>>, delim: Seq<char>, n: int)
    ensures
        block_from(tokens, delim, n, 0) == length_block(tokens, delim, n),
{
    assert(block_from(tokens, delim, n, 0) =~= length_block(tokens, delim, n));
}

/// Reading a block from a window that exists splits off exactly the gram
/// at that window.
proof fn lemma_block_from_step(tokens: Seq<Seq<char>>, delim: Seq<char>, n: int, start: int)
    requires
        1 <= n,
        0 <= start,
        start + n <= tokens.len(),
    ensures
        block_from(tokens, delim, n, start)
            == seq![gram_at(tokens, delim, n, start)] + block_from(tokens, delim, n, start + 1),
{
    assert(block_from(tokens, delim, n, start)
        =~= seq![gram_at(tokens, delim, n, start)] + block_from(tokens, delim, n, start + 1));
}

/// The lazy producer started at the initial cursor yields exactly the
/// eager generator's output: same grams, same order, element for element.
pub proof fn lemma_lazy_agrees_with_eager(tokens: Seq<Seq<char>>, delim: Seq<char>, lengths: Seq<usize>)
    ensures
        produced_from(tokens, delim, lengths, 0, 0) == ngram_seq(tokens, delim, lengths),
{
    lemma_lazy_agrees_with_eager_from(tokens, delim, lengths, 0);
    assert(lengths.skip(0) =~= lengths);
}

proof fn lemma_lazy_agrees_with_eager_from(tokens: Seq<Seq<char>>, delim: Seq<char>, lengths: Seq<usize>, li: int)
    requires
        0 <= li <= lengths.len(),
    ensures
        produced_from(tokens, delim, lengths, li, 0) == ngram_seq(tokens, delim, lengths.skip(li)),
    decreases lengths.len() - li,
{
    if li == lengths.len() {
        assert(lengths.skip(li) =~= Seq::<usize>::empty());
    } else {
        lemma_lazy_agrees_with_eager_from(tokens, delim, lengths, li + 1);
        lemma_block_from_zero(tokens, delim, lengths[li] as int);
        assert(lengths.skip(li)[0] == lengths[li]);
        assert(lengths.skip(li).drop_first() =~= lengths.skip(li + 1));
        assert(produced_from(tokens, delim, lengths, li, 0)
            =~= ngram_seq(tokens, delim, lengths.skip(li)));
    }
}

/// Pull-based producer of the same grams, in the same order, as the eager
/// generator.
///
/// The cursor — an index into the requested lengths and the next window's
/// start — is private and advances only inside [`NGramIterator::next`].
/// Once every gram has been produced, every further pull signals
/// exhaustion.
pub struct NGramIterator<'a> {
    words: &'a [String],
    n_range: &'a [usize],
    current_n: usize,
    current_window: usize,
    delimiter: &'a str,
}

impl<'a> NGramIterator<'a> {
    /// The grams this producer has still to yield, in order.
    pub closed spec fn remaining(&self) -> Seq<GramModel> {
        produced_from(
            token_views(self.words@),
            self.delimiter@,
            self.n_range@,
            self.current_n as int,
            self.current_window as int,
        )
    }

    /// Produces the next gram, or signals exhaustion with `None`.
    ///
    /// Each call yields the first gram still remaining and drops it from
    /// [`NGramIterator::remaining`]; once nothing remains, every call
    /// returns `None` and nothing ever remains again.
    pub fn next(&mut self) -> (result: Option<Gram<'a>>)
        ensures
            match result {
                Option::Some(gram) => old(self).remaining().len() > 0
                    && gram@ == old(self).remaining()[0]
                    && final(self).remaining() == old(self).remaining().drop_first(),
                Option::None => old(self).remaining().len() == 0
                    && final(self).remaining().len() == 0,
            },
    {
        let ghost tokens = token_views(self.words@);
        let ghost dv = self.delimiter@;
        while self.current_n < self.n_range.len()
            invariant
                self.words == old(self).words,
                self.n_range == old(self).n_range,
                self.delimiter == old(self).delimiter,
                tokens == token_views(self.words@),
                dv == self.delimiter@,
                self.remaining() == old(self).remaining(),
            decreases self.n_range@.len() - self.current_n,
        {
            let n: usize = self.n_range[self.current_n];
            let word_count: usize = self.words.len();

            if n == 0 || n > word_count {
                proof {
                    assert(block_from(tokens, dv, n as int, self.current_window as int)
                        =~= Seq::<GramModel>::empty());
                    assert(produced_from(tokens, dv, self.n_range@, self.current_n as int, self.current_window as int)
                        =~= produced_from(tokens, dv, self.n_range@, self.current_n + 1, 0));
                }
                self.current_n = self.current_n + 1;
                self.current_window = 0;
            } else if self.current_window <= word_count - n {
                let start: usize = self.current_window;
                let gram: Gram<'a> = if n == 1 {
                    Gram::Borrowed(self.words[start].as_str())
                } else {
                    Gram::Owned(join_window(self.words, self.delimiter, start, n))
                };
                proof {
                    if n == 1 {
                        let window = tokens.subrange(start as int, start + 1);
                        assert(window.len() == 1);
                        assert(window[0] == self.words@[start as int]@);
                    }
                    assert(gram@ == gram_at(tokens, dv, n as int, start as int));
                    lemma_block_from_step(tokens, dv, n as int, start as int);
                    let rest = produced_from(tokens, dv, self.n_range@, self.current_n + 1, 0);
                    let later = block_from(tokens, dv, n as int, start + 1);
                    assert(self.remaining() == (seq![gram@] + later) + rest);
                    assert((seq![gram@] + later) + rest =~= seq![gram@] + (later + rest));
                    assert(self.remaining()[0] == gram@);
                    assert(self.remaining().drop_first() =~= later + rest);
                }
                self.current_window = start + 1;
                assert(self.remaining()
                    == block_from(tokens, dv, n as int, start + 1)
                        + produced_from(tokens, dv, self.n_range@, self.current_n + 1, 0));
                return Some(gram);
            } else {
                proof {
                    assert(block_from(tokens, dv, n as int, self.current_window as int)
                        =~= Seq::<GramModel>::empty());
                    assert(produced_from(tokens, dv, self.n_range@, self.current_n as int, self.current_window as int)
                        =~= produced_from(tokens, dv, self.n_range@, self.current_n + 1, 0));
                }
                self.current_n = self.current_n + 1;
                self.current_window = 0;
            }
        }
        None
    }
}

/// Builds the lazy producer for the given tokens, requested lengths and
/// delimiter (a single space when none is given). Its pulls yield exactly
/// the eager generator's output for the same inputs, in the same order.
pub fn ngrams_as_iterator<'a>(
    words: &'a [String],
    n_range: &'a [usize],
    delimiter: Option<&'a str>,
) -> (producer: NGramIterator<'a>)
    ensures
        producer.remaining() == ngram_seq(token_views(words@), delim_seq(delimiter), n_range@),
{
    let delim: &str = match delimiter {
        Option::Some(d) => d,
        Option::None => " ",
    };
    proof {
        reveal_strlit(" ");
        assert(delim@ =~= delim_seq(delimiter));
        lemma_lazy_agrees_with_eager(token_views(words@), delim_seq(delimiter), n_range@);
    }
    NGramIterator {
        words,
        n_range,
        current_n: 0,
        current_window: 0,
        delimiter: delim,
    }
}

} // verus!
