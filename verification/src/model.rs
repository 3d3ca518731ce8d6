//! Mathematical model of n-gram generation.
//!
//! A gram is modelled as a [`GramModel`]: the text it renders to, together
//! with a flag saying whether the executable form borrows that text from
//! the input (unigrams) or owns a fresh allocation (longer grams). The
//! generator's output is modelled as a sequence of such grams: one block
//! per requested length, in the order the lengths were given; inside a
//! block, one gram per window start, in ascending order.

use vstd::prelude::*;

verus! {

/// Model of a single gram: whether it is a zero-copy reference into an
/// input token, and the text it renders to.
pub ghost struct GramModel {
    pub borrowed: bool,
    pub text: Seq<char>,
}

/// The views of the input tokens: each token as its character sequence.
pub open spec fn token_views(words: Seq<String>) -> Seq<Seq<char>> {
    words.map_values(|w: String| w@)
}

/// The delimiter a call works with: the one given, or a single space.
pub open spec fn delim_seq(delimiter: Option<&str>) -> Seq<char> {
    match delimiter {
        Option::Some(d) => d@,
        Option::None => seq![' '],
    }
}

/// The tokens joined into one text, with the delimiter between each
/// adjacent pair.
pub open spec fn joined(tokens: Seq<Seq<char>>, delim: Seq<char>) -> Seq<char>
    decreases tokens.len(),
{
    if tokens.len() == 0 {
        Seq::empty()
    } else if tokens.len() == 1 {
        tokens[0]
    } else {
        joined(tokens.drop_last(), delim) + delim + tokens.last()
    }
}

/// The gram for the window of width `n` starting at `start`: borrowed
/// exactly when `n == 1`, its text the joined window.
pub open spec fn gram_at(tokens: Seq<Seq<char>>, delim: Seq<char>, n: int, start: int) -> GramModel {
    GramModel {
        borrowed: n == 1,
        text: joined(tokens.subrange(start, start + n), delim),
    }
}

/// All grams of one requested length, in ascending window-start order.
/// A length of zero, or one larger than the token count, contributes no
/// grams.
pub open spec fn length_block(tokens: Seq<Seq<char>>, delim: Seq<char>, n: int) -> Seq<GramModel> {
    if 1 <= n <= tokens.len() {
        Seq::new((tokens.len() - n + 1) as nat, |i: int| gram_at(tokens, delim, n, i))
    } else {
        Seq::empty()
    }
}

/// The full output: the per-length blocks concatenated in the order the
/// lengths were requested.
pub open spec fn ngram_seq(tokens: Seq<Seq<char>>, delim: Seq<char>, lengths: Seq<usize>) -> Seq<GramModel>
    decreases lengths.len(),
{
    if lengths.len() == 0 {
        Seq::empty()
    } else {
        length_block(tokens, delim, lengths[0] as int) + ngram_seq(tokens, delim, lengths.drop_first())
    }
}

/// The texts of a sequence of grams, with the borrowed/owned distinction
/// erased.
pub open spec fn gram_texts(grams: Seq<GramModel>) -> Seq<Seq<char>> {
    grams.map_values(|g: GramModel| g.text)
}

/// For every token sequence and every length `n` with `1 <= n <= |tokens|`,
/// exactly `|tokens| - n + 1` grams are produced for that length.
pub proof fn lemma_gram_count(tokens: Seq<Seq<char>>, delim: Seq<char>, n: int)
    requires
        1 <= n <= tokens.len(),
    ensures
        length_block(tokens, delim, n).len() == tokens.len() - n + 1,
{
}

/// A length of zero, or one larger than the token count, produces no
/// grams at all.
pub proof fn lemma_invalid_length_no_grams(tokens: Seq<Seq<char>>, delim: Seq<char>, n: int)
    requires
        n == 0 || n > tokens.len(),
    ensures
        length_block(tokens, delim, n).len() == 0,
{
}

/// Appending one more requested length appends exactly that length's
/// block to the output.
pub proof fn lemma_ngram_seq_push(tokens: Seq<Seq<char>>, delim: Seq<char>, lengths: Seq<usize>, n: usize)
    ensures
        ngram_seq(tokens, delim, lengths.push(n))
            == ngram_seq(tokens, delim, lengths) + length_block(tokens, delim, n as int),
    decreases lengths.len(),
{
    if lengths.len() == 0 {
        let blk = length_block(tokens, delim, n as int);
        assert(lengths.push(n)[0] == n);
        assert(lengths.push(n).drop_first() =~= Seq::<usize>::empty());
        assert(ngram_seq(tokens, delim, lengths.push(n))
            == blk + ngram_seq(tokens, delim, Seq::<usize>::empty()));
        assert(blk + Seq::<GramModel>::empty() =~= blk);
        assert(Seq::<GramModel>::empty() + blk =~= blk);
        assert(ngram_seq(tokens, delim, lengths.push(n))
            =~= ngram_seq(tokens, delim, lengths) + blk);
    } else {
        assert(lengths.push(n)[0] == lengths[0]);
        assert(lengths.push(n).drop_first() =~= lengths.drop_first().push(n));
        lemma_ngram_seq_push(tokens, delim, lengths.drop_first(), n);
        assert(ngram_seq(tokens, delim, lengths.push(n))
            =~= ngram_seq(tokens, delim, lengths) + length_block(tokens, delim, n as int));
    }
}

/// Output order, between blocks: the output for a request split as
/// `front + back` is the output for `front` followed by the output for
/// `back` — the per-length blocks appear in the order the lengths were
/// given.
pub proof fn lemma_blocks_in_request_order(tokens: Seq<Seq<char>>, delim: Seq<char>, front: Seq<usize>, back: Seq<usize>)
    ensures
        ngram_seq(tokens, delim, front + back)
            == ngram_seq(tokens, delim, front) + ngram_seq(tokens, delim, back),
    decreases front.len(),
{
    if front.len() == 0 {
        assert(front + back =~= back);
        assert(ngram_seq(tokens, delim, front) + ngram_seq(tokens, delim, back)
            =~= ngram_seq(tokens, delim, back));
    } else {
        assert((front + back).drop_first() =~= front.drop_first() + back);
        lemma_blocks_in_request_order(tokens, delim, front.drop_first(), back);
        assert(ngram_seq(tokens, delim, front + back)
            =~= ngram_seq(tokens, delim, front) + ngram_seq(tokens, delim, back));
    }
}

/// Output order, within a block: the gram at position `i` of a length's
/// block is the one whose window starts at index `i` — window starts
/// ascend with output position.
pub proof fn lemma_windows_in_start_order(tokens: Seq<Seq<char>>, delim: Seq<char>, n: int)
    requires
        1 <= n <= tokens.len(),
    ensures
        length_block(tokens, delim, n).len() == tokens.len() - n + 1,
        forall|i: int| 0 <= i <= tokens.len() - n
            ==> #[trigger] length_block(tokens, delim, n)[i] == gram_at(tokens, delim, n, i),
{
}

/// Generation is a pure function of its inputs: any two outputs that meet
/// the generator's contract for the same tokens, delimiter and lengths
/// are equal — repeated calls with the same inputs produce the same
/// output.
pub proof fn lemma_generation_deterministic(
    tokens: Seq<Seq<char>>,
    delim: Seq<char>,
    lengths: Seq<usize>,
    first_run: Seq<GramModel>,
    second_run: Seq<GramModel>,
)
    requires
        first_run == ngram_seq(tokens, delim, lengths),
        second_run == ngram_seq(tokens, delim, lengths),
    ensures
        first_run == second_run,
{
}

/// Unigram grams are marked borrowed and their text is the token itself,
/// character for character: the executable generator hands them out as
/// references into the input rather than copies.
pub proof fn lemma_unigrams_borrow_tokens(tokens: Seq<Seq<char>>, delim: Seq<char>)
    requires
        tokens.len() >= 1,
    ensures
        length_block(tokens, delim, 1).len() == tokens.len(),
        forall|i: int| 0 <= i < tokens.len()
            ==> #[trigger] length_block(tokens, delim, 1)[i]
                == (GramModel { borrowed: true, text: tokens[i] }),
{
    assert forall|i: int| 0 <= i < tokens.len()
        implies #[trigger] length_block(tokens, delim, 1)[i]
            == (GramModel { borrowed: true, text: tokens[i] }) by {
        let window = tokens.subrange(i, i + 1);
        assert(window.len() == 1);
        assert(window[0] == tokens[i]);
    }
}

} // verus!
