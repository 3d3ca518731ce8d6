//! Eager n-gram generation: materialise every gram for every requested
//! length at once.

use vstd::prelude::*;
use vstd::string::StringExecFns;
use crate::gram::{Gram, grams_view};
use crate::model::{
    GramModel, delim_seq, gram_at, gram_texts, joined, length_block, ngram_seq, token_views,
};

verus! {

/// Relies on String::with_capacity: the returned string is empty; the
/// capacity is an allocation hint only.
#[verifier::external_body]
fn string_with_capacity(capacity: usize) -> (s: String)
    ensures
        s@ == Seq::<char>::empty(),
{
    String::with_capacity(capacity)
}

/// Joins the `n` tokens starting at `start` into one string, with the
/// delimiter between each adjacent pair.
pub(crate) fn join_window(words: &[String], delim: &str, start: usize, n: usize) -> (gram: String)
    requires
        1 <= n,
        start + n <= words@.len(),
    ensures
        gram@ == joined(token_views(words@).subrange(start as int, start + n), delim@),
{
    let ghost tokens = token_views(words@);
    let word_count: usize = words.len();
    assert(start + n <= word_count);
    let stop: usize = start + n;
    let mut gram = String::new();
    gram.append(words[start].as_str());
    assert(tokens.subrange(start as int, start + 1).len() == 1);
    assert(tokens.subrange(start as int, start + 1)[0] == words@[start as int]@);
    let mut end: usize = start + 1;
    while end < stop
        invariant
            stop == start + n,
            start + n <= words@.len(),
            start + 1 <= end <= start + n,
            tokens == token_views(words@),
            gram@ == joined(tokens.subrange(start as int, end as int), delim@),
        decreases start + n - end,
    {
        gram.append(delim);
        gram.append(words[end].as_str());
        proof {
            let grown = tokens.subrange(start as int, end + 1);
            assert(grown.len() >= 2);
            assert(grown.drop_last() =~= tokens.subrange(start as int, end as int));
            assert(grown.last() == words@[end as int]@);
        }
        end = end + 1;
    }
    gram
}

/// Generates every gram for every requested length, eagerly.
///
/// Lengths are taken in the order given; a length of zero or one larger
/// than the token count is skipped, contributing no grams and raising no
/// error. Within a length, windows slide left to right one token at a
/// time. Unigrams come back as zero-copy references into `words`; longer
/// grams as owned strings joined with the delimiter (a single space when
/// none is given).
pub fn generate_ngrams<'a>(
    words: &'a [String],
    n_range: &[usize],
    delimiter: Option<&str>,
) -> (result: Vec<Gram<'a>>)
    ensures
        grams_view(result@) == ngram_seq(token_views(words@), delim_seq(delimiter), n_range@),
{
    let delim: &str = match delimiter {
        Option::Some(d) => d,
        Option::None => " ",
    };
    proof {
        reveal_strlit(" ");
        assert(delim@ =~= delim_seq(delimiter));
    }
    let ghost tokens = token_views(words@);
    let ghost dv = delim_seq(delimiter);

    let mut result: Vec<Gram<'a>> = Vec::new();
    assert(grams_view(result@) =~= ngram_seq(tokens, dv, n_range@.subrange(0, 0)));

    let mut li: usize = 0;
    while li < n_range.len()
        invariant
            li <= n_range@.len(),
            delim@ == dv,
            tokens == token_views(words@),
            dv == delim_seq(delimiter),
            grams_view(result@) == ngram_seq(tokens, dv, n_range@.subrange(0, li as int)),
        decreases n_range@.len() - li,
    {
        let n: usize = n_range[li];
        let word_count: usize = words.len();
        if 1 <= n && n <= word_count {
            let ghost block = length_block(tokens, dv, n as int);
            let last_start: usize = word_count - n;
            assert(block.take(0) =~= Seq::<GramModel>::empty());
            assert(grams_view(result@) + block.take(0) =~= grams_view(result@));

            let mut start: usize = 0;
            while start <= last_start
                invariant
                    1 <= n <= words@.len(),
                    word_count == words@.len(),
                    last_start == words@.len() - n,
                    start <= last_start + 1,
                    delim@ == dv,
                    tokens == token_views(words@),
                    block == length_block(tokens, dv, n as int),
                    grams_view(result@)
                        == ngram_seq(tokens, dv, n_range@.subrange(0, li as int))
                            + block.take(start as int),
                decreases last_start + 1 - start,
            {
                let gram: Gram<'a> = if n == 1 {
                    Gram::Borrowed(words[start].as_str())
                } else if n == 2 {
                    // The dominant cost in batch use is the bigram path, so
                    // its allocation is pre-sized to the exact joined length.
                    let capacity: usize = words[start]
                        .as_str()
                        .len()
                        .saturating_add(delim.len())
                        .saturating_add(words[start + 1].as_str().len());
                    let mut pair = string_with_capacity(capacity);
                    pair.append(words[start].as_str());
                    pair.append(delim);
                    pair.append(words[start + 1].as_str());
                    proof {
                        let window = tokens.subrange(start as int, start + 2);
                        assert(window.drop_last() =~= tokens.subrange(start as int, start + 1));
                        assert(tokens.subrange(start as int, start + 1).len() == 1);
                        assert(tokens.subrange(start as int, start + 1)[0] == words@[start as int]@);
                        assert(joined(tokens.subrange(start as int, start + 1), dv)
                            == words@[start as int]@);
                        assert(window.last() == words@[start + 1]@);
                        assert(pair@ =~= joined(window, dv));
                    }
                    Gram::Owned(pair)
                } else {
                    Gram::Owned(join_window(words, delim, start, n))
                };
                proof {
                    if n == 1 {
                        let window = tokens.subrange(start as int, start + 1);
                        assert(window.len() == 1);
                        assert(window[0] == words@[start as int]@);
                    }
                    assert(gram@ == gram_at(tokens, dv, n as int, start as int));
                }
                let ghost before = result@;
                result.push(gram);
                proof {
                    assert(grams_view(before.push(gram))
                        =~= grams_view(before).push(gram@));
                    assert(block.take(start + 1)
                        =~= block.take(start as int).push(block[start as int]));
                    assert(grams_view(result@)
                        =~= ngram_seq(tokens, dv, n_range@.subrange(0, li as int))
                            + block.take(start + 1));
                }
                start = start + 1;
            }
            proof {
                assert(block.take(last_start + 1) =~= block);
            }
        } else {
            proof {
                assert(length_block(tokens, dv, n as int) =~= Seq::<GramModel>::empty());
                assert(grams_view(result@)
                    =~= ngram_seq(tokens, dv, n_range@.subrange(0, li as int))
                        + length_block(tokens, dv, n as int));
            }
        }
        proof {
            crate::model::lemma_ngram_seq_push(tokens, dv, n_range@.subrange(0, li as int), n);
            assert(n_range@.subrange(0, li + 1)
                =~= n_range@.subrange(0, li as int).push(n));
        }
        li = li + 1;
    }
    proof {
        assert(n_range@.subrange(0, n_range@.len() as int) =~= n_range@);
    }
    result
}

/// Generates every gram for every requested length, each as an
/// independent owned string — the eager generator followed by an owning
/// copy of every gram.
pub fn generate_ngrams_owned(words: &[String], n_range: &[usize], delimiter: &str) -> (result: Vec<String>)
    ensures
        result@.map_values(|s: String| s@)
            == gram_texts(ngram_seq(token_views(words@), delimiter@, n_range@)),
{
    let grams = generate_ngrams(words, n_range, Some(delimiter));
    let ghost target = gram_texts(ngram_seq(token_views(words@), delimiter@, n_range@));
    let mut result: Vec<String> = Vec::new();
    let mut i: usize = 0;
    while i < grams.len()
        invariant
            i <= grams@.len(),
            grams_view(grams@) == ngram_seq(token_views(words@), delimiter@, n_range@),
            target == gram_texts(ngram_seq(token_views(words@), delimiter@, n_range@)),
            result@.len() == i,
            forall|k: int| 0 <= k < i ==> (#[trigger] result@[k])@ == target[k],
        decreases grams@.len() - i,
    {
        let text = grams[i].to_text();
        assert(text@ == grams_view(grams@)[i as int].text);
        result.push(text);
        i = i + 1;
    }
    assert(result@.map_values(|s: String| s@) =~= target);
    result
}

} // verus!
