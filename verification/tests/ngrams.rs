use ngram_rs::{generate_ngrams, generate_ngrams_owned, ngrams_as_iterator, Gram};

fn to_words(tokens: &[&str]) -> Vec<String> {
    tokens.iter().map(|t| t.to_string()).collect()
}

fn texts(grams: &[Gram<'_>]) -> Vec<String> {
    grams.iter().map(|g| g.as_str().to_string()).collect()
}

/// Tests basic n-gram generation with multiple n-values
#[test]
fn test_basic_ngrams() {
    let words = vec![
        "the".to_string(),
        "quick".to_string(),
        "brown".to_string(),
        "fox".to_string(),
    ];

    let result = generate_ngrams(&words, &[2, 3], None);
    assert_eq!(
        texts(&result),
        vec![
            "the quick".to_string(),
            "quick brown".to_string(),
            "brown fox".to_string(),
            "the quick brown".to_string(),
            "quick brown fox".to_string(),
        ]
    );
    assert!(result.iter().all(|g| !g.is_borrowed()));
}

/// Tests n-gram generation with custom delimiter
#[test]
fn test_custom_delimiter() {
    let words = vec!["a".to_string(), "b".to_string(), "c".to_string()];

    let result = generate_ngrams(&words, &[2], Some("-"));
    assert_eq!(texts(&result), vec!["a-b".to_string(), "b-c".to_string()]);
    assert!(result.iter().all(|g| !g.is_borrowed()));
}

/// Tests n-gram generation with mixed n-values including unigrams
#[test]
fn test_mixed_n_range() {
    let words = vec!["x".to_string(), "y".to_string(), "z".to_string()];

    let result = generate_ngrams(&words, &[1, 3], None);
    assert_eq!(
        texts(&result),
        vec![
            "x".to_string(),
            "y".to_string(),
            "z".to_string(),
            "x y z".to_string(),
        ]
    );
    assert!(result[0].is_borrowed());
    assert!(result[1].is_borrowed());
    assert!(result[2].is_borrowed());
    assert!(!result[3].is_borrowed());
}

/// Tests the iterator-based implementation
#[test]
fn test_ngram_iterator() {
    let words = vec!["1".to_string(), "2".to_string(), "3".to_string()];
    let lengths: [usize; 2] = [1, 2];
    let mut iter = ngrams_as_iterator(&words, &lengths, None);

    assert_eq!(iter.next().unwrap().as_str(), "1");
    assert_eq!(iter.next().unwrap().as_str(), "2");
    assert_eq!(iter.next().unwrap().as_str(), "3");
    assert_eq!(iter.next().unwrap().as_str(), "1 2");
    assert_eq!(iter.next().unwrap().as_str(), "2 3");
    assert!(iter.next().is_none());
}

/// Tests the owned strings version
#[test]
fn test_owned_version() {
    let words = vec!["alpha".to_string(), "beta".to_string()];
    let result = generate_ngrams_owned(&words, &[2], "+");

    assert_eq!(result, vec!["alpha+beta".to_string()]);
}

/// For every valid length n, the block for n holds |tokens| - n + 1 grams.
#[test]
fn test_gram_count_per_length() {
    let words = to_words(&["v", "w", "x", "y", "z"]);
    for n in 1..=5usize {
        let result = generate_ngrams(&words, &[n], None);
        assert_eq!(result.len(), words.len() - n + 1);
    }
}

/// A length of zero or one past the token count is skipped without error.
#[test]
fn test_invalid_lengths_skipped() {
    let words = to_words(&["a", "b"]);
    let result = generate_ngrams(&words, &[0, 5, 2], None);
    assert_eq!(texts(&result), vec!["a b".to_string()]);

    let lazy_words = to_words(&["a", "b"]);
    let lengths: [usize; 3] = [0, 5, 2];
    let mut iter = ngrams_as_iterator(&lazy_words, &lengths, None);
    assert_eq!(iter.next().unwrap().as_str(), "a b");
    assert!(iter.next().is_none());
}

/// An empty token sequence produces no grams for any requested length.
#[test]
fn test_empty_tokens() {
    let words: Vec<String> = Vec::new();
    let result = generate_ngrams(&words, &[1, 2, 3], None);
    assert!(result.is_empty());

    let owned = generate_ngrams_owned(&words, &[1, 2, 3], " ");
    assert!(owned.is_empty());

    let lengths: [usize; 3] = [1, 2, 3];
    let mut iter = ngrams_as_iterator(&words, &lengths, None);
    assert!(iter.next().is_none());
}

/// An empty length request produces no grams.
#[test]
fn test_empty_length_request() {
    let words = to_words(&["a", "b"]);
    let result = generate_ngrams(&words, &[], None);
    assert!(result.is_empty());
}

/// Lazy production yields exactly the eager output, element for element.
#[test]
fn test_lazy_matches_eager() {
    let words = to_words(&["one", "two", "three", "four"]);
    let lengths: [usize; 3] = [3, 1, 2];
    let eager = generate_ngrams(&words, &lengths, Some("_"));

    let mut iter = ngrams_as_iterator(&words, &lengths, Some("_"));
    let mut pulled: Vec<(bool, String)> = Vec::new();
    while let Some(gram) = iter.next() {
        pulled.push((gram.is_borrowed(), gram.as_str().to_string()));
    }

    let expected: Vec<(bool, String)> = eager
        .iter()
        .map(|g| (g.is_borrowed(), g.as_str().to_string()))
        .collect();
    assert_eq!(pulled, expected);
}

/// Unigram grams are references into the input tokens, not copies.
#[test]
fn test_unigrams_zero_copy() {
    let words = to_words(&["left", "right"]);
    let result = generate_ngrams(&words, &[1], None);
    assert_eq!(result.len(), 2);
    for (gram, word) in result.iter().zip(words.iter()) {
        assert!(gram.is_borrowed());
        assert!(std::ptr::eq(gram.as_str(), word.as_str()));
    }
}

/// Repeated calls with the same inputs produce the same outputs.
#[test]
fn test_repeated_calls_equal() {
    let words = to_words(&["p", "q", "r"]);
    let first = generate_ngrams(&words, &[1, 2], Some("."));
    let second = generate_ngrams(&words, &[1, 2], Some("."));
    assert_eq!(texts(&first), texts(&second));
    let borrows_first: Vec<bool> = first.iter().map(|g| g.is_borrowed()).collect();
    let borrows_second: Vec<bool> = second.iter().map(|g| g.is_borrowed()).collect();
    assert_eq!(borrows_first, borrows_second);

    let owned_first = generate_ngrams_owned(&words, &[1, 2], ".");
    let owned_second = generate_ngrams_owned(&words, &[1, 2], ".");
    assert_eq!(owned_first, owned_second);
}

/// Blocks come in the order the lengths were requested; window starts
/// ascend within a block.
#[test]
fn test_output_order_follows_request() {
    let words = to_words(&["a", "b", "c"]);
    let result = generate_ngrams(&words, &[2, 1], None);
    assert_eq!(
        texts(&result),
        vec![
            "a b".to_string(),
            "b c".to_string(),
            "a".to_string(),
            "b".to_string(),
            "c".to_string(),
        ]
    );
}

/// A duplicated length contributes its block once per occurrence.
#[test]
fn test_duplicate_lengths() {
    let words = to_words(&["a", "b"]);
    let result = generate_ngrams(&words, &[2, 2], None);
    assert_eq!(texts(&result), vec!["a b".to_string(), "a b".to_string()]);
}

/// The owned variant joins with the given delimiter.
#[test]
fn test_owned_hello_world() {
    let words = to_words(&["hello", "world"]);
    let result = generate_ngrams_owned(&words, &[2], "+");
    assert_eq!(result, vec!["hello+world".to_string()]);
}

/// An exhausted producer stays exhausted on every further pull.
#[test]
fn test_iterator_stays_exhausted() {
    let words = to_words(&["solo"]);
    let lengths: [usize; 1] = [1];
    let mut iter = ngrams_as_iterator(&words, &lengths, None);
    assert_eq!(iter.next().unwrap().as_str(), "solo");
    assert!(iter.next().is_none());
    assert!(iter.next().is_none());
    assert!(iter.next().is_none());
}

/// An empty delimiter concatenates the window's tokens directly.
#[test]
fn test_empty_delimiter() {
    let words = to_words(&["ab", "cd"]);
    let result = generate_ngrams(&words, &[2], Some(""));
    assert_eq!(texts(&result), vec!["abcd".to_string()]);
}

/// Converting a gram to owned text preserves its characters.
#[test]
fn test_to_text_matches_as_str() {
    let words = to_words(&["m", "n"]);
    let result = generate_ngrams(&words, &[1, 2], None);
    for gram in result.iter() {
        assert_eq!(gram.to_text(), gram.as_str().to_string());
    }
}
