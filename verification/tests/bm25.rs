use searus::prelude::StringHashMap;
use searus::score::Score;
use searus::searchers::bm25::BM25Scorer;

fn counts(entries: &[(&str, usize)]) -> StringHashMap<usize> {
    let mut map = StringHashMap::new();
    for (term, count) in entries {
        map.insert(term.to_string(), *count);
    }
    map
}

#[test]
fn test_bm25_scoring() {
    let scorer = BM25Scorer::new();

    let query_terms = vec!["rust".to_string(), "search".to_string()];
    let doc_terms = counts(&[("rust", 3), ("search", 2), ("engine", 1)]);
    let doc_freq = counts(&[("rust", 5), ("search", 3)]);

    let score = scorer.score(
        &query_terms,
        &doc_terms,
        6,
        Score::from_micros(10_000_000),
        &doc_freq,
        10,
    );

    assert!(score > Score::from_micros(0));
}

#[test]
fn bm25_test_bm25_scoring() {
    let scorer = BM25Scorer::new();

    let query_terms = vec!["rust".to_string(), "search".to_string()];
    let doc_terms = counts(&[("rust", 3), ("search", 2), ("engine", 1)]);
    let doc_freq = counts(&[("rust", 5), ("search", 3)]);

    let score = scorer.score(
        &query_terms,
        &doc_terms,
        6,
        Score::from_micros(10_000_000),
        &doc_freq,
        10,
    );

    assert!(score > Score::from_micros(0));
}

fn close(score: Score, expected: f64) -> bool {
    (score.micros as f64 / 1e6 - expected).abs() < 2e-6
}

fn reference(tf: f64, df: f64, len: f64, avg: f64, n: f64) -> f64 {
    let idf = ((n - df + 0.5) / (df + 0.5) + 1.0).ln();
    let norm = (tf * 2.5) / (tf + 1.5 * (1.0 - 0.75 + 0.75 * (len / avg)));
    idf * norm
}

#[test]
fn idf_is_the_logarithm_of_the_ratio() {
    let scorer = BM25Scorer::new();
    for (df, n) in [(1usize, 1usize), (1, 2), (3, 10), (5, 10), (10, 10), (1, 1000), (7, 123456)] {
        let expected = ((n as f64 - df as f64 + 0.5) / (df as f64 + 0.5) + 1.0).ln();
        assert!(close(scorer.idf(df, n), expected), "idf({}, {})", df, n);
    }
    assert_eq!(scorer.idf(5, 4), Score::from_micros(0));
    assert_eq!(scorer.idf(1, 0), Score::from_micros(0));
    assert!(close(scorer.idf(0, 0), 2.0f64.ln()));
    assert!(close(scorer.idf(0, usize::MAX), ((usize::MAX as f64 + 1.0) * 2.0).ln()));
    assert_eq!(scorer.idf(1, 1), Score::from_micros(287_682));
}

#[test]
fn score_follows_the_formula() {
    let scorer = BM25Scorer::new();
    let query_terms = vec!["rust".to_string(), "search".to_string(), "absent".to_string()];
    let doc_terms = counts(&[("rust", 3), ("search", 2), ("engine", 1)]);
    let doc_freq = counts(&[("rust", 5), ("search", 3)]);
    let score =
        scorer.score(&query_terms, &doc_terms, 6, Score::from_micros(10_000_000), &doc_freq, 10);
    let expected = reference(3.0, 5.0, 6.0, 10.0, 10.0) + reference(2.0, 3.0, 6.0, 10.0, 10.0);
    assert!((score.micros as f64 / 1e6 - expected).abs() < 1e-5);
}

#[test]
fn unknown_document_frequency_counts_as_one() {
    let scorer = BM25Scorer::new();
    let query_terms = vec!["rare".to_string()];
    let doc_terms = counts(&[("rare", 1)]);
    let with = scorer.score(
        &query_terms,
        &doc_terms,
        4,
        Score::from_micros(4_000_000),
        &counts(&[("rare", 1)]),
        8,
    );
    let without =
        scorer.score(&query_terms, &doc_terms, 4, Score::from_micros(4_000_000), &counts(&[]), 8);
    assert_eq!(with, without);
    assert!(with.micros > 0);
}

#[test]
fn zero_mean_length_does_not_divide() {
    let scorer = BM25Scorer::new();
    let query_terms = vec!["rust".to_string()];
    let doc_terms = counts(&[("rust", 2)]);
    let doc_freq = counts(&[("rust", 1)]);
    let score = scorer.score(&query_terms, &doc_terms, 5, Score::from_micros(0), &doc_freq, 3);
    let idf = ((3.0f64 - 1.0 + 0.5) / 1.5 + 1.0).ln();
    let expected = idf * (2.0 * 2.5) / (2.0 + 1.5);
    assert!((score.micros as f64 / 1e6 - expected).abs() < 1e-5);
}

#[test]
fn no_held_term_no_score() {
    let scorer = BM25Scorer::default();
    let query_terms = vec!["rust".to_string()];
    let score = scorer.score(
        &query_terms,
        &counts(&[("go", 2)]),
        2,
        Score::from_micros(2_000_000),
        &counts(&[("rust", 1)]),
        3,
    );
    assert_eq!(score, Score::from_micros(0));
    let none: Vec<String> = Vec::new();
    let empty = scorer.score(
        &none,
        &counts(&[("go", 2)]),
        2,
        Score::from_micros(2_000_000),
        &counts(&[]),
        3,
    );
    assert_eq!(empty, Score::from_micros(0));
}
