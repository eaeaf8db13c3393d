use searus::searchers::tokenizer::{term_frequencies, tokenize};

#[test]
fn test_tokenize() {
    let text = "Hello, World! This is a test.";
    let tokens = tokenize(text);
    assert_eq!(tokens, vec!["hello", "world", "this", "is", "a", "test"]);
}

#[test]
fn test_term_frequencies() {
    let text = "the quick brown fox jumps over the lazy dog";
    let freqs = term_frequencies(text);
    assert_eq!(freqs.get("the"), Some(&2));
    assert_eq!(freqs.get("quick"), Some(&1));
    assert_eq!(freqs.get("brown"), Some(&1));
}
