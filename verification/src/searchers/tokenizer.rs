//! Splitting text into lowercase word tokens.

use vstd::prelude::*;
use vstd::hash_map::StringHashMap;
use crate::text::{lowercase, lowercase_of};

verus! {

/// The words of a text, as `UnicodeSegmentation::unicode_words` of the crate
/// `unicode-segmentation` yields them.
pub uninterp spec fn unicode_words_of(text: Seq<char>) -> Seq<Seq<char>>;

/// Calls `UnicodeSegmentation::unicode_words` on `text` and collects the
/// words it yields, in order. It is trusted that this is the sequence
/// [`unicode_words_of`] names: the words depend on the text alone.
#[verifier::external_body]
fn unicode_words(text: &str) -> (words: Vec<String>)
    ensures
        words.deep_view() == unicode_words_of(text@),
{
    let mut words: Vec<String> = Vec::new();
    for word in unicode_segmentation::UnicodeSegmentation::unicode_words(text) {
        words.push(word.to_string());
    }
    words
}

/// The lowercase form of each word, in order.
pub open spec fn lowercase_all(words: Seq<Seq<char>>) -> Seq<Seq<char>> {
    Seq::new(words.len(), |i: int| lowercase_of(words[i]))
}

/// The tokens of a text: its words in lowercase.
pub open spec fn spec_tokenize(text: Seq<char>) -> Seq<Seq<char>> {
    lowercase_all(unicode_words_of(text))
}

/// How often `term` occurs among `tokens`.
pub open spec fn occurrences(tokens: Seq<Seq<char>>, term: Seq<char>) -> nat
    decreases tokens.len(),
{
    if tokens.len() == 0 {
        0
    } else {
        occurrences(tokens.drop_last(), term) + if tokens.last() == term {
            1nat
        } else {
            0nat
        }
    }
}

/// The map from each token to the number of times it occurs.
pub open spec fn spec_frequencies(tokens: Seq<Seq<char>>) -> Map<Seq<char>, usize> {
    Map::new(
        |term: Seq<char>| tokens.contains(term),
        |term: Seq<char>| occurrences(tokens, term) as usize,
    )
}

/// The lowercase form of each given word, in order.
pub fn lowercase_words(words: &Vec<String>) -> (tokens: Vec<String>)
    ensures
        tokens.deep_view() == lowercase_all(words.deep_view()),
{
    let mut tokens: Vec<String> = Vec::new();
    let mut i: usize = 0;
    while i < words.len()
        invariant
            i <= words.len(),
            tokens.len() == i,
            forall|j: int| 0 <= j < i ==> tokens[j]@ == lowercase_of(#[trigger] words[j]@),
        decreases words.len() - i,
    {
        tokens.push(lowercase(words[i].as_str()));
        i += 1;
    }
    assert(tokens.deep_view() =~= lowercase_all(words.deep_view()));
    tokens
}

/// Splits a text into its lowercase word tokens.
pub fn tokenize(text: &str) -> (tokens: Vec<String>)
    ensures
        tokens.deep_view() == spec_tokenize(text@),
{
    let words = unicode_words(text);
    lowercase_words(&words)
}

/// A term occurs at most as often as there are tokens, and at least once
/// exactly if it is among them.
pub proof fn lemma_occurrences_bounds(tokens: Seq<Seq<char>>, term: Seq<char>)
    ensures
        occurrences(tokens, term) <= tokens.len(),
        occurrences(tokens, term) > 0 <==> tokens.contains(term),
    decreases tokens.len(),
{
    if tokens.len() > 0 {
        let front = tokens.drop_last();
        lemma_occurrences_bounds(front, term);
        if tokens.last() == term {
            assert(tokens[tokens.len() - 1] == term);
        } else if front.contains(term) {
            let k = choose|k: int| 0 <= k < front.len() && front[k] == term;
            assert(tokens[k] == term);
        } else if tokens.contains(term) {
            let k = choose|k: int| 0 <= k < tokens.len() && tokens[k] == term;
            assert(front[k] == term);
        }
    }
}

/// Counts how often each token occurs.
pub fn count_terms(tokens: &Vec<String>) -> (freqs: StringHashMap<usize>)
    ensures
        freqs@ == spec_frequencies(tokens.deep_view()),
{
    let mut freqs: StringHashMap<usize> = StringHashMap::new();
    let ghost all = tokens.deep_view();
    let mut i: usize = 0;
    assert(freqs@ =~= spec_frequencies(all.take(0)));
    while i < tokens.len()
        invariant
            i <= tokens.len(),
            all == tokens.deep_view(),
            freqs@ == spec_frequencies(all.take(i as int)),
        decreases tokens.len() - i,
    {
        let ghost before = all.take(i as int);
        let ghost after = all.take(i + 1);
        let ghost term = tokens[i as int]@;
        let seen: usize = match freqs.get(tokens[i].as_str()) {
            Some(n) => *n,
            None => 0,
        };
        proof {
            assert(after.drop_last() =~= before);
            assert(after.last() == term);
            lemma_occurrences_bounds(before, term);
            assert(seen == occurrences(before, term));
        }
        freqs.insert(tokens[i].clone(), seen + 1);
        proof {
            assert forall|t: Seq<char>| after.contains(t) <==> (t == term || before.contains(t)) by {
                lemma_occurrences_bounds(before, t);
                lemma_occurrences_bounds(after, t);
            }
            assert(freqs@ =~= spec_frequencies(after));
        }
        i += 1;
    }
    assert(all.take(i as int) =~= all);
    freqs
}

/// Counts how often each token of a text occurs.
pub fn term_frequencies(text: &str) -> (freqs: StringHashMap<usize>)
    ensures
        freqs@ == spec_frequencies(spec_tokenize(text@)),
{
    let tokens = tokenize(text);
    count_terms(&tokens)
}

} // verus!
