use searus::attr::{AttrNode, Number};
use searus::field_scores::FieldScores;
use searus::filter::{
    compare_numbers, compare_texts, compare_values, equals_element, let_through, CompareOp,
    FilterExpr, FilterValue,
};
use searus::prelude::StringHashMap;
use searus::ranking::{absorb_match, add_weighted, position_of_id, rescale, NormalizationMethod};
use searus::score::Score;
use searus::searchers::tagged::{score_tags, seed_tags, TaggedSearch};
use searus::searchers::tokenizer::lowercase_words;
use searus::types::{Record, SearchDetail, SearusMatch};

fn s(micros: u64) -> Score {
    Score::from_micros(micros)
}

fn plain(id: usize, micros: u64) -> SearusMatch<&'static str> {
    SearusMatch::new("item", s(micros), id)
}

#[test]
fn absorbing_one_match_at_a_time() {
    let mut merged: Vec<SearusMatch<&'static str>> = Vec::new();
    absorb_match(&mut merged, plain(7, 500_000), s(2_000_000));
    absorb_match(&mut merged, plain(3, 250_000), s(1_000_000));
    let again = plain(7, 1_000_000)
        .with_field_score("title", s(400_000))
        .with_detail(SearchDetail::Image { similarity: s(1) });
    absorb_match(&mut merged, again, s(500_000));
    assert_eq!(merged.len(), 2);
    assert_eq!(merged[0].id, 7);
    assert_eq!(merged[0].score, s(1_500_000));
    assert_eq!(merged[0].field_scores.get("title"), Some(s(200_000)));
    assert_eq!(merged[0].details.len(), 1);
    assert_eq!(merged[1].id, 3);
    assert_eq!(merged[1].score, s(250_000));
    assert_eq!(position_of_id(&merged, 7), 0);
    assert_eq!(position_of_id(&merged, 3), 1);
    assert_eq!(position_of_id(&merged, 9), 2);
}

#[test]
fn field_scores_keep_the_first_entry_of_a_name() {
    let mut scores = FieldScores::new();
    assert!(scores.is_empty());
    scores.set("a".to_string(), s(1));
    scores.set("b".to_string(), s(2));
    scores.set("a".to_string(), s(3));
    scores.add("b".to_string(), s(10));
    scores.add("c".to_string(), s(5));
    assert_eq!(scores.len(), 3);
    assert_eq!(scores.get("a"), Some(s(3)));
    assert_eq!(scores.get("b"), Some(s(12)));
    assert_eq!(scores.get("c"), Some(s(5)));
    assert_eq!(scores.get("d"), None);
    assert_eq!(scores.position(&"b".to_string()), 1);
    assert_eq!(scores.position(&"z".to_string()), 3);
    assert_eq!(scores.entries[0].0, "a");

    let mut extra = FieldScores::new();
    extra.set("c".to_string(), s(1_000_000));
    extra.set("e".to_string(), s(3_000_000));
    add_weighted(&mut scores, extra, s(500_000));
    assert_eq!(scores.get("c"), Some(s(500_005)));
    assert_eq!(scores.get("e"), Some(s(1_500_000)));
    assert_eq!(scores.len(), 4);
}

#[test]
fn rescaling_one_score() {
    assert_eq!(rescale(s(3), s(2), s(5), NormalizationMethod::MinMax), s(333_333));
    assert_eq!(rescale(s(2), s(2), s(5), NormalizationMethod::MinMax), s(0));
    assert_eq!(rescale(s(5), s(2), s(5), NormalizationMethod::MinMax), s(1_000_000));
    assert_eq!(rescale(s(9), s(9), s(9), NormalizationMethod::MinMax), s(1_000_000));
    assert_eq!(rescale(s(1_000_000), s(0), s(0), NormalizationMethod::InverseDistance), s(500_000));
    assert_eq!(rescale(s(0), s(0), s(0), NormalizationMethod::InverseDistance), s(1_000_000));
}

#[test]
fn tag_scores() {
    assert_eq!(score_tags(2, s(2_000_000), 2), s(1_000_000));
    assert_eq!(score_tags(1, s(1_000_000), 2), s(500_000));
    assert_eq!(score_tags(1, s(400_000), 1), s(400_000));
    assert_eq!(score_tags(2, s(1_100_000), 3), s(366_666));
    assert_eq!(score_tags(3, s(3_000_000), 2), s(1_500_000));
    assert_eq!(score_tags(1, s(1_000_000), 0), s(0));
    let seeds = seed_tags(&vec!["Rust".to_string(), "WEB".to_string(), "rust".to_string()]);
    assert_eq!(seeds.len(), 2);
    assert_eq!(seeds.get("rust"), Some(&s(1_000_000)));
    assert_eq!(seeds.get("web"), Some(&s(1_000_000)));
    assert_eq!(seeds.get("Rust"), None);
    let plain = TaggedSearch::default().expansion(Some(3), &vec!["A".to_string()]);
    assert_eq!(plain.len(), 1);
    assert_eq!(plain.get("a"), Some(&s(1_000_000)));
}

#[test]
fn matching_against_a_given_expansion() {
    let mut expanded: StringHashMap<Score> = StringHashMap::new();
    expanded.insert("rust".to_string(), s(1_000_000));
    expanded.insert("web".to_string(), s(600_000));
    let attrs = AttrNode::Object(vec![(
        "tags".to_string(),
        AttrNode::Array(vec![
            AttrNode::String("Web".to_string()),
            AttrNode::String("go".to_string()),
            AttrNode::String("RUST".to_string()),
        ]),
    )]);
    let record = Record::new('x', attrs);
    let searcher = TaggedSearch::new();
    let found = searcher.match_expanded(&record, 4, &expanded, 4).unwrap();
    // two of four, with a mean strength of 0.8
    assert_eq!(found.score, s(400_000));
    assert_eq!(found.id, 4);
    assert_eq!(found.item, 'x');
    match &found.details[0] {
        SearchDetail::Tag { matched_tags, total_tags } => {
            assert_eq!(matched_tags, &vec!["Web".to_string(), "RUST".to_string()]);
            assert_eq!(*total_tags, 3);
        }
        other => panic!("unexpected detail {:?}", other),
    }
    let empty: StringHashMap<Score> = StringHashMap::new();
    assert!(searcher.match_expanded(&record, 4, &empty, 4).is_none());
}

#[test]
fn comparing_values() {
    let a = "apple".to_string();
    let b = "banana".to_string();
    assert!(compare_texts(&a, CompareOp::Lt, &b));
    assert!(compare_texts(&a, CompareOp::Le, &a));
    assert!(!compare_texts(&a, CompareOp::Gt, &b));
    assert!(compare_texts(&b, CompareOp::Ge, &a));
    assert!(compare_texts(&a, CompareOp::Ne, &b));
    assert!(!compare_texts(&a, CompareOp::Contains, &a));
    let of = |x: f64| Number::from_bits(x.to_bits());
    assert!(compare_numbers(of(1.0), CompareOp::Lt, of(2.0)));
    assert!(!compare_numbers(of(2.0), CompareOp::Le, of(1.0)));
    assert!(compare_numbers(of(f64::NAN), CompareOp::Ne, of(1.0)));
    assert!(!compare_numbers(of(f64::NAN), CompareOp::Ge, of(f64::NAN)));
    assert!(equals_element(&AttrNode::Bool(true), &FilterValue::Bool(true)));
    assert!(!equals_element(&AttrNode::Null, &FilterValue::Bool(false)));
    assert!(!equals_element(
        &AttrNode::Number(of(1.0), "1".to_string()),
        &FilterValue::String("1".to_string())
    ));
    assert!(!compare_values(None, CompareOp::Ne, &FilterValue::Bool(true)));
    assert!(!compare_values(Some(&AttrNode::Null), CompareOp::Eq, &FilterValue::Bool(true)));
    assert!(compare_values(
        Some(&AttrNode::String("Straße".to_string())),
        CompareOp::Contains,
        &FilterValue::String("STRA".to_string())
    ));
    let tree = AttrNode::Object(vec![("ok".to_string(), AttrNode::Bool(true))]);
    assert!(let_through(&None, &tree));
    let filter = FilterExpr::Compare {
        field: "ok".to_string(),
        op: CompareOp::Eq,
        value: FilterValue::Bool(false),
    };
    assert!(!let_through(&Some(filter), &tree));
    assert!(matches!(FilterValue::String("x".to_string()).clone(), FilterValue::String(s) if s == "x"));
}

#[test]
fn lowercasing_words() {
    let words = vec!["Hello".to_string(), "WORLD".to_string(), "ÄÖÜ".to_string(), "ok".to_string()];
    assert_eq!(lowercase_words(&words), vec!["hello", "world", "äöü", "ok"]);
    assert!(lowercase_words(&Vec::new()).is_empty());
}
