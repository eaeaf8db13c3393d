use searus::attr::{AttrNode, Number};
use searus::engine::SearusEngine;
use searus::rules::{FieldRule, Matcher, SemanticRules};
use searus::score::Score;
use searus::searchers::semantic::{calculate_corpus_stats, extract_field, SemanticSearch};
use searus::types::{Query, Record, SearchDetail, SearchOptions};

fn text(s: &str) -> AttrNode {
    AttrNode::String(s.to_string())
}

fn post(title: &str, content: &str) -> Record<String> {
    let attrs = AttrNode::Object(vec![
        ("title".to_string(), text(title)),
        ("content".to_string(), text(content)),
        (
            "author".to_string(),
            AttrNode::Object(vec![("name".to_string(), text("Ada Lovelace"))]),
        ),
        ("year".to_string(), AttrNode::Number(Number::from_bits(2024.0f64.to_bits()), "2024".to_string())),
        ("draft".to_string(), AttrNode::Bool(false)),
    ]);
    Record::new(title.to_string(), attrs)
}

fn posts() -> Vec<Record<String>> {
    vec![
        post("Getting Started with Rust", "Rust is a systems programming language"),
        post("Building a Search Engine", "Learn how to build a search engine"),
        post("Advanced Rust Patterns", "Traits and lifetimes in depth"),
        post("Intro to ML", "Machine learning for beginners"),
        post("Rust for Web", "Web services with Rust"),
    ]
}

#[test]
fn bm25_ordering() {
    let records = posts();
    let rules = SemanticRules::builder()
        .field("title", FieldRule::bm25().priority(3).boost(Score::from_micros(2_000_000)))
        .build();
    let engine = SearusEngine::builder().with(Box::new(SemanticSearch::new(rules))).build();
    let query = Query::builder()
        .text("rust programming")
        .options(SearchOptions::default().limit(3))
        .build();
    let results = engine.search(&records, &query);
    assert_eq!(results.len(), 3);
    for m in &results {
        assert!(m.item.to_lowercase().contains("rust"));
    }
    assert!(results.iter().any(|m| m.item == "Getting Started with Rust"));
    assert!(results.iter().all(|m| m.item != "Intro to ML"));

    let searcher = SemanticSearch::new(
        SemanticRules::builder()
            .field("title", FieldRule::bm25().priority(3).boost(Score::from_micros(2_000_000)))
            .build(),
    );
    let raw = searcher.find(&records, &query);
    assert_eq!(raw.len(), 3);
    // The three-word titles are shorter than the four-word one, so they
    // score higher; equal scores keep the order of the records.
    assert_eq!(raw[0].item, "Advanced Rust Patterns");
    assert_eq!(raw[1].item, "Rust for Web");
    assert_eq!(raw[2].item, "Getting Started with Rust");
    assert_eq!(raw[0].score, raw[1].score);
    assert!(raw[1].score > raw[2].score);
    assert!(raw[2].score > Score::from_micros(0));
    assert_eq!(raw[2].id, 0);
    assert_eq!(raw[0].field_scores.get("title"), Some(raw[0].score));
    assert_eq!(raw[0].field_scores.len(), 1);
    match &raw[0].details[0] {
        SearchDetail::Semantic { matched_terms, field, weight } => {
            assert_eq!(matched_terms, &vec!["rust".to_string()]);
            assert_eq!(field, "multiple");
            assert_eq!(*weight, raw[0].score);
        }
        other => panic!("unexpected detail {:?}", other),
    }
}

#[test]
fn bm25_score_is_idf_times_saturation_times_rule() {
    // One record in three holds the term once, in a title of two tokens;
    // the mean title has two tokens.
    let records = vec![post("rust book", ""), post("go book", ""), post("zig book", "")];
    let rules = SemanticRules::builder()
        .field("title", FieldRule::bm25().priority(3).boost(Score::from_micros(2_000_000)))
        .build();
    let raw = SemanticSearch::new(rules).find(&records, &Query::builder().text("rust").build());
    assert_eq!(raw.len(), 1);
    let idf = ((3.0f64 - 1.0 + 0.5) / 1.5 + 1.0).ln();
    let expected = idf * (1.0 * 2.5) / (1.0 + 1.5) * 2.0 * 3.0;
    assert!((raw[0].score.micros as f64 / 1e6 - expected).abs() < 1e-5);
}

#[test]
fn tokenized_counts_occurrences() {
    let records = vec![
        post("rust rust rust", "about rust"),
        post("Rust", "nothing"),
        post("python", "snakes"),
    ];
    let rules = SemanticRules::builder()
        .field("title", FieldRule::tokenized().priority(2))
        .field("content", FieldRule::tokenized().boost(Score::from_micros(500_000)))
        .build();
    let searcher = SemanticSearch::new(rules);
    let raw = searcher.find(&records, &Query::builder().text("Rust snakes").build());
    assert_eq!(raw.len(), 3);
    assert_eq!(raw[0].item, "rust rust rust");
    assert_eq!(raw[0].score, Score::from_micros(6_500_000));
    assert_eq!(raw[0].field_scores.get("title"), Some(Score::from_micros(6_000_000)));
    assert_eq!(raw[0].field_scores.get("content"), Some(Score::from_micros(500_000)));
    assert_eq!(raw[1].item, "Rust");
    assert_eq!(raw[1].score, Score::from_micros(2_000_000));
    assert_eq!(raw[1].field_scores.get("content"), None);
    assert_eq!(raw[2].item, "python");
    assert_eq!(raw[2].score, Score::from_micros(500_000));
    match &raw[0].details[0] {
        SearchDetail::Semantic { matched_terms, .. } => {
            assert_eq!(matched_terms, &vec!["rust".to_string(), "rust".to_string()]);
        }
        other => panic!("unexpected detail {:?}", other),
    }
}

#[test]
fn exact_matches_the_whole_query() {
    let records = vec![
        post("The Search Engine Book", ""),
        post("Engine search", ""),
        post("search  engine", ""),
    ];
    let rules = SemanticRules::builder().field("title", FieldRule::exact()).build();
    let searcher = SemanticSearch::new(rules);
    let raw = searcher.find(&records, &Query::builder().text("SEARCH, engine!").build());
    assert_eq!(raw.len(), 1);
    assert_eq!(raw[0].item, "The Search Engine Book");
    assert_eq!(raw[0].score, Score::from_micros(1_000_000));
    match &raw[0].details[0] {
        SearchDetail::Semantic { matched_terms, .. } => {
            assert_eq!(matched_terms, &vec!["search".to_string(), "engine".to_string()]);
        }
        other => panic!("unexpected detail {:?}", other),
    }
}

#[test]
fn fuzzy_rule_scores_nothing() {
    let records = posts();
    let rules = SemanticRules::builder().field("title", FieldRule::fuzzy()).build();
    let raw = SemanticSearch::new(rules).find(&records, &Query::builder().text("rust").build());
    assert!(raw.is_empty());
    assert_eq!(FieldRule::fuzzy().matcher, Matcher::Fuzzy);
}

#[test]
fn no_text_no_matches() {
    let records = posts();
    let rules = SemanticRules::builder().field("title", FieldRule::bm25()).build();
    let searcher = SemanticSearch::new(rules);
    assert!(searcher.find(&records, &Query::default()).is_empty());
    assert!(searcher.find(&records, &Query::builder().text("  ... !").build()).is_empty());
    let none: Vec<Record<String>> = Vec::new();
    assert!(searcher.find(&none, &Query::builder().text("rust").build()).is_empty());
}

#[test]
fn nested_and_scalar_fields() {
    let records = posts();
    assert_eq!(extract_field(&records[0].attrs, "author.name"), Some("Ada Lovelace".to_string()));
    assert_eq!(extract_field(&records[0].attrs, "year"), Some("2024".to_string()));
    assert_eq!(extract_field(&records[0].attrs, "draft"), Some("false".to_string()));
    assert_eq!(extract_field(&records[0].attrs, "author"), None);
    assert_eq!(extract_field(&records[0].attrs, "author.age"), None);
    assert_eq!(extract_field(&records[0].attrs, "title.x"), None);

    let rules = SemanticRules::builder()
        .field("author.name", FieldRule::tokenized())
        .field("year", FieldRule::tokenized())
        .field("missing", FieldRule::tokenized())
        .build();
    let raw = SemanticSearch::new(rules).find(&records, &Query::builder().text("ada 2024").build());
    assert_eq!(raw.len(), 5);
    assert_eq!(raw[0].score, Score::from_micros(2_000_000));
    assert_eq!(raw[0].id, 0);
    assert_eq!(raw[4].id, 4);
}

#[test]
fn corpus_statistics() {
    let records = vec![
        post("rust rust", "rust and go"),
        post("go", ""),
        post("zig", "zig zig zig"),
    ];
    let rules = SemanticRules::builder()
        .field("title", FieldRule::bm25())
        .field("content", FieldRule::bm25())
        .field("missing", FieldRule::bm25())
        .build();
    let stats = calculate_corpus_stats(&records, &rules, &None);
    assert_eq!(stats.total_docs, 3);
    assert_eq!(stats.doc_freq.get("rust"), Some(&1));
    assert_eq!(stats.doc_freq.get("go"), Some(&2));
    assert_eq!(stats.doc_freq.get("zig"), Some(&1));
    assert_eq!(stats.doc_freq.get("and"), Some(&1));
    assert_eq!(stats.doc_freq.get("python"), None);
    // 10 tokens in 6 fields
    assert_eq!(stats.avg_doc_length, Score::from_micros(1_666_666));

    let none: Vec<Record<String>> = Vec::new();
    let empty = calculate_corpus_stats(&none, &rules, &None);
    assert_eq!(empty.total_docs, 0);
    assert_eq!(empty.avg_doc_length, Score::from_micros(0));
    assert!(empty.doc_freq.is_empty());
}

#[test]
fn later_rule_of_a_field_replaces_the_earlier() {
    let rules = SemanticRules::builder()
        .field("title", FieldRule::exact())
        .field("content", FieldRule::bm25())
        .field("title", FieldRule::tokenized().priority(7))
        .build();
    assert_eq!(rules.fields.len(), 2);
    assert_eq!(rules.fields[0].0, "title");
    assert_eq!(rules.fields[0].1, FieldRule::new(Matcher::Tokenized).priority(7));
    assert_eq!(rules.fields[1].0, "content");
    assert_eq!(FieldRule::default(), FieldRule::tokenized());
    assert_eq!(FieldRule::default().priority, 1);
    assert_eq!(FieldRule::default().boost, Score::from_micros(1_000_000));
}
