use searus::attr::{AttrNode, Number};
use searus::filter::{CompareOp, FilterExpr, FilterValue};
use searus::score::Score;
use searus::searchers::fuzzy::{prune, BestPair, FuzzySearch};
use searus::types::{Query, Record, SearchDetail};

fn text(s: &str) -> AttrNode {
    AttrNode::String(s.to_string())
}

fn item(name: &str, note: &str, rank: f64) -> Record<String> {
    let attrs = AttrNode::Object(vec![
        ("name".to_string(), text(name)),
        ("note".to_string(), text(note)),
        ("rank".to_string(), AttrNode::Number(Number::from_bits(rank.to_bits()), rank.to_string())),
        ("flag".to_string(), AttrNode::Bool(true)),
    ]);
    Record::new(name.to_string(), attrs)
}

fn similarity(a: &str, b: &str) -> Score {
    Score::from_binary64_bits(strsim::jaro_winkler(a, b).to_bits())
}

fn fields(names: &[&str]) -> Vec<String> {
    names.iter().map(|s| s.to_string()).collect()
}

#[test]
fn fuzzy_match_takes_the_closest_pair() {
    let records = vec![
        item("rost and rusty", "", 1.0),
        item("python", "", 2.0),
        item("trust", "", 3.0),
    ];
    let searcher = FuzzySearch::new(fields(&["name"]));
    let query = Query::builder().text("Rust").build();
    let found = searcher.find(&records, &query);

    let rost = similarity("rust", "rost");
    let rusty = similarity("rust", "rusty");
    let trust = similarity("rust", "trust");
    assert_eq!(rost, Score::from_micros(850_000));
    assert!(rusty > rost);
    assert_eq!(rusty, Score::from_micros(959_999));
    assert!(trust >= Score::from_micros(800_000));

    assert_eq!(found.len(), 2);
    assert_eq!(found[0].item, "rost and rusty");
    assert_eq!(found[0].score, rusty);
    assert_eq!(found[0].id, 0);
    assert!(found[0].field_scores.is_empty());
    match &found[0].details[0] {
        SearchDetail::Fuzzy { matched_term, original_term, similarity } => {
            assert_eq!(matched_term, "rusty");
            assert_eq!(original_term, "rust");
            assert_eq!(*similarity, rusty);
        }
        other => panic!("unexpected detail {:?}", other),
    }
    assert_eq!(found[1].item, "trust");
    assert_eq!(found[1].score, trust);
    assert_eq!(found[1].id, 2);
}

#[test]
fn fuzzy_threshold_decides() {
    let records = vec![item("rost", "", 1.0)];
    let query = Query::builder().text("rust").build();
    let strict = FuzzySearch::new(fields(&["name"])).with_threshold(Score::from_micros(850_001));
    assert!(strict.find(&records, &query).is_empty());
    let exact = FuzzySearch::new(fields(&["name"])).with_threshold(Score::from_micros(850_000));
    assert_eq!(exact.find(&records, &query).len(), 1);
    assert_eq!(FuzzySearch::new(Vec::new()).threshold, Score::from_micros(800_000));
}

#[test]
fn fuzzy_stops_after_a_near_perfect_pair() {
    // "rust" itself is found in the first field; the second field is not
    // looked at, nor the terms after it.
    let records = vec![item("a rust b", "rust", 1.0)];
    let searcher = FuzzySearch::new(fields(&["name", "note"]));
    let found = searcher.find(&records, &Query::builder().text("rust").build());
    assert_eq!(found.len(), 1);
    assert_eq!(found[0].score, Score::from_micros(1_000_000));

    let best = BestPair {
        similarity: Score::from_micros(0),
        query_term: String::new(),
        doc_term: String::new(),
        done: false,
    };
    let q = "rust".to_string();
    let d = "rusty".to_string();
    let kept = searcher.take(best.clone(), &q, &d, Score::from_micros(799_999));
    assert_eq!(kept.similarity, Score::from_micros(0));
    assert!(!kept.done);
    let taken = searcher.take(best.clone(), &q, &d, Score::from_micros(950_000));
    assert_eq!(taken.similarity, Score::from_micros(950_000));
    assert_eq!(taken.doc_term, "rusty");
    assert_eq!(taken.query_term, "rust");
    assert!(!taken.done);
    let done = searcher.take(taken.clone(), &q, &q, Score::from_micros(950_001));
    assert!(done.done);
    assert_eq!(done.doc_term, "rust");
    let same = searcher.take(taken.clone(), &q, &q, Score::from_micros(950_000));
    assert_eq!(same.doc_term, "rusty");
}

#[test]
fn fuzzy_prunes_by_length() {
    assert!(!prune("rust", "rusty"));
    assert!(!prune("ab", "abcd"));
    assert!(prune("ab", "abcde"));
    assert!(prune("abcde", "ab"));
    assert!(!prune("", ""));
    assert!(prune("", "a"));
    assert!(!prune("abc", "ab"));
    // lengths are counted in bytes
    assert!(prune("é", "ééé"));
    assert!(!prune("ab", "éé"));

    // "programming" against "pro" would be similar enough, but is pruned
    assert!(similarity("programming", "pro") >= Score::from_micros(800_000));
    let records = vec![item("pro", "", 1.0)];
    let searcher = FuzzySearch::new(fields(&["name"]));
    assert!(searcher.find(&records, &Query::builder().text("programming").build()).is_empty());
}

#[test]
fn fuzzy_reads_texts_and_numbers_by_key() {
    let records = vec![item("x", "y", 2024.0)];
    let query = Query::builder().text("2024").build();
    assert_eq!(FuzzySearch::new(fields(&["rank"])).find(&records, &query).len(), 1);
    assert!(FuzzySearch::new(fields(&["flag"]))
        .find(&records, &Query::builder().text("true").build())
        .is_empty());
    assert!(FuzzySearch::new(fields(&["missing"])).find(&records, &query).is_empty());
    assert!(FuzzySearch::new(fields(&["rank"])).find(&records, &Query::default()).is_empty());
}

#[test]
fn fuzzy_respects_the_filter() {
    let records = vec![item("rust", "", 1.0), item("rust", "", 5.0)];
    let filter = FilterExpr::Compare {
        field: "rank".to_string(),
        op: CompareOp::Gt,
        value: FilterValue::Number(Number::from_bits(2.0f64.to_bits())),
    };
    let query = Query::builder().text("rust").filters(filter).build();
    let found = FuzzySearch::new(fields(&["name"])).find(&records, &query);
    assert_eq!(found.len(), 1);
    assert_eq!(found[0].id, 1);
}

#[test]
fn threshold_of_zero_matches_every_record() {
    let records = vec![item("abc", "", 1.0)];
    let searcher = FuzzySearch::new(fields(&["missing"])).with_threshold(Score::from_micros(0));
    let found = searcher.find(&records, &Query::builder().text("zzz").build());
    assert_eq!(found.len(), 1);
    assert_eq!(found[0].score, Score::from_micros(0));
    match &found[0].details[0] {
        SearchDetail::Fuzzy { matched_term, original_term, .. } => {
            assert_eq!(matched_term, "");
            assert_eq!(original_term, "");
        }
        other => panic!("unexpected detail {:?}", other),
    }
}
