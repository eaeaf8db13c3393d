use searus::attr::AttrNode;
use searus::engine::SearusEngine;
use searus::score::Score;
use searus::searchers::tagged::{TagNode, TagRelationshipTree, TaggedSearch};
use searus::types::{Query, Record, SearchDetail, SearchOptions};

fn text(s: &str) -> AttrNode {
    AttrNode::String(s.to_string())
}

fn tagged(title: &str, tags: &[&str]) -> Record<String> {
    let tags = AttrNode::Array(tags.iter().map(|t| text(t)).collect());
    let attrs = AttrNode::Object(vec![
        ("title".to_string(), text(title)),
        ("tags".to_string(), tags),
    ]);
    Record::new(title.to_string(), attrs)
}

fn strings(items: &[&str]) -> Vec<String> {
    items.iter().map(|s| s.to_string()).collect()
}

fn node(tag: &str, edges: &[(&str, u64)]) -> TagNode {
    TagNode {
        tag: tag.to_string(),
        relationships: edges
            .iter()
            .map(|(t, s)| (t.to_string(), Score::from_micros(*s)))
            .collect(),
    }
}

fn ai_tree() -> TagRelationshipTree {
    TagRelationshipTree::new(vec![
        node("ai", &[("ml", 700_000), ("dl", 800_000), ("nlp", 600_000)]),
        node("ml", &[("python", 400_000)]),
        node("dl", &[("python", 500_000)]),
    ])
}

#[test]
fn tag_intersection_without_tree() {
    let records = vec![
        tagged("both", &["rust", "tutorial"]),
        tagged("one", &["rust", "search"]),
        tagged("none", &["ml", "ai"]),
        tagged("upper", &["RUST", "Guide"]),
        tagged("empty", &[]),
    ];
    let engine = SearusEngine::builder().with(Box::new(TaggedSearch::new())).build();
    let searcher = TaggedSearch::new();
    let query = Query::builder().tags(strings(&["rust", "tutorial"])).build();

    let raw = searcher.find(&records, &query);
    assert_eq!(raw.len(), 3);
    assert_eq!(raw[0].item, "both");
    assert_eq!(raw[0].score, Score::from_micros(1_000_000));
    assert_eq!(raw[0].id, 0);
    assert_eq!(raw[1].item, "one");
    assert_eq!(raw[1].score, Score::from_micros(500_000));
    assert_eq!(raw[1].id, 1);
    assert_eq!(raw[2].item, "upper");
    assert_eq!(raw[2].score, Score::from_micros(500_000));
    assert_eq!(raw[2].id, 3);
    assert!(raw.iter().all(|m| m.item != "none"));
    match &raw[2].details[0] {
        SearchDetail::Tag { matched_tags, total_tags } => {
            assert_eq!(matched_tags, &vec!["RUST".to_string()]);
            assert_eq!(*total_tags, 2);
        }
        other => panic!("unexpected detail {:?}", other),
    }

    let results = engine.search(&records, &query);
    assert_eq!(results.len(), 3);
    assert_eq!(results[0].item, "both");
    assert!(results.iter().all(|m| m.item != "none"));
}

#[test]
fn no_tags_no_matches() {
    let records = vec![tagged("both", &["rust", "tutorial"])];
    let searcher = TaggedSearch::new();
    assert!(searcher.find(&records, &Query::default()).is_empty());
    let empty = Query::builder().tags(Vec::new()).build();
    assert!(searcher.find(&records, &empty).is_empty());
}

#[test]
fn custom_tag_field() {
    let attrs = AttrNode::Object(vec![(
        "labels".to_string(),
        AttrNode::Array(vec![text("rust"), AttrNode::Bool(true), text("web")]),
    )]);
    let records = vec![Record::new(1u32, attrs)];
    let query = Query::builder().tags(strings(&["web"])).build();
    assert!(TaggedSearch::new().find(&records, &query).is_empty());
    let found = TaggedSearch::with_field("labels").find(&records, &query);
    assert_eq!(found.len(), 1);
    assert_eq!(found[0].score, Score::from_micros(1_000_000));
    match &found[0].details[0] {
        SearchDetail::Tag { matched_tags, total_tags } => {
            assert_eq!(matched_tags, &vec!["web".to_string()]);
            assert_eq!(*total_tags, 2);
        }
        other => panic!("unexpected detail {:?}", other),
    }
}

#[test]
fn tree_expansion_of_depth_two() {
    let tree = ai_tree();
    let expanded = tree.expand_tags(&strings(&["ai"]), 2);
    assert_eq!(expanded.len(), 5);
    assert_eq!(expanded.get("ai"), Some(&Score::from_micros(1_000_000)));
    assert_eq!(expanded.get("ml"), Some(&Score::from_micros(700_000)));
    assert_eq!(expanded.get("dl"), Some(&Score::from_micros(800_000)));
    assert_eq!(expanded.get("nlp"), Some(&Score::from_micros(600_000)));
    assert_eq!(expanded.get("python"), Some(&Score::from_micros(400_000)));

    let records = vec![tagged("py", &["python"]), tagged("other", &["java"])];
    let searcher = TaggedSearch::new().with_trt(ai_tree());
    let query = Query::builder()
        .tags(strings(&["ai"]))
        .options(SearchOptions::default().trt_depth(2))
        .build();
    let found = searcher.find(&records, &query);
    assert_eq!(found.len(), 1);
    assert_eq!(found[0].item, "py");
    assert_eq!(found[0].score, Score::from_micros(400_000));
}

#[test]
fn tree_expansion_respects_depth() {
    let tree = ai_tree();
    let zero = tree.expand_tags(&strings(&["AI"]), 0);
    assert_eq!(zero.len(), 1);
    assert_eq!(zero.get("ai"), Some(&Score::from_micros(1_000_000)));

    let one = tree.expand_tags(&strings(&["AI"]), 1);
    assert_eq!(one.len(), 4);
    assert_eq!(one.get("python"), None);
    assert_eq!(one.get("dl"), Some(&Score::from_micros(800_000)));

    let empty = TagRelationshipTree::new(Vec::new());
    let seeds = empty.expand_tags(&strings(&["a", "B"]), 3);
    assert_eq!(seeds.len(), 2);
    assert_eq!(seeds.get("b"), Some(&Score::from_micros(1_000_000)));
}

#[test]
fn tree_without_depth_in_options_is_not_used() {
    let records = vec![tagged("py", &["python"])];
    let searcher = TaggedSearch::new().with_trt(ai_tree());
    let query = Query::builder().tags(strings(&["ai"])).build();
    assert!(searcher.find(&records, &query).is_empty());
    let depth_zero = Query::builder()
        .tags(strings(&["ai"]))
        .options(SearchOptions::default().trt_depth(0))
        .build();
    assert!(searcher.find(&records, &depth_zero).is_empty());
}

#[test]
fn cycles_are_safe() {
    let tree = TagRelationshipTree::new(vec![
        node("a", &[("b", 500_000)]),
        node("b", &[("a", 500_000)]),
    ]);
    let expanded = tree.expand_tags(&strings(&["a"]), 10);
    assert_eq!(expanded.len(), 2);
    assert_eq!(expanded.get("a"), Some(&Score::from_micros(1_000_000)));
    assert_eq!(expanded.get("b"), Some(&Score::from_micros(500_000)));

    let far = tree.expand_tags(&strings(&["a"]), usize::MAX);
    assert_eq!(far.len(), 2);
    // one tag in the query, two vertices in the graph
    assert!(far.len() <= 1 + 2);
}

#[test]
fn tree_tags_are_compared_without_case() {
    let tree = TagRelationshipTree::new(vec![node("AI", &[("ML", 700_000)])]);
    let expanded = tree.expand_tags(&strings(&["Ai"]), 1);
    assert_eq!(expanded.get("ml"), Some(&Score::from_micros(700_000)));
    assert_eq!(expanded.get("ML"), None);
}

#[test]
fn later_node_of_a_tag_counts() {
    let tree = TagRelationshipTree::new(vec![
        node("a", &[("b", 500_000)]),
        node("a", &[("c", 250_000)]),
    ]);
    let expanded = tree.expand_tags(&strings(&["a"]), 1);
    assert_eq!(expanded.get("b"), None);
    assert_eq!(expanded.get("c"), Some(&Score::from_micros(250_000)));
}

#[test]
fn strength_is_that_of_the_first_visit() {
    // d is first reached through b with 0.5; the later path through c only
    // raises d's own strength, not what d hands on.
    let tree = TagRelationshipTree::new(vec![
        node("a", &[("b", 500_000), ("c", 1_000_000)]),
        node("b", &[("d", 1_000_000)]),
        node("c", &[("d", 800_000)]),
        node("d", &[("e", 1_000_000)]),
    ]);
    let expanded = tree.expand_tags(&strings(&["a"]), 3);
    assert_eq!(expanded.get("d"), Some(&Score::from_micros(800_000)));
    assert_eq!(expanded.get("e"), Some(&Score::from_micros(500_000)));
}
