use searus::attr::AttrNode;
use searus::context::SearchContext;
use searus::engine::SearusEngine;
use searus::extension::SearusExtension;
use searus::field_scores::FieldScores;
use searus::ranking::{
    merge_results, normalize_list, normalize_results, paginate, rank, NormalizationMethod,
};
use searus::rules::{FieldRule, SemanticRules};
use searus::score::Score;
use searus::searcher::{ask_kind, run_searcher, Searcher};
use searus::searchers::semantic::SemanticSearch;
use searus::searchers::tagged::TaggedSearch;
use searus::sort::{merge_sorted, sort_by_score};
use searus::types::{Query, Record, SearchDetail, SearchOptions, SearcherKind, SearusMatch};

#[derive(Debug, Clone, PartialEq)]
struct Product {
    id: usize,
    name: String,
    category: String,
    price: f64,
}

struct PriceSearcher {
    max_price: f64,
}

impl PriceSearcher {
    fn new(max_price: f64) -> Self {
        Self { max_price }
    }
}

impl Searcher<Product> for PriceSearcher {
    fn kind(&self) -> SearcherKind {
        SearcherKind::Custom
    }

    fn search(&self, context: &SearchContext<Product>, _query: &Query) -> Vec<SearusMatch<Product>> {
        let mut matches = Vec::new();
        for (index, record) in context.items.iter().enumerate() {
            let item = &record.item;
            if item.price <= self.max_price {
                let score = 1.0 - (item.price / self.max_price) as f32;
                let micros = (score as f64 * 1_000_000.0) as u64;
                matches.push(SearusMatch::new(item.clone(), Score::from_micros(micros), index));
            }
        }
        matches
    }
}

fn record(product: Product) -> Record<Product> {
    Record::new(product, AttrNode::Null)
}

#[test]
fn test_custom_searcher() {
    let products = vec![
        record(Product {
            id: 1,
            name: "Laptop".to_string(),
            category: "Electronics".to_string(),
            price: 1000.0,
        }),
        record(Product {
            id: 2,
            name: "Phone".to_string(),
            category: "Electronics".to_string(),
            price: 500.0,
        }),
        record(Product {
            id: 3,
            name: "Mouse".to_string(),
            category: "Electronics".to_string(),
            price: 20.0,
        }),
    ];

    let engine = SearusEngine::builder()
        .with(Box::new(PriceSearcher::new(600.0)))
        .build();

    let query = Query::default();
    let results = engine.search(&products, &query);

    assert_eq!(results.len(), 2);
    assert_eq!(results[0].item.name, "Mouse");
    assert_eq!(results[1].item.name, "Phone");
}

#[derive(Debug, Clone, PartialEq)]
struct Item {
    id: usize,
    name: String,
}

fn named(id: usize, name: &str) -> Record<Item> {
    let attrs = AttrNode::Object(vec![("name".to_string(), AttrNode::String(name.to_string()))]);
    Record::new(Item { id, name: name.to_string() }, attrs)
}

struct QueryRewriteExt;

impl SearusExtension<Item> for QueryRewriteExt {
    fn before_query(&self, query: &mut Query) {
        if let Some(text) = &query.text {
            if text == "ml" {
                query.text = Some("machine learning".to_string());
            }
        }
    }
}

struct ResultModifyExt;

impl SearusExtension<Item> for ResultModifyExt {
    fn after_limit(&self, _query: &Query, results: &mut Vec<SearusMatch<Item>>) {
        for m in results {
            m.score = m.score.plus(Score::from_micros(100_000));
        }
    }
}

struct AddItemExt;

impl SearusExtension<Item> for AddItemExt {
    fn before_items(&self, _query: &Query, items: &mut Vec<Record<Item>>) {
        items.push(named(999, "Added by extension"));
    }
}

#[test]
fn test_extensions() {
    let items = vec![named(1, "machine learning"), named(2, "ai")];

    let engine = SearusEngine::builder()
        .with(Box::new(SemanticSearch::new(
            SemanticRules::builder()
                .field("name", FieldRule::default())
                .build(),
        )))
        .with_extension(Box::new(QueryRewriteExt))
        .with_extension(Box::new(ResultModifyExt))
        .with_extension(Box::new(AddItemExt))
        .build();

    let query = Query::builder().text("ml").build();
    let results = engine.search(&items, &query);

    let ml_match = results.iter().find(|m| m.item.name == "machine learning");
    assert!(ml_match.is_some(), "Query rewrite failed");
    assert_eq!(ml_match.unwrap().score, Score::from_micros(1_100_000));
    assert_eq!(results.len(), 1);

    let query_ext = Query::builder().text("extension").build();
    let results_ext = engine.search(&items, &query_ext);

    let ext_match = results_ext
        .iter()
        .find(|m| m.item.name == "Added by extension");
    assert!(ext_match.is_some(), "Item addition failed");

    if let Some(m) = ext_match {
        assert!(m.score >= Score::from_micros(100_000), "Score boost failed");
        assert_eq!(m.id, 2);
    }
}

struct Recorder {
    log: std::sync::Arc<std::sync::Mutex<Vec<String>>>,
    name: &'static str,
}

impl Recorder {
    fn note(&self, hook: &str) {
        self.log.lock().unwrap().push(format!("{}:{}", self.name, hook));
    }
}

impl SearusExtension<Item> for Recorder {
    fn before_query(&self, _query: &mut Query) {
        self.note("before_query");
    }
    fn before_items(&self, _query: &Query, _items: &mut Vec<Record<Item>>) {
        self.note("before_items");
    }
    fn after_searcher(&self, _query: &Query, _results: &mut Vec<SearusMatch<Item>>) {
        self.note("after_searcher");
    }
    fn before_merge(
        &self,
        _query: &Query,
        results: &mut Vec<(SearcherKind, Vec<SearusMatch<Item>>)>,
    ) {
        self.note(&format!("before_merge({})", results.len()));
    }
    fn after_merge(&self, _query: &Query, results: &mut Vec<SearusMatch<Item>>) {
        self.note("after_merge");
        results.reverse();
    }
    fn before_limit(&self, _query: &Query, results: &mut Vec<SearusMatch<Item>>) {
        let sorted = results.windows(2).all(|w| w[0].score >= w[1].score);
        self.note(&format!("before_limit(sorted={})", sorted));
    }
    fn after_limit(&self, _query: &Query, _results: &mut Vec<SearusMatch<Item>>) {
        self.note("after_limit");
    }
}

struct Constant {
    kind: SearcherKind,
    hits: Vec<(usize, u64)>,
}

impl Searcher<Item> for Constant {
    fn kind(&self) -> SearcherKind {
        self.kind
    }

    fn search(&self, context: &SearchContext<Item>, _query: &Query) -> Vec<SearusMatch<Item>> {
        self.hits
            .iter()
            .map(|(id, micros)| {
                SearusMatch::new(context.items[*id].item.clone(), Score::from_micros(*micros), *id)
                    .with_detail(SearchDetail::Image { similarity: Score::from_micros(*micros) })
                    .with_field_score("name", Score::from_micros(*micros))
            })
            .collect()
    }
}

fn constant(kind: SearcherKind, hits: &[(usize, u64)]) -> Box<Constant> {
    Box::new(Constant { kind, hits: hits.to_vec() })
}

fn five() -> Vec<Record<Item>> {
    (0..5).map(|i| named(i, &format!("item {}", i))).collect()
}

#[test]
fn hooks_run_in_order_of_stage_and_registration() {
    let log = std::sync::Arc::new(std::sync::Mutex::new(Vec::new()));
    let engine = SearusEngine::builder()
        .with(constant(SearcherKind::Vector, &[(0, 10), (1, 30)]))
        .with(constant(SearcherKind::Image, &[]))
        .with(constant(SearcherKind::Range, &[(2, 5)]))
        .with_extension(Box::new(Recorder { log: log.clone(), name: "a" }))
        .with_extension(Box::new(Recorder { log: log.clone(), name: "b" }))
        .build();
    let results = engine.search(&five(), &Query::default());
    assert_eq!(results.len(), 3);
    let seen = log.lock().unwrap().clone();
    let expected: Vec<String> = [
        "a:before_query",
        "b:before_query",
        "a:before_items",
        "b:before_items",
        "a:after_searcher",
        "b:after_searcher",
        "a:after_searcher",
        "b:after_searcher",
        "a:after_searcher",
        "b:after_searcher",
        "a:before_merge(2)",
        "b:before_merge(2)",
        "a:after_merge",
        "b:after_merge",
        "a:before_limit(sorted=true)",
        "b:before_limit(sorted=true)",
        "a:after_limit",
        "b:after_limit",
    ]
    .iter()
    .map(|s| s.to_string())
    .collect();
    assert_eq!(seen, expected);
}

#[test]
fn dispatch_keeps_the_lists_that_are_not_empty() {
    let engine = SearusEngine::builder()
        .with(constant(SearcherKind::Vector, &[(0, 10), (1, 30)]))
        .with(constant(SearcherKind::Image, &[]))
        .with(constant(SearcherKind::Range, &[(2, 5)]))
        .build();
    let records = five();
    let found = engine.dispatch(&records, &Query::default());
    assert_eq!(found.len(), 2);
    assert_eq!(found[0].0, SearcherKind::Vector);
    assert_eq!(found[0].1.iter().map(|m| m.id).collect::<Vec<_>>(), vec![0, 1]);
    assert_eq!(found[1].0, SearcherKind::Range);
    assert_eq!(found[1].1.iter().map(|m| m.id).collect::<Vec<_>>(), vec![2]);

    let none: SearusEngine<Item> = SearusEngine::builder().build();
    assert!(none.dispatch(&records, &Query::default()).is_empty());

    let context = SearchContext::new(&records);
    let searcher = constant(SearcherKind::Fuzzy, &[(3, 7)]);
    let direct = run_searcher(&*searcher, &context, &Query::default());
    assert_eq!(direct.len(), 1);
    assert_eq!(direct[0].id, 3);
    assert_eq!(ask_kind::<Item, Constant>(&*searcher), SearcherKind::Fuzzy);
}

#[test]
fn engine_without_searchers_finds_nothing() {
    let engine: SearusEngine<Item> = SearusEngine::builder().build();
    assert!(engine.search(&five(), &Query::default()).is_empty());
    assert!(engine.search(&five(), &Query::builder().text("item").build()).is_empty());
    let extended: SearusEngine<Item> =
        SearusEngine::builder().with_extension(Box::new(AddItemExt)).build();
    assert!(extended.search(&five(), &Query::builder().text("item").build()).is_empty());
    assert!(extended.search(&[], &Query::default()).is_empty());
}

#[test]
fn engine_where_nothing_matches_finds_nothing() {
    let engine = SearusEngine::builder()
        .with(constant(SearcherKind::Vector, &[]))
        .with(constant(SearcherKind::Image, &[]))
        .build();
    assert!(engine.search(&five(), &Query::default()).is_empty());
}

fn tagged_post(title: &str, tags: &[&str]) -> Record<String> {
    let tags = AttrNode::Array(tags.iter().map(|t| AttrNode::String(t.to_string())).collect());
    let attrs = AttrNode::Object(vec![
        ("title".to_string(), AttrNode::String(title.to_string())),
        ("tags".to_string(), tags),
    ]);
    Record::new(title.to_string(), attrs)
}

#[test]
fn multi_searcher_merge() {
    let records = vec![
        tagged_post("rust guide", &["tutorial"]),
        tagged_post("rust notes", &["misc"]),
        tagged_post("cooking", &["tutorial"]),
        tagged_post("gardening", &["plants"]),
    ];
    let rules = SemanticRules::builder().field("title", FieldRule::tokenized()).build();
    let engine = SearusEngine::builder()
        .with(Box::new(SemanticSearch::new(rules)))
        .with(Box::new(TaggedSearch::new()))
        .build();
    let query = Query::builder()
        .text("rust")
        .tags(vec!["tutorial".to_string()])
        .options(
            SearchOptions::default()
                .weight(SearcherKind::Semantic, Score::from_micros(600_000))
                .weight(SearcherKind::Tags, Score::from_micros(400_000)),
        )
        .build();
    let results = engine.search(&records, &query);
    // Each searcher gives its matches equal scores, which rescale to 1.
    assert_eq!(results.len(), 3);
    assert_eq!(results[0].item, "rust guide");
    assert_eq!(results[0].score, Score::from_micros(1_000_000));
    assert_eq!(results[0].details.len(), 2);
    assert!(matches!(results[0].details[0], SearchDetail::Semantic { .. }));
    assert!(matches!(results[0].details[1], SearchDetail::Tag { .. }));
    assert_eq!(results[0].field_scores.get("title"), Some(Score::from_micros(600_000)));
    assert_eq!(results[1].item, "rust notes");
    assert_eq!(results[1].score, Score::from_micros(600_000));
    assert_eq!(results[1].details.len(), 1);
    assert_eq!(results[2].item, "cooking");
    assert_eq!(results[2].score, Score::from_micros(400_000));
    assert!(results[0].score > results[1].score);
}

fn plain(id: usize, micros: u64) -> SearusMatch<usize> {
    SearusMatch::new(id, Score::from_micros(micros), id)
}

fn ids(matches: &[SearusMatch<usize>]) -> Vec<usize> {
    matches.iter().map(|m| m.id).collect()
}

fn micros(matches: &[SearusMatch<usize>]) -> Vec<u64> {
    matches.iter().map(|m| m.score.micros).collect()
}

#[test]
fn min_max_normalization() {
    let mut list = vec![plain(0, 2_000_000), plain(1, 5_000_000), plain(2, 3_000_000)];
    normalize_list(&mut list, NormalizationMethod::MinMax);
    assert_eq!(micros(&list), vec![0, 1_000_000, 333_333]);
    assert_eq!(ids(&list), vec![0, 1, 2]);

    let mut same = vec![plain(0, 7), plain(1, 7)];
    normalize_list(&mut same, NormalizationMethod::MinMax);
    assert_eq!(micros(&same), vec![1_000_000, 1_000_000]);

    let mut one = vec![plain(4, 0)];
    normalize_list(&mut one, NormalizationMethod::MinMax);
    assert_eq!(micros(&one), vec![1_000_000]);

    let mut none: Vec<SearusMatch<usize>> = Vec::new();
    normalize_list(&mut none, NormalizationMethod::MinMax);
    assert!(none.is_empty());

    let mut wide = vec![plain(0, 0), plain(1, u64::MAX), plain(2, u64::MAX / 2)];
    normalize_list(&mut wide, NormalizationMethod::MinMax);
    assert_eq!(micros(&wide), vec![0, 1_000_000, 499_999]);
}

#[test]
fn inverse_distance_normalization() {
    let mut list = vec![plain(0, 0), plain(1, 1_000_000), plain(2, 3_000_000), plain(3, u64::MAX)];
    normalize_list(&mut list, NormalizationMethod::InverseDistance);
    assert_eq!(micros(&list), vec![1_000_000, 500_000, 250_000, 0]);
}

#[test]
fn normalized_scores_are_at_most_one() {
    for method in [NormalizationMethod::MinMax, NormalizationMethod::InverseDistance] {
        let lists = vec![
            (SearcherKind::Vector, vec![plain(0, 17), plain(1, 900), plain(2, 12_345_678)]),
            (SearcherKind::Image, vec![plain(0, u64::MAX)]),
            (SearcherKind::Range, vec![plain(3, 1), plain(1, 2)]),
        ];
        let normalized = normalize_results(lists, method);
        assert_eq!(normalized.len(), 3);
        assert_eq!(normalized[0].0, SearcherKind::Vector);
        assert_eq!(normalized[2].0, SearcherKind::Range);
        for (_, list) in &normalized {
            for m in list {
                assert!(m.score <= Score::from_micros(1_000_000));
            }
        }
    }
}

#[test]
fn merge_sums_weighted_scores_by_record() {
    let mut with_fields = plain(1, 500_000);
    with_fields.field_scores = FieldScores::new();
    with_fields.field_scores.set("title".to_string(), Score::from_micros(200_000));
    with_fields.field_scores.set("body".to_string(), Score::from_micros(300_000));
    let mut again = plain(1, 1_000_000);
    again.field_scores.set("body".to_string(), Score::from_micros(1_000_000));
    again.details.push(SearchDetail::Image { similarity: Score::from_micros(9) });
    let lists = vec![
        (SearcherKind::Semantic, vec![plain(2, 1_000_000), with_fields]),
        (SearcherKind::Tags, vec![again, plain(0, 250_000)]),
        (SearcherKind::Custom, vec![plain(2, 3_000_000)]),
    ];
    let options = SearchOptions::default()
        .weight(SearcherKind::Semantic, Score::from_micros(600_000))
        .weight(SearcherKind::Tags, Score::from_micros(9_999))
        .weight(SearcherKind::Tags, Score::from_micros(400_000));
    let merged = merge_results(lists, &options);
    assert_eq!(ids(&merged), vec![2, 1, 0]);
    // 0.6 * 1 + 1 * 3: the weight of a kind without one is 1, and sums are
    // not capped at 1.
    assert_eq!(merged[0].score, Score::from_micros(3_600_000));
    assert_eq!(merged[1].score, Score::from_micros(700_000));
    assert_eq!(merged[2].score, Score::from_micros(100_000));
    assert_eq!(merged[1].field_scores.get("title"), Some(Score::from_micros(120_000)));
    assert_eq!(merged[1].field_scores.get("body"), Some(Score::from_micros(580_000)));
    assert_eq!(merged[1].field_scores.len(), 2);
    assert_eq!(merged[1].details.len(), 1);
    assert_eq!(merged[1].item, 1);
    assert_eq!(options.weight_for(SearcherKind::Tags), Score::from_micros(400_000));
    assert_eq!(options.weight_for(SearcherKind::Fuzzy), Score::from_micros(1_000_000));

    let nothing: Vec<(SearcherKind, Vec<SearusMatch<usize>>)> = Vec::new();
    assert!(merge_results(nothing, &options).is_empty());
}

#[test]
fn sorting_is_stable() {
    let list = vec![
        plain(0, 5),
        plain(1, 9),
        plain(2, 5),
        plain(3, 9),
        plain(4, 1),
        plain(5, 5),
        plain(6, 10),
    ];
    let sorted = sort_by_score(list);
    assert_eq!(ids(&sorted), vec![6, 1, 3, 0, 2, 5, 4]);
    assert_eq!(micros(&sorted), vec![10, 9, 9, 5, 5, 5, 1]);
    let none: Vec<SearusMatch<usize>> = Vec::new();
    assert!(sort_by_score(none).is_empty());

    let mut results = vec![plain(0, 1), plain(1, 2), plain(2, 1)];
    TaggedSearch::new().sort_results(&mut results);
    assert_eq!(ids(&results), vec![1, 0, 2]);

    let one = sort_by_score(vec![plain(8, 3)]);
    assert_eq!(ids(&one), vec![8]);
}

#[test]
fn sorting_many_matches_is_stable() {
    let mut seed: u64 = 12345;
    let mut list = Vec::new();
    for id in 0..1000usize {
        seed = seed.wrapping_mul(6364136223846793005).wrapping_add(1442695040888963407);
        list.push(plain(id, (seed >> 33) % 50));
    }
    let mut expected: Vec<(u64, usize)> = list.iter().map(|m| (m.score.micros, m.id)).collect();
    expected.sort_by(|a, b| b.0.cmp(&a.0));
    let sorted = sort_by_score(list);
    let found: Vec<(u64, usize)> = sorted.iter().map(|m| (m.score.micros, m.id)).collect();
    assert_eq!(found, expected);
}

#[test]
fn merging_prefers_the_left_on_ties() {
    let left = vec![plain(0, 9), plain(1, 5), plain(2, 5)];
    let right = vec![plain(3, 9), plain(4, 7), plain(5, 5), plain(6, 1)];
    let out = merge_sorted(left, right);
    assert_eq!(ids(&out), vec![0, 3, 4, 1, 2, 5, 6]);
    assert_eq!(ids(&merge_sorted(Vec::new(), vec![plain(1, 1)])), vec![1]);
    assert_eq!(ids(&merge_sorted(vec![plain(1, 1)], Vec::new())), vec![1]);
}

#[test]
fn equal_merged_scores_keep_merge_order() {
    let lists = vec![
        (SearcherKind::Vector, vec![plain(3, 7), plain(1, 7), plain(4, 7)]),
        (SearcherKind::Image, vec![plain(0, 2), plain(1, 2)]),
    ];
    let page = rank(lists, NormalizationMethod::MinMax, &SearchOptions::default());
    // Every list rescales to ones: record 1 has 2, the others 1 each, in
    // the order in which they were first seen.
    assert_eq!(ids(&page), vec![1, 3, 4, 0]);
    assert_eq!(micros(&page), vec![2_000_000, 1_000_000, 1_000_000, 1_000_000]);
}

#[test]
fn pagination_skips_then_limits() {
    let list = || (0..7).map(|i| plain(i, 100 - i as u64)).collect::<Vec<_>>();
    assert_eq!(ids(&paginate(list(), 0, 20)), vec![0, 1, 2, 3, 4, 5, 6]);
    assert_eq!(ids(&paginate(list(), 2, 3)), vec![2, 3, 4]);
    assert_eq!(ids(&paginate(list(), 5, 3)), vec![5, 6]);
    assert_eq!(ids(&paginate(list(), 6, 1)), vec![6]);
    assert!(paginate(list(), 7, 3).is_empty());
    assert!(paginate(list(), 100, 3).is_empty());
    assert!(paginate(list(), 0, 0).is_empty());
    assert_eq!(paginate(list(), 3, usize::MAX).len(), 4);
    assert_eq!(paginate(list(), usize::MAX, usize::MAX).len(), 0);
}

#[test]
fn pages_are_bounded_by_limit_and_records() {
    let records = five();
    for limit in [0usize, 1, 2, 5, 20] {
        for skip in [0usize, 1, 4, 9] {
            let engine = SearusEngine::builder()
                .with(constant(SearcherKind::Vector, &[(0, 10), (1, 30), (4, 30)]))
                .with(constant(SearcherKind::Range, &[(2, 5), (1, 1), (3, 2), (0, 0)]))
                .build();
            let query = Query::builder()
                .options(SearchOptions::default().skip(skip).limit(limit))
                .build();
            let results = engine.search(&records, &query);
            assert!(results.len() <= limit);
            assert!(results.len() <= records.len());
            assert_eq!(results.len(), 5usize.saturating_sub(skip).min(limit));
        }
    }
}

#[test]
fn defaults() {
    let options = SearchOptions::default();
    assert_eq!(options.skip, 0);
    assert_eq!(options.limit, 20);
    assert_eq!(options.timeout_ms, 0);
    assert!(options.weights.is_empty());
    assert_eq!(options.trt_depth, None);
    let changed = options.skip(3).limit(4).timeout_ms(5).trt_depth(6);
    assert_eq!((changed.skip, changed.limit, changed.timeout_ms), (3, 4, 5));
    assert_eq!(changed.trt_depth, Some(6));
    let query = Query::builder().vector(vec![1, 2]).build();
    assert_eq!(query.vector, Some(vec![1, 2]));
    assert!(query.text.is_none() && query.tags.is_none() && query.filters.is_none());
    assert!(query.image.is_none());
    assert_eq!(query.options.limit, 20);
}
