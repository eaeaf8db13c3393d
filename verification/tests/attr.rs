use searus::attr::{AttrNode, Number};
use searus::context::SearchContext;
use searus::embeddings::StubTextEmbedder;
use searus::searchers::tokenizer::{count_terms, tokenize};
use searus::text::{chars_of, comes_before, contains, join_spaced, split_path};
use searus::types::Record;

fn text(s: &str) -> AttrNode {
    AttrNode::String(s.to_string())
}

fn tree() -> AttrNode {
    AttrNode::Object(vec![
        ("a".to_string(), text("first")),
        (
            "b".to_string(),
            AttrNode::Object(vec![
                ("c".to_string(), AttrNode::Bool(true)),
                ("".to_string(), text("empty key")),
                ("d.e".to_string(), text("never reached")),
            ]),
        ),
        ("a".to_string(), text("second")),
        ("".to_string(), text("top empty")),
        ("n".to_string(), AttrNode::Number(Number::from_bits(1.5f64.to_bits()), "1.5".to_string())),
        ("list".to_string(), AttrNode::Array(vec![text("x"), AttrNode::Null, text("y")])),
    ])
}

fn as_text(node: Option<&AttrNode>) -> Option<String> {
    node.and_then(|n| n.text())
}

#[test]
fn lookup_follows_the_path() {
    let root = tree();
    assert_eq!(as_text(root.lookup("a")), Some("first".to_string()));
    assert_eq!(as_text(root.lookup("b.c")), Some("true".to_string()));
    assert_eq!(as_text(root.lookup("b.")), Some("empty key".to_string()));
    assert_eq!(as_text(root.lookup("")), Some("top empty".to_string()));
    assert_eq!(as_text(root.lookup("n")), Some("1.5".to_string()));
    assert!(root.lookup("b.d.e").is_none());
    assert!(root.lookup("b.x").is_none());
    assert!(root.lookup("a.b").is_none());
    assert!(root.lookup("list.0").is_none());
    assert!(root.lookup(".").is_none());
    assert!(matches!(root.lookup("b"), Some(AttrNode::Object(_))));
    assert!(text("leaf").lookup("a").is_none());
    assert!(text("leaf").child(&"a".to_string()).is_none());
}

#[test]
fn node_texts() {
    let root = tree();
    assert_eq!(root.lookup("n").unwrap().plain_text(), Some("1.5".to_string()));
    assert_eq!(root.lookup("b.c").unwrap().plain_text(), None);
    assert_eq!(AttrNode::Bool(false).text(), Some("false".to_string()));
    assert_eq!(AttrNode::Null.text(), None);
    assert_eq!(root.lookup("list").unwrap().text(), None);
    assert_eq!(root.lookup("list").unwrap().strings(), vec!["x".to_string(), "y".to_string()]);
    assert!(root.lookup("a").unwrap().strings().is_empty());
    let copy = root.clone();
    assert_eq!(as_text(copy.lookup("b.")), Some("empty key".to_string()));
    assert_eq!(copy.lookup("list").unwrap().strings().len(), 2);
}

#[test]
fn paths_split_at_dots() {
    assert_eq!(split_path("a.b.c"), vec!["a", "b", "c"]);
    assert_eq!(split_path(""), vec![""]);
    assert_eq!(split_path("."), vec!["", ""]);
    assert_eq!(split_path("a..b."), vec!["a", "", "b", ""]);
    assert_eq!(split_path("näme.ünï"), vec!["näme", "ünï"]);
}

#[test]
fn text_helpers() {
    assert_eq!(chars_of("aé€"), vec!['a', 'é', '€']);
    assert!(contains("hello world", "lo w"));
    assert!(contains("hello", ""));
    assert!(contains("", ""));
    assert!(!contains("", "a"));
    assert!(!contains("hello", "hello!"));
    assert!(contains("aab", "ab"));
    assert!(comes_before("a", "b"));
    assert!(comes_before("", "a"));
    assert!(!comes_before("a", ""));
    assert!(!comes_before("a", "a"));
    assert!(comes_before("a", "aa"));
    assert!(comes_before("Z", "a"));
    assert!(comes_before("z", "é"));
    assert!(comes_before("é", "\u{10000}"));
    assert!(comes_before("\u{ffff}", "\u{10000}"));
    for (a, b) in [("abc", "abd"), ("", ""), ("é", "e"), ("ab", "a"), ("x", "xy")] {
        assert_eq!(comes_before(a, b), a < b);
    }
    let parts = |p: &[&str]| p.iter().map(|s| s.to_string()).collect::<Vec<_>>();
    assert_eq!(join_spaced(&parts(&[])), "");
    assert_eq!(join_spaced(&parts(&["one"])), "one");
    assert_eq!(join_spaced(&parts(&["one", "two", "three"])), "one two three");
    assert_eq!(join_spaced(&parts(&["", ""])), " ");
}

#[test]
fn tokenizer_round_trips() {
    for s in [
        "Hello, World! This is a test.",
        "The quick (\"brown\") fox can't jump 32.3 feet, right?",
        "ÅNGSTRÖM straße  Ünïcödé",
        "  leading and trailing  ",
        "",
        "日本語 のテキスト",
        "snake_case and kebab-case",
    ] {
        let once = tokenize(s);
        let again = tokenize(&once.join(" "));
        assert_eq!(again, once, "{:?}", s);
    }
    assert_eq!(tokenize("RUST Rust rust"), vec!["rust", "rust", "rust"]);
    assert!(tokenize("  ...  ").is_empty());
    let words: Vec<String> = ["a", "b", "a"].iter().map(|s| s.to_string()).collect();
    let counts = count_terms(&words);
    assert_eq!(counts.len(), 2);
    assert_eq!(counts.get("a"), Some(&2));
    assert_eq!(counts.get("b"), Some(&1));
    assert_eq!(counts.get("c"), None);
}

#[test]
fn context_cache() {
    let records = vec![Record::new(1u8, AttrNode::Null), Record::new(2u8, AttrNode::Null)];
    let context = SearchContext::new(&records);
    assert_eq!(context.items.len(), 2);
    assert!(context.get_cache_value("stats").is_none());
    let context = context
        .with_cache_value("stats", AttrNode::Bool(true))
        .with_cache_value("other", text("x"))
        .with_cache_value("stats", text("replaced"));
    assert_eq!(context.items.len(), 2);
    assert_eq!(as_text(context.get_cache_value("stats")), Some("replaced".to_string()));
    assert_eq!(as_text(context.get_cache_value("other")), Some("x".to_string()));
    assert!(context.get_cache_value("Stats").is_none());
}

#[test]
fn stub_embedder_is_deterministic() {
    let embedder = StubTextEmbedder::new(4);
    let hash = "ab".bytes().fold(0u64, |acc, b| acc.wrapping_mul(31).wrapping_add(b as u64));
    assert_eq!(hash, 97 * 31 + 98);
    let mut seed = hash;
    let mut expected = Vec::new();
    for _ in 0..4 {
        seed = seed.wrapping_mul(1103515245).wrapping_add(12345);
        expected.push(((seed / 65536) % 32768) as u16);
    }
    assert_eq!(embedder.embed("ab"), expected);
    assert_eq!(embedder.embed("ab"), embedder.embed("ab"));
    assert_ne!(embedder.embed("ab"), embedder.embed("ba"));
    assert!(StubTextEmbedder::new(0).embed("x").is_empty());
    assert_eq!(StubTextEmbedder::default().dimension, 384);
    let long: String = std::iter::repeat("wörd ").take(500).collect();
    let vector = StubTextEmbedder::default().embed(&long);
    assert_eq!(vector.len(), 384);
    assert!(vector.iter().all(|c| *c < 32768));
    assert_eq!(StubTextEmbedder::new(2).embed(""), vec![0, 21468]);
}
