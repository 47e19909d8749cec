use holodex::{
    extract_pairs, hash_pair, hash_path_only, hash_predicate, normalize_path_segment,
    normalize_query_path, BloomFilter, Holodex, HolodexMetrics, JsonValue,
};

fn make_doc(id: &str, title: &str, author_ref: &str) -> (String, JsonValue) {
    let doc = JsonValue::Object(vec![
        ("_id".to_string(), JsonValue::String(id.to_string())),
        ("_type".to_string(), JsonValue::String("post".to_string())),
        ("title".to_string(), JsonValue::String(title.to_string())),
        (
            "author".to_string(),
            JsonValue::Object(vec![(
                "_ref".to_string(),
                JsonValue::String(author_ref.to_string()),
            )]),
        ),
    ]);
    (id.to_string(), doc)
}

#[test]
fn test_path_normalization() {
    assert_eq!(normalize_path_segment("[0]"), "[*]");
    assert_eq!(normalize_path_segment("[123]"), "[*]");
    assert_eq!(normalize_path_segment("title"), "title");
    assert_eq!(normalize_path_segment("[key]"), "[key]"); // Not a number, keep as-is
}

#[test]
fn test_query_path_normalization() {
    // Simple paths unchanged
    assert_eq!(normalize_query_path("title"), "title");
    assert_eq!(normalize_query_path("metadata.featured"), "metadata.featured");

    // Array indexes normalized
    assert_eq!(normalize_query_path("body[0]"), "body[*]");
    assert_eq!(normalize_query_path("body[0].text"), "body[*].text");
    assert_eq!(
        normalize_query_path("body[0].children[1].text"),
        "body[*].children[*].text"
    );

    // Empty brackets are not digit runs; left untouched
    assert_eq!(normalize_query_path("items[]"), "items[]");

    // Mixed paths
    assert_eq!(normalize_query_path("author._ref"), "author._ref");
    assert_eq!(normalize_query_path("categories[0]._ref"), "categories[*]._ref");
}

#[test]
fn test_extract_pairs() {
    let doc = JsonValue::Object(vec![
        ("title".to_string(), JsonValue::String("Hello".to_string())),
        (
            "nested".to_string(),
            JsonValue::Object(vec![(
                "field".to_string(),
                JsonValue::Number((42.0f64).to_bits()),
            )]),
        ),
    ]);

    let pairs = extract_pairs(&doc);

    // Should have: title, nested, nested.field
    assert!(pairs.iter().any(|(p, _)| p == "title"));
    assert!(pairs.iter().any(|(p, _)| p == "nested.field"));
}

#[test]
fn test_holodex_basic() {
    let docs = vec![
        make_doc("doc-1", "Hello World", "author-1"),
        make_doc("doc-2", "Goodbye World", "author-2"),
        make_doc("doc-3", "Hello Again", "author-1"),
    ];

    let holodex = Holodex::build(&docs);

    // Query for title == "Hello World"
    let candidates = holodex.candidates_eq("title", &JsonValue::String("Hello World".to_string()));

    // Should find doc-1, might have false positives
    assert!(candidates.contains(&0), "Should find doc-1");

    // Verify no false negatives
    assert!(!candidates.is_empty());
}

#[test]
fn test_holodex_nested_path() {
    let docs = vec![
        make_doc("doc-1", "Post 1", "author-1"),
        make_doc("doc-2", "Post 2", "author-2"),
        make_doc("doc-3", "Post 3", "author-1"),
    ];

    let holodex = Holodex::build(&docs);

    // Query for author._ref == "author-1"
    let candidates =
        holodex.candidates_eq("author._ref", &JsonValue::String("author-1".to_string()));

    // Should find doc-1 and doc-3
    assert!(candidates.contains(&0), "Should find doc-1");
    assert!(candidates.contains(&2), "Should find doc-3");
}

#[test]
fn test_holodex_metrics() {
    let metrics = HolodexMetrics::calculate(1000, 50, 45);

    assert_eq!(metrics.false_positives, 5);
    let fpr = metrics.false_positive_rate_ppm as f64 / 1e6;
    let reduction = metrics.reduction_ratio_ppm as f64 / 1e6;
    assert!((fpr - 0.1).abs() < 0.001);
    assert!((reduction - 0.95).abs() < 0.001);
}

#[test]
fn test_no_false_negatives() {
    // This is the critical invariant: we must never miss a matching document

    let docs: Vec<_> = (0..100)
        .map(|i| make_doc(&format!("doc-{}", i), &format!("Title {}", i), "author-1"))
        .collect();

    let holodex = Holodex::build(&docs);

    // Query for each title and verify it's in candidates
    for i in 0..100 {
        let title = format!("Title {}", i);
        let candidates = holodex.candidates_eq("title", &JsonValue::String(title));

        assert!(
            candidates.contains(&i),
            "FALSE NEGATIVE: doc-{} not in candidates for its own title",
            i
        );
    }
}

#[test]
fn test_array_path_normalization() {
    let doc = JsonValue::Object(vec![
        ("_id".to_string(), JsonValue::String("doc-1".to_string())),
        (
            "body".to_string(),
            JsonValue::Array(vec![JsonValue::Object(vec![(
                "children".to_string(),
                JsonValue::Array(vec![JsonValue::Object(vec![(
                    "text".to_string(),
                    JsonValue::String("Hello".to_string()),
                )])]),
            )])]),
        ),
    ]);

    let pairs = extract_pairs(&doc);

    // Check that array paths are normalized
    let has_normalized_path = pairs.iter().any(|(p, _)| p.contains("[*]"));

    assert!(has_normalized_path, "Array paths should be normalized to [*]");
}

fn make_array_doc(id: &str, text: &str) -> (String, JsonValue) {
    let doc = JsonValue::Object(vec![
        ("_id".to_string(), JsonValue::String(id.to_string())),
        (
            "body".to_string(),
            JsonValue::Array(vec![JsonValue::Object(vec![(
                "children".to_string(),
                JsonValue::Array(vec![JsonValue::Object(vec![(
                    "text".to_string(),
                    JsonValue::String(text.to_string()),
                )])]),
            )])]),
        ),
    ]);
    (id.to_string(), doc)
}

#[test]
fn test_candidates_eq_collapses_array_indices() {
    let docs = vec![make_array_doc("doc-1", "Hello")];
    let holodex = Holodex::build(&docs);

    let hello = JsonValue::String("Hello".to_string());
    let c1 = holodex.candidates_eq("body[0].children[0].text", &hello);
    assert!(c1.contains(&0));

    // Any concrete indices collapse to the same normalized path.
    let c2 = holodex.candidates_eq("body[7].children[3].text", &hello);
    assert!(c2.contains(&0));
}

#[test]
fn test_candidates_defined_returns_every_holder() {
    let docs = vec![
        make_doc("doc-1", "Post 1", "author-1"),
        make_doc("doc-2", "Post 2", "author-2"),
        make_doc("doc-3", "Post 3", "author-9"),
    ];
    let holodex = Holodex::build(&docs);

    // Every document has an author._ref path, whatever its value.
    let defined = holodex.candidates_defined("author._ref");
    assert!(defined.contains(&0));
    assert!(defined.contains(&1));
    assert!(defined.contains(&2));

    // The object-valued path "author" is itself defined.
    let author_defined = holodex.candidates_defined("author");
    assert!(author_defined.contains(&0));
    assert!(author_defined.contains(&1));
    assert!(author_defined.contains(&2));
}

#[test]
fn test_candidate_order_and_ids() {
    let docs = vec![
        make_doc("doc-1", "Same", "author-1"),
        make_doc("doc-2", "Same", "author-1"),
        make_doc("doc-3", "Same", "author-1"),
    ];
    let holodex = Holodex::build(&docs);
    assert_eq!(holodex.len(), 3);
    assert_eq!(holodex.doc_id(0), "doc-1");
    assert_eq!(holodex.doc_id(2), "doc-3");

    let candidates = holodex.candidates_eq("title", &JsonValue::String("Same".to_string()));
    assert_eq!(candidates, vec![0, 1, 2]);
    assert!(holodex.size_bytes() > 0);
}

#[test]
fn test_hash_determinism_and_discrimination() {
    let v = JsonValue::String("Hello".to_string());
    // Identical inputs hash identically across calls and rebuilt values.
    assert_eq!(hash_pair("title", &v), hash_pair("title", &JsonValue::String("Hello".to_string())));
    assert_eq!(hash_path_only("title"), hash_path_only("title"));
    // Different paths give different digests.
    assert_ne!(hash_pair("title", &v), hash_pair("body", &v));
    // Type tags keep primitive domains apart from path-only probes.
    assert_ne!(hash_pair("title", &v), hash_path_only("title"));
    // Number payloads are hashed from their binary64 bit pattern.
    let n1 = JsonValue::Number((1.0f64).to_bits());
    let n2 = JsonValue::Number((2.0f64).to_bits());
    assert_ne!(hash_pair("count", &n1), hash_pair("count", &n2));
    // The predicate hash normalizes the path first.
    assert_eq!(hash_predicate("body[0].text", &v), hash_predicate("body[9].text", &v));
    assert_eq!(hash_predicate("body[0].text", &v), hash_pair("body[*].text", &v));
}

#[test]
fn test_bloom_filter_membership() {
    let mut filter = BloomFilter::new(10);
    // Sized from n = 10 at 1% target: 96 bits, so 12 bytes.
    assert_eq!(filter.size_bytes(), 12);
    let h1 = hash_path_only("title");
    let h2 = hash_path_only("body");
    assert!(!filter.contains(h1));
    filter.insert(h1);
    assert!(filter.contains(h1));
    filter.insert(h2);
    assert!(filter.contains(h1));
    assert!(filter.contains(h2));
}

#[test]
fn test_filter_discriminates() {
    let docs: Vec<_> = (0..100)
        .map(|i| make_doc(&format!("doc-{}", i), &format!("Title {}", i), "author-1"))
        .collect();
    let holodex = Holodex::build(&docs);

    // An absent title must not light up every signature: at the 1% target
    // rate the candidate list stays far below the collection size.
    let candidates =
        holodex.candidates_eq("title", &JsonValue::String("No Such Title".to_string()));
    assert!(candidates.len() < 100);
}

#[test]
fn test_empty_inputs() {
    // A primitive root yields no observations.
    assert!(extract_pairs(&JsonValue::Null).is_empty());
    assert!(extract_pairs(&JsonValue::Object(vec![])).is_empty());

    // An empty collection builds an empty index.
    let holodex = Holodex::build(&[]);
    assert_eq!(holodex.len(), 0);
    assert_eq!(holodex.size_bytes(), 0);
    assert!(holodex
        .candidates_eq("title", &JsonValue::String("x".to_string()))
        .is_empty());

    // Normalization of edge paths.
    assert_eq!(normalize_query_path(""), "");
    assert_eq!(normalize_query_path("[0]"), "[*]");
}

#[test]
fn test_metrics_zero_candidates() {
    let metrics = HolodexMetrics::calculate(10, 0, 0);
    assert_eq!(metrics.false_positives, 0);
    assert_eq!(metrics.false_positive_rate_ppm, 0);
    assert_eq!(metrics.reduction_ratio_ppm, 1000000);
}

#[test]
fn test_metrics_exact_ppm() {
    let metrics = HolodexMetrics::calculate(1000, 50, 45);
    assert_eq!(metrics.total_docs, 1000);
    assert_eq!(metrics.candidates, 50);
    assert_eq!(metrics.true_matches, 45);
    assert_eq!(metrics.false_positive_rate_ppm, 100000);
    assert_eq!(metrics.reduction_ratio_ppm, 950000);
    // Saturating subtraction: more matches than candidates is clamped.
    let clamped = HolodexMetrics::calculate(10, 3, 5);
    assert_eq!(clamped.false_positives, 0);
}

#[test]
fn test_normalize_idempotent_samples() {
    for p in [
        "",
        "title",
        "body[0].children[1].text",
        "items[]",
        "a..b",
        "[0]",
        "weird]path[3",
        "a.[5",
        "x[12]y[z]",
    ] {
        let once = normalize_query_path(p);
        let twice = normalize_query_path(&once);
        assert_eq!(once, twice, "normalization must be idempotent on {:?}", p);
    }
}

#[test]
fn test_fingerprint_field_order_irrelevant() {
    // Two documents with identical field-value sets, object entries
    // permuted at both depths: their signatures answer every query the
    // same way.
    let doc_a = JsonValue::Object(vec![
        ("title".to_string(), JsonValue::String("Hello".to_string())),
        (
            "author".to_string(),
            JsonValue::Object(vec![
                ("_ref".to_string(), JsonValue::String("author-1".to_string())),
                ("role".to_string(), JsonValue::String("editor".to_string())),
            ]),
        ),
    ]);
    let doc_b = JsonValue::Object(vec![
        (
            "author".to_string(),
            JsonValue::Object(vec![
                ("role".to_string(), JsonValue::String("editor".to_string())),
                ("_ref".to_string(), JsonValue::String("author-1".to_string())),
            ]),
        ),
        ("title".to_string(), JsonValue::String("Hello".to_string())),
    ]);
    let idx_a = Holodex::build(&[("doc-1".to_string(), doc_a)]);
    let idx_b = Holodex::build(&[("doc-1".to_string(), doc_b)]);

    assert_eq!(idx_a.size_bytes(), idx_b.size_bytes());
    for (path, value) in [
        ("title", JsonValue::String("Hello".to_string())),
        ("author._ref", JsonValue::String("author-1".to_string())),
        ("author.role", JsonValue::String("writer".to_string())),
        ("missing.path", JsonValue::Null),
    ] {
        assert_eq!(idx_a.candidates_eq(path, &value), idx_b.candidates_eq(path, &value));
    }
    for path in ["title", "author", "author._ref", "other"] {
        assert_eq!(idx_a.candidates_defined(path), idx_b.candidates_defined(path));
    }
}

#[test]
fn test_mixed_primitive_values() {
    let doc = JsonValue::Object(vec![
        ("flag".to_string(), JsonValue::Bool(true)),
        ("count".to_string(), JsonValue::Number((3.5f64).to_bits())),
        ("gap".to_string(), JsonValue::Null),
    ]);
    let docs = vec![("doc-1".to_string(), doc)];
    let holodex = Holodex::build(&docs);

    assert!(holodex.candidates_eq("flag", &JsonValue::Bool(true)).contains(&0));
    assert!(holodex
        .candidates_eq("count", &JsonValue::Number((3.5f64).to_bits()))
        .contains(&0));
    assert!(holodex.candidates_eq("gap", &JsonValue::Null).contains(&0));
}
