//! Holodex: a probabilistic pre-filter index over JSON-like documents.
//!
//! Given a collection of parsed documents and an equality or existence
//! predicate over a structural path (`author._ref == "author-1"`,
//! `body[0].children[1].text` defined), the index returns every document
//! position that may satisfy the predicate. The candidate set is proved to
//! contain every true match: a document whose tree holds the queried path
//! and value is always returned (no false negatives). False positives are
//! possible and are filtered downstream by exact evaluation.

pub mod bloom;
pub mod extract;
pub mod hash;
pub mod index;
pub mod metrics;
pub mod path;
pub mod value;

pub use bloom::BloomFilter;
pub use extract::extract_pairs;
pub use hash::{hash_pair, hash_path_only, hash_predicate};
pub use index::{fingerprint, Holodex};
pub use metrics::HolodexMetrics;
pub use path::{normalize_path_segment, normalize_query_path};
pub use value::JsonValue;
