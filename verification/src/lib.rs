//! Document iteration and scoring for query evaluation over an inverted index.
//!
//! A query is evaluated by a tree of scorers. Every node is a forward-only
//! cursor over document identifiers in increasing order ([`DocIterator`]) that
//! can also report a relevance score for the document it stands on
//! ([`Scorer`]). Combinators own their children and derive their position and
//! score from them; [`BoostingScorer`] is the one provided here.
//!
//! Scores are IEEE 754 single-precision values carried as bit patterns. This
//! crate compares and classifies such patterns but performs no floating-point
//! arithmetic: a [`Score`] names the base value and the factors that apply to
//! it, and the caller multiplies.
//!
//! Scoring and sorting functions read raw field data as [`VariantValue`]s:
//! values of one of several kinds, ordered and compared within a kind, and
//! bridged to and from JSON documents.
pub mod boosting_scorer;
pub mod doc_iterator;
pub mod error;
pub mod float_bits;
pub mod json;
pub mod numeric;
pub mod order;
pub mod postings;
pub mod postings_scorer;
pub mod score;
pub mod scorer;
pub mod text;
pub mod variant_cmp;
pub mod variant_from;
pub mod variant_json;
pub mod variant_text;
pub mod variant_value;

pub use boosting_scorer::BoostingScorer;
pub use doc_iterator::DocIterator;
pub use error::SearchError;
pub use postings::{DocId, Postings, NO_MORE_DOCS};
pub use postings_scorer::PostingsScorer;
pub use score::{Score, ScoreModel};
pub use scorer::Scorer;
pub use variant_value::{VariantMap, VariantValue};
