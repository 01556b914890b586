//! Operational transform on rich-text documents: document trees, the
//! deletions and insertions that edit them, and the composition of edits.
pub mod apply;
pub mod compose;
pub mod compose_add;
pub mod compose_op;
pub mod convergence;
pub mod doc;
pub mod exchange;
pub mod laws;
pub mod normalize;
pub mod parse;
pub mod random;
pub mod place;
pub mod rtf;
pub mod stepper;
pub mod stream;
pub mod transform;
pub mod transform_add;
pub mod transform_ins;
pub mod validate;
pub mod writer;
