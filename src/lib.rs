//! A one-to-many relation between two typed identifier families.
//!
//! Every target has at most one source; every source owns the set of targets
//! linked to it. Both directions are kept in step on every mutation.
mod id;
pub mod laws;
mod relation;
mod sparse;

pub use id::{ids, Id};
pub use relation::OneToMany;
pub use sparse::SparseMap;
