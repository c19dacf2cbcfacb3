//! A retrieval-augmented knowledge service library.
//!
//! The library holds the verified core of the service: the knowledge-graph
//! value type, the parameterised query builder, the canonical JSON codecs for
//! the wire protocols, the in-memory vector index with top-k selection, and
//! the pure request-assembly helpers that the dispatcher uses.  All I/O (the
//! HTTP server, the graph database driver, the sentence-embedding model) lives
//! outside the library and exchanges plain values with it.

use vstd::prelude::*;

pub mod builder;
pub mod graph;
pub mod index;
pub mod kg_json;
pub mod message;
pub mod query_json;
pub mod text;
pub mod types;
pub mod unescape;
pub mod utils;

pub use builder::Edge;
pub use builder::Labels;
pub use builder::Neo4jQuery;
pub use builder::Neo4jQueryBuilder;
pub use builder::Node;
pub use graph::Entity;
pub use graph::KgError;
pub use graph::KnowledgeGraph;
pub use graph::Relation;
pub use index::VectorIndex;
pub use message::Message;

verus! {

/// The dimension of every embedding vector the service handles.
pub const EMBEDDING_DIM: usize = 384;

} // verus!
