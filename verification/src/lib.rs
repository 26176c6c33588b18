//! A registry of hierarchically named topics: a tree keyed by the segments of
//! topic paths, which records every message under the topic it arrived on.
//!
//! [`topic_node`] holds the registry, [`tree`] the model over which its
//! contracts are stated and [`laws`] what follows from them; [`ingest`] turns
//! events into recordings, [`timestamp`] holds arrival instants and
//! [`report`] the text shown to an operator.

pub mod ingest;
pub mod laws;
pub mod report;
pub mod timestamp;
pub mod topic_node;
pub mod tree;
