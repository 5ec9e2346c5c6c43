//! Decision logic of a node-based knowledge store: node properties, identifiers, mentions,
//! hierarchy, relationships, embeddings and search.

#![verifier::loop_isolation(false)]

pub mod answer_laws;
pub mod answers;
pub mod bulk;
pub mod bulk_laws;
pub mod chunking;
pub mod create;
pub mod creation_laws;
pub mod embedding;
pub mod embedding_laws;
pub mod embedding_queue;
pub mod error;
pub mod events;
pub mod failure_laws;
pub mod hierarchy;
pub mod hits;
pub mod ids;
pub mod json;
pub mod linking;
pub mod linking_laws;
pub mod lookups;
pub mod mentions;
pub mod moving_laws;
pub mod node;
pub mod placement;
pub mod placement_laws;
pub mod playbook;
pub mod properties;
pub mod property_laws;
pub mod protocol;
pub mod queueing;
pub mod query;
pub mod query_laws;
pub mod ranking;
pub mod reading;
pub mod reading_laws;
pub mod relationships;
pub mod removal;
pub mod removal_laws;
pub mod schema;
pub mod schema_list;
pub mod sequences;
pub mod search;
pub mod search_laws;
pub mod seeding;
pub mod seeding_laws;
pub mod service;
pub mod subtree;
pub mod tasks;
pub mod terms;
pub mod text;
pub mod text_laws;
pub mod trace;
pub mod tree;
pub mod update;
pub mod update_laws;
pub mod upsert;
