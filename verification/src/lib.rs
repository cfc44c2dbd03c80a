//! Atomic typed-fields store: sections, changelog entries, inventory entries
//! and confirmation events, with the mutate primitives that keep each
//! collection's invariants, the redaction primitive over the publishable half
//! of changelog entries, and the schema-generation ladder.
pub mod acyclic;
pub mod body;
pub mod changelog;
pub mod confirm;
pub mod digest;
pub mod disclosure;
pub mod error;
pub mod generations;
pub mod events;
pub mod facts;
pub mod fact_ops;
pub mod integrity;
pub mod inventory;
pub mod manifest;
pub mod model;
pub mod narrative;
pub mod order;
pub mod redact;
pub mod registry;
pub mod report;
pub mod manifest_laws;
pub mod outside;
pub mod project;
pub mod proposals;
pub mod section;
pub mod store;
pub mod succession;
pub mod strmap;
pub mod text;
pub mod validate;

use vstd::prelude::*;

verus! {

} // verus!
