//! Structural diff of two versions of an entity-relationship document.
//!
//! `types` holds the document model and its identity-keyed views; `diff` matches entities,
//! columns and relationships across two versions by identifier and builds the change
//! tree; `order` sorts the report by entity name; `laws` states and proves what holds of
//! every report; `text` renders numbers and orders names.
pub mod text;
pub mod types;
pub mod diff;
pub mod order;
pub mod laws;
