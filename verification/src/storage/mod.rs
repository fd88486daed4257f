//! Local state kept in one JSON file.
pub mod json_store;
