//! Loading of detection-rule definitions from YAML documents, directories of
//! them, and in-memory buffers, merged into one ordered rule collection.
pub mod laws;
pub mod path_order;
pub mod rules;
pub mod yaml;
