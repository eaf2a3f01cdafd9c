//! Editing of a sectioned configuration document addressed by dotted keys.
pub mod error;
pub mod config;
pub mod laws;
pub mod model;
pub mod operations;
pub mod request;
pub mod text;
pub mod tree;
pub mod validate;
