//! Locating the project root.
pub mod paths;
