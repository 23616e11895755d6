//! The package manager ("agent") of a monorepo.
pub mod manager;
