//! Options of changelog generation, as the git helpers take them.
pub use crate::conventional::ConventionalPackageOptions;
