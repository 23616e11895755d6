//! Package names of the form `[@scope/]name[@version][/path]`.
pub use crate::utils::{package_scope_name_version, PackageScopeMetadata};
