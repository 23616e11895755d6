//! What is wrong with a package manifest.
use vstd::prelude::*;

verus! {

/// A problem with a package manifest, with its message.
#[derive(Debug, Clone)]
pub enum PackageJsonErrorEnum {
    InvalidName(String),
    InvalidDescription(String),
    InvalidVersion(String),
    InvalidRepository(String),
    InvalidFiles(String),
    InvalidLicense(String),
    UnknownErr,
}

impl PackageJsonErrorEnum {
    /// The message the error displays (an unknown error has none).
    pub fn message(&self) -> (s: String)
        requires
            !(self is UnknownErr),
        ensures
            match self {
                PackageJsonErrorEnum::InvalidName(m) => s@ == m@,
                PackageJsonErrorEnum::InvalidDescription(m) => s@ == m@,
                PackageJsonErrorEnum::InvalidVersion(m) => s@ == m@,
                PackageJsonErrorEnum::InvalidRepository(m) => s@ == m@,
                PackageJsonErrorEnum::InvalidFiles(m) => s@ == m@,
                PackageJsonErrorEnum::InvalidLicense(m) => s@ == m@,
                PackageJsonErrorEnum::UnknownErr => false,
            },
    {
        match self {
            PackageJsonErrorEnum::InvalidName(m) => m.clone(),
            PackageJsonErrorEnum::InvalidDescription(m) => m.clone(),
            PackageJsonErrorEnum::InvalidVersion(m) => m.clone(),
            PackageJsonErrorEnum::InvalidRepository(m) => m.clone(),
            PackageJsonErrorEnum::InvalidFiles(m) => m.clone(),
            PackageJsonErrorEnum::InvalidLicense(m) => m.clone(),
            PackageJsonErrorEnum::UnknownErr => String::new(),
        }
    }
}

} // verus!
