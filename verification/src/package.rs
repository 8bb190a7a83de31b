//! What every package can answer, wherever it came from, and the key under
//! which packages are filed.

use vstd::prelude::*;
use crate::version::{Version, spec_parse};
use vstd::string::StringSliceAdditionalSpecFns;

verus! {

/// Information that is available on all packages, regardless of their
/// location.
pub trait Package {
    /// The package name.
    fn name(&self) -> &str;

    /// The package version.
    fn version(&self) -> &str;

    /// The package description.
    fn description(&self) -> &str;

    /// The computer architecture this package is compiled for.
    fn arch(&self) -> &str;

    /// The size in bytes of this package.
    fn size(&self) -> u64;
}

/// Keys for tables of packages: the name, and the parsed version.
#[derive(Debug, Clone)]
pub struct PackageKey {
    /// The package name.
    pub name: String,
    /// The package version.
    pub version: Version,
}

impl PackageKey {
    /// Create a key from borrowed parts.
    pub fn from_borrowed(name: &str, version: &str) -> (k: PackageKey)
        ensures
            k.name@ == name@,
            k.version@ == spec_parse(version.spec_bytes()),
    {
        PackageKey { name: name.to_owned(), version: Version::parse(version) }
    }

    /// Create a key from owned parts; the version is parsed, so it copies.
    pub fn from_owned(name: String, version: &str) -> (k: PackageKey)
        ensures
            k.name == name,
            k.version@ == spec_parse(version.spec_bytes()),
    {
        PackageKey { name, version: Version::parse(version).into_owned() }
    }
}

} // verus!
