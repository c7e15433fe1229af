//! Versions of the Emblem language.
use vstd::prelude::*;

verus! {

/// A version of the Emblem language.
#[derive(Copy, Clone, Debug, PartialEq, Eq, PartialOrd, Ord)]
pub enum Version {
    V1_0,
    V1_1,
}

impl Version {
    /// The version as it is written, such as `1.0`.
    pub fn as_str(&self) -> (s: &'static str)
        ensures
            *self == Version::V1_0 ==> s@ == "1.0"@,
            *self == Version::V1_1 ==> s@ == "1.1"@,
    {
        match self {
            Version::V1_0 => "1.0",
            Version::V1_1 => "1.1",
        }
    }

    /// The latest version of the language.
    pub fn latest() -> (v: Self)
        ensures
            v == Version::V1_0,
    {
        Version::V1_0
    }
}

} // verus!
