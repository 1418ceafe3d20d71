//! The build-result report of one project query: per repository and
//! architecture, package status summaries and binary listings.

use vstd::prelude::*;

use crate::codes::BuildArch;
use crate::codes::PackageCode;
use crate::codes::RepositoryCode;

verus! {

/// A whole result report, one entry per (repository, architecture).
#[derive(Debug)]
pub struct ResultList {
    pub result: Vec<RepositoryResult>,
}

/// The report of one (repository, architecture) pair.
#[derive(Debug)]
pub struct RepositoryResult {
    pub repository: String,
    pub arch: BuildArch,
    pub code: RepositoryCode,
    pub summary: Option<Summary>,
    pub status: Vec<PackageStatus>,
    pub binarylist: Vec<PackageBinaryList>,
}

/// Build status of one package.
#[derive(Debug)]
pub struct PackageStatus {
    pub package: String,
    pub code: PackageCode,
    pub details: Vec<String>,
}

/// The binaries one package produced in one (repository, architecture).
#[derive(Debug)]
pub struct PackageBinaryList {
    pub package: String,
    pub binary: Vec<Binary>,
}

/// One listed binary artifact.
#[derive(Debug)]
pub struct Binary {
    pub filename: String,
    pub size: u64,
    pub mtime: i64,
}

/// Counts of package status codes for one (repository, architecture).
#[derive(Debug)]
pub struct Summary {
    pub statuscount: Vec<StatusCount>,
}

/// How many packages carry one status code.
#[derive(Debug)]
pub struct StatusCount {
    pub code: PackageCode,
    pub count: u32,
}

/// The report did not have the shape the caller asked for.
#[derive(Debug, PartialEq, Eq, Structural)]
pub struct ResultError {}

impl ResultError {
    /// A short description of the error.
    pub fn message(&self) -> (r: &'static str)
        ensures
            r@ == "Wrong ResultList kind provided"@,
    {
        "Wrong ResultList kind provided"
    }
}

} // verus!
