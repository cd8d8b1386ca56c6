//! Aggregate report of every project-reference artifact found out of date.

use vstd::prelude::*;

use crate::typescript_config::TypescriptConfig;
use crate::typescript_config::TypescriptParentProjectReference;
use crate::typescript_config::TypescriptProjectReference;

verus! {

/// A parent reference file whose reference list drifted, with the list it
/// should hold.
#[derive(Debug)]
pub struct OutOfDateParentProjectReferences {
    pub tsconfig: TypescriptParentProjectReference,
    pub desired_references: Vec<TypescriptProjectReference>,
}

/// A package configuration file whose reference list drifted, with the list
/// it should hold.
#[derive(Debug)]
pub struct OutOfDatePackageProjectReferences {
    pub tsconfig: TypescriptConfig,
    pub desired_references: Vec<TypescriptProjectReference>,
}

/// Either kind of reference-bearing configuration file.
#[derive(Debug)]
pub enum MonorepoTypescriptConfig {
    Parent(TypescriptParentProjectReference),
    Package(TypescriptConfig),
}

/// One out-of-date configuration file, with the reference list it should
/// hold.
#[derive(Debug)]
pub struct OutOfDateTypescriptConfig {
    pub config_file: MonorepoTypescriptConfig,
    pub desired_references: Vec<TypescriptProjectReference>,
}

/// Every out-of-date configuration file of one lint run.
#[derive(Debug)]
pub struct AllOutOfDateTypescriptConfig(pub Vec<OutOfDateTypescriptConfig>);

impl AllOutOfDateTypescriptConfig {
    /// Whether the lint run found nothing out of date.
    pub fn is_empty(&self) -> (r: bool)
        ensures
            r == (self.0@.len() == 0),
    {
        self.0.is_empty()
    }
}

} // verus!
