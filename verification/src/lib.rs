//! Keeps the derived configuration artifacts of a multi-package source tree
//! consistent with its declared dependency graph.
//!
//! Packages declare dependencies on one another by name; from those
//! declarations the crate computes the desired contents of compiler
//! project-reference files and of dependency-version declarations, compares
//! them with the current contents, and either reports the drift (lint) or
//! produces the minimal set of writes (modify). All file reading and writing
//! is the caller's: every function here works on in-memory values.

pub mod configuration_file;
pub mod dependencies;
pub mod io;
pub mod link;
pub mod lint;
pub mod lint_lerna_manifest;
pub mod make_depend;
pub mod query;
pub mod out_of_date_project_references;
pub mod monorepo_manifest;
pub mod opts;
pub mod package_manifest;
pub mod pin;
pub mod unpinned_dependencies;
pub mod raw_json;
pub mod relative_path;
pub mod text;
pub mod typescript_config;
