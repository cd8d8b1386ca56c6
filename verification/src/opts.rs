//! The crate's command surface, as plain values.
//!
//! A command-line front end builds these from whatever argument syntax it
//! likes and hands them to the subcommands; nothing here parses arguments.

use vstd::prelude::*;

verus! {

/// A whole invocation: one subcommand.
#[derive(Debug)]
pub struct Opts {
    pub subcommand: ClapSubCommand,
}

/// The available subcommands.
#[derive(Debug)]
pub enum ClapSubCommand {
    Pin(Pin),
    Link(Link),
    MakeDepend(MakeDepend),
    Query(Query),
    Lint(Lint),
}

/// Configure project references across the monorepo.
#[derive(Debug)]
pub struct Link {
    pub root: String,
    pub action: Action,
}

/// Pin internal dependencies to locally declared package versions.
#[derive(Debug)]
pub struct Pin {
    pub root: String,
    pub action: Action,
}

/// Create a makefile holding package dependency information.
#[derive(Debug)]
pub struct MakeDepend {
    pub root: String,
    pub package_directory: String,
    pub output_file: String,
    pub create_pack_target: bool,
}

/// Query properties of the current monorepo state.
#[derive(Debug)]
pub struct Query {
    pub subcommand: ClapQuerySubCommand,
}

/// The available queries.
#[derive(Debug)]
pub enum ClapQuerySubCommand {
    InternalDependencies(InternalDependencies),
}

/// How internal dependencies are named in query output.
#[derive(Clone, Copy, Debug, Eq, PartialEq, Hash, Structural)]
pub enum InternalDependenciesFormat {
    Name,
    Path,
}

/// List every package's internal dependencies.
#[derive(Debug)]
pub struct InternalDependencies {
    pub root: String,
    pub format: InternalDependenciesFormat,
}

/// Lint internal packages for consistent external dependency versions.
#[derive(Debug)]
pub struct Lint {
    pub subcommand: ClapLintSubCommand,
}

/// The available lints.
#[derive(Debug)]
pub enum ClapLintSubCommand {
    DependencyVersion(DependencyVersion),
}

/// Lint the used versions of the named external dependencies.
#[derive(Debug)]
pub struct DependencyVersion {
    pub root: String,
    pub dependencies: Vec<String>,
}

/// Whether a run only reports drift or also repairs it.
#[derive(Clone, Copy, Debug, Eq, PartialEq, Hash, Structural)]
pub enum Action {
    Modify,
    Lint,
}

impl Action {
    /// The action a `--write` flag selects.
    pub fn from_write_flag(write: bool) -> (r: Action)
        ensures
            r == (if write {
                Action::Modify
            } else {
                Action::Lint
            }),
    {
        if write {
            Action::Modify
        } else {
            Action::Lint
        }
    }
}

} // verus!
