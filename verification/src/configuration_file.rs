//! The reconciliation step shared by every synchronizer, and the errors of
//! writing an artifact back to disk.
//!
//! Each synchronizer computes a desired value for an artifact and compares it
//! against the current one; the whole run's mode then decides what one unequal
//! pair means. Writing is the caller's: a `Write` outcome asks it to persist
//! the desired value (atomically, so a concurrent reader never sees a partial
//! file).

use vstd::prelude::*;

use crate::opts::Action;

verus! {

/// Writing the artifact at `path` failed.
#[derive(Debug)]
pub struct WriteError {
    pub path: String,
    pub kind: WriteErrorKind,
}

/// What failed during the write, with the cause rendered as text.
#[derive(Debug)]
pub enum WriteErrorKind {
    OpenFile(String),
    Serialize(String),
    Stream(String),
}

/// What reconciliation decided for one artifact.
#[derive(Clone, Copy, Debug, PartialEq, Eq, Structural)]
pub enum Outcome {
    Unchanged,
    OutOfDate,
    Write,
}

/// Reconciles one artifact: equal desired and current contents are left
/// alone; drift is reported under `Lint` and written under `Modify`.
pub fn reconcile(desired_equals_current: bool, action: Action) -> (r: Outcome)
    ensures
        desired_equals_current ==> r == Outcome::Unchanged,
        !desired_equals_current && action == Action::Lint ==> r == Outcome::OutOfDate,
        !desired_equals_current && action == Action::Modify ==> r == Outcome::Write,
{
    if desired_equals_current {
        Outcome::Unchanged
    } else {
        match action {
            Action::Lint => Outcome::OutOfDate,
            Action::Modify => Outcome::Write,
        }
    }
}

} // verus!
