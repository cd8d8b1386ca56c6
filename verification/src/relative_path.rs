//! Relative paths between two directories of the source tree.
//!
//! Project-reference entries point from the consuming package's own directory
//! to the directory of a dependency, so the synchronizers need the relative
//! path between two root-relative directories. Computing it is delegated to
//! the pathdiff crate; its result is named here and every contract above
//! speaks of that name.

use vstd::prelude::*;

use crate::text::path_view;
use crate::text::valid_path_component;

verus! {

/// The relative path that reaches the directory with components `path` from
/// the directory with components `base`.
pub uninterp spec fn rel_path_of(path: Seq<Seq<char>>, base: Seq<Seq<char>>) -> Seq<char>;

/// Relies on pathdiff::diff_paths: the relative path from `base` to `path`, a
/// pure function of the two component lists. Its source returns `None` only
/// when it must back out of a `..` in `base` or when exactly one side is
/// absolute; with every component an ordinary name, both sides are relative
/// and a path is always produced.
#[verifier::external_body]
pub fn diff_paths(path: &Vec<String>, base: &Vec<String>) -> (r: Option<String>)
    ensures
        r matches Some(s) ==> s@ == rel_path_of(path_view(path@), path_view(base@)),
        (forall|i: int| 0 <= i < path@.len() ==> valid_path_component(path@[i]@)) && (forall|i: int|
            0 <= i < base@.len() ==> valid_path_component(base@[i]@)) ==> r is Some,
{
    let p: std::path::PathBuf = path.iter().collect();
    let b: std::path::PathBuf = base.iter().collect();
    pathdiff::diff_paths(&p, &b).and_then(|d| d.to_str().map(|s| s.to_owned()))
}

} // verus!
