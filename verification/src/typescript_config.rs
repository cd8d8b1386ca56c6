//! The compiler configuration artifacts that the link synchronizer keeps
//! consistent: project-reference lists.
//!
//! Two artifact kinds exist. A parent reference file lives in a directory
//! above one or more packages and lists its immediate children; a package's
//! own configuration file lists the package's direct internal dependencies as
//! relative paths. Only the reference lists are modelled here: whatever else a
//! package's configuration file holds stays with the caller and is preserved
//! on writes.

use vstd::prelude::*;

use crate::text::clone_strings;
use crate::text::str_eq;

verus! {

/// One project reference: the path of the referenced directory.
#[derive(Debug)]
pub struct TypescriptProjectReference {
    pub path: String,
}

/// The contents of a parent reference file: a file list (kept, expected
/// empty) and the reference list the synchronizer maintains.
#[derive(Debug)]
pub struct TypescriptParentProjectReferenceFile {
    pub files: Vec<String>,
    pub references: Vec<TypescriptProjectReference>,
}

/// A parent reference file together with the directory it lives in, relative
/// to the monorepo root.
#[derive(Debug)]
pub struct TypescriptParentProjectReference {
    pub directory: Vec<String>,
    pub contents: TypescriptParentProjectReferenceFile,
}

/// A package's own configuration file: the directory it lives in and its
/// declared reference list (`None` when the document has no reference field).
/// The rest of the document stays with the caller, which merges a rewritten
/// reference list back into it.
#[derive(Debug)]
pub struct TypescriptConfig {
    pub directory: Vec<String>,
    pub references: Option<Vec<TypescriptProjectReference>>,
}

/// The paths of a reference list.
pub open spec fn refs_paths(refs: Seq<TypescriptProjectReference>) -> Seq<Seq<char>> {
    refs.map_values(|r: TypescriptProjectReference| r.path@)
}

/// Whether some reference of `refs` points at `path`.
pub open spec fn refs_contain(refs: Seq<TypescriptProjectReference>, path: Seq<char>) -> bool {
    exists|i: int| 0 <= i < refs.len() && refs[i].path@ == path
}

/// Tests two reference lists for equality of their paths.
pub fn references_equal(
    a: &Vec<TypescriptProjectReference>,
    b: &Vec<TypescriptProjectReference>,
) -> (r: bool)
    ensures
        r == (refs_paths(a@) == refs_paths(b@)),
{
    if a.len() != b.len() {
        proof {
            assert(refs_paths(a@).len() != refs_paths(b@).len());
        }
        return false;
    }
    let mut i: usize = 0;
    while i < a.len()
        invariant
            a@.len() == b@.len(),
            0 <= i <= a@.len(),
            forall|k: int| 0 <= k < i ==> a@[k].path@ == b@[k].path@,
        decreases a@.len() - i,
    {
        if !str_eq(a[i].path.as_str(), b[i].path.as_str()) {
            proof {
                assert(refs_paths(a@)[i as int] != refs_paths(b@)[i as int]);
            }
            return false;
        }
        i = i + 1;
    }
    proof {
        assert(refs_paths(a@) =~= refs_paths(b@));
    }
    true
}

/// Wraps sorted paths as a reference list.
pub fn references_from_paths(paths: Vec<String>) -> (r: Vec<TypescriptProjectReference>)
    ensures
        r@.len() == paths@.len(),
        forall|i: int| 0 <= i < r@.len() ==> (#[trigger] r@[i]).path@ == paths@[i]@,
{
    let mut r: Vec<TypescriptProjectReference> = Vec::new();
    let mut i: usize = 0;
    while i < paths.len()
        invariant
            0 <= i <= paths@.len(),
            r@.len() == i,
            forall|k: int| 0 <= k < i ==> (#[trigger] r@[k]).path@ == paths@[k]@,
        decreases paths@.len() - i,
    {
        r.push(TypescriptProjectReference { path: paths[i].clone() });
        i = i + 1;
    }
    r
}

impl TypescriptProjectReference {
    /// A copy with the same path.
    pub fn duplicate(&self) -> (r: TypescriptProjectReference)
        ensures
            r.path@ == self.path@,
    {
        TypescriptProjectReference { path: self.path.clone() }
    }
}

/// Clones a reference list; the copy's paths equal the original's.
pub fn clone_references(refs: &Vec<TypescriptProjectReference>) -> (r: Vec<
    TypescriptProjectReference,
>)
    ensures
        refs_paths(r@) == refs_paths(refs@),
        r@.len() == refs@.len(),
{
    let mut r: Vec<TypescriptProjectReference> = Vec::new();
    let mut i: usize = 0;
    while i < refs.len()
        invariant
            0 <= i <= refs@.len(),
            r@.len() == i,
            forall|k: int| 0 <= k < i ==> (#[trigger] r@[k]).path@ == refs@[k].path@,
        decreases refs@.len() - i,
    {
        r.push(refs[i].duplicate());
        i = i + 1;
    }
    proof {
        assert(refs_paths(r@) =~= refs_paths(refs@));
    }
    r
}

impl TypescriptConfig {
    /// A copy with the same directory and reference list.
    pub fn duplicate(&self) -> (r: TypescriptConfig)
        ensures
            crate::text::path_view(r.directory@) == crate::text::path_view(self.directory@),
            match (r.references, self.references) {
                (Some(a), Some(b)) => refs_paths(a@) == refs_paths(b@),
                (None, None) => true,
                _ => false,
            },
    {
        TypescriptConfig {
            directory: clone_strings(&self.directory),
            references: match &self.references {
                Some(refs) => Some(clone_references(refs)),
                None => None,
            },
        }
    }
}

impl TypescriptParentProjectReference {
    /// A copy with the same directory and contents.
    pub fn duplicate(&self) -> (r: TypescriptParentProjectReference)
        ensures
            crate::text::path_view(r.directory@) == crate::text::path_view(self.directory@),
            crate::text::path_view(r.contents.files@) == crate::text::path_view(
                self.contents.files@,
            ),
            refs_paths(r.contents.references@) == refs_paths(self.contents.references@),
    {
        TypescriptParentProjectReference {
            directory: clone_strings(&self.directory),
            contents: TypescriptParentProjectReferenceFile {
                files: clone_strings(&self.contents.files),
                references: clone_references(&self.contents.references),
            },
        }
    }
}

} // verus!
