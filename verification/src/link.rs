//! The project-reference synchronizer.
//!
//! Two artifact families mirror the dependency graph. Every directory above a
//! package holds a parent reference file listing its immediate children, so a
//! build can start at the monorepo root and descend; and every package's own
//! configuration file lists that package's direct internal dependencies as
//! relative paths. `lint` reports every reference list that differs from what
//! the graph demands; `modify` produces the corrected file contents for the
//! caller to persist.

use vstd::prelude::*;

use crate::configuration_file::WriteError;
use crate::io::FromFileError;
use crate::monorepo_manifest::name_in;
use crate::monorepo_manifest::index_wf;
use crate::monorepo_manifest::EnumeratePackageManifestsError;
use crate::monorepo_manifest::MonorepoIndex;
use crate::out_of_date_project_references::AllOutOfDateTypescriptConfig;
use crate::out_of_date_project_references::MonorepoTypescriptConfig;
use crate::out_of_date_project_references::OutOfDatePackageProjectReferences;
use crate::out_of_date_project_references::OutOfDateParentProjectReferences;
use crate::out_of_date_project_references::OutOfDateTypescriptConfig;
use crate::package_manifest::file_declares_dependency;
use crate::package_manifest::PackageManifest;
use crate::relative_path::diff_paths;
use crate::relative_path::rel_path_of;
use crate::text::clone_strings;
use crate::text::contains_str;
use crate::text::contains_string;
use crate::text::distinct_views;
use crate::text::lemma_lex_lt_irreflexive;
use crate::text::lemma_sorted_distinct_equal;
use crate::text::path_eq;
use crate::text::path_view;
use crate::text::prefix_of;
use crate::text::sort_strings;
use crate::text::strings_sorted;
use crate::typescript_config::references_equal;
use crate::typescript_config::references_from_paths;
use crate::typescript_config::refs_contain;
use crate::typescript_config::refs_paths;
use crate::typescript_config::TypescriptConfig;
use crate::typescript_config::TypescriptParentProjectReference;
use crate::typescript_config::TypescriptParentProjectReferenceFile;
use crate::typescript_config::TypescriptProjectReference;

verus! {

/// Linking failed.
#[derive(Debug)]
pub struct LinkError {
    pub kind: LinkErrorKind,
}

/// Why linking failed: all of it is the caller's I/O going wrong around the
/// computation here.
#[derive(Debug)]
pub enum LinkErrorKind {
    EnumeratePackageManifests(EnumeratePackageManifestsError),
    FromFile(FromFileError),
    InvalidUtf8(InvalidUtf8Error),
    Write(WriteError),
}

/// A path met at the crate's boundary could not be expressed as UTF-8; it is
/// carried here in lossy rendering.
#[derive(Debug)]
pub struct InvalidUtf8Error(pub String);

/// Link lint failed: an I/O error at the boundary, or drift.
#[derive(Debug)]
pub struct LinkLintError {
    pub kind: LinkLintErrorKind,
}

/// Why link lint failed.
#[derive(Debug)]
pub enum LinkLintErrorKind {
    EnumeratePackageManifests(EnumeratePackageManifestsError),
    FromFile(FromFileError),
    InvalidUtf8(InvalidUtf8Error),
    ProjectReferencesOutOfDate(AllOutOfDateTypescriptConfig),
}

/// Whether the package directories of `pkgs` put a child named `child`
/// immediately under the directory `prefix`.
pub open spec fn is_child_name(
    pkgs: Seq<PackageManifest>,
    prefix: Seq<Seq<char>>,
    child: Seq<char>,
) -> bool {
    exists|i: int|
        0 <= i < pkgs.len() && prefix.len() < (#[trigger] pkgs[i]).dir_view().len()
            && pkgs[i].dir_view().take(prefix.len() as int) == prefix && pkgs[i].dir_view()[prefix.len() as int]
            == child
}

/// Whether `prefix` is a proper ancestor of some package directory (the
/// monorepo root, as the empty prefix, always is when any package exists).
pub open spec fn is_parent_dir(pkgs: Seq<PackageManifest>, prefix: Seq<Seq<char>>) -> bool {
    exists|i: int|
        0 <= i < pkgs.len() && prefix.len() < (#[trigger] pkgs[i]).dir_view().len()
            && pkgs[i].dir_view().take(prefix.len() as int) == prefix
}

/// The position of the package named `n`.
pub open spec fn index_of_name(pkgs: Seq<PackageManifest>, n: Seq<char>) -> int {
    choose|i: int| 0 <= i < pkgs.len() && pkgs[i].contents.name@ == n
}

/// The directory of the package named `n`.
pub open spec fn dir_of_name(pkgs: Seq<PackageManifest>, n: Seq<char>) -> Seq<Seq<char>> {
    pkgs[index_of_name(pkgs, n)].dir_view()
}

/// The reference path that reaches the package named `n` from `pkg`'s own
/// directory.
pub open spec fn dep_ref_path(pkgs: Seq<PackageManifest>, pkg: PackageManifest, n: Seq<char>) -> Seq<
    char,
> {
    rel_path_of(dir_of_name(pkgs, n), pkg.dir_view())
}

/// Whether `path` belongs in `pkg`'s desired reference list: some direct
/// internal dependency of `pkg` lies at that relative path.
pub open spec fn desired_package_ref(
    pkgs: Seq<PackageManifest>,
    pkg: PackageManifest,
    path: Seq<char>,
) -> bool {
    exists|n: Seq<char>|
        file_declares_dependency(pkg.contents, n) && name_in(pkgs, n) && #[trigger] dep_ref_path(
            pkgs,
            pkg,
            n,
        ) == path
}

/// Whether a parent reference file already holds exactly its desired
/// reference list: the sorted names of the directory's children.
#[verifier::opaque]
pub open spec fn parent_in_sync(
    pkgs: Seq<PackageManifest>,
    cfg: TypescriptParentProjectReference,
) -> bool {
    &&& crate::text::strict_sorted(refs_paths(cfg.contents.references@))
    &&& forall|c: Seq<char>|
        refs_contain(cfg.contents.references@, c) == is_child_name(
            pkgs,
            path_view(cfg.directory@),
            c,
        )
}

/// The reference list a package configuration file currently declares; a
/// missing field reads as the empty list.
pub open spec fn current_refs(cfg: TypescriptConfig) -> Seq<TypescriptProjectReference> {
    match cfg.references {
        Some(refs) => refs@,
        None => Seq::empty(),
    }
}

/// The package whose directory is `dir`.
pub open spec fn package_at_dir(pkgs: Seq<PackageManifest>, dir: Seq<Seq<char>>) -> PackageManifest {
    pkgs[choose|i: int| 0 <= i < pkgs.len() && (#[trigger] pkgs[i]).dir_view() == dir]
}

/// Whether `dir` is some package's directory.
pub open spec fn dir_known(pkgs: Seq<PackageManifest>, dir: Seq<Seq<char>>) -> bool {
    exists|i: int| 0 <= i < pkgs.len() && (#[trigger] pkgs[i]).dir_view() == dir
}

/// Whether a package configuration file already holds exactly its desired
/// reference list: the sorted relative paths of the package's direct internal
/// dependencies.
#[verifier::opaque]
pub open spec fn package_in_sync(pkgs: Seq<PackageManifest>, cfg: TypescriptConfig) -> bool {
    &&& crate::text::strict_sorted(refs_paths(current_refs(cfg)))
    &&& forall|p: Seq<char>|
        refs_contain(current_refs(cfg), p) == desired_package_ref(
            pkgs,
            package_at_dir(pkgs, path_view(cfg.directory@)),
            p,
        )
}

/// Whether the names of the children of `prefix` among the first `p` packages
/// include `child` — the partial form of `is_child_name` that the scan below
/// maintains.
pub open spec fn is_child_name_upto(
    pkgs: Seq<PackageManifest>,
    p: int,
    prefix: Seq<Seq<char>>,
    child: Seq<char>,
) -> bool {
    exists|i: int|
        0 <= i < p && prefix.len() < (#[trigger] pkgs[i]).dir_view().len()
            && pkgs[i].dir_view().take(prefix.len() as int) == prefix && pkgs[i].dir_view()[prefix.len() as int]
            == child
}

/// The names of the immediate children of the directory `prefix`: every next
/// path component that some package directory has right below `prefix`, each
/// once.
#[verifier::loop_isolation(false)]
pub fn directory_children(index: &MonorepoIndex, prefix: &Vec<String>) -> (r: Vec<String>)
    ensures
        distinct_views(r@),
        forall|c: Seq<char>|
            contains_str(r@, c) == is_child_name(index.packages@, path_view(prefix@), c),
{
    let ghost pkgs = index.packages@;
    let ghost pre = path_view(prefix@);
    let mut out: Vec<String> = Vec::new();
    let mut p: usize = 0;
    while p < index.packages.len()
        invariant
            0 <= p <= pkgs.len(),
            distinct_views(out@),
            forall|c: Seq<char>| contains_str(out@, c) == is_child_name_upto(pkgs, p as int, pre, c),
        decreases pkgs.len() - p,
    {
        let d = index.packages[p].directory();
        if d.len() > prefix.len() {
            let dpre = prefix_of(d, prefix.len());
            proof {
                assert(path_view(dpre@) =~= index.packages@[p as int].dir_view().take(
                    prefix@.len() as int,
                ));
            }
            if path_eq(&dpre, prefix) {
                let child = &d[prefix.len()];
                let ghost old_out = out@;
                if !contains_string(&out, child.as_str()) {
                    out.push(child.clone());
                }
                proof {
                    assert(index.packages@[p as int].dir_view()[pre.len() as int] == child@);
                    assert forall|c: Seq<char>|
                        contains_str(out@, c) == is_child_name_upto(pkgs, p as int + 1, pre, c) by {
                        if contains_str(out@, c) {
                            let w = choose|i: int| 0 <= i < out@.len() && out@[i]@ == c;
                            if w < old_out.len() {
                                assert(contains_str(old_out, c));
                                assert(is_child_name_upto(pkgs, p as int, pre, c));
                            } else {
                                assert(c == child@);
                            }
                            assert(is_child_name_upto(pkgs, p as int + 1, pre, c));
                        }
                        if is_child_name_upto(pkgs, p as int + 1, pre, c) {
                            let i = choose|i: int|
                                0 <= i < p as int + 1 && pre.len() < (#[trigger] pkgs[i]).dir_view().len()
                                    && pkgs[i].dir_view().take(pre.len() as int) == pre
                                    && pkgs[i].dir_view()[pre.len() as int] == c;
                            if i < p as int {
                                assert(contains_str(old_out, c));
                                let w = choose|x: int| 0 <= x < old_out.len() && old_out[x]@ == c;
                                assert(out@[w]@ == c);
                            } else {
                                assert(c == child@);
                                if contains_str(old_out, c) {
                                    let w = choose|x: int|
                                        0 <= x < old_out.len() && old_out[x]@ == c;
                                    assert(out@[w]@ == c);
                                } else {
                                    assert(out@[out@.len() - 1]@ == c);
                                }
                            }
                        }
                    }
                }
            } else {
                proof {
                    assert forall|c: Seq<char>|
                        is_child_name_upto(pkgs, p as int + 1, pre, c) == is_child_name_upto(
                            pkgs,
                            p as int,
                            pre,
                            c,
                        ) by {
                        if is_child_name_upto(pkgs, p as int + 1, pre, c) {
                            let i = choose|i: int|
                                0 <= i < p as int + 1 && pre.len() < (#[trigger] pkgs[i]).dir_view().len()
                                    && pkgs[i].dir_view().take(pre.len() as int) == pre
                                    && pkgs[i].dir_view()[pre.len() as int] == c;
                            assert(i < p as int);
                        }
                    }
                }
            }
        } else {
            proof {
                assert forall|c: Seq<char>|
                    is_child_name_upto(pkgs, p as int + 1, pre, c) == is_child_name_upto(
                        pkgs,
                        p as int,
                        pre,
                        c,
                    ) by {
                    if is_child_name_upto(pkgs, p as int + 1, pre, c) {
                        let i = choose|i: int|
                            0 <= i < p as int + 1 && pre.len() < (#[trigger] pkgs[i]).dir_view().len()
                                && pkgs[i].dir_view().take(pre.len() as int) == pre
                                && pkgs[i].dir_view()[pre.len() as int] == c;
                        assert(i < p as int);
                    }
                }
            }
        }
        p = p + 1;
    }
    out
}

/// Sorts a directory's child names into the reference list its parent
/// reference file should declare. Sorting here is what makes the generated
/// file identical from run to run, whatever order discovery produced.
pub fn create_project_references(children: Vec<String>) -> (r: Vec<TypescriptProjectReference>)
    requires
        distinct_views(children@),
    ensures
        crate::text::strict_sorted(refs_paths(r@)),
        forall|c: Seq<char>| refs_contain(r@, c) == contains_str(children@, c),
{
    let sorted = sort_strings(children);
    let r = references_from_paths(sorted);
    proof {
        assert(refs_paths(r@) =~= path_view(sorted@));
        assert forall|c: Seq<char>| refs_contain(r@, c) == contains_str(sorted@, c) by {
            if refs_contain(r@, c) {
                let i = choose|i: int| 0 <= i < r@.len() && r@[i].path@ == c;
                assert(sorted@[i]@ == c);
            }
            if contains_str(sorted@, c) {
                let i = choose|i: int| 0 <= i < sorted@.len() && sorted@[i]@ == c;
                assert(r@[i].path@ == c);
            }
        }
    }
    r
}

/// Whether `list` holds a path equal to `d`.
pub open spec fn paths_contain(list: Seq<Vec<String>>, d: Seq<Seq<char>>) -> bool {
    exists|i: int| 0 <= i < list.len() && path_view((#[trigger] list[i])@) == d
}

/// Whether `list` holds a path equal to `q`.
pub fn contains_path(list: &Vec<Vec<String>>, q: &Vec<String>) -> (r: bool)
    ensures
        r == paths_contain(list@, path_view(q@)),
{
    let mut i: usize = 0;
    while i < list.len()
        invariant
            0 <= i <= list@.len(),
            forall|k: int| 0 <= k < i ==> path_view((#[trigger] list@[k])@) != path_view(q@),
        decreases list@.len() - i,
    {
        if path_eq(&list[i], q) {
            return true;
        }
        i = i + 1;
    }
    false
}

/// The partial form of `is_parent_dir` that the scan below maintains: `d` is a
/// proper prefix of one of the first `p` package directories, or a prefix
/// shorter than `k` of package `p`'s directory.
pub open spec fn is_parent_dir_upto(
    pkgs: Seq<PackageManifest>,
    p: int,
    k: int,
    d: Seq<Seq<char>>,
) -> bool {
    ||| exists|i: int|
        0 <= i < p && d.len() < (#[trigger] pkgs[i]).dir_view().len() && pkgs[i].dir_view().take(
            d.len() as int,
        ) == d
    ||| (0 <= p < pkgs.len() && d.len() < k && d.len() < pkgs[p].dir_view().len()
        && pkgs[p].dir_view().take(d.len() as int) == d)
}

/// Every directory that should hold a parent reference file: each proper
/// ancestor (the monorepo root included) of each package directory, each once.
/// The caller reads the current reference file of exactly these directories.
#[verifier::loop_isolation(false)]
pub fn parent_directories(index: &MonorepoIndex) -> (r: Vec<Vec<String>>)
    ensures
        forall|i: int, j: int|
            0 <= i < j < r@.len() ==> path_view((#[trigger] r@[i])@) != path_view(
                (#[trigger] r@[j])@,
            ),
        forall|d: Seq<Seq<char>>|
            #[trigger] paths_contain(r@, d) == is_parent_dir(index.packages@, d),
{
    let ghost pkgs = index.packages@;
    let mut out: Vec<Vec<String>> = Vec::new();
    let mut p: usize = 0;
    while p < index.packages.len()
        invariant
            0 <= p <= pkgs.len(),
            forall|i: int, j: int|
                0 <= i < j < out@.len() ==> path_view((#[trigger] out@[i])@) != path_view(
                    (#[trigger] out@[j])@,
                ),
            forall|d: Seq<Seq<char>>|
                #[trigger] paths_contain(out@, d) == is_parent_dir_upto(pkgs, p as int, 0, d),
        decreases pkgs.len() - p,
    {
        let dir = index.packages[p].directory();
        let mut k: usize = 0;
        while k < dir.len()
            invariant
                0 <= k <= dir@.len(),
                dir@ == index.packages@[p as int].directory@,
                forall|i: int, j: int|
                    0 <= i < j < out@.len() ==> path_view((#[trigger] out@[i])@) != path_view(
                        (#[trigger] out@[j])@,
                    ),
                forall|d: Seq<Seq<char>>|
                    #[trigger] paths_contain(out@, d) == is_parent_dir_upto(pkgs, p as int, k as int, d),
            decreases dir@.len() - k,
        {
            let pre = prefix_of(dir, k);
            proof {
                assert(path_view(pre@) =~= pkgs[p as int].dir_view().take(k as int));
            }
            let ghost old_out = out@;
            if !contains_path(&out, &pre) {
                out.push(pre);
            }
            proof {
                let prek: Seq<Seq<char>> = pkgs[p as int].dir_view().take(k as int);
                assert forall|d: Seq<Seq<char>>|
                    #[trigger] paths_contain(out@, d) == is_parent_dir_upto(
                        pkgs,
                        p as int,
                        k as int + 1,
                        d,
                    ) by {
                    if paths_contain(out@, d) {
                        let w = choose|i: int| 0 <= i < out@.len() && path_view((#[trigger] out@[i])@) == d;
                        if w < old_out.len() {
                            assert(paths_contain(old_out, d));
                            assert(is_parent_dir_upto(pkgs, p as int, k as int, d));
                        } else {
                            assert(d == prek);
                        }
                        assert(is_parent_dir_upto(pkgs, p as int, k as int + 1, d));
                    }
                    if is_parent_dir_upto(pkgs, p as int, k as int + 1, d) {
                        if is_parent_dir_upto(pkgs, p as int, k as int, d) {
                            assert(paths_contain(old_out, d));
                            let w = choose|i: int|
                                0 <= i < old_out.len() && path_view((#[trigger] old_out[i])@) == d;
                            assert(path_view((out@[w])@) == d);
                            assert(paths_contain(out@, d));
                        } else {
                            // the one new prefix of this round
                            assert(d.len() == k && d == prek);
                            if paths_contain(old_out, d) {
                                let w = choose|i: int|
                                    0 <= i < old_out.len() && path_view((#[trigger] old_out[i])@)
                                        == d;
                                assert(path_view((out@[w])@) == d);
                            } else {
                                assert(path_view((out@[out@.len() - 1])@) == d);
                            }
                            assert(paths_contain(out@, d));
                        }
                    }
                }
            }
            k = k + 1;
        }
        proof {
            assert forall|d: Seq<Seq<char>>|
                is_parent_dir_upto(pkgs, p as int + 1, 0, d) == is_parent_dir_upto(
                    pkgs,
                    p as int,
                    dir@.len() as int,
                    d,
                ) by {
                if is_parent_dir_upto(pkgs, p as int + 1, 0, d) {
                    let i = choose|i: int|
                        0 <= i < p as int + 1 && d.len() < (#[trigger] pkgs[i]).dir_view().len()
                            && pkgs[i].dir_view().take(d.len() as int) == d;
                    if i == p as int {
                        assert(is_parent_dir_upto(pkgs, p as int, dir@.len() as int, d));
                    }
                }
            }
        }
        p = p + 1;
    }
    proof {
        assert forall|d: Seq<Seq<char>>|
            is_parent_dir_upto(pkgs, pkgs.len() as int, 0, d) == is_parent_dir(pkgs, d) by {}
    }
    out
}

/// The full child map: every parent directory paired with the names of its
/// immediate children.
pub fn key_children_by_parent(index: &MonorepoIndex) -> (r: Vec<(Vec<String>, Vec<String>)>)
    ensures
        forall|i: int, j: int|
            0 <= i < j < r@.len() ==> path_view((#[trigger] r@[i]).0@) != path_view(
                (#[trigger] r@[j]).0@,
            ),
        forall|j: int|
            0 <= j < r@.len() ==> {
                &&& is_parent_dir(index.packages@, path_view((#[trigger] r@[j]).0@))
                &&& distinct_views(r@[j].1@)
                &&& forall|c: Seq<char>|
                    contains_str(r@[j].1@, c) == is_child_name(
                        index.packages@,
                        path_view(r@[j].0@),
                        c,
                    )
            },
        forall|d: Seq<Seq<char>>|
            is_parent_dir(index.packages@, d) ==> exists|j: int|
                0 <= j < r@.len() && path_view((#[trigger] r@[j]).0@) == d,
{
    let dirs = parent_directories(index);
    let mut r: Vec<(Vec<String>, Vec<String>)> = Vec::new();
    let mut i: usize = 0;
    while i < dirs.len()
        invariant
            0 <= i <= dirs@.len(),
            r@.len() == i,
            forall|j: int| 0 <= j < i ==> path_view((#[trigger] r@[j]).0@) == path_view(dirs@[j]@),
            forall|j: int|
                0 <= j < i ==> {
                    &&& distinct_views((#[trigger] r@[j]).1@)
                    &&& forall|c: Seq<char>|
                        contains_str(r@[j].1@, c) == is_child_name(
                            index.packages@,
                            path_view(r@[j].0@),
                            c,
                        )
                },
            forall|i2: int, j2: int|
                0 <= i2 < j2 < dirs@.len() ==> path_view((#[trigger] dirs@[i2])@) != path_view(
                    (#[trigger] dirs@[j2])@,
                ),
            forall|d: Seq<Seq<char>>|
                #[trigger] paths_contain(dirs@, d) == is_parent_dir(index.packages@, d),
        decreases dirs@.len() - i,
    {
        let children = directory_children(index, &dirs[i]);
        let key = clone_strings(&dirs[i]);
        proof {
            assert(path_view(key@) =~= path_view(dirs@[i as int]@));
        }
        r.push((key, children));
        i = i + 1;
    }
    proof {
        assert forall|d: Seq<Seq<char>>|
            is_parent_dir(index.packages@, d) implies exists|j: int|
            0 <= j < r@.len() && path_view((#[trigger] r@[j]).0@) == d by {
            assert(paths_contain(dirs@, d));
            let w = choose|i: int| 0 <= i < dirs@.len() && path_view((#[trigger] dirs@[i])@) == d;
            assert(path_view((r@[w]).0@) == d);
        }
        assert forall|j: int|
            0 <= j < r@.len() implies is_parent_dir(
            index.packages@,
            path_view((#[trigger] r@[j]).0@),
        ) by {
            assert(path_view((dirs@[j])@) == path_view((r@[j]).0@));
            assert(paths_contain(dirs@, path_view(dirs@[j]@)));
        }
    }
    r
}

/// Two parent reference files with the same directory and the same contents.
#[verifier::opaque]
pub open spec fn parent_same(
    a: TypescriptParentProjectReference,
    b: TypescriptParentProjectReference,
) -> bool {
    &&& path_view(a.directory@) == path_view(b.directory@)
    &&& path_view(a.contents.files@) == path_view(b.contents.files@)
    &&& refs_paths(a.contents.references@) == refs_paths(b.contents.references@)
}

/// Two package configuration files with the same directory and the same
/// reference list.
#[verifier::opaque]
pub open spec fn config_same(a: TypescriptConfig, b: TypescriptConfig) -> bool {
    &&& path_view(a.directory@) == path_view(b.directory@)
    &&& match (a.references, b.references) {
        (Some(x), Some(y)) => refs_paths(x@) == refs_paths(y@),
        (None, None) => true,
        _ => false,
    }
}

/// Being in sync is a property of a parent file's directory and contents
/// alone.
pub proof fn lemma_parent_same_sync(
    pkgs: Seq<PackageManifest>,
    a: TypescriptParentProjectReference,
    b: TypescriptParentProjectReference,
)
    requires
        parent_same(a, b),
    ensures
        parent_in_sync(pkgs, a) == parent_in_sync(pkgs, b),
{
    reveal(parent_same);
    reveal(parent_in_sync);
    assert forall|c: Seq<char>|
        refs_contain(a.contents.references@, c) == refs_contain(b.contents.references@, c) by {
        lemma_refs_paths_membership(a.contents.references@, b.contents.references@, c);
    }
}

/// Reference lists with equal path sequences hold the same paths.
proof fn lemma_refs_paths_membership(
    a: Seq<TypescriptProjectReference>,
    b: Seq<TypescriptProjectReference>,
    c: Seq<char>,
)
    requires
        refs_paths(a) == refs_paths(b),
    ensures
        refs_contain(a, c) == refs_contain(b, c),
{
    assert(refs_paths(a).len() == a.len());
    assert(refs_paths(b).len() == b.len());
    assert(a.len() == b.len());
    assert(forall|i: int| 0 <= i < a.len() ==> #[trigger] refs_paths(a)[i] == a[i].path@);
    assert(forall|i: int| 0 <= i < b.len() ==> #[trigger] refs_paths(b)[i] == b[i].path@);
    if refs_contain(a, c) {
        let i = choose|i: int| 0 <= i < a.len() && a[i].path@ == c;
        assert(refs_paths(b)[i] == c);
        assert(b[i].path@ == c);
    }
    if refs_contain(b, c) {
        let i = choose|i: int| 0 <= i < b.len() && b[i].path@ == c;
        assert(refs_paths(a)[i] == c);
        assert(a[i].path@ == c);
    }
}

/// Being in sync is a property of a package configuration's directory and
/// reference list alone.
pub proof fn lemma_config_same_sync(
    pkgs: Seq<PackageManifest>,
    a: TypescriptConfig,
    b: TypescriptConfig,
)
    requires
        config_same(a, b),
    ensures
        package_in_sync(pkgs, a) == package_in_sync(pkgs, b),
{
    reveal(config_same);
    reveal(package_in_sync);
    assert(refs_paths(current_refs(a)) =~= refs_paths(current_refs(b)));
    assert forall|c: Seq<char>|
        refs_contain(current_refs(a), c) == refs_contain(current_refs(b), c) by {
        lemma_refs_paths_membership(current_refs(a), current_refs(b), c);
    }
}

/// A reference list equals a sorted desired list exactly when it is itself
/// sorted and holds the desired members: the shared reconciliation test, said
/// once for every artifact kind.
pub proof fn lemma_refs_match_iff_equal(
    cur: Seq<TypescriptProjectReference>,
    desired: Seq<TypescriptProjectReference>,
    want: spec_fn(Seq<char>) -> bool,
)
    requires
        crate::text::strict_sorted(refs_paths(desired)),
        forall|c: Seq<char>| #[trigger] refs_contain(desired, c) == want(c),
    ensures
        (refs_paths(cur) == refs_paths(desired)) == (crate::text::strict_sorted(refs_paths(cur))
            && forall|c: Seq<char>| #[trigger] refs_contain(cur, c) == want(c)),
{
    assert(forall|i: int| 0 <= i < cur.len() ==> #[trigger] refs_paths(cur)[i] == cur[i].path@);
    assert(forall|i: int|
        0 <= i < desired.len() ==> #[trigger] refs_paths(desired)[i] == desired[i].path@);
    if refs_paths(cur) == refs_paths(desired) {
        assert forall|c: Seq<char>| #[trigger] refs_contain(cur, c) == want(c) by {
            lemma_refs_paths_membership(cur, desired, c);
        }
    } else {
        if crate::text::strict_sorted(refs_paths(cur)) && (forall|c: Seq<char>| #[trigger]
            refs_contain(cur, c) == want(c)) {
            let sa = cur.map_values(|r: TypescriptProjectReference| r.path);
            let sb = desired.map_values(|r: TypescriptProjectReference| r.path);
            assert(forall|i: int| 0 <= i < sa.len() ==> #[trigger] sa[i] == cur[i].path);
            assert(forall|i: int| 0 <= i < sb.len() ==> #[trigger] sb[i] == desired[i].path);
            assert forall|i: int, j: int|
                0 <= i < j < sa.len() implies crate::text::lex_lt(sa[i]@, sa[j]@) by {
                assert(crate::text::lex_lt(refs_paths(cur)[i], refs_paths(cur)[j]));
            }
            assert forall|i: int, j: int|
                0 <= i < j < sb.len() implies crate::text::lex_lt(sb[i]@, sb[j]@) by {
                assert(crate::text::lex_lt(refs_paths(desired)[i], refs_paths(desired)[j]));
            }
            assert forall|c: Seq<char>| contains_str(sa, c) == contains_str(sb, c) by {
                if contains_str(sa, c) {
                    let i = choose|i: int| 0 <= i < sa.len() && sa[i]@ == c;
                    assert(refs_contain(cur, c));
                    assert(refs_contain(desired, c));
                    let j = choose|j: int| 0 <= j < desired.len() && desired[j].path@ == c;
                    assert(sb[j]@ == c);
                }
                if contains_str(sb, c) {
                    let i = choose|i: int| 0 <= i < sb.len() && sb[i]@ == c;
                    assert(refs_contain(desired, c));
                    assert(refs_contain(cur, c));
                    let j = choose|j: int| 0 <= j < cur.len() && cur[j].path@ == c;
                    assert(sa[j]@ == c);
                }
            }
            lemma_sorted_distinct_equal(sa, sb);
            assert(refs_paths(cur) =~= path_view(sa));
            assert(refs_paths(desired) =~= path_view(sb));
            assert(false);
        }
    }
}

/// The relative paths a package's own reference list should hold: one per
/// direct internal dependency, from the package's directory to the
/// dependency's, sorted and deduplicated.
#[verifier::loop_isolation(false)]
pub fn desired_package_reference_paths(index: &MonorepoIndex, pkg: &PackageManifest) -> (r: Vec<
    String,
>)
    requires
        index_wf(index.packages@),
        crate::package_manifest::manifest_wf(*pkg),
    ensures
        strings_sorted(r@),
        distinct_views(r@),
        forall|p: Seq<char>| contains_str(r@, p) == desired_package_ref(index.packages@, *pkg, p),
{
    let ghost pkgs = index.packages@;
    let deps = index.direct_internal_dependency_names(pkg);
    let mut paths: Vec<String> = Vec::new();
    let mut d: usize = 0;
    while d < deps.len()
        invariant
            0 <= d <= deps@.len(),
            distinct_views(paths@),
            forall|p: Seq<char>|
                contains_str(paths@, p) == exists|k: int|
                    0 <= k < d && #[trigger] dep_ref_path(pkgs, *pkg, deps@[k]@) == p,
        decreases deps@.len() - d,
    {
        let pos = match index.position_of(deps[d].as_str()) {
            Some(p) => p,
            None => {
                proof {
                    assert(contains_str(deps@, deps@[d as int]@));
                    assert(false);
                }
                0
            },
        };
        let rel_opt = diff_paths(index.packages[pos].directory(), pkg.directory());
        proof {
            assert(crate::package_manifest::manifest_wf(pkgs[pos as int]));
        }
        let rel = match rel_opt {
            Some(s) => s,
            None => {
                proof {
                    assert(false);
                }
                String::new()
            },
        };
        proof {
            let n = deps@[d as int]@;
            let i = index_of_name(pkgs, n);
            assert(0 <= i < pkgs.len() && pkgs[i].contents.name@ == n);
            if i < pos as int {
                assert(pkgs[i].contents.name@ != pkgs[pos as int].contents.name@);
                assert(false);
            }
            if (pos as int) < i {
                assert(pkgs[pos as int].contents.name@ != pkgs[i].contents.name@);
                assert(false);
            }
            assert(dir_of_name(pkgs, n) == pkgs[pos as int].dir_view());
            assert(rel@ == dep_ref_path(pkgs, *pkg, n));
        }
        let ghost old_paths = paths@;
        if !contains_string(&paths, rel.as_str()) {
            paths.push(rel);
        }
        proof {
            assert forall|p: Seq<char>|
                contains_str(paths@, p) == exists|k: int|
                    0 <= k < d + 1 && #[trigger] dep_ref_path(pkgs, *pkg, deps@[k]@) == p by {
                if contains_str(paths@, p) {
                    let w = choose|i: int| 0 <= i < paths@.len() && paths@[i]@ == p;
                    if w < old_paths.len() {
                        assert(contains_str(old_paths, p));
                        let k = choose|k: int|
                            0 <= k < d && #[trigger] dep_ref_path(pkgs, *pkg, deps@[k]@) == p;
                        assert(dep_ref_path(pkgs, *pkg, deps@[k]@) == p);
                    } else {
                        assert(dep_ref_path(pkgs, *pkg, deps@[d as int]@) == p);
                    }
                }
                if exists|k: int|
                    0 <= k < d + 1 && #[trigger] dep_ref_path(pkgs, *pkg, deps@[k]@) == p {
                    let k = choose|k: int|
                        0 <= k < d + 1 && #[trigger] dep_ref_path(pkgs, *pkg, deps@[k]@) == p;
                    if k < d {
                        assert(contains_str(old_paths, p));
                        let w = choose|i: int| 0 <= i < old_paths.len() && old_paths[i]@ == p;
                        assert(paths@[w]@ == p);
                    } else {
                        if contains_str(old_paths, p) {
                            let w = choose|i: int| 0 <= i < old_paths.len() && old_paths[i]@ == p;
                            assert(paths@[w]@ == p);
                        } else {
                            assert(paths@[paths@.len() - 1]@ == p);
                        }
                    }
                }
            }
        }
        d = d + 1;
    }
    let r = sort_strings(paths);
    proof {
        assert forall|p: Seq<char>|
            contains_str(r@, p) == desired_package_ref(pkgs, *pkg, p) by {
            if contains_str(r@, p) {
                let k = choose|k: int|
                    0 <= k < deps@.len() && #[trigger] dep_ref_path(pkgs, *pkg, deps@[k]@) == p;
                assert(contains_str(deps@, deps@[k]@));
            }
            if desired_package_ref(pkgs, *pkg, p) {
                let n = choose|n: Seq<char>|
                    file_declares_dependency(pkg.contents, n) && name_in(pkgs, n)
                        && #[trigger] dep_ref_path(pkgs, *pkg, n) == p;
                assert(contains_str(deps@, n));
                let k = choose|k: int| 0 <= k < deps@.len() && deps@[k]@ == n;
                assert(dep_ref_path(pkgs, *pkg, deps@[k]@) == p);
            }
        }
        assert forall|i: int, j: int| 0 <= i < j < r@.len() implies r@[i]@ != r@[j]@ by {
            assert(crate::text::lex_lt(r@[i]@, r@[j]@));
            lemma_lex_lt_irreflexive(r@[i]@);
        }
    }
    r
}

/// Whether a parent reference file's desired list is attached correctly.
#[verifier::opaque]
pub open spec fn desired_parent_refs_ok(
    pkgs: Seq<PackageManifest>,
    directory: Seq<String>,
    refs: Seq<TypescriptProjectReference>,
) -> bool {
    &&& crate::text::strict_sorted(refs_paths(refs))
    &&& forall|c: Seq<char>|
        refs_contain(refs, c) == is_child_name(pkgs, path_view(directory), c)
}

/// Whether a package configuration's desired list is attached correctly.
#[verifier::opaque]
pub open spec fn desired_package_refs_ok(
    pkgs: Seq<PackageManifest>,
    directory: Seq<String>,
    refs: Seq<TypescriptProjectReference>,
) -> bool {
    &&& crate::text::strict_sorted(refs_paths(refs))
    &&& forall|p: Seq<char>|
        refs_contain(refs, p) == desired_package_ref(
            pkgs,
            package_at_dir(pkgs, path_view(directory)),
            p,
        )
}

/// Reconciles one parent reference file: `None` when it already holds its
/// desired reference list, otherwise the file paired with the list it should
/// hold.
pub fn parent_out_of_date(index: &MonorepoIndex, cfg: &TypescriptParentProjectReference) -> (r:
    Option<OutOfDateParentProjectReferences>)
    requires
        index_wf(index.packages@),
    ensures
        match r {
            Some(o) => parent_same(o.tsconfig, *cfg) && !parent_in_sync(index.packages@, *cfg)
                && desired_parent_refs_ok(
                index.packages@,
                o.tsconfig.directory@,
                o.desired_references@,
            ),
            None => parent_in_sync(index.packages@, *cfg),
        },
{
    proof {
        reveal(parent_same);
        reveal(parent_in_sync);
        reveal(desired_parent_refs_ok);
    }
    let ghost pkgs = index.packages@;
    let children = directory_children(index, &cfg.directory);
    let desired = create_project_references(children);
    let equal = references_equal(&cfg.contents.references, &desired);
    proof {
        lemma_refs_match_iff_equal(
            cfg.contents.references@,
            desired@,
            |c: Seq<char>| is_child_name(pkgs, path_view(cfg.directory@), c),
        );
    }
    if equal {
        None
    } else {
        let dup = cfg.duplicate();
        Some(OutOfDateParentProjectReferences { tsconfig: dup, desired_references: desired })
    }
}

/// Reconciles one package configuration file: `None` when it already lists
/// exactly its desired references, otherwise the file paired with the list it
/// should hold.
#[verifier::rlimit(30)]
pub fn package_out_of_date(index: &MonorepoIndex, cfg: &TypescriptConfig) -> (r: Option<
    OutOfDatePackageProjectReferences,
>)
    requires
        index_wf(index.packages@),
        dir_known(index.packages@, path_view(cfg.directory@)),
    ensures
        match r {
            Some(o) => config_same(o.tsconfig, *cfg) && !package_in_sync(index.packages@, *cfg)
                && desired_package_refs_ok(
                index.packages@,
                o.tsconfig.directory@,
                o.desired_references@,
            ),
            None => package_in_sync(index.packages@, *cfg),
        },
{
    proof {
        reveal(config_same);
        reveal(package_in_sync);
        reveal(desired_package_refs_ok);
    }
    let ghost pkgs = index.packages@;
    let pos = match index.position_of_directory(&cfg.directory) {
        Some(p) => p,
        None => {
            proof {
                let w = choose|w: int|
                    0 <= w < pkgs.len() && (#[trigger] pkgs[w]).dir_view() == path_view(
                        cfg.directory@,
                    );
                assert(false);
            }
            0
        },
    };
    let desired_paths = desired_package_reference_paths(index, &index.packages[pos]);
    let desired = references_from_paths(desired_paths);
    proof {
        // the package at this configuration's directory is the one found
        let w = choose|w: int|
            0 <= w < pkgs.len() && (#[trigger] pkgs[w]).dir_view() == path_view(cfg.directory@);
        if w < pos as int {
            assert(pkgs[w].dir_view() != pkgs[pos as int].dir_view());
            assert(false);
        }
        if (pos as int) < w {
            assert(pkgs[pos as int].dir_view() != pkgs[w].dir_view());
            assert(false);
        }
        assert(package_at_dir(pkgs, path_view(cfg.directory@)) == pkgs[pos as int]);
        assert(refs_paths(desired@) =~= path_view(desired_paths@));
        assert forall|p: Seq<char>|
            refs_contain(desired@, p) == desired_package_ref(pkgs, pkgs[pos as int], p) by {
            if refs_contain(desired@, p) {
                let v = choose|v: int| 0 <= v < desired@.len() && desired@[v].path@ == p;
                assert(desired_paths@[v]@ == p);
                assert(contains_str(desired_paths@, p));
            }
            if desired_package_ref(pkgs, pkgs[pos as int], p) {
                assert(contains_str(desired_paths@, p));
                let v = choose|v: int| 0 <= v < desired_paths@.len() && desired_paths@[v]@ == p;
                assert(desired@[v].path@ == p);
            }
        }
        assert(crate::text::strict_sorted(refs_paths(desired@))) by {
            assert forall|a: int, b: int|
                0 <= a < b < refs_paths(desired@).len() implies crate::text::lex_lt(
                refs_paths(desired@)[a],
                refs_paths(desired@)[b],
            ) by {
                assert(crate::text::lex_lt(desired_paths@[a]@, desired_paths@[b]@));
            }
        }
    }
    let equal = match &cfg.references {
        Some(refs) => references_equal(refs, &desired),
        None => {
            let empty: Vec<TypescriptProjectReference> = Vec::new();
            let e = references_equal(&empty, &desired);
            proof {
                assert(refs_paths(empty@) =~= refs_paths(current_refs(*cfg)));
            }
            e
        },
    };
    proof {
        lemma_refs_match_iff_equal(
            current_refs(*cfg),
            desired@,
            |p: Seq<char>|
                desired_package_ref(pkgs, package_at_dir(pkgs, path_view(cfg.directory@)), p),
        );
        assert(equal == package_in_sync(pkgs, *cfg));
    }
    if equal {
        None
    } else {
        let dup = cfg.duplicate();
        Some(OutOfDatePackageProjectReferences { tsconfig: dup, desired_references: desired })
    }
}

/// Reconciles every parent reference file, one outcome per input in input
/// order: `None` for a file already in sync, otherwise the file paired with
/// the reference list it should hold.
#[verifier::loop_isolation(false)]
pub fn out_of_date_parent_project_references(
    index: &MonorepoIndex,
    parents: &Vec<TypescriptParentProjectReference>,
) -> (r: Vec<Option<OutOfDateParentProjectReferences>>)
    requires
        index_wf(index.packages@),
    ensures
        r@.len() == parents@.len(),
        forall|i: int|
            0 <= i < r@.len() ==> match r@[i] {
                Some(o) => parent_same(o.tsconfig, #[trigger] parents@[i]) && !parent_in_sync(
                    index.packages@,
                    parents@[i],
                ) && desired_parent_refs_ok(
                    index.packages@,
                    o.tsconfig.directory@,
                    o.desired_references@,
                ),
                None => parent_in_sync(index.packages@, parents@[i]),
            },
{
    let ghost pkgs = index.packages@;
    let mut r: Vec<Option<OutOfDateParentProjectReferences>> = Vec::new();
    let mut i: usize = 0;
    while i < parents.len()
        invariant
            0 <= i <= parents@.len(),
            r@.len() == i,
            forall|k: int|
                0 <= k < i ==> match r@[k] {
                    Some(o) => parent_same(o.tsconfig, #[trigger] parents@[k]) && !parent_in_sync(
                        pkgs,
                        parents@[k],
                    ) && desired_parent_refs_ok(
                        pkgs,
                        o.tsconfig.directory@,
                        o.desired_references@,
                    ),
                    None => parent_in_sync(pkgs, parents@[k]),
                },
        decreases parents@.len() - i,
    {
        let ghost old_r = r@;
        let outcome = parent_out_of_date(index, &parents[i]);
        r.push(outcome);
        proof {
            assert(forall|k: int| 0 <= k < i ==> r@[k] == old_r[k]);
            assert(r@[i as int] == outcome);
        }
        i = i + 1;
    }
    r
}

/// Reconciles every package configuration file, one outcome per input in
/// input order: `None` for a file already in sync, otherwise the file paired
/// with the reference list it should hold.
#[verifier::loop_isolation(false)]
pub fn out_of_date_package_project_references(
    index: &MonorepoIndex,
    configs: &Vec<TypescriptConfig>,
) -> (r: Vec<Option<OutOfDatePackageProjectReferences>>)
    requires
        index_wf(index.packages@),
        forall|i: int|
            0 <= i < configs@.len() ==> dir_known(
                index.packages@,
                path_view((#[trigger] configs@[i]).directory@),
            ),
    ensures
        r@.len() == configs@.len(),
        forall|i: int|
            0 <= i < r@.len() ==> match r@[i] {
                Some(o) => config_same(o.tsconfig, #[trigger] configs@[i]) && !package_in_sync(
                    index.packages@,
                    configs@[i],
                ) && desired_package_refs_ok(
                    index.packages@,
                    o.tsconfig.directory@,
                    o.desired_references@,
                ),
                None => package_in_sync(index.packages@, configs@[i]),
            },
{
    let ghost pkgs = index.packages@;
    let mut r: Vec<Option<OutOfDatePackageProjectReferences>> = Vec::new();
    let mut i: usize = 0;
    while i < configs.len()
        invariant
            0 <= i <= configs@.len(),
            r@.len() == i,
            forall|k: int|
                0 <= k < i ==> match r@[k] {
                    Some(o) => config_same(o.tsconfig, #[trigger] configs@[k]) && !package_in_sync(
                        pkgs,
                        configs@[k],
                    ) && desired_package_refs_ok(
                        pkgs,
                        o.tsconfig.directory@,
                        o.desired_references@,
                    ),
                    None => package_in_sync(pkgs, configs@[k]),
                },
        decreases configs@.len() - i,
    {
        let ghost old_r = r@;
        let outcome = package_out_of_date(index, &configs[i]);
        r.push(outcome);
        proof {
            assert(forall|k: int| 0 <= k < i ==> r@[k] == old_r[k]);
            assert(r@[i as int] == outcome);
        }
        i = i + 1;
    }
    r
}

/// Reports every reference list that drifted from the dependency graph.
/// Nothing is written: the caller decides the run's exit status from the
/// result. Reading the files happens at the caller too; a file that cannot be
/// read or parsed fails the run there before reconciliation starts.
#[verifier::loop_isolation(false)]
pub fn lint(
    index: &MonorepoIndex,
    parents: &Vec<TypescriptParentProjectReference>,
    package_configs: &Vec<TypescriptConfig>,
) -> (r: Result<(), LinkLintError>)
    requires
        index_wf(index.packages@),
        forall|i: int|
            0 <= i < package_configs@.len() ==> dir_known(
                index.packages@,
                path_view((#[trigger] package_configs@[i]).directory@),
            ),
    ensures
        r is Ok <==> ((forall|i: int|
            0 <= i < parents@.len() ==> parent_in_sync(index.packages@, #[trigger] parents@[i]))
            && (forall|i: int|
            0 <= i < package_configs@.len() ==> package_in_sync(
                index.packages@,
                #[trigger] package_configs@[i],
            ))),
        r matches Err(e) ==> (e.kind matches LinkLintErrorKind::ProjectReferencesOutOfDate(all)
            && all.0@.len() > 0),
{
    let ghost pkgs = index.packages@;
    let mut issues: Vec<OutOfDateTypescriptConfig> = Vec::new();
    let mut i: usize = 0;
    while i < parents.len()
        invariant
            0 <= i <= parents@.len(),
            (issues@.len() == 0) <==> (forall|k: int|
                0 <= k < i ==> parent_in_sync(pkgs, #[trigger] parents@[k])),
        decreases parents@.len() - i,
    {
        match parent_out_of_date(index, &parents[i]) {
            Some(o) => {
                issues.push(
                    OutOfDateTypescriptConfig {
                        config_file: MonorepoTypescriptConfig::Parent(o.tsconfig),
                        desired_references: o.desired_references,
                    },
                );
            },
            None => {},
        }
        i = i + 1;
    }
    let ghost parents_clean = issues@.len() == 0;
    let mut i: usize = 0;
    while i < package_configs.len()
        invariant
            0 <= i <= package_configs@.len(),
            parents_clean == (forall|k: int|
                0 <= k < parents@.len() ==> parent_in_sync(pkgs, #[trigger] parents@[k])),
            (issues@.len() == 0) <==> (parents_clean && (forall|k: int|
                0 <= k < i ==> package_in_sync(pkgs, #[trigger] package_configs@[k]))),
        decreases package_configs@.len() - i,
    {
        match package_out_of_date(index, &package_configs[i]) {
            Some(o) => {
                issues.push(
                    OutOfDateTypescriptConfig {
                        config_file: MonorepoTypescriptConfig::Package(o.tsconfig),
                        desired_references: o.desired_references,
                    },
                );
            },
            None => {},
        }
        i = i + 1;
    }
    if issues.is_empty() {
        Ok(())
    } else {
        Err(
            LinkLintError {
                kind: LinkLintErrorKind::ProjectReferencesOutOfDate(
                    AllOutOfDateTypescriptConfig(issues),
                ),
            },
        )
    }
}

/// The corrected parent reference files, one outcome per input in input
/// order: `None` where the file already holds its desired reference list,
/// otherwise the full new contents to persist — the file list kept, the
/// reference list replaced — which are then in sync themselves.
#[verifier::loop_isolation(false)]
pub fn link_children_packages(
    index: &MonorepoIndex,
    parents: &Vec<TypescriptParentProjectReference>,
) -> (w: Vec<Option<TypescriptParentProjectReference>>)
    requires
        index_wf(index.packages@),
    ensures
        w@.len() == parents@.len(),
        forall|i: int|
            0 <= i < w@.len() ==> match w@[i] {
                Some(n) => !parent_in_sync(index.packages@, #[trigger] parents@[i]) && path_view(
                    n.directory@,
                ) == path_view(parents@[i].directory@) && path_view(n.contents.files@) == path_view(
                    parents@[i].contents.files@,
                ) && parent_in_sync(index.packages@, n),
                None => parent_in_sync(index.packages@, parents@[i]),
            },
{
    let ghost pkgs = index.packages@;
    let mut w: Vec<Option<TypescriptParentProjectReference>> = Vec::new();
    let mut i: usize = 0;
    while i < parents.len()
        invariant
            0 <= i <= parents@.len(),
            w@.len() == i,
            forall|k: int|
                0 <= k < i ==> match w@[k] {
                    Some(n) => !parent_in_sync(pkgs, #[trigger] parents@[k]) && path_view(
                        n.directory@,
                    ) == path_view(parents@[k].directory@) && path_view(n.contents.files@)
                        == path_view(parents@[k].contents.files@) && parent_in_sync(pkgs, n),
                    None => parent_in_sync(pkgs, parents@[k]),
                },
        decreases parents@.len() - i,
    {
        let ghost old_w = w@;
        match parent_out_of_date(index, &parents[i]) {
            Some(o) => {
                let ghost drifted = o;
                let new = TypescriptParentProjectReference {
                    directory: o.tsconfig.directory,
                    contents: TypescriptParentProjectReferenceFile {
                        files: o.tsconfig.contents.files,
                        references: o.desired_references,
                    },
                };
                proof {
                    reveal(parent_same);
                    reveal(parent_in_sync);
                    reveal(desired_parent_refs_ok);
                    assert(new.directory@ == drifted.tsconfig.directory@);
                    assert(new.contents.references@ == drifted.desired_references@);
                    assert(parent_in_sync(pkgs, new));
                }
                w.push(Some(new));
            },
            None => {
                w.push(None);
            },
        }
        proof {
            assert(forall|k: int| 0 <= k < i ==> w@[k] == old_w[k]);
        }
        i = i + 1;
    }
    w
}

/// The corrected package configuration reference lists, one outcome per input
/// in input order: `None` where the file already lists its desired
/// references, otherwise the directory and the new reference list, to be
/// merged into the rest of the document and persisted — and then in sync
/// itself.
#[verifier::loop_isolation(false)]
pub fn link_package_dependencies(
    index: &MonorepoIndex,
    package_configs: &Vec<TypescriptConfig>,
) -> (w: Vec<Option<TypescriptConfig>>)
    requires
        index_wf(index.packages@),
        forall|i: int|
            0 <= i < package_configs@.len() ==> dir_known(
                index.packages@,
                path_view((#[trigger] package_configs@[i]).directory@),
            ),
    ensures
        w@.len() == package_configs@.len(),
        forall|i: int|
            0 <= i < w@.len() ==> match w@[i] {
                Some(n) => !package_in_sync(index.packages@, #[trigger] package_configs@[i])
                    && path_view(n.directory@) == path_view(package_configs@[i].directory@)
                    && package_in_sync(index.packages@, n),
                None => package_in_sync(index.packages@, package_configs@[i]),
            },
{
    let ghost pkgs = index.packages@;
    let mut w: Vec<Option<TypescriptConfig>> = Vec::new();
    let mut i: usize = 0;
    while i < package_configs.len()
        invariant
            0 <= i <= package_configs@.len(),
            w@.len() == i,
            forall|k: int|
                0 <= k < i ==> match w@[k] {
                    Some(n) => !package_in_sync(pkgs, #[trigger] package_configs@[k]) && path_view(
                        n.directory@,
                    ) == path_view(package_configs@[k].directory@) && package_in_sync(pkgs, n),
                    None => package_in_sync(pkgs, package_configs@[k]),
                },
        decreases package_configs@.len() - i,
    {
        let ghost old_w = w@;
        match package_out_of_date(index, &package_configs[i]) {
            Some(o) => {
                let ghost drifted = o;
                let new = TypescriptConfig {
                    directory: o.tsconfig.directory,
                    references: Some(o.desired_references),
                };
                proof {
                    reveal(config_same);
                    reveal(package_in_sync);
                    reveal(desired_package_refs_ok);
                    assert(new.directory@ == drifted.tsconfig.directory@);
                    assert(current_refs(new) == drifted.desired_references@);
                    assert(package_in_sync(pkgs, new));
                }
                w.push(Some(new));
            },
            None => {
                w.push(None);
            },
        }
        proof {
            assert(forall|k: int| 0 <= k < i ==> w@[k] == old_w[k]);
        }
        i = i + 1;
    }
    w
}

/// Everything one Modify run wants written, each outcome aligned with the
/// corresponding input artifact.
#[derive(Debug)]
pub struct LinkWrites {
    pub parents: Vec<Option<TypescriptParentProjectReference>>,
    pub packages: Vec<Option<TypescriptConfig>>,
}

/// Computes the writes that bring every project-reference artifact in sync
/// with the dependency graph. The caller persists each returned file —
/// atomically, so a concurrent reader never sees a partial one.
pub fn modify(
    index: &MonorepoIndex,
    parents: &Vec<TypescriptParentProjectReference>,
    package_configs: &Vec<TypescriptConfig>,
) -> (w: LinkWrites)
    requires
        index_wf(index.packages@),
        forall|i: int|
            0 <= i < package_configs@.len() ==> dir_known(
                index.packages@,
                path_view((#[trigger] package_configs@[i]).directory@),
            ),
    ensures
        w.parents@.len() == parents@.len(),
        forall|i: int|
            0 <= i < w.parents@.len() ==> match w.parents@[i] {
                Some(n) => !parent_in_sync(index.packages@, #[trigger] parents@[i]) && path_view(
                    n.directory@,
                ) == path_view(parents@[i].directory@) && path_view(n.contents.files@) == path_view(
                    parents@[i].contents.files@,
                ) && parent_in_sync(index.packages@, n),
                None => parent_in_sync(index.packages@, parents@[i]),
            },
        w.packages@.len() == package_configs@.len(),
        forall|i: int|
            0 <= i < w.packages@.len() ==> match w.packages@[i] {
                Some(n) => !package_in_sync(index.packages@, #[trigger] package_configs@[i])
                    && path_view(n.directory@) == path_view(package_configs@[i].directory@)
                    && package_in_sync(index.packages@, n),
                None => package_in_sync(index.packages@, package_configs@[i]),
            },
{
    let parent_writes = link_children_packages(index, parents);
    let package_writes = link_package_dependencies(index, package_configs);
    LinkWrites { parents: parent_writes, packages: package_writes }
}

/// Parent reference lists are deterministic: two discovery passes that found
/// the same packages — in whatever order — demand the same reference list for
/// every parent directory, because the list is the sorted set of the
/// directory's children and that set ignores order.
pub proof fn lemma_parent_references_deterministic(
    pkgs1: Seq<PackageManifest>,
    pkgs2: Seq<PackageManifest>,
    directory: Seq<String>,
    refs1: Seq<TypescriptProjectReference>,
    refs2: Seq<TypescriptProjectReference>,
)
    requires
        forall|i: int|
            0 <= i < pkgs1.len() ==> exists|j: int|
                0 <= j < pkgs2.len() && #[trigger] pkgs1[i] == #[trigger] pkgs2[j],
        forall|j: int|
            0 <= j < pkgs2.len() ==> exists|i: int|
                0 <= i < pkgs1.len() && #[trigger] pkgs2[j] == #[trigger] pkgs1[i],
        desired_parent_refs_ok(pkgs1, directory, refs1),
        desired_parent_refs_ok(pkgs2, directory, refs2),
    ensures
        refs_paths(refs1) == refs_paths(refs2),
{
    reveal(desired_parent_refs_ok);
    assert forall|c: Seq<char>|
        is_child_name(pkgs1, path_view(directory), c) == is_child_name(
            pkgs2,
            path_view(directory),
            c,
        ) by {
        let pre = path_view(directory);
        if is_child_name(pkgs1, pre, c) {
            let i = choose|i: int|
                0 <= i < pkgs1.len() && pre.len() < (#[trigger] pkgs1[i]).dir_view().len()
                    && pkgs1[i].dir_view().take(pre.len() as int) == pre && pkgs1[i].dir_view()[pre.len() as int]
                    == c;
            let j = choose|j: int| 0 <= j < pkgs2.len() && pkgs1[i] == pkgs2[j];
            assert(pkgs2[j].dir_view().take(pre.len() as int) == pre);
            assert(is_child_name(pkgs2, pre, c));
        }
        if is_child_name(pkgs2, pre, c) {
            let j = choose|j: int|
                0 <= j < pkgs2.len() && pre.len() < (#[trigger] pkgs2[j]).dir_view().len()
                    && pkgs2[j].dir_view().take(pre.len() as int) == pre && pkgs2[j].dir_view()[pre.len() as int]
                    == c;
            let i = choose|i: int| 0 <= i < pkgs1.len() && pkgs2[j] == pkgs1[i];
            assert(pkgs1[i].dir_view().take(pre.len() as int) == pre);
            assert(is_child_name(pkgs1, pre, c));
        }
    }
    lemma_refs_match_iff_equal(
        refs1,
        refs2,
        |c: Seq<char>| is_child_name(pkgs2, path_view(directory), c),
    );
}

/// Idempotence of Modify: an artifact a run wrote is in sync afterwards, and
/// an artifact it left alone already was. So once the caller has persisted
/// the writes, every artifact is in sync, and a second run — whose contract
/// returns a write exactly for an artifact out of sync — writes nothing and
/// reports nothing.
pub proof fn lemma_link_modify_idempotent(
    pkgs: Seq<PackageManifest>,
    parents: Seq<TypescriptParentProjectReference>,
    parent_writes: Seq<Option<TypescriptParentProjectReference>>,
    parents_after: Seq<TypescriptParentProjectReference>,
    configs: Seq<TypescriptConfig>,
    config_writes: Seq<Option<TypescriptConfig>>,
    configs_after: Seq<TypescriptConfig>,
)
    requires
        // what `modify` ensures of its writes
        parent_writes.len() == parents.len(),
        forall|i: int|
            0 <= i < parents.len() ==> match #[trigger] parent_writes[i] {
                Some(n) => parent_in_sync(pkgs, n),
                None => parent_in_sync(pkgs, parents[i]),
            },
        config_writes.len() == configs.len(),
        forall|i: int|
            0 <= i < configs.len() ==> match #[trigger] config_writes[i] {
                Some(n) => package_in_sync(pkgs, n),
                None => package_in_sync(pkgs, configs[i]),
            },
        // the state after the caller persisted every write
        parents_after.len() == parents.len(),
        forall|i: int|
            0 <= i < parents.len() ==> match #[trigger] parent_writes[i] {
                Some(n) => parent_same(parents_after[i], n),
                None => parent_same(parents_after[i], parents[i]),
            },
        configs_after.len() == configs.len(),
        forall|i: int|
            0 <= i < configs.len() ==> match #[trigger] config_writes[i] {
                Some(n) => config_same(configs_after[i], n),
                None => config_same(configs_after[i], configs[i]),
            },
    ensures
        forall|i: int|
            0 <= i < parents_after.len() ==> parent_in_sync(pkgs, #[trigger] parents_after[i]),
        forall|i: int|
            0 <= i < configs_after.len() ==> package_in_sync(pkgs, #[trigger] configs_after[i]),
{
    assert forall|i: int|
        0 <= i < parents_after.len() implies parent_in_sync(pkgs, #[trigger] parents_after[i]) by {
        match parent_writes[i] {
            Some(n) => {
                lemma_parent_same_sync(pkgs, parents_after[i], n);
            },
            None => {
                lemma_parent_same_sync(pkgs, parents_after[i], parents[i]);
            },
        }
    }
    assert forall|i: int|
        0 <= i < configs_after.len() implies package_in_sync(pkgs, #[trigger] configs_after[i]) by {
        match config_writes[i] {
            Some(n) => {
                lemma_config_same_sync(pkgs, configs_after[i], n);
            },
            None => {
                lemma_config_same_sync(pkgs, configs_after[i], configs[i]);
            },
        }
    }
}

/// Lint/Modify equivalence: on the same inputs, any outputs meeting `lint`'s
/// and `modify`'s contracts agree artifact by artifact — an artifact is
/// reported exactly when it gets a write, namely exactly when it fails its
/// in-sync predicate.
pub proof fn lemma_lint_modify_equivalence(
    pkgs: Seq<PackageManifest>,
    parents: Seq<TypescriptParentProjectReference>,
    parent_outcomes: Seq<Option<OutOfDateParentProjectReferences>>,
    parent_writes: Seq<Option<TypescriptParentProjectReference>>,
    configs: Seq<TypescriptConfig>,
    config_outcomes: Seq<Option<OutOfDatePackageProjectReferences>>,
    config_writes: Seq<Option<TypescriptConfig>>,
)
    requires
        // what the reconciliation scan (which feeds lint) ensures
        parent_outcomes.len() == parents.len(),
        forall|i: int|
            0 <= i < parents.len() ==> ((#[trigger] parent_outcomes[i]) is Some <==> !parent_in_sync(
                pkgs,
                parents[i],
            )),
        config_outcomes.len() == configs.len(),
        forall|i: int|
            0 <= i < configs.len() ==> ((#[trigger] config_outcomes[i]) is Some <==> !package_in_sync(
                pkgs,
                configs[i],
            )),
        // what `modify` ensures
        parent_writes.len() == parents.len(),
        forall|i: int|
            0 <= i < parents.len() ==> ((#[trigger] parent_writes[i]) is Some <==> !parent_in_sync(
                pkgs,
                parents[i],
            )),
        config_writes.len() == configs.len(),
        forall|i: int|
            0 <= i < configs.len() ==> ((#[trigger] config_writes[i]) is Some <==> !package_in_sync(
                pkgs,
                configs[i],
            )),
    ensures
        forall|i: int|
            0 <= i < parents.len() ==> ((#[trigger] parent_outcomes[i]) is Some
                == (#[trigger] parent_writes[i]) is Some),
        forall|i: int|
            0 <= i < configs.len() ==> ((#[trigger] config_outcomes[i]) is Some
                == (#[trigger] config_writes[i]) is Some),
{
}

} // verus!
