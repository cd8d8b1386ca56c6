//! Path arithmetic and graph queries shared by the subcommands.

use vstd::prelude::*;

use crate::link::dir_of_name;
use crate::monorepo_manifest::index_wf;
use crate::monorepo_manifest::name_in;
use crate::monorepo_manifest::MonorepoIndex;
use crate::opts::InternalDependenciesFormat;
use crate::package_manifest::last_slash_index;
use crate::text::contains_str;
use crate::text::join_view;

verus! {

/// A manifest path that cannot be turned into a package directory relative to
/// the monorepo root.
#[derive(Debug)]
pub enum DependencyPathError {
    NotUnderRoot,
    PackageInMonorepoRoot,
}

/// The directory of `internal_package_manifest`, relative to `root`: the
/// manifest path with the root prefix and the file's own name stripped.
/// A manifest that does not sit under `root`, or that sits directly in it,
/// is an error.
#[verifier::loop_isolation(false)]
pub fn relative_path_from_monorepo_root(root: &str, internal_package_manifest: &str) -> (r: Result<
    String,
    DependencyPathError,
>)
    ensures
        match r {
            Ok(p) => {
                let rest = internal_package_manifest@.skip(root@.len() as int + 1);
                &&& internal_package_manifest@.len() > root@.len()
                &&& internal_package_manifest@.take(root@.len() as int) == root@
                &&& internal_package_manifest@[root@.len() as int] == '/'
                &&& last_slash_index(rest) >= 0
                &&& p@ == rest.take(last_slash_index(rest))
            },
            Err(DependencyPathError::NotUnderRoot) => internal_package_manifest@.len() <= root@.len()
                || internal_package_manifest@.take(root@.len() as int) != root@
                || internal_package_manifest@[root@.len() as int] != '/',
            Err(DependencyPathError::PackageInMonorepoRoot) => last_slash_index(
                internal_package_manifest@.skip(root@.len() as int + 1),
            ) < 0,
        },
{
    let m = internal_package_manifest;
    let rl: usize = root.unicode_len();
    let ml: usize = m.unicode_len();
    if ml <= rl {
        return Err(DependencyPathError::NotUnderRoot);
    }
    let mut i: usize = 0;
    while i < rl
        invariant
            rl == root@.len(),
            ml == m@.len(),
            rl < ml,
            0 <= i <= rl,
            forall|k: int| 0 <= k < i ==> m@[k] == root@[k],
        decreases rl - i,
    {
        if (m.get_char(i) as u32) != (root.get_char(i) as u32) {
            proof {
                assert(m@.take(rl as int)[i as int] != root@[i as int]);
            }
            return Err(DependencyPathError::NotUnderRoot);
        }
        i = i + 1;
    }
    proof {
        assert(m@.take(rl as int) =~= root@);
    }
    if m.get_char(rl) != '/' {
        return Err(DependencyPathError::NotUnderRoot);
    }
    let rest = m.substring_char(rl + 1, ml);
    proof {
        assert(rest@ =~= m@.skip(rl as int + 1));
    }
    // drop the manifest file's own name
    let n: usize = rest.unicode_len();
    let mut j: usize = n;
    while j > 0
        invariant
            n == rest@.len(),
            0 <= j <= n,
            forall|k: int| j <= k < n ==> rest@[k] != '/',
        decreases j,
    {
        if rest.get_char(j - 1) == '/' {
            let dir = rest.substring_char(0, j - 1);
            proof {
                crate::package_manifest::lemma_last_slash(rest@, j as int - 1);
                assert(dir@ =~= rest@.take(j as int - 1));
            }
            return Ok(dir.to_owned());
        }
        j = j - 1;
    }
    proof {
        crate::package_manifest::lemma_no_slash(rest@);
    }
    Err(DependencyPathError::PackageInMonorepoRoot)
}

/// Each package's name paired with the root-relative path of its directory.
#[verifier::loop_isolation(false)]
pub fn key_internal_package_manifest_path_by_package_name(index: &MonorepoIndex) -> (r: Vec<
    (String, String),
>)
    ensures
        r@.len() == index.packages@.len(),
        forall|i: int|
            0 <= i < r@.len() ==> (#[trigger] r@[i]).0@ == index.packages@[i].contents.name@
                && r@[i].1@ == join_view(index.packages@[i].dir_view()),
{
    let mut r: Vec<(String, String)> = Vec::new();
    let mut i: usize = 0;
    while i < index.packages.len()
        invariant
            0 <= i <= index.packages@.len(),
            r@.len() == i,
            forall|k: int|
                0 <= k < i ==> (#[trigger] r@[k]).0@ == index.packages@[k].contents.name@
                    && r@[k].1@ == join_view(index.packages@[k].dir_view()),
        decreases index.packages@.len() - i,
    {
        let name = index.packages[i].contents.name.clone();
        let dir = crate::text::join_path(index.packages[i].directory());
        r.push((name, dir));
        i = i + 1;
    }
    r
}

/// The transitive internal dependencies of the package named `package_name`,
/// itself excluded: the names sorted, or — under the path format — each
/// dependency's root-relative directory path.
pub fn transitive_internal_dependencies(
    index: &MonorepoIndex,
    package_name: &str,
    format: InternalDependenciesFormat,
) -> (r: Vec<String>)
    requires
        index_wf(index.packages@),
        name_in(index.packages@, package_name@),
    ensures
        format == InternalDependenciesFormat::Name ==> forall|n: Seq<char>|
            contains_str(r@, n) == (crate::monorepo_manifest::reachable(
                index.packages@,
                package_name@,
                n,
            ) && name_in(index.packages@, n) && n != package_name@),
        format == InternalDependenciesFormat::Path ==> forall|p: Seq<char>|
            contains_str(r@, p) == (exists|n: Seq<char>|
                (#[trigger] crate::monorepo_manifest::reachable(index.packages@, package_name@, n))
                    && name_in(index.packages@, n) && n != package_name@ && p == join_view(
                    dir_of_name(index.packages@, n),
                )),
{
    let ghost pkgs = index.packages@;
    let names = index.transitive_internal_dependencies(package_name, false);
    let ghost names_v = names@;
    match format {
        InternalDependenciesFormat::Name => names,
        InternalDependenciesFormat::Path => {
            proof {
                assert forall|k: int|
                    0 <= k < names@.len() implies name_in(pkgs, (#[trigger] names@[k])@) by {
                    assert(contains_str(names@, names@[k]@));
                }
            }
            let dirs = crate::query::joined_directories_of_names(index, &names);
            proof {
                assert forall|p: Seq<char>|
                    contains_str(dirs@, p) == (exists|n: Seq<char>|
                        (#[trigger] crate::monorepo_manifest::reachable(pkgs, package_name@, n))
                            && name_in(pkgs, n) && n != package_name@ && p == join_view(
                            dir_of_name(pkgs, n),
                        )) by {
                    if contains_str(dirs@, p) {
                        let w = choose|w: int| 0 <= w < dirs@.len() && dirs@[w]@ == p;
                        assert(contains_str(names_v, names_v[w]@));
                    }
                    if exists|n: Seq<char>|
                        (#[trigger] crate::monorepo_manifest::reachable(pkgs, package_name@, n))
                            && name_in(pkgs, n) && n != package_name@ && p == join_view(
                            dir_of_name(pkgs, n),
                        ) {
                        let n = choose|n: Seq<char>|
                            (#[trigger] crate::monorepo_manifest::reachable(pkgs, package_name@, n))
                                && name_in(pkgs, n) && n != package_name@ && p == join_view(
                                dir_of_name(pkgs, n),
                            );
                        assert(contains_str(names_v, n));
                        let w = choose|w: int| 0 <= w < names_v.len() && names_v[w]@ == n;
                        assert(dirs@[w]@ == p);
                    }
                }
            }
            dirs
        },
    }
}

} // verus!
