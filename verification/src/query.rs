//! Queries over the dependency graph: each package's transitive internal
//! dependencies, by name or by directory path.

use vstd::prelude::*;

use crate::io::FromFileError;
use crate::link::dir_of_name;
use crate::monorepo_manifest::index_wf;
use crate::monorepo_manifest::name_in;
use crate::monorepo_manifest::reachable;
use crate::monorepo_manifest::EnumeratePackageManifestsError;
use crate::monorepo_manifest::MonorepoIndex;
use crate::text::contains_str;
use crate::text::join_view;

verus! {

/// Querying failed.
#[derive(Debug)]
pub struct QueryError {
    pub kind: QueryErrorKind,
}

/// Why the query failed.
#[derive(Debug)]
pub enum QueryErrorKind {
    FromFile(FromFileError),
    EnumeratePackageManifests(EnumeratePackageManifestsError),
    PathInvalidUtf8(String),
}

/// How internal dependencies are named in the query's output.
#[derive(Clone, Copy, Debug, Eq, PartialEq, Hash, Structural)]
pub enum InternalDependenciesFormat {
    Name,
    Path,
}

/// Whether `n` is a transitive internal dependency of the package at `i`,
/// itself excluded.
pub open spec fn transitive_dep_of(pkgs: Seq<crate::package_manifest::PackageManifest>, i: int, n: Seq<char>) -> bool {
    reachable(pkgs, pkgs[i].contents.name@, n) && name_in(pkgs, n) && n != pkgs[i].contents.name@
}

/// The root-relative directory paths of the packages named in `names`.
#[verifier::loop_isolation(false)]
pub fn joined_directories_of_names(index: &MonorepoIndex, names: &Vec<String>) -> (r: Vec<String>)
    requires
        index_wf(index.packages@),
        forall|k: int| 0 <= k < names@.len() ==> name_in(index.packages@, (#[trigger] names@[k])@),
    ensures
        r@.len() == names@.len(),
        forall|k: int|
            0 <= k < names@.len() ==> (#[trigger] r@[k])@ == join_view(
                dir_of_name(index.packages@, names@[k]@),
            ),
{
    let ghost pkgs = index.packages@;
    let mut out: Vec<String> = Vec::new();
    let mut k: usize = 0;
    while k < names.len()
        invariant
            0 <= k <= names@.len(),
            out@.len() == k,
            forall|m: int|
                0 <= m < k ==> (#[trigger] out@[m])@ == join_view(dir_of_name(pkgs, names@[m]@)),
        decreases names@.len() - k,
    {
        let pos = match index.position_of(names[k].as_str()) {
            Some(p) => p,
            None => {
                proof {
                    assert(name_in(pkgs, names@[k as int]@));
                    assert(false);
                }
                0
            },
        };
        proof {
            let n = names@[k as int]@;
            let i = crate::link::index_of_name(pkgs, n);
            assert(0 <= i < pkgs.len() && pkgs[i].contents.name@ == n);
            if i < pos as int {
                assert(pkgs[i].contents.name@ != pkgs[pos as int].contents.name@);
                assert(false);
            }
            if (pos as int) < i {
                assert(pkgs[pos as int].contents.name@ != pkgs[i].contents.name@);
                assert(false);
            }
            assert(dir_of_name(pkgs, n) == pkgs[pos as int].dir_view());
        }
        let dir = crate::text::join_path(index.packages[pos].directory());
        out.push(dir);
        k = k + 1;
    }
    out
}

/// Every package's transitive internal dependencies, itself excluded: one
/// entry per package of the index, in index order, keyed by package name or
/// by directory path as `format` asks, the dependencies under each key sorted
/// by name.
#[verifier::loop_isolation(false)]
pub fn query_internal_dependencies(index: &MonorepoIndex, format: InternalDependenciesFormat) -> (r:
    Vec<(String, Vec<String>)>)
    requires
        index_wf(index.packages@),
    ensures
        r@.len() == index.packages@.len(),
        forall|i: int|
            0 <= i < r@.len() ==> (#[trigger] r@[i]).0@ == (match format {
                InternalDependenciesFormat::Name => index.packages@[i].contents.name@,
                InternalDependenciesFormat::Path => join_view(index.packages@[i].dir_view()),
            }),
        format == InternalDependenciesFormat::Name ==> forall|i: int, n: Seq<char>|
            0 <= i < r@.len() ==> #[trigger] contains_str(r@[i].1@, n) == transitive_dep_of(
                index.packages@,
                i,
                n,
            ),
        format == InternalDependenciesFormat::Path ==> forall|i: int, p: Seq<char>|
            0 <= i < r@.len() ==> (#[trigger] contains_str(r@[i].1@, p) == exists|n: Seq<char>|
                #[trigger] transitive_dep_of(index.packages@, i, n) && p == join_view(
                    dir_of_name(index.packages@, n),
                )),
{
    let ghost pkgs = index.packages@;
    let mut r: Vec<(String, Vec<String>)> = Vec::new();
    let mut i: usize = 0;
    while i < index.packages.len()
        invariant
            0 <= i <= pkgs.len(),
            index_wf(pkgs),
            r@.len() == i,
            forall|k: int|
                0 <= k < i ==> (#[trigger] r@[k]).0@ == (match format {
                    InternalDependenciesFormat::Name => pkgs[k].contents.name@,
                    InternalDependenciesFormat::Path => join_view(pkgs[k].dir_view()),
                }),
            format == InternalDependenciesFormat::Name ==> forall|k: int, n: Seq<char>|
                0 <= k < i ==> #[trigger] contains_str(r@[k].1@, n) == transitive_dep_of(
                    pkgs,
                    k,
                    n,
                ),
            format == InternalDependenciesFormat::Path ==> forall|k: int, p: Seq<char>|
                0 <= k < i ==> (#[trigger] contains_str(r@[k].1@, p) == exists|n: Seq<char>|
                    #[trigger] transitive_dep_of(pkgs, k, n) && p == join_view(
                        dir_of_name(pkgs, n),
                    )),
        decreases pkgs.len() - i,
    {
        let pkg = &index.packages[i];
        proof {
            assert(name_in(pkgs, pkg.contents.name@));
        }
        let names = index.transitive_internal_dependencies(pkg.contents.name.as_str(), false);
        let ghost names_v = names@;
        proof {
            assert forall|n: Seq<char>|
                contains_str(names_v, n) == transitive_dep_of(pkgs, i as int, n) by {}
        }
        let (key, values): (String, Vec<String>) = match format {
            InternalDependenciesFormat::Name => (pkg.contents.name.clone(), names),
            InternalDependenciesFormat::Path => {
                proof {
                    assert forall|k: int|
                        0 <= k < names@.len() implies name_in(pkgs, (#[trigger] names@[k])@) by {
                        assert(contains_str(names@, names@[k]@));
                    }
                }
                let dirs = joined_directories_of_names(index, &names);
                proof {
                    // membership in the path list mirrors membership in the
                    // name list through each dependency's directory
                    assert forall|p: Seq<char>|
                        contains_str(dirs@, p) == (exists|n: Seq<char>|
                            #[trigger] transitive_dep_of(pkgs, i as int, n) && p == join_view(
                                dir_of_name(pkgs, n),
                            )) by {
                        if contains_str(dirs@, p) {
                            let w = choose|w: int| 0 <= w < dirs@.len() && dirs@[w]@ == p;
                            assert(contains_str(names_v, names_v[w]@));
                            assert(transitive_dep_of(pkgs, i as int, names_v[w]@));
                        }
                        if exists|n: Seq<char>|
                            #[trigger] transitive_dep_of(pkgs, i as int, n) && p == join_view(
                                dir_of_name(pkgs, n),
                            ) {
                            let n = choose|n: Seq<char>|
                                #[trigger] transitive_dep_of(pkgs, i as int, n) && p == join_view(
                                    dir_of_name(pkgs, n),
                                );
                            assert(contains_str(names_v, n));
                            let w = choose|w: int| 0 <= w < names_v.len() && names_v[w]@ == n;
                            assert(dirs@[w]@ == p);
                        }
                    }
                }
                let key = crate::text::join_path(pkg.directory());
                (key, dirs)
            },
        };
        let ghost old_r = r@;
        r.push((key, values));
        proof {
            assert(forall|k: int| 0 <= k < i ==> r@[k] == old_r[k]);
            assert(r@[i as int].1 == values);
            if format == InternalDependenciesFormat::Name {
                assert(r@[i as int].1@ == names_v);
                assert forall|k: int, n: Seq<char>|
                    0 <= k < i + 1 implies #[trigger] contains_str(r@[k].1@, n)
                    == transitive_dep_of(pkgs, k, n) by {
                    if k < i {
                        assert(r@[k].1@ == old_r[k].1@);
                        assert(contains_str(old_r[k].1@, n) == transitive_dep_of(pkgs, k, n));
                    } else {
                        assert(contains_str(names_v, n) == transitive_dep_of(pkgs, i as int, n));
                    }
                }
            } else {
                assert forall|k: int, p: Seq<char>|
                    0 <= k < i + 1 implies (#[trigger] contains_str(r@[k].1@, p) == exists|
                    n: Seq<char>,
                |
                    #[trigger] transitive_dep_of(pkgs, k, n) && p == join_view(
                        dir_of_name(pkgs, n),
                    )) by {
                    if k < i {
                        assert(r@[k].1@ == old_r[k].1@);
                        assert(contains_str(old_r[k].1@, p) == exists|n: Seq<char>|
                            #[trigger] transitive_dep_of(pkgs, k, n) && p == join_view(
                                dir_of_name(pkgs, n),
                            ));
                    } else {
                        assert(contains_str(values@, p) == exists|n: Seq<char>|
                            #[trigger] transitive_dep_of(pkgs, i as int, n) && p == join_view(
                                dir_of_name(pkgs, n),
                            ));
                    }
                }
            }
        }
        i = i + 1;
    }
    r
}

} // verus!
