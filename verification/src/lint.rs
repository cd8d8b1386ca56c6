//! The external-version consistency linter.
//!
//! For a named dependency, every package should declare one and the same
//! version. The linter groups packages by the version string they declare,
//! takes the most common one as expected — ties broken toward the smaller
//! version string, so the pick is deterministic — and reports every package
//! declaring another. It never writes anything.

use vstd::prelude::*;

use crate::io::FromFileError;
use crate::monorepo_manifest::EnumeratePackageManifestsError;
use crate::monorepo_manifest::MonorepoIndex;
use crate::package_manifest::spec_dependency_version;
use crate::package_manifest::PackageManifest;
use crate::text::contains_str;
use crate::text::contains_string;
use crate::text::distinct_views;
use crate::text::lex_le;
use crate::text::str_eq;
use crate::text::str_lt;

verus! {

/// Linting external dependency versions failed.
#[derive(Debug)]
pub struct LintError {
    pub kind: LintErrorKind,
}

/// Why the lint failed.
#[derive(Debug)]
pub enum LintErrorKind {
    FromFile(FromFileError),
    EnumeratePackageManifests(EnumeratePackageManifestsError),
    UnknownDependency(String),
    UnexpectedInternalDependencyVersion,
    InvalidUtf8(String),
}

/// The version package `i` declares for `dep`, if any.
pub open spec fn declared_version(
    pkgs: Seq<PackageManifest>,
    i: int,
    dep: Seq<char>,
) -> Option<Seq<char>> {
    spec_dependency_version(pkgs[i].contents.dependency_groups@, dep)
}

/// Whether every package declaring `dep` declares the same version.
pub open spec fn versions_consistent(pkgs: Seq<PackageManifest>, dep: Seq<char>) -> bool {
    forall|i: int, j: int|
        0 <= i < pkgs.len() && 0 <= j < pkgs.len() ==> match (
            #[trigger] declared_version(pkgs, i, dep),
            #[trigger] declared_version(pkgs, j, dep),
        ) {
            (Some(a), Some(b)) => a == b,
            _ => true,
        }
}

/// The distinct version strings that packages declare for `dependency`, in
/// first-seen index order.
#[verifier::loop_isolation(false)]
pub fn versions_of_dependency(index: &MonorepoIndex, dependency: &str) -> (r: Vec<String>)
    ensures
        distinct_views(r@),
        forall|v: Seq<char>|
            contains_str(r@, v) == exists|i: int|
                0 <= i < index.packages@.len() && #[trigger] declared_version(
                    index.packages@,
                    i,
                    dependency@,
                ) == Some(v),
{
    let ghost pkgs = index.packages@;
    let mut out: Vec<String> = Vec::new();
    let mut i: usize = 0;
    while i < index.packages.len()
        invariant
            0 <= i <= pkgs.len(),
            distinct_views(out@),
            forall|v: Seq<char>|
                contains_str(out@, v) == exists|k: int|
                    0 <= k < i && #[trigger] declared_version(pkgs, k, dependency@) == Some(v),
        decreases pkgs.len() - i,
    {
        let ghost old_out = out@;
        match index.packages[i].get_dependency_version(dependency) {
            Some(v) => {
                if !contains_string(&out, v.as_str()) {
                    out.push(v);
                }
                proof {
                    assert forall|v2: Seq<char>|
                        contains_str(out@, v2) == exists|k: int|
                            0 <= k < i + 1 && #[trigger] declared_version(pkgs, k, dependency@)
                                == Some(v2) by {
                        if contains_str(out@, v2) {
                            let w = choose|w: int| 0 <= w < out@.len() && out@[w]@ == v2;
                            if w < old_out.len() {
                                assert(contains_str(old_out, v2));
                                let k = choose|k: int|
                                    0 <= k < i && #[trigger] declared_version(pkgs, k, dependency@)
                                        == Some(v2);
                                assert(declared_version(pkgs, k, dependency@) == Some(v2));
                            } else {
                                assert(declared_version(pkgs, i as int, dependency@) == Some(v2));
                            }
                        }
                        if exists|k: int|
                            0 <= k < i + 1 && #[trigger] declared_version(pkgs, k, dependency@)
                                == Some(v2) {
                            let k = choose|k: int|
                                0 <= k < i + 1 && #[trigger] declared_version(pkgs, k, dependency@)
                                    == Some(v2);
                            if k < i {
                                assert(contains_str(old_out, v2));
                                let w = choose|w: int| 0 <= w < old_out.len() && old_out[w]@ == v2;
                                assert(out@[w]@ == v2);
                            } else {
                                if contains_str(old_out, v2) {
                                    let w = choose|w: int|
                                        0 <= w < old_out.len() && old_out[w]@ == v2;
                                    assert(out@[w]@ == v2);
                                } else {
                                    assert(out@[out@.len() - 1]@ == v2);
                                }
                            }
                        }
                    }
                }
            },
            None => {
                proof {
                    assert forall|v2: Seq<char>|
                        contains_str(out@, v2) == exists|k: int|
                            0 <= k < i + 1 && #[trigger] declared_version(pkgs, k, dependency@)
                                == Some(v2) by {
                        if exists|k: int|
                            0 <= k < i + 1 && #[trigger] declared_version(pkgs, k, dependency@)
                                == Some(v2) {
                            let k = choose|k: int|
                                0 <= k < i + 1 && #[trigger] declared_version(pkgs, k, dependency@)
                                    == Some(v2);
                            assert(k < i);
                        }
                    }
                }
            },
        }
        i = i + 1;
    }
    out
}

/// The most common version among the grouped declarations: the key whose
/// package list is longest, ties broken toward the smaller version string.
#[verifier::loop_isolation(false)]
pub fn most_common_dependency_version(
    package_paths_by_dependency_version: &Vec<(String, Vec<String>)>,
) -> (r: Option<String>)
    ensures
        r is None <==> package_paths_by_dependency_version@.len() == 0,
        r matches Some(v) ==> exists|j: int|
            0 <= j < package_paths_by_dependency_version@.len() && (
            #[trigger] package_paths_by_dependency_version@[j]).0@ == v@ && (forall|k: int|
                0 <= k < package_paths_by_dependency_version@.len()
                    ==> ((#[trigger] package_paths_by_dependency_version@[k]).1@.len()
                    < package_paths_by_dependency_version@[j].1@.len() || (
                package_paths_by_dependency_version@[k].1@.len()
                    == package_paths_by_dependency_version@[j].1@.len() && lex_le(
                    v@,
                    package_paths_by_dependency_version@[k].0@,
                )))),
{
    let groups = package_paths_by_dependency_version;
    if groups.len() == 0 {
        return None;
    }
    let mut best: usize = 0;
    let mut k: usize = 1;
    while k < groups.len()
        invariant
            0 <= best < k <= groups@.len(),
            forall|m: int|
                0 <= m < k ==> ((#[trigger] groups@[m]).1@.len() < groups@[best as int].1@.len() || (
                groups@[m].1@.len() == groups@[best as int].1@.len() && lex_le(
                    groups@[best as int].0@,
                    groups@[m].0@,
                ))),
        decreases groups@.len() - k,
    {
        let better = if groups[k].1.len() > groups[best].1.len() {
            true
        } else if groups[k].1.len() == groups[best].1.len() {
            str_lt(groups[k].0.as_str(), groups[best].0.as_str())
        } else {
            false
        };
        proof {
            if !better {
                crate::text::lemma_lex_lt_total(groups@[best as int].0@, groups@[k as int].0@);
            }
            if better {
                assert forall|m: int|
                    0 <= m < k + 1 implies ((#[trigger] groups@[m]).1@.len()
                    < groups@[k as int].1@.len() || (groups@[m].1@.len()
                    == groups@[k as int].1@.len() && lex_le(groups@[k as int].0@, groups@[m].0@)))
                    by {
                    if m < k {
                        if groups@[m].1@.len() == groups@[best as int].1@.len() && groups@[
                            k as int].1@.len() == groups@[best as int].1@.len() {
                            crate::text::lemma_lex_lt_transitive(
                                groups@[k as int].0@,
                                groups@[best as int].0@,
                                groups@[m].0@,
                            );
                        }
                    } else {
                        crate::text::lemma_lex_lt_irreflexive(groups@[k as int].0@);
                    }
                }
            }
        }
        if better {
            best = k;
        }
        k = k + 1;
    }
    let v = groups[best].0.clone();
    Some(v)
}

/// The manifest paths of the packages declaring `dep` at `v`, in package
/// order.
pub open spec fn declaring_paths(
    pkgs: Seq<PackageManifest>,
    dep: Seq<char>,
    v: Seq<char>,
) -> Seq<Seq<char>>
    decreases pkgs.len(),
{
    if pkgs.len() == 0 {
        Seq::empty()
    } else {
        let rest = declaring_paths(pkgs.drop_last(), dep, v);
        if spec_dependency_version(pkgs.last().contents.dependency_groups@, dep) == Some(v) {
            rest.push(pkgs.last().spec_path())
        } else {
            rest
        }
    }
}

/// The manifest paths of every package declaring `dependency` at `version`.
#[verifier::loop_isolation(false)]
pub fn paths_declaring_version(index: &MonorepoIndex, dependency: &str, version: &str) -> (r: Vec<
    String,
>)
    ensures
        r@.len() == declaring_paths(index.packages@, dependency@, version@).len(),
        forall|k: int|
            0 <= k < r@.len() ==> (#[trigger] r@[k])@ == declaring_paths(
                index.packages@,
                dependency@,
                version@,
            )[k],
{
    let ghost pkgs = index.packages@;
    let mut out: Vec<String> = Vec::new();
    let mut i: usize = 0;
    while i < index.packages.len()
        invariant
            0 <= i <= pkgs.len(),
            out@.len() == declaring_paths(pkgs.take(i as int), dependency@, version@).len(),
            forall|k: int|
                0 <= k < out@.len() ==> (#[trigger] out@[k])@ == declaring_paths(
                    pkgs.take(i as int),
                    dependency@,
                    version@,
                )[k],
        decreases pkgs.len() - i,
    {
        let ghost old_out = out@;
        match index.packages[i].get_dependency_version(dependency) {
            Some(v) => {
                if str_eq(v.as_str(), version) {
                    let path = index.packages[i].path();
                    out.push(path);
                }
            },
            None => {},
        }
        proof {
            let cur = pkgs.take(i as int + 1);
            assert(cur.drop_last() =~= pkgs.take(i as int));
            assert(cur.last() == pkgs[i as int]);
        }
        i = i + 1;
    }
    proof {
        assert(pkgs.take(pkgs.len() as int) =~= pkgs);
    }
    out
}

/// Whether some entry of the grouping is keyed by `v`.
pub open spec fn contains_version(groups: Seq<(String, Vec<String>)>, v: Seq<char>) -> bool {
    exists|j: int| 0 <= j < groups.len() && (#[trigger] groups[j]).0@ == v
}

/// The packages declaring `dependency`, grouped by declared version: one
/// entry per distinct version string, carrying the manifest paths that use
/// it.
pub fn package_paths_by_dependency_version(index: &MonorepoIndex, dependency: &str) -> (r: Vec<
    (String, Vec<String>),
>)
    ensures
        forall|j: int, k: int|
            0 <= j < k < r@.len() ==> (#[trigger] r@[j]).0@ != (#[trigger] r@[k]).0@,
        forall|j: int|
            0 <= j < r@.len() ==> ((#[trigger] r@[j]).1@.len() == declaring_paths(
                index.packages@,
                dependency@,
                r@[j].0@,
            ).len() && (forall|k: int|
                0 <= k < r@[j].1@.len() ==> (#[trigger] r@[j].1@[k])@ == declaring_paths(
                    index.packages@,
                    dependency@,
                    r@[j].0@,
                )[k])),
        forall|v: Seq<char>|
            (exists|i: int|
                0 <= i < index.packages@.len() && #[trigger] declared_version(
                    index.packages@,
                    i,
                    dependency@,
                ) == Some(v)) ==> #[trigger] contains_version(r@, v),
{
    let versions = versions_of_dependency(index, dependency);
    let mut r: Vec<(String, Vec<String>)> = Vec::new();
    let mut j: usize = 0;
    while j < versions.len()
        invariant
            0 <= j <= versions@.len(),
            distinct_views(versions@),
            r@.len() == j,
            forall|a: int| 0 <= a < j ==> (#[trigger] r@[a]).0@ == versions@[a]@,
            forall|a: int|
                0 <= a < j ==> ((#[trigger] r@[a]).1@.len() == declaring_paths(
                    index.packages@,
                    dependency@,
                    r@[a].0@,
                ).len() && (forall|k: int|
                    0 <= k < r@[a].1@.len() ==> (#[trigger] r@[a].1@[k])@ == declaring_paths(
                        index.packages@,
                        dependency@,
                        r@[a].0@,
                    )[k])),
            forall|v: Seq<char>|
                contains_str(versions@, v) == exists|i: int|
                    0 <= i < index.packages@.len() && #[trigger] declared_version(
                        index.packages@,
                        i,
                        dependency@,
                    ) == Some(v),
        decreases versions@.len() - j,
    {
        let paths = paths_declaring_version(index, dependency, versions[j].as_str());
        proof {
            assert(contains_str(versions@, versions@[j as int]@));
        }
        let ghost old_r = r@;
        r.push((versions[j].clone(), paths));
        proof {
            assert(forall|a: int| 0 <= a < j ==> r@[a] == old_r[a]);
            assert(r@[j as int].0@ == versions@[j as int]@);
            assert(r@[j as int].1 == paths);
        }
        j = j + 1;
    }
    proof {
        assert forall|v: Seq<char>|
            (exists|i: int|
                0 <= i < index.packages@.len() && #[trigger] declared_version(
                    index.packages@,
                    i,
                    dependency@,
                ) == Some(v)) implies #[trigger] contains_version(r@, v) by {
            assert(contains_str(versions@, v));
            let w = choose|w: int| 0 <= w < versions@.len() && versions@[w]@ == v;
            assert((r@[w]).0@ == v);
        }
    }
    r
}

/// Lints the named dependencies: succeeds exactly when each is declared at a
/// single version across the whole monorepo.
#[verifier::loop_isolation(false)]
pub fn lint_dependency_version(index: &MonorepoIndex, dependencies: &Vec<String>) -> (r: Result<
    (),
    LintError,
>)
    ensures
        r is Ok <==> (forall|d: int|
            0 <= d < dependencies@.len() ==> versions_consistent(
                index.packages@,
                (#[trigger] dependencies@[d])@,
            )),
        r matches Err(e) ==> e.kind is UnexpectedInternalDependencyVersion,
{
    let ghost pkgs = index.packages@;
    let mut consistent_so_far = true;
    let mut d: usize = 0;
    while d < dependencies.len()
        invariant
            0 <= d <= dependencies@.len(),
            consistent_so_far == (forall|k: int|
                0 <= k < d ==> versions_consistent(pkgs, (#[trigger] dependencies@[k])@)),
        decreases dependencies@.len() - d,
    {
        let versions = versions_of_dependency(index, dependencies[d].as_str());
        let ghost dep = dependencies@[d as int]@;
        if versions.len() > 1 {
            proof {
                assert(versions@[0]@ != versions@[1]@);
                assert(contains_str(versions@, versions@[0]@));
                assert(contains_str(versions@, versions@[1]@));
                let i0 = choose|i: int|
                    0 <= i < pkgs.len() && #[trigger] declared_version(pkgs, i, dep) == Some(
                        versions@[0]@,
                    );
                let i1 = choose|i: int|
                    0 <= i < pkgs.len() && #[trigger] declared_version(pkgs, i, dep) == Some(
                        versions@[1]@,
                    );
                assert(!versions_consistent(pkgs, dep));
            }
            consistent_so_far = false;
        } else {
            proof {
                assert forall|i: int, j: int|
                    0 <= i < pkgs.len() && 0 <= j < pkgs.len() implies match (
                    #[trigger] declared_version(pkgs, i, dep),
                    #[trigger] declared_version(pkgs, j, dep),
                ) {
                    (Some(a), Some(b)) => a == b,
                    _ => true,
                } by {
                    match (declared_version(pkgs, i, dep), declared_version(pkgs, j, dep)) {
                        (Some(a), Some(b)) => {
                            assert(contains_str(versions@, a));
                            assert(contains_str(versions@, b));
                            let wa = choose|w: int| 0 <= w < versions@.len() && versions@[w]@ == a;
                            let wb = choose|w: int| 0 <= w < versions@.len() && versions@[w]@ == b;
                            assert(wa == 0 && wb == 0);
                        },
                        _ => {},
                    }
                }
                assert(versions_consistent(pkgs, dep));
            }
        }
        d = d + 1;
    }
    if consistent_so_far {
        Ok(())
    } else {
        Err(LintError { kind: LintErrorKind::UnexpectedInternalDependencyVersion })
    }
}


/// The manifest paths and declared versions of the packages declaring `dep`
/// at a version other than `expected`, in package order.
pub open spec fn violations_spec(
    pkgs: Seq<PackageManifest>,
    dep: Seq<char>,
    expected: Seq<char>,
) -> Seq<(Seq<char>, Seq<char>)>
    decreases pkgs.len(),
{
    if pkgs.len() == 0 {
        Seq::empty()
    } else {
        let rest = violations_spec(pkgs.drop_last(), dep, expected);
        match spec_dependency_version(pkgs.last().contents.dependency_groups@, dep) {
            Some(v) => if v != expected {
                rest.push((pkgs.last().spec_path(), v))
            } else {
                rest
            },
            None => rest,
        }
    }
}

/// The packages declaring `dependency` at a version other than `expected`,
/// each as its manifest path with the version it declares.
#[verifier::loop_isolation(false)]
pub fn dependency_version_violations(
    index: &MonorepoIndex,
    dependency: &str,
    expected: &str,
) -> (r: Vec<(String, String)>)
    ensures
        r@.len() == violations_spec(index.packages@, dependency@, expected@).len(),
        forall|k: int|
            0 <= k < r@.len() ==> ((#[trigger] r@[k]).0@ == violations_spec(
                index.packages@,
                dependency@,
                expected@,
            )[k].0 && r@[k].1@ == violations_spec(index.packages@, dependency@, expected@)[k].1),
{
    let ghost pkgs = index.packages@;
    let mut out: Vec<(String, String)> = Vec::new();
    let mut i: usize = 0;
    while i < index.packages.len()
        invariant
            0 <= i <= pkgs.len(),
            out@.len() == violations_spec(pkgs.take(i as int), dependency@, expected@).len(),
            forall|k: int|
                0 <= k < out@.len() ==> ((#[trigger] out@[k]).0@ == violations_spec(
                    pkgs.take(i as int),
                    dependency@,
                    expected@,
                )[k].0 && out@[k].1@ == violations_spec(
                    pkgs.take(i as int),
                    dependency@,
                    expected@,
                )[k].1),
        decreases pkgs.len() - i,
    {
        let ghost old_out = out@;
        match index.packages[i].get_dependency_version(dependency) {
            Some(v) => {
                if !str_eq(v.as_str(), expected) {
                    let path = index.packages[i].path();
                    out.push((path, v));
                }
            },
            None => {},
        }
        proof {
            let cur = pkgs.take(i as int + 1);
            assert(cur.drop_last() =~= pkgs.take(i as int));
            assert(cur.last() == pkgs[i as int]);
        }
        i = i + 1;
    }
    proof {
        assert(pkgs.take(pkgs.len() as int) =~= pkgs);
    }
    out
}
} // verus!
