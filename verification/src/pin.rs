//! The pin synchronizer: internal dependency versions.
//!
//! Every package declares its own version; every dependency on an internal
//! package must declare exactly that version. `modify` computes, per package,
//! the manifest to write back — dependency groups rewritten, everything else
//! untouched — and `lint` reports each declaration that differs. A dependency
//! whose declared value is not a plain version string is an error of its own,
//! never silently skipped.

use vstd::prelude::*;

use crate::configuration_file::WriteError;
use crate::io::FromFileError;
use crate::monorepo_manifest::index_wf;
use crate::monorepo_manifest::name_in;
use crate::monorepo_manifest::names_distinct;
use crate::monorepo_manifest::EnumeratePackageManifestsError;
use crate::monorepo_manifest::MonorepoIndex;
use crate::package_manifest::value_view;
use crate::package_manifest::DependencyEntry;
use crate::package_manifest::DependencyGroup;
use crate::package_manifest::DependencyValue;
use crate::package_manifest::PackageManifest;
use crate::package_manifest::PackageManifestFile;
use crate::text::str_eq;
use crate::unpinned_dependencies::UnpinnedDependency;
use crate::unpinned_dependencies::UnpinnedMonorepoDependencies;
use crate::unpinned_dependencies::UnpinnedPackageDependencies;

verus! {

/// Pinning failed.
#[derive(Debug)]
pub struct PinError {
    pub kind: PinErrorKind,
}

/// Why pinning failed.
#[derive(Debug)]
pub enum PinErrorKind {
    FromFile(FromFileError),
    EnumeratePackageManifests(EnumeratePackageManifestsError),
    Write(WriteError),
    NonStringVersionNumber { package_name: String, dependency_name: String },
}

/// Pin lint failed: an error at the boundary, a non-string version, or
/// unpinned declarations.
#[derive(Debug)]
pub struct PinLintError {
    pub kind: PinLintErrorKind,
}

/// Why pin lint failed.
#[derive(Debug)]
pub enum PinLintErrorKind {
    FromFile(FromFileError),
    EnumeratePackageManifests(EnumeratePackageManifestsError),
    NonStringVersionNumber { package_name: String, dependency_name: String },
    UnpinnedDependencies(UnpinnedMonorepoDependencies),
}

/// The version the package named `n` declares for itself.
pub open spec fn authoritative_version(pkgs: Seq<PackageManifest>, n: Seq<char>) -> Seq<char> {
    pkgs[choose|i: int|
        0 <= i < pkgs.len() && (#[trigger] pkgs[i]).contents.name@ == n].contents.version@
}

/// What a declared dependency value becomes under pinning: an internal
/// dependency's version string is replaced by the authoritative one; anything
/// else stays.
pub open spec fn pinned_value_view(
    pkgs: Seq<PackageManifest>,
    name: Seq<char>,
    v: Option<Seq<char>>,
) -> Option<Seq<char>> {
    match v {
        Some(d) => Some(
            if name_in(pkgs, name) {
                authoritative_version(pkgs, name)
            } else {
                d
            },
        ),
        None => None,
    }
}

/// Whether `new` is `old` with every entry pinned.
pub open spec fn entries_pinned(
    pkgs: Seq<PackageManifest>,
    old: Seq<DependencyEntry>,
    new: Seq<DependencyEntry>,
) -> bool {
    &&& new.len() == old.len()
    &&& forall|i: int|
        0 <= i < old.len() ==> (#[trigger] new[i]).name@ == (#[trigger] old[i]).name@ && value_view(
            new[i].value,
        ) == pinned_value_view(pkgs, old[i].name@, value_view(old[i].value))
}

/// Whether `new` is `old` with every group's entries pinned.
pub open spec fn groups_pinned(
    pkgs: Seq<PackageManifest>,
    old: Seq<DependencyGroup>,
    new: Seq<DependencyGroup>,
) -> bool {
    &&& new.len() == old.len()
    &&& forall|i: int|
        0 <= i < old.len() ==> (#[trigger] new[i]).kind == (#[trigger] old[i]).kind
            && entries_pinned(pkgs, old[i].entries@, new[i].entries@)
}

/// Whether `new` is `old` pinned: the dependency groups rewritten, the name,
/// version and every other field untouched.
pub open spec fn file_pinned(
    pkgs: Seq<PackageManifest>,
    old: PackageManifestFile,
    new: PackageManifestFile,
) -> bool {
    &&& new.name@ == old.name@
    &&& new.version@ == old.version@
    &&& new.extra_fields == old.extra_fields
    &&& groups_pinned(pkgs, old.dependency_groups@, new.dependency_groups@)
}

/// Whether every declaration of `m` already carries its pinned value (so a
/// pinning write would change nothing).
#[verifier::opaque]
pub open spec fn file_fully_pinned(pkgs: Seq<PackageManifest>, m: PackageManifestFile) -> bool {
    forall|g: int, e: int|
        0 <= g < m.dependency_groups.len() && 0 <= e
            < (#[trigger] m.dependency_groups[g]).entries@.len() ==> value_view(
            (#[trigger] m.dependency_groups[g].entries@[e]).value,
        ) == pinned_value_view(
            pkgs,
            m.dependency_groups[g].entries@[e].name@,
            value_view(m.dependency_groups[g].entries@[e].value),
        )
}

/// Whether some declaration of `m` is not a plain version string.
#[verifier::opaque]
pub open spec fn file_has_non_string(m: PackageManifestFile) -> bool {
    exists|g: int, e: int|
        0 <= g < m.dependency_groups.len() && 0 <= e
            < (#[trigger] m.dependency_groups[g]).entries@.len() && value_view(
            (#[trigger] m.dependency_groups[g].entries@[e]).value,
        ) is None
}

/// The version that a dependency declaration should change to, when it names
/// an internal package and differs from that package's own version.
pub fn needs_modification(
    dependency_name: &str,
    dependency_version: &str,
    index: &MonorepoIndex,
) -> (r: Option<String>)
    requires
        index_wf(index.packages@),
    ensures
        match r {
            Some(v) => name_in(index.packages@, dependency_name@) && v@ == authoritative_version(
                index.packages@,
                dependency_name@,
            ) && v@ != dependency_version@,
            None => !name_in(index.packages@, dependency_name@) || authoritative_version(
                index.packages@,
                dependency_name@,
            ) == dependency_version@,
        },
{
    let ghost pkgs = index.packages@;
    match index.position_of(dependency_name) {
        Some(pos) => {
            proof {
                let w = choose|i: int|
                    0 <= i < pkgs.len() && (#[trigger] pkgs[i]).contents.name@ == dependency_name@;
                if w < pos as int {
                    assert(pkgs[w].contents.name@ != pkgs[pos as int].contents.name@);
                    assert(false);
                }
                if (pos as int) < w {
                    assert(pkgs[pos as int].contents.name@ != pkgs[w].contents.name@);
                    assert(false);
                }
                assert(authoritative_version(pkgs, dependency_name@)
                    == pkgs[pos as int].contents.version@);
            }
            let expected = &index.packages[pos].contents.version;
            if str_eq(expected.as_str(), dependency_version) {
                None
            } else {
                Some(expected.clone())
            }
        },
        None => None,
    }
}

/// The unpinned-dependency report entry for one declaration, if it names an
/// internal package at the wrong version.
pub fn get_unpinned_dependency(
    dependency_name: &str,
    dependency_version: &str,
    index: &MonorepoIndex,
) -> (r: Option<UnpinnedDependency>)
    requires
        index_wf(index.packages@),
    ensures
        match r {
            Some(u) => name_in(index.packages@, dependency_name@) && u.name@ == dependency_name@
                && u.actual@ == dependency_version@ && u.expected@ == authoritative_version(
                index.packages@,
                dependency_name@,
            ) && u.expected@ != dependency_version@,
            None => !name_in(index.packages@, dependency_name@) || authoritative_version(
                index.packages@,
                dependency_name@,
            ) == dependency_version@,
        },
{
    match needs_modification(dependency_name, dependency_version, index) {
        Some(expected) => Some(
            UnpinnedDependency {
                name: dependency_name.to_owned(),
                actual: dependency_version.to_owned(),
                expected,
            },
        ),
        None => None,
    }
}

/// The unpinned declarations among `entries`, in declaration order: each
/// internal dependency declared at a string other than the authoritative
/// version, as (name, actual, expected).
pub open spec fn unpinned_in_entries(
    pkgs: Seq<PackageManifest>,
    entries: Seq<DependencyEntry>,
) -> Seq<(Seq<char>, Seq<char>, Seq<char>)>
    decreases entries.len(),
{
    if entries.len() == 0 {
        Seq::empty()
    } else {
        let rest = unpinned_in_entries(pkgs, entries.drop_last());
        let n = entries.last().name@;
        match value_view(entries.last().value) {
            Some(d) => if name_in(pkgs, n) && authoritative_version(pkgs, n) != d {
                rest.push((n, d, authoritative_version(pkgs, n)))
            } else {
                rest
            },
            None => rest,
        }
    }
}

/// The unpinned declarations of a whole group list, group by group.
pub open spec fn unpinned_in_groups(
    pkgs: Seq<PackageManifest>,
    groups: Seq<DependencyGroup>,
) -> Seq<(Seq<char>, Seq<char>, Seq<char>)>
    decreases groups.len(),
{
    if groups.len() == 0 {
        Seq::empty()
    } else {
        unpinned_in_groups(pkgs, groups.drop_last()) + unpinned_in_entries(
            pkgs,
            groups.last().entries@,
        )
    }
}

/// Whether a rendered report list carries exactly the given unpinned
/// declarations, in order.
#[verifier::opaque]
pub open spec fn report_entries_match(
    es: Seq<UnpinnedDependency>,
    w: Seq<(Seq<char>, Seq<char>, Seq<char>)>,
) -> bool {
    &&& es.len() == w.len()
    &&& forall|m: int|
        0 <= m < es.len() ==> (#[trigger] es[m]).name@ == w[m].0 && es[m].actual@ == w[m].1
            && es[m].expected@ == w[m].2
}

/// The entries of one group, pinned; or the name of the first entry whose
/// declared value is not a plain version string. `changed` reports whether
/// anything differs.
#[verifier::loop_isolation(false)]
fn pin_entries(index: &MonorepoIndex, entries: &Vec<DependencyEntry>) -> (r: Result<
    (Vec<DependencyEntry>, bool),
    String,
>)
    requires
        index_wf(index.packages@),
    ensures
        match r {
            Ok(p) => {
                &&& entries_pinned(index.packages@, entries@, p.0@)
                &&& !p.1 ==> (forall|e: int|
                    0 <= e < entries@.len() ==> value_view((#[trigger] entries@[e]).value)
                        == pinned_value_view(
                        index.packages@,
                        entries@[e].name@,
                        value_view(entries@[e].value),
                    ))
                &&& p.1 ==> !(forall|e: int|
                    0 <= e < entries@.len() ==> value_view((#[trigger] entries@[e]).value)
                        == pinned_value_view(
                        index.packages@,
                        entries@[e].name@,
                        value_view(entries@[e].value),
                    ))
                &&& !(exists|e: int|
                    0 <= e < entries@.len() && value_view((#[trigger] entries@[e]).value) is None)
            },
            Err(n) => exists|e: int|
                0 <= e < entries@.len() && value_view((#[trigger] entries@[e]).value) is None
                    && entries@[e].name@ == n@,
        },
{
    let ghost pkgs = index.packages@;
    let mut out: Vec<DependencyEntry> = Vec::new();
    let mut changed = false;
    let mut e: usize = 0;
    while e < entries.len()
        invariant
            0 <= e <= entries@.len(),
            out@.len() == e,
            forall|k: int|
                0 <= k < e ==> (#[trigger] out@[k]).name@ == (#[trigger] entries@[k]).name@
                    && value_view(out@[k].value) == pinned_value_view(
                    pkgs,
                    entries@[k].name@,
                    value_view(entries@[k].value),
                ),
            forall|k: int| 0 <= k < e ==> !(value_view((#[trigger] entries@[k]).value) is None),
            changed == !(forall|k: int|
                0 <= k < e ==> value_view((#[trigger] entries@[k]).value) == pinned_value_view(
                    pkgs,
                    entries@[k].name@,
                    value_view(entries@[k].value),
                )),
        decreases entries@.len() - e,
    {
        let entry = &entries[e];
        match &entry.value {
            DependencyValue::Version(d) => {
                match needs_modification(entry.name.as_str(), d.as_str(), index) {
                    Some(expected) => {
                        out.push(
                            DependencyEntry {
                                name: entry.name.clone(),
                                value: DependencyValue::Version(expected),
                            },
                        );
                        changed = true;
                    },
                    None => {
                        out.push(
                            DependencyEntry {
                                name: entry.name.clone(),
                                value: DependencyValue::Version(d.clone()),
                            },
                        );
                    },
                }
            },
            DependencyValue::Other => {
                return Err(entry.name.clone());
            },
        }
        e = e + 1;
    }
    Ok((out, changed))
}

/// One manifest file, pinned; or the name of the first dependency whose
/// declared value is not a plain version string.
#[verifier::loop_isolation(false)]
fn pin_manifest_file(index: &MonorepoIndex, m: &PackageManifestFile) -> (r: Result<
    (PackageManifestFile, bool),
    String,
>)
    requires
        index_wf(index.packages@),
    ensures
        match r {
            Ok(p) => {
                &&& file_pinned(index.packages@, *m, p.0)
                &&& p.1 == !file_fully_pinned(index.packages@, *m)
                &&& !file_has_non_string(*m)
            },
            Err(n) => exists|g: int, e: int|
                0 <= g < m.dependency_groups.len() && 0 <= e
                    < (#[trigger] m.dependency_groups[g]).entries@.len() && value_view(
                    (#[trigger] m.dependency_groups[g].entries@[e]).value,
                ) is None && m.dependency_groups[g].entries@[e].name@ == n@,
        },
{
    proof {
        reveal(file_fully_pinned);
        reveal(file_has_non_string);
    }
    let ghost pkgs = index.packages@;
    let mut groups: Vec<DependencyGroup> = Vec::new();
    let mut dirty = false;
    let mut g: usize = 0;
    while g < m.dependency_groups.len()
        invariant
            0 <= g <= m.dependency_groups@.len(),
            groups@.len() == g,
            forall|k: int|
                0 <= k < g ==> (#[trigger] groups@[k]).kind == (
                #[trigger] m.dependency_groups@[k]).kind && entries_pinned(
                    pkgs,
                    m.dependency_groups@[k].entries@,
                    groups@[k].entries@,
                ),
            forall|k: int, e: int|
                0 <= k < g && 0 <= e < (#[trigger] m.dependency_groups@[k]).entries@.len() ==> !(
                value_view((#[trigger] m.dependency_groups@[k].entries@[e]).value) is None),
            dirty == !(forall|k: int, e: int|
                0 <= k < g && 0 <= e < (#[trigger] m.dependency_groups@[k]).entries@.len()
                    ==> value_view((#[trigger] m.dependency_groups@[k].entries@[e]).value)
                    == pinned_value_view(
                    pkgs,
                    m.dependency_groups@[k].entries@[e].name@,
                    value_view(m.dependency_groups@[k].entries@[e].value),
                )),
        decreases m.dependency_groups@.len() - g,
    {
        match pin_entries(index, &m.dependency_groups[g].entries) {
            Ok((entries, changed)) => {
                groups.push(DependencyGroup { kind: m.dependency_groups[g].kind, entries });
                if changed {
                    dirty = true;
                }
            },
            Err(n) => {
                return Err(n);
            },
        }
        g = g + 1;
    }
    let out = PackageManifestFile {
        name: m.name.clone(),
        version: m.version.clone(),
        dependency_groups: groups,
        extra_fields: crate::raw_json::json_map_clone(&m.extra_fields),
    };
    Ok((out, dirty))
}

/// Pins every package's internal dependency declarations: one outcome per
/// package of the index, in index order — `None` where nothing would change,
/// otherwise the manifest to write back, its dependency groups rewritten and
/// every other field untouched. A dependency declared with anything but a
/// plain version string fails the whole run, and nothing is written.
#[verifier::loop_isolation(false)]
pub fn modify(index: &MonorepoIndex) -> (r: Result<Vec<Option<PackageManifest>>, PinError>)
    requires
        index_wf(index.packages@),
    ensures
        match r {
            Ok(ws) => {
                &&& ws@.len() == index.packages@.len()
                &&& forall|i: int|
                    0 <= i < ws@.len() ==> match ws@[i] {
                        Some(m) => m.directory@ == (#[trigger] index.packages@[i]).directory@
                            && file_pinned(index.packages@, index.packages@[i].contents, m.contents)
                            && !file_fully_pinned(index.packages@, index.packages@[i].contents),
                        None => file_fully_pinned(index.packages@, index.packages@[i].contents),
                    }
                &&& forall|i: int|
                    0 <= i < index.packages@.len() ==> !file_has_non_string(
                        (#[trigger] index.packages@[i]).contents,
                    )
            },
            Err(err) => {
                &&& err.kind matches PinErrorKind::NonStringVersionNumber {
                    package_name,
                    dependency_name,
                } && exists|i: int, g: int, e: int|
                    {
                        &&& 0 <= i < index.packages@.len()
                        &&& (#[trigger] index.packages@[i]).contents.name@ == package_name@
                        &&& 0 <= g < index.packages@[i].contents.dependency_groups.len()
                        &&& 0 <= e < (#[trigger] index.packages@[i].contents.dependency_groups[g]).entries@.len()
                        &&& value_view(
                            (#[trigger] index.packages@[i].contents.dependency_groups[g].entries@[e]).value,
                        ) is None
                        &&& index.packages@[i].contents.dependency_groups[g].entries@[e].name@
                            == dependency_name@
                    }
            },
        },
        r is Err <==> exists|i: int|
            0 <= i < index.packages@.len() && file_has_non_string(
                (#[trigger] index.packages@[i]).contents,
            ),
{
    let ghost pkgs = index.packages@;
    let mut ws: Vec<Option<PackageManifest>> = Vec::new();
    let mut i: usize = 0;
    while i < index.packages.len()
        invariant
            0 <= i <= pkgs.len(),
            ws@.len() == i,
            forall|k: int|
                0 <= k < i ==> match ws@[k] {
                    Some(m) => m.directory@ == (#[trigger] pkgs[k]).directory@ && file_pinned(
                        pkgs,
                        pkgs[k].contents,
                        m.contents,
                    ) && !file_fully_pinned(pkgs, pkgs[k].contents),
                    None => file_fully_pinned(pkgs, pkgs[k].contents),
                },
            forall|k: int| 0 <= k < i ==> !file_has_non_string((#[trigger] pkgs[k]).contents),
        decreases pkgs.len() - i,
    {
        let pkg = &index.packages[i];
        match pin_manifest_file(index, &pkg.contents) {
            Ok((file, dirty)) => {
                let ghost old_ws = ws@;
                if dirty {
                    let dir = crate::text::clone_strings(&pkg.directory);
                    ws.push(Some(PackageManifest::new(dir, file)));
                } else {
                    ws.push(None);
                }
                proof {
                    assert(forall|k: int| 0 <= k < i ==> ws@[k] == old_ws[k]);
                }
            },
            Err(n) => {
                proof {
                    reveal(file_has_non_string);
                    assert(file_has_non_string(pkg.contents));
                }
                let name = pkg.contents.name.clone();
                return Err(
                    PinError {
                        kind: PinErrorKind::NonStringVersionNumber {
                            package_name: name,
                            dependency_name: n,
                        },
                    },
                );
            },
        }
        i = i + 1;
    }
    Ok(ws)
}

/// Whether the `k`th report block belongs to package `i`: its path, and
/// exactly that package's unpinned declarations.
#[verifier::opaque]
pub open spec fn report_block_matches(
    pkgs: Seq<PackageManifest>,
    block: UnpinnedPackageDependencies,
    i: int,
) -> bool {
    &&& block.0@ == pkgs[i].spec_path()
    &&& report_entries_match(
        block.1@,
        unpinned_in_groups(pkgs, pkgs[i].contents.dependency_groups@),
    )
}


/// Reports every internal dependency declared at a version other than its
/// package's own: one report block per unpinned package, holding exactly that
/// package's unpinned declarations. A dependency declared with anything but a
/// plain version string fails the run as its own error kind.
#[verifier::loop_isolation(false)]
#[verifier::rlimit(100)]
#[verifier::spinoff_prover]
pub fn lint(index: &MonorepoIndex) -> (r: Result<(), PinLintError>)
    requires
        index_wf(index.packages@),
    ensures
        r is Ok <==> ((forall|i: int|
            0 <= i < index.packages@.len() ==> file_fully_pinned(
                index.packages@,
                (#[trigger] index.packages@[i]).contents,
            )) && (forall|i: int|
            0 <= i < index.packages@.len() ==> !file_has_non_string(
                (#[trigger] index.packages@[i]).contents,
            ))),
        r matches Err(e) ==> (e.kind matches PinLintErrorKind::NonStringVersionNumber { .. } || e.kind
            matches PinLintErrorKind::UnpinnedDependencies(_)),
        r matches Err(e) ==> ((exists|i: int|
            0 <= i < index.packages@.len() && file_has_non_string(
                (#[trigger] index.packages@[i]).contents,
            )) ==> e.kind matches PinLintErrorKind::NonStringVersionNumber { .. }),
        r matches Err(e) ==> (e.kind matches PinLintErrorKind::NonStringVersionNumber {
            package_name,
            dependency_name,
        } ==> exists|i: int|
            0 <= i < index.packages@.len() && (#[trigger] index.packages@[i]).contents.name@
                == package_name@ && file_has_non_string(index.packages@[i].contents)),
        r matches Err(e) ==> (e.kind matches PinLintErrorKind::UnpinnedDependencies(u) ==> u.0@.len()
            > 0),
{
    let ghost pkgs = index.packages@;
    let mut unpinned: Vec<UnpinnedPackageDependencies> = Vec::new();
    // ghost bookkeeping: which package each report block belongs to, and
    // which block (if any) each package got
    let ghost mut owners: Seq<int> = Seq::empty();
    let ghost mut block_at: Seq<Option<int>> = Seq::empty();
    let mut i: usize = 0;
    while i < index.packages.len()
        invariant
            0 <= i <= pkgs.len(),
            owners.len() == unpinned@.len(),
            forall|k: int|
                0 <= k < owners.len() ==> 0 <= #[trigger] owners[k] < i && report_block_matches(
                    pkgs,
                    unpinned@[k],
                    owners[k],
                ) && !file_fully_pinned(pkgs, pkgs[owners[k]].contents),
            block_at.len() == i,
            forall|w: int|
                0 <= w < i ==> match #[trigger] block_at[w] {
                    Some(k) => 0 <= k < unpinned@.len() && report_block_matches(
                        pkgs,
                        unpinned@[k],
                        w,
                    ),
                    None => file_fully_pinned(pkgs, pkgs[w].contents),
                },
            forall|k: int| 0 <= k < i ==> !file_has_non_string((#[trigger] pkgs[k]).contents),
        decreases pkgs.len() - i,
    {
        let pkg = &index.packages[i];
        let ghost old_unpinned = unpinned@;
        let ghost old_owners = owners;
        let ghost old_block_at = block_at;
        match pin_manifest_file(index, &pkg.contents) {
            Ok((_file, dirty)) => {
                if dirty {
                    let deps = unpinned_dependencies_of(index, pkg);
                    let path = pkg.path();
                    unpinned.push(UnpinnedPackageDependencies(path, deps));
                    proof {
                        assert(report_block_matches(pkgs, unpinned@[unpinned@.len() - 1], i as int))
                            by {
                            reveal(report_block_matches);
                        }
                        owners = owners.push(i as int);
                        block_at = block_at.push(Some(old_owners.len() as int));
                        assert(forall|k: int| 0 <= k < old_owners.len() ==> #[trigger] owners[k]
                            == old_owners[k]);
                        assert(forall|k: int|
                            0 <= k < old_unpinned.len() ==> #[trigger] unpinned@[k]
                                == old_unpinned[k]);
                        assert(forall|w: int| 0 <= w < i ==> #[trigger] block_at[w]
                            == old_block_at[w]);
                    }
                } else {
                    proof {
                        block_at = block_at.push(None);
                        assert(forall|w: int| 0 <= w < i ==> #[trigger] block_at[w]
                            == old_block_at[w]);
                    }
                }
            },
            Err(n) => {
                proof {
                    reveal(file_has_non_string);
                    assert(file_has_non_string(pkg.contents));
                }
                let name = pkg.contents.name.clone();
                return Err(
                    PinLintError {
                        kind: PinLintErrorKind::NonStringVersionNumber {
                            package_name: name,
                            dependency_name: n,
                        },
                    },
                );
            },
        }
        i = i + 1;
    }
    proof {
        // the ghost maps carry the witnesses for the report's faithfulness
        assert forall|k: int|
            #![trigger unpinned@[k]]
            0 <= k < unpinned@.len() implies exists|w: int|
            #![trigger report_block_matches(pkgs, unpinned@[k], w)]
            0 <= w < pkgs.len() && report_block_matches(pkgs, unpinned@[k], w)
                && !file_fully_pinned(pkgs, pkgs[w].contents) by {
            assert(0 <= owners[k] < pkgs.len() && report_block_matches(
                pkgs,
                unpinned@[k],
                owners[k],
            ) && !file_fully_pinned(pkgs, pkgs[owners[k]].contents));
        }
        assert forall|w: int|
            #![trigger pkgs[w]]
            0 <= w < pkgs.len() && !file_fully_pinned(pkgs, pkgs[w].contents) implies exists|k: int|
            #![trigger report_block_matches(pkgs, unpinned@[k], w)]
            0 <= k < unpinned@.len() && report_block_matches(pkgs, unpinned@[k], w) by {
            match block_at[w] {
                Some(k) => {
                    assert(0 <= k < unpinned@.len() && report_block_matches(pkgs, unpinned@[k], w));
                },
                None => {
                    assert(false);
                },
            }
        }
    }
    if unpinned.is_empty() {
        proof {
            assert forall|w: int|
                0 <= w < pkgs.len() implies file_fully_pinned(
                pkgs,
                (#[trigger] pkgs[w]).contents,
            ) by {
                match block_at[w] {
                    Some(k) => {
                        assert(0 <= k < unpinned@.len());
                        assert(false);
                    },
                    None => {},
                }
            }
        }
        Ok(())
    } else {
        proof {
            assert(0 <= owners[0] < pkgs.len() && !file_fully_pinned(
                pkgs,
                pkgs[owners[0]].contents,
            ));
        }
        Err(PinLintError { kind: PinLintErrorKind::UnpinnedDependencies(
            UnpinnedMonorepoDependencies(unpinned),
        ) })
    }
}

/// The unpinned declarations of one package, as report entries: exactly
/// `unpinned_in_groups`, in declaration order.
#[verifier::loop_isolation(false)]
fn unpinned_dependencies_of(index: &MonorepoIndex, pkg: &PackageManifest) -> (r: Vec<
    UnpinnedDependency,
>)
    requires
        index_wf(index.packages@),
    ensures
        report_entries_match(
            r@,
            unpinned_in_groups(index.packages@, pkg.contents.dependency_groups@),
        ),
{
    let ghost pkgs = index.packages@;
    let mut out: Vec<UnpinnedDependency> = Vec::new();
    let groups = &pkg.contents.dependency_groups;
    let mut g: usize = 0;
    proof {
        reveal(report_entries_match);
        assert(unpinned_in_groups(pkgs, groups@.take(0)) =~= Seq::<
            (Seq<char>, Seq<char>, Seq<char>),
        >::empty());
    }
    while g < groups.len()
        invariant
            0 <= g <= groups@.len(),
            report_entries_match(out@, unpinned_in_groups(pkgs, groups@.take(g as int))),
        decreases groups@.len() - g,
    {
        let entries = &groups[g].entries;
        let ghost before_group = unpinned_in_groups(pkgs, groups@.take(g as int));
        let mut e: usize = 0;
        proof {
            reveal(report_entries_match);
            assert(unpinned_in_entries(pkgs, entries@.take(0)) =~= Seq::<
                (Seq<char>, Seq<char>, Seq<char>),
            >::empty());
            assert(before_group + unpinned_in_entries(pkgs, entries@.take(0)) =~= before_group);
        }
        while e < entries.len()
            invariant
                0 <= e <= entries@.len(),
                entries@ == groups@[g as int].entries@,
                report_entries_match(
                    out@,
                    before_group + unpinned_in_entries(pkgs, entries@.take(e as int)),
                ),
            decreases entries@.len() - e,
        {
            let ghost prev = unpinned_in_entries(pkgs, entries@.take(e as int));
            match &entries[e].value {
                DependencyValue::Version(d) => {
                    match get_unpinned_dependency(entries[e].name.as_str(), d.as_str(), index) {
                        Some(u) => {
                            out.push(u);
                        },
                        None => {},
                    }
                },
                DependencyValue::Other => {},
            }
            proof {
                reveal(report_entries_match);
                let cur = entries@.take(e as int + 1);
                assert(cur.drop_last() =~= entries@.take(e as int));
                assert(cur.last() == entries@[e as int]);
                assert(report_entries_match(
                    out@,
                    before_group + unpinned_in_entries(pkgs, cur),
                ));
            }
            e = e + 1;
        }
        proof {
            reveal(report_entries_match);
            let cur = groups@.take(g as int + 1);
            assert(cur.drop_last() =~= groups@.take(g as int));
            assert(cur.last() == groups@[g as int]);
            assert(entries@.take(entries@.len() as int) =~= entries@);
            assert(unpinned_in_groups(pkgs, cur) =~= before_group + unpinned_in_entries(
                pkgs,
                entries@,
            ));
        }
        g = g + 1;
    }
    proof {
        reveal(report_entries_match);
        assert(groups@.take(groups@.len() as int) =~= groups@);
    }
    out
}

} // verus!
