//! Data for a package's dependency makefile.
//!
//! The makefile is a projection of the dependency graph: the package's
//! transitive internal dependencies, the manifest files they contribute, and
//! the archives `npm pack` would produce for them. The rendering of the
//! makefile text, and writing it, happen at the caller; everything the
//! template consumes is computed — and specified — here.

use vstd::prelude::*;

use crate::io::FromFileError;
use crate::link::index_of_name;
use crate::monorepo_manifest::index_wf;
use crate::monorepo_manifest::name_in;
use crate::monorepo_manifest::reachable;
use crate::monorepo_manifest::EnumeratePackageManifestsError;
use crate::monorepo_manifest::MonorepoIndex;
use crate::package_manifest::npm_pack_basename_view;
use crate::package_manifest::unscoped_view;
use crate::package_manifest::PackageManifest;
use crate::relative_path::diff_paths;
use crate::relative_path::rel_path_of;
use crate::text::contains_str;
use crate::text::distinct_views;
use crate::text::join_view;
use crate::text::path_view;
use crate::text::strings_sorted;

verus! {

/// Creating the makefile data failed.
#[derive(Debug)]
pub struct MakeDependencyMakefileError {
    pub kind: MakeDependencyMakefileErrorKind,
}

/// Why it failed.
#[derive(Debug)]
pub enum MakeDependencyMakefileErrorKind {
    FromFile(FromFileError),
    EnumeratePackageManifests(EnumeratePackageManifestsError),
}

/// Everything the makefile template consumes. The three lists are aligned
/// with `internal_dependency_names`: the `k`th manifest path, archive pair
/// and archive key all belong to the `k`th dependency.
#[derive(Debug)]
pub struct MakefileData {
    pub root: String,
    pub output_file: String,
    pub package_directory: String,
    pub scoped_package_name: String,
    pub unscoped_package_name: String,
    pub internal_dependency_names: Vec<String>,
    pub internal_dependency_package_json_filenames_inclusive: Vec<String>,
    pub create_pack_target: bool,
    pub npm_pack_archive_dependencies: Vec<(String, String)>,
    pub internal_npm_dependencies_exclusive: Vec<String>,
}

/// The directory the pack archives of internal dependencies are collected in.
pub open spec fn archive_dir_view(pkgs: Seq<PackageManifest>, i: int) -> Seq<Seq<char>> {
    pkgs[i].dir_view().push(".internal-npm-dependencies"@)
}

/// The manifest path of the package named `n`.
pub open spec fn manifest_path_of_name(pkgs: Seq<PackageManifest>, n: Seq<char>) -> Seq<char> {
    pkgs[index_of_name(pkgs, n)].spec_path()
}

/// The pack archive that the dependency named `n` drops into the archive
/// directory of the package at `pi`.
pub open spec fn archive_target_view(pkgs: Seq<PackageManifest>, pi: int, n: Seq<char>) -> Seq<
    char,
> {
    join_view(
        archive_dir_view(pkgs, pi).push(
            npm_pack_basename_view(
                pkgs[index_of_name(pkgs, n)].contents.name@,
                pkgs[index_of_name(pkgs, n)].contents.version@,
            ),
        ),
    )
}

/// The relative path from the archive directory of the package at `pi` back
/// to the sources of the dependency named `n`.
pub open spec fn archive_source_view(pkgs: Seq<PackageManifest>, pi: int, n: Seq<char>) -> Seq<
    char,
> {
    rel_path_of(pkgs[index_of_name(pkgs, n)].dir_view(), archive_dir_view(pkgs, pi))
}

/// Computes the makefile data for the package at `package_directory`: its
/// transitive internal dependencies in strictly increasing name order, the
/// manifest paths they contribute plus the package's own, and for each
/// dependency the pack archive it drops into the package's archive directory
/// together with the relative path back to the dependency's sources.
#[verifier::loop_isolation(false)]
#[verifier::rlimit(60)]
pub fn make_dependency_makefile(
    index: &MonorepoIndex,
    root: &str,
    package_directory: &Vec<String>,
    output_file: &str,
    create_pack_target: bool,
) -> (r: Result<MakefileData, MakeDependencyMakefileError>)
    requires
        index_wf(index.packages@),
    ensures
        r is Ok <==> crate::link::dir_known(index.packages@, path_view(package_directory@)),
        r matches Ok(data) ==> {
            let pkgs = index.packages@;
            let pi = choose|i: int|
                0 <= i < pkgs.len() && (#[trigger] pkgs[i]).dir_view() == path_view(
                    package_directory@,
                );
            let names = data.internal_dependency_names@;
            &&& data.root@ == root@
            &&& data.output_file@ == output_file@
            &&& data.package_directory@ == join_view(path_view(package_directory@))
            &&& data.scoped_package_name@ == pkgs[pi].contents.name@
            &&& data.unscoped_package_name@ == unscoped_view(pkgs[pi].contents.name@)
            &&& data.create_pack_target == create_pack_target
            // the dependency list: exactly the transitive closure, sorted
            &&& strings_sorted(names)
            &&& distinct_views(names)
            &&& forall|n: Seq<char>|
                contains_str(names, n) == (reachable(pkgs, pkgs[pi].contents.name@, n) && name_in(
                    pkgs,
                    n,
                ) && n != pkgs[pi].contents.name@)
            // each dependency's manifest path, then the package's own
            &&& data.internal_dependency_package_json_filenames_inclusive@.len() == names.len() + 1
            &&& forall|k: int|
                0 <= k < names.len() ==> (
                #[trigger] data.internal_dependency_package_json_filenames_inclusive@[k])@
                    == manifest_path_of_name(pkgs, names[k]@)
            &&& data.internal_dependency_package_json_filenames_inclusive@[names.len() as int]@
                == pkgs[pi].spec_path()
            // each dependency's pack archive and the way back to its sources
            &&& data.npm_pack_archive_dependencies@.len() == names.len()
            &&& forall|k: int|
                0 <= k < names.len() ==> (#[trigger] data.npm_pack_archive_dependencies@[k]).0@
                    == archive_target_view(pkgs, pi, names[k]@)
                    && data.npm_pack_archive_dependencies@[k].1@ == archive_source_view(
                    pkgs,
                    pi,
                    names[k]@,
                )
            &&& data.internal_npm_dependencies_exclusive@.len() == names.len()
            &&& forall|k: int|
                0 <= k < names.len() ==> (#[trigger] data.internal_npm_dependencies_exclusive@[k])@
                    == data.npm_pack_archive_dependencies@[k].0@
        },
{
    let ghost pkgs = index.packages@;
    let pos = match index.position_of_directory(package_directory) {
        Some(p) => p,
        None => {
            let path = crate::text::join_path(package_directory);
            return Err(
                MakeDependencyMakefileError {
                    kind: MakeDependencyMakefileErrorKind::FromFile(
                        FromFileError {
                            path,
                            kind: crate::io::FromFileErrorKind::ReadFile(
                                "no package lives in this directory".to_owned(),
                            ),
                        },
                    ),
                },
            );
        },
    };
    let pkg = &index.packages[pos];
    proof {
        let pi = choose|i: int|
            0 <= i < pkgs.len() && (#[trigger] pkgs[i]).dir_view() == path_view(package_directory@);
        if pi < pos as int {
            assert(pkgs[pi].dir_view() != pkgs[pos as int].dir_view());
            assert(false);
        }
        if (pos as int) < pi {
            assert(pkgs[pos as int].dir_view() != pkgs[pi].dir_view());
            assert(false);
        }
    }
    let dependency_names = pkg.transitive_internal_dependency_package_names_exclusive(index);
    let ghost names = dependency_names@;
    // manifest files of every dependency, then the package's own
    let mut manifest_paths: Vec<String> = Vec::new();
    let mut k: usize = 0;
    while k < dependency_names.len()
        invariant
            0 <= k <= names.len(),
            manifest_paths@.len() == k,
            forall|m: int|
                0 <= m < k ==> (#[trigger] manifest_paths@[m])@ == manifest_path_of_name(
                    pkgs,
                    names[m]@,
                ),
        decreases names.len() - k,
    {
        proof {
            assert(contains_str(names, names[k as int]@));
        }
        let dpos = match index.position_of(dependency_names[k].as_str()) {
            Some(p) => p,
            None => {
                proof {
                    assert(false);
                }
                0
            },
        };
        proof {
            lemma_found_position_is_index_of_name(pkgs, names[k as int]@, dpos as int);
        }
        manifest_paths.push(index.packages[dpos].path());
        k = k + 1;
    }
    manifest_paths.push(pkg.path());
    // pack archives: target file in the package's archive directory, and the
    // relative path back to the dependency's sources
    let mut archive_dir = crate::text::clone_strings(&pkg.directory);
    archive_dir.push(".internal-npm-dependencies".to_owned());
    proof {
        reveal_strlit(".internal-npm-dependencies");
        assert(crate::text::valid_path_component(".internal-npm-dependencies"@)) by {
            if ".internal-npm-dependencies"@.contains('/') {
                let w = choose|w: int|
                    0 <= w < ".internal-npm-dependencies"@.len()
                        && ".internal-npm-dependencies"@[w] == '/';
                assert(false);
            }
            assert(".internal-npm-dependencies"@ != seq!['.']);
            assert(".internal-npm-dependencies"@ != seq!['.', '.']) by {
                assert(".internal-npm-dependencies"@.len() != 2);
            }
        }
        assert(forall|i: int|
            0 <= i < archive_dir@.len() ==> crate::text::valid_path_component(
                #[trigger] archive_dir@[i]@,
            ));
        assert(path_view(archive_dir@) =~= archive_dir_view(pkgs, pos as int));
    }
    let mut archives: Vec<(String, String)> = Vec::new();
    let mut keys: Vec<String> = Vec::new();
    let mut k: usize = 0;
    while k < dependency_names.len()
        invariant
            0 <= k <= names.len(),
            archives@.len() == k,
            keys@.len() == k,
            path_view(archive_dir@) == archive_dir_view(pkgs, pos as int),
            forall|i: int|
                0 <= i < archive_dir@.len() ==> crate::text::valid_path_component(
                    #[trigger] archive_dir@[i]@,
                ),
            forall|m: int|
                0 <= m < k ==> (#[trigger] archives@[m]).0@ == archive_target_view(
                    pkgs,
                    pos as int,
                    names[m]@,
                ) && archives@[m].1@ == archive_source_view(pkgs, pos as int, names[m]@),
            forall|m: int| 0 <= m < k ==> (#[trigger] keys@[m])@ == archives@[m].0@,
        decreases names.len() - k,
    {
        proof {
            assert(contains_str(names, names[k as int]@));
        }
        let dpos = match index.position_of(dependency_names[k].as_str()) {
            Some(p) => p,
            None => {
                proof {
                    assert(false);
                }
                0
            },
        };
        proof {
            lemma_found_position_is_index_of_name(pkgs, names[k as int]@, dpos as int);
        }
        let dep = &index.packages[dpos];
        let mut target_components = crate::text::clone_strings(&archive_dir);
        let basename = dep.npm_pack_file_basename();
        target_components.push(basename);
        proof {
            assert(path_view(target_components@) =~= archive_dir_view(pkgs, pos as int).push(
                npm_pack_basename_view(
                    pkgs[dpos as int].contents.name@,
                    pkgs[dpos as int].contents.version@,
                ),
            ));
        }
        let target = crate::text::join_path(&target_components);
        let source = match diff_paths(dep.directory(), &archive_dir) {
            Some(s) => s,
            None => {
                proof {
                    assert(crate::package_manifest::manifest_wf(pkgs[dpos as int]));
                    assert(false);
                }
                String::new()
            },
        };
        proof {
            assert(path_view(dep.directory@) == pkgs[dpos as int].dir_view());
            assert(source@ == archive_source_view(pkgs, pos as int, names[k as int]@));
            assert(target@ == archive_target_view(pkgs, pos as int, names[k as int]@));
        }
        keys.push(target.clone());
        archives.push((target, source));
        k = k + 1;
    }
    let data = MakefileData {
        root: root.to_owned(),
        output_file: output_file.to_owned(),
        package_directory: crate::text::join_path(package_directory),
        scoped_package_name: pkg.contents.name.clone(),
        unscoped_package_name: pkg.unscoped_package_name().to_owned(),
        internal_dependency_names: dependency_names,
        internal_dependency_package_json_filenames_inclusive: manifest_paths,
        create_pack_target,
        npm_pack_archive_dependencies: archives,
        internal_npm_dependencies_exclusive: keys,
    };
    proof {
        let pi = choose|i: int|
            0 <= i < pkgs.len() && (#[trigger] pkgs[i]).dir_view() == path_view(package_directory@);
        assert(pi == pos as int);
        assert(data.internal_dependency_package_json_filenames_inclusive@[names.len() as int]@
            == pkgs[pos as int].spec_path());
    }
    Ok(data)
}

/// A position found by name is the position the `index_of_name` choice picks:
/// names are unique in a well-formed index.
proof fn lemma_found_position_is_index_of_name(
    pkgs: Seq<PackageManifest>,
    n: Seq<char>,
    pos: int,
)
    requires
        index_wf(pkgs),
        0 <= pos < pkgs.len(),
        pkgs[pos].contents.name@ == n,
    ensures
        index_of_name(pkgs, n) == pos,
{
    let i = index_of_name(pkgs, n);
    assert(0 <= i < pkgs.len() && pkgs[i].contents.name@ == n);
    if i < pos {
        assert(pkgs[i].contents.name@ != pkgs[pos].contents.name@);
        assert(false);
    }
    if pos < i {
        assert(pkgs[pos].contents.name@ != pkgs[i].contents.name@);
        assert(false);
    }
}

} // verus!
