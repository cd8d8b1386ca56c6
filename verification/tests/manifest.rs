use typescript_tools::dependencies;
use typescript_tools::lint_lerna_manifest::lint_lerna_manifest;
use typescript_tools::lint_lerna_manifest::LernaManifestLintError;
use typescript_tools::make_depend;
use typescript_tools::monorepo_manifest::EnumeratePackageManifestsError;
use typescript_tools::monorepo_manifest::MonorepoIndex;
use typescript_tools::monorepo_manifest::MonorepoManifest;
use typescript_tools::package_manifest::DependencyEntry;
use typescript_tools::package_manifest::DependencyGroup;
use typescript_tools::package_manifest::DependencyGroupKind;
use typescript_tools::package_manifest::DependencyValue;
use typescript_tools::package_manifest::PackageManifest;
use typescript_tools::package_manifest::PackageManifestFile;

fn manifest_package(dir: &[&str], name: &str, deps: &[(&str, &str)]) -> PackageManifest {
    let entries: Vec<DependencyEntry> = deps
        .iter()
        .map(|(n, v)| DependencyEntry {
            name: (*n).to_string(),
            value: DependencyValue::Version((*v).to_string()),
        })
        .collect();
    let dependency_groups = if entries.is_empty() {
        Vec::new()
    } else {
        vec![DependencyGroup { kind: DependencyGroupKind::Dependencies, entries }]
    };
    PackageManifest::new(
        dir.iter().map(|s| (*s).to_string()).collect(),
        PackageManifestFile {
            name: name.to_string(),
            version: "1.0.0".to_string(),
            dependency_groups,
            extra_fields: serde_json::Map::new(),
        },
    )
}

#[test]
fn npm_pack_file_basename_strips_scope() {
    let pkg = manifest_package(&["packages", "a"], "@myscope/a-cool-package", &[]);
    assert_eq!(pkg.npm_pack_file_basename(), "myscope-a-cool-package-1.0.0.tgz");
    assert_eq!(pkg.unscoped_package_name(), "a-cool-package");
    let plain = manifest_package(&["packages", "b"], "plain", &[]);
    assert_eq!(plain.npm_pack_file_basename(), "plain-1.0.0.tgz");
    assert_eq!(plain.unscoped_package_name(), "plain");
}

#[test]
fn get_dependency_version_searches_groups_in_order() {
    let pkg = manifest_package(&["packages", "a"], "a", &[("x", "1.2.3")]);
    assert_eq!(pkg.get_dependency_version("x").unwrap(), "1.2.3");
    assert!(pkg.get_dependency_version("missing").is_none());
}

#[test]
fn duplicate_package_names_are_rejected() {
    let err = MonorepoIndex::new(vec![
        manifest_package(&["packages", "a"], "same", &[]),
        manifest_package(&["packages", "b"], "same", &[]),
    ])
    .unwrap_err();
    assert!(matches!(
        err,
        EnumeratePackageManifestsError::DuplicatePackageName(n) if n == "same"
    ));
}

#[test]
fn duplicate_package_directories_are_rejected() {
    let err = MonorepoIndex::new(vec![
        manifest_package(&["packages", "shared"], "a", &[]),
        manifest_package(&["packages", "shared"], "b", &[]),
    ])
    .unwrap_err();
    assert!(matches!(
        err,
        EnumeratePackageManifestsError::DuplicatePackageDirectory(d) if d == "packages/shared"
    ));
}

#[test]
fn package_in_monorepo_root_is_rejected() {
    let err = MonorepoIndex::new(vec![manifest_package(&[], "root-package", &[])]).unwrap_err();
    assert!(matches!(err, EnumeratePackageManifestsError::ManifestInvalid(_)));
}

#[test]
fn workspace_list_file_wins_over_generic_manifest() {
    let m = MonorepoManifest::from_directory(
        "the-root".to_string(),
        Some(vec!["packages/*".to_string()]),
        Some(vec!["other/*".to_string()]),
    )
    .unwrap();
    assert_eq!(m.root, "the-root");
    assert_eq!(m.globs, vec!["packages/*".to_string()]);
    assert!(MonorepoManifest::from_directory("r".to_string(), None, None).is_none());
}

#[test]
fn relative_path_from_monorepo_root_strips_root_and_basename() {
    let r = dependencies::relative_path_from_monorepo_root("root", "root/packages/a/package.json");
    assert_eq!(r.unwrap(), "packages/a");
    assert!(dependencies::relative_path_from_monorepo_root("root", "elsewhere/x/package.json")
        .is_err());
    assert!(dependencies::relative_path_from_monorepo_root("root", "root/package.json").is_err());
}

#[test]
fn lerna_manifest_lint_reports_asymmetries() {
    let lerna = vec!["@bitgo/a".to_string(), "@bitgo/gone".to_string()];
    let discovered = vec!["@bitgo/a".to_string(), "@bitgo/new".to_string(), "other".to_string()];
    let err = lint_lerna_manifest(&lerna, &discovered).unwrap_err();
    let LernaManifestLintError::DifferentManifestEntries(entries) = err;
    assert_eq!(entries.len(), 2);
    assert!(entries.iter().any(|e| e.key == "@bitgo/gone" && e.in_lerna_manifest));
    assert!(entries.iter().any(|e| e.key == "@bitgo/new" && !e.in_lerna_manifest));

    let balanced = lint_lerna_manifest(
        &vec!["@bitgo/a".to_string()],
        &vec!["@bitgo/a".to_string(), "other".to_string()],
    );
    assert!(balanced.is_ok());
}

#[test]
fn makefile_data_collects_dependency_artifacts() {
    let index = MonorepoIndex::new(vec![
        manifest_package(&["packages", "a"], "a", &[("b", "1.0.0")]),
        manifest_package(&["packages", "b"], "b", &[]),
    ])
    .unwrap();
    let data = make_depend::make_dependency_makefile(
        &index,
        ".",
        &vec!["packages".to_string(), "a".to_string()],
        "depend.mk",
        true,
    )
    .unwrap();
    assert_eq!(data.package_directory, "packages/a");
    assert_eq!(data.scoped_package_name, "a");
    assert_eq!(data.unscoped_package_name, "a");
    assert!(data.create_pack_target);
    assert_eq!(
        data.internal_dependency_package_json_filenames_inclusive,
        vec!["packages/b/package.json".to_string(), "packages/a/package.json".to_string()]
    );
    assert_eq!(data.npm_pack_archive_dependencies.len(), 1);
    let (target, source) = &data.npm_pack_archive_dependencies[0];
    assert_eq!(target, "packages/a/.internal-npm-dependencies/b-1.0.0.tgz");
    assert_eq!(source, "../../b");
    assert_eq!(data.internal_npm_dependencies_exclusive, vec![target.clone()]);

    let missing = make_depend::make_dependency_makefile(
        &index,
        ".",
        &vec!["nowhere".to_string()],
        "depend.mk",
        false,
    );
    assert!(missing.is_err());
}
