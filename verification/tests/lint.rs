use typescript_tools::lint;
use typescript_tools::monorepo_manifest::MonorepoIndex;
use typescript_tools::package_manifest::DependencyEntry;
use typescript_tools::package_manifest::DependencyGroup;
use typescript_tools::package_manifest::DependencyGroupKind;
use typescript_tools::package_manifest::DependencyValue;
use typescript_tools::package_manifest::PackageManifest;
use typescript_tools::package_manifest::PackageManifestFile;

fn lint_package(dir: &[&str], name: &str, version: &str, deps: &[(&str, &str)]) -> PackageManifest {
    let entries: Vec<DependencyEntry> = deps
        .iter()
        .map(|(n, v)| DependencyEntry {
            name: (*n).to_string(),
            value: DependencyValue::Version((*v).to_string()),
        })
        .collect();
    let dependency_groups = if entries.is_empty() {
        Vec::new()
    } else {
        vec![DependencyGroup { kind: DependencyGroupKind::Dependencies, entries }]
    };
    PackageManifest::new(
        dir.iter().map(|s| (*s).to_string()).collect(),
        PackageManifestFile {
            name: name.to_string(),
            version: version.to_string(),
            dependency_groups,
            extra_fields: serde_json::Map::new(),
        },
    )
}

#[test]
fn lint_happy_path_should_not_error() {
    let index = MonorepoIndex::new(vec![
        lint_package(&["packages", "a"], "a", "1.0.0", &[("external", "2.0.0")]),
        lint_package(&["packages", "b"], "b", "1.0.0", &[("external", "2.0.0")]),
    ])
    .unwrap();
    assert!(lint::lint_dependency_version(&index, &vec!["external".to_string()]).is_ok());
}

#[test]
fn lint_should_error_when_multiple_version_of_an_external_dependency_are_used() {
    let index = MonorepoIndex::new(vec![
        lint_package(&["packages", "a"], "a", "1.0.0", &[("@typescript-tools/external", "2.0.0")]),
        lint_package(&["packages", "b"], "b", "1.0.0", &[("@typescript-tools/external", "3.0.0")]),
    ])
    .unwrap();
    assert!(
        lint::lint_dependency_version(&index, &vec!["@typescript-tools/external".to_string()])
            .is_err()
    );
}

#[test]
fn most_common_version_wins_and_outliers_are_reported() {
    // three packages declare lodash at 4.0.0, 4.0.0 and 3.9.0: the expected
    // version is 4.0.0 and exactly the third package is a violation
    let index = MonorepoIndex::new(vec![
        lint_package(&["packages", "a"], "a", "1.0.0", &[("lodash", "4.0.0")]),
        lint_package(&["packages", "b"], "b", "1.0.0", &[("lodash", "4.0.0")]),
        lint_package(&["packages", "c"], "c", "1.0.0", &[("lodash", "3.9.0")]),
    ])
    .unwrap();
    let groups = lint::package_paths_by_dependency_version(&index, "lodash");
    let expected = lint::most_common_dependency_version(&groups).unwrap();
    assert_eq!(expected, "4.0.0");
    let violations = lint::dependency_version_violations(&index, "lodash", expected.as_str());
    assert_eq!(violations.len(), 1);
    assert_eq!(violations[0].0, "packages/c/package.json");
    assert_eq!(violations[0].1, "3.9.0");
    assert!(lint::lint_dependency_version(&index, &vec!["lodash".to_string()]).is_err());
}

#[test]
fn dependency_used_nowhere_is_consistent() {
    let index = MonorepoIndex::new(vec![lint_package(&["packages", "a"], "a", "1.0.0", &[])])
        .unwrap();
    assert!(lint::lint_dependency_version(&index, &vec!["ghost".to_string()]).is_ok());
}
