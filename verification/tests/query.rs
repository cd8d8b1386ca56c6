use typescript_tools::monorepo_manifest::MonorepoIndex;
use typescript_tools::package_manifest::DependencyEntry;
use typescript_tools::package_manifest::DependencyGroup;
use typescript_tools::package_manifest::DependencyGroupKind;
use typescript_tools::package_manifest::DependencyValue;
use typescript_tools::package_manifest::PackageManifest;
use typescript_tools::package_manifest::PackageManifestFile;
use typescript_tools::query;
use typescript_tools::query::InternalDependenciesFormat;

fn query_package(dir: &[&str], name: &str, deps: &[&str]) -> PackageManifest {
    let entries: Vec<DependencyEntry> = deps
        .iter()
        .map(|n| DependencyEntry {
            name: (*n).to_string(),
            value: DependencyValue::Version("1.0.0".to_string()),
        })
        .collect();
    let dependency_groups = if entries.is_empty() {
        Vec::new()
    } else {
        vec![DependencyGroup { kind: DependencyGroupKind::Dependencies, entries }]
    };
    PackageManifest::new(
        dir.iter().map(|s| (*s).to_string()).collect(),
        PackageManifestFile {
            name: name.to_string(),
            version: "1.0.0".to_string(),
            dependency_groups,
            extra_fields: serde_json::Map::new(),
        },
    )
}

fn chain_index() -> MonorepoIndex {
    MonorepoIndex::new(vec![
        query_package(&["packages", "a"], "a", &["b"]),
        query_package(&["packages", "b"], "b", &["c"]),
        query_package(&["packages", "c"], "c", &[]),
    ])
    .unwrap()
}

#[test]
fn query_happy_path_with_format_name() {
    let r = query::query_internal_dependencies(&chain_index(), InternalDependenciesFormat::Name);
    assert_eq!(r.len(), 3);
    assert_eq!(r[0].0, "a");
    assert_eq!(r[0].1, vec!["b".to_string(), "c".to_string()]);
    assert_eq!(r[1].0, "b");
    assert_eq!(r[1].1, vec!["c".to_string()]);
    assert_eq!(r[2].0, "c");
    assert!(r[2].1.is_empty());
}

#[test]
fn query_happy_path_with_format_path() {
    let r = query::query_internal_dependencies(&chain_index(), InternalDependenciesFormat::Path);
    assert_eq!(r.len(), 3);
    assert_eq!(r[0].0, "packages/a");
    assert_eq!(r[0].1, vec!["packages/b".to_string(), "packages/c".to_string()]);
    assert_eq!(r[1].0, "packages/b");
    assert_eq!(r[1].1, vec!["packages/c".to_string()]);
    assert_eq!(r[2].0, "packages/c");
    assert!(r[2].1.is_empty());
}

#[test]
fn transitive_dependencies_follow_chains() {
    // a depends on b, b depends on c: the closure of a is {b, c}
    let index = chain_index();
    let deps = index.transitive_internal_dependencies("a", false);
    assert_eq!(deps, vec!["b".to_string(), "c".to_string()]);
}

#[test]
fn transitive_dependencies_terminate_on_cycles() {
    // a and b depend on each other: the walk terminates, and the exclusive
    // closure of a is just {b}
    let index = MonorepoIndex::new(vec![
        query_package(&["packages", "a"], "a", &["b"]),
        query_package(&["packages", "b"], "b", &["a"]),
    ])
    .unwrap();
    let deps = index.transitive_internal_dependencies("a", false);
    assert_eq!(deps, vec!["b".to_string()]);
    let inclusive = index.transitive_internal_dependencies("a", true);
    assert_eq!(inclusive, vec!["a".to_string(), "b".to_string()]);
}

#[test]
fn external_names_are_not_dependencies() {
    let index = MonorepoIndex::new(vec![query_package(&["packages", "a"], "a", &["lodash"])])
        .unwrap();
    let deps = index.transitive_internal_dependencies("a", false);
    assert!(deps.is_empty());
}
