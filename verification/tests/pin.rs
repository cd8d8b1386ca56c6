use typescript_tools::monorepo_manifest::MonorepoIndex;
use typescript_tools::package_manifest::DependencyEntry;
use typescript_tools::package_manifest::DependencyGroup;
use typescript_tools::package_manifest::DependencyGroupKind;
use typescript_tools::package_manifest::DependencyValue;
use typescript_tools::package_manifest::PackageManifest;
use typescript_tools::package_manifest::PackageManifestFile;
use typescript_tools::pin;
use typescript_tools::pin::PinErrorKind;
use typescript_tools::pin::PinLintErrorKind;

fn pin_package(
    dir: &[&str],
    name: &str,
    version: &str,
    deps: &[(&str, &str)],
    extra: serde_json::Map<String, serde_json::Value>,
) -> PackageManifest {
    let entries: Vec<DependencyEntry> = deps
        .iter()
        .map(|(n, v)| DependencyEntry {
            name: (*n).to_string(),
            value: DependencyValue::Version((*v).to_string()),
        })
        .collect();
    let dependency_groups = if entries.is_empty() {
        Vec::new()
    } else {
        vec![DependencyGroup { kind: DependencyGroupKind::Dependencies, entries }]
    };
    PackageManifest::new(
        dir.iter().map(|s| (*s).to_string()).collect(),
        PackageManifestFile {
            name: name.to_string(),
            version: version.to_string(),
            dependency_groups,
            extra_fields: extra,
        },
    )
}

#[test]
fn pin_happy_path_should_not_error() {
    let index = MonorepoIndex::new(vec![
        pin_package(&["packages", "a"], "a", "1.0.0", &[], serde_json::Map::new()),
        pin_package(&["packages", "b"], "b", "2.0.0", &[("a", "1.0.0")], serde_json::Map::new()),
    ])
    .unwrap();
    let writes = pin::modify(&index).unwrap();
    assert!(writes.iter().all(|w| w.is_none()));
}

#[test]
fn pin_should_detect_unpinned_internal_dependency() {
    let index = MonorepoIndex::new(vec![
        pin_package(&["packages", "x"], "x", "1.0.0", &[], serde_json::Map::new()),
        pin_package(&["packages", "y"], "y", "2.0.0", &[("x", "0.9.0")], serde_json::Map::new()),
    ])
    .unwrap();
    assert!(pin::lint(&index).is_err());
}

#[test]
fn pin_should_correct_unpinned_internal_dependency() {
    let index = MonorepoIndex::new(vec![
        pin_package(&["packages", "x"], "x", "1.0.0", &[], serde_json::Map::new()),
        pin_package(&["packages", "y"], "y", "2.0.0", &[("x", "0.9.0")], serde_json::Map::new()),
    ])
    .unwrap();
    assert!(pin::lint(&index).is_err());

    let writes = pin::modify(&index).unwrap();
    let repaired: Vec<PackageManifest> = index
        .packages
        .into_iter()
        .zip(writes.into_iter())
        .map(|(old, w)| w.unwrap_or(old))
        .collect();
    let repaired_index = MonorepoIndex::new(repaired).unwrap();

    assert!(pin::lint(&repaired_index).is_ok());
}

#[test]
fn pin_rewrites_only_the_dependency_groups() {
    // package y declares x at 0.9.0 while x itself is at 1.0.0: pinning
    // rewrites that one declaration and leaves every other field of y's
    // manifest identical
    let mut extra = serde_json::Map::new();
    extra.insert("description".to_string(), serde_json::Value::String("a package".to_string()));
    extra.insert("license".to_string(), serde_json::Value::String("MIT".to_string()));
    let index = MonorepoIndex::new(vec![
        pin_package(&["packages", "x"], "x", "1.0.0", &[], serde_json::Map::new()),
        pin_package(&["packages", "y"], "y", "2.0.0", &[("x", "0.9.0"), ("lodash", "4.0.0")], extra.clone()),
    ])
    .unwrap();
    let writes = pin::modify(&index).unwrap();
    assert!(writes[0].is_none());
    let y_write = writes[1].as_ref().unwrap();
    assert_eq!(y_write.contents.name, "y");
    assert_eq!(y_write.contents.version, "2.0.0");
    assert_eq!(y_write.contents.extra_fields, extra);
    let group = &y_write.contents.dependency_groups[0];
    assert_eq!(group.entries.len(), 2);
    assert_eq!(group.entries[0].name, "x");
    assert!(matches!(&group.entries[0].value, DependencyValue::Version(v) if v == "1.0.0"));
    assert_eq!(group.entries[1].name, "lodash");
    assert!(matches!(&group.entries[1].value, DependencyValue::Version(v) if v == "4.0.0"));
}

#[test]
fn non_string_version_is_rejected_by_modify() {
    let bad = PackageManifest::new(
        vec!["packages".to_string(), "bad".to_string()],
        PackageManifestFile {
            name: "bad".to_string(),
            version: "1.0.0".to_string(),
            dependency_groups: vec![DependencyGroup {
                kind: DependencyGroupKind::Dependencies,
                entries: vec![DependencyEntry {
                    name: "weird".to_string(),
                    value: DependencyValue::Other,
                }],
            }],
            extra_fields: serde_json::Map::new(),
        },
    );
    let index = MonorepoIndex::new(vec![bad]).unwrap();
    let err = pin::modify(&index).unwrap_err();
    match err.kind {
        PinErrorKind::NonStringVersionNumber { package_name, dependency_name } => {
            assert_eq!(package_name, "bad");
            assert_eq!(dependency_name, "weird");
        },
        _ => panic!("expected a non-string version error"),
    }
}

#[test]
fn non_string_version_is_rejected_by_lint() {
    let bad = PackageManifest::new(
        vec!["packages".to_string(), "bad".to_string()],
        PackageManifestFile {
            name: "bad".to_string(),
            version: "1.0.0".to_string(),
            dependency_groups: vec![DependencyGroup {
                kind: DependencyGroupKind::Dependencies,
                entries: vec![DependencyEntry {
                    name: "weird".to_string(),
                    value: DependencyValue::Other,
                }],
            }],
            extra_fields: serde_json::Map::new(),
        },
    );
    let index = MonorepoIndex::new(vec![bad]).unwrap();
    let err = pin::lint(&index).unwrap_err();
    assert!(matches!(
        err.kind,
        PinLintErrorKind::NonStringVersionNumber { .. }
    ));
}
