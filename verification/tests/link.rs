use typescript_tools::link;
use typescript_tools::monorepo_manifest::MonorepoIndex;
use typescript_tools::package_manifest::DependencyEntry;
use typescript_tools::package_manifest::DependencyGroup;
use typescript_tools::package_manifest::DependencyGroupKind;
use typescript_tools::package_manifest::DependencyValue;
use typescript_tools::package_manifest::PackageManifest;
use typescript_tools::package_manifest::PackageManifestFile;
use typescript_tools::typescript_config::TypescriptConfig;
use typescript_tools::typescript_config::TypescriptParentProjectReference;
use typescript_tools::typescript_config::TypescriptParentProjectReferenceFile;
use typescript_tools::typescript_config::TypescriptProjectReference;

fn link_package(dir: &[&str], name: &str, version: &str, deps: &[(&str, &str)]) -> PackageManifest {
    let entries: Vec<DependencyEntry> = deps
        .iter()
        .map(|(n, v)| DependencyEntry {
            name: (*n).to_string(),
            value: DependencyValue::Version((*v).to_string()),
        })
        .collect();
    let dependency_groups = if entries.is_empty() {
        Vec::new()
    } else {
        vec![DependencyGroup { kind: DependencyGroupKind::Dependencies, entries }]
    };
    PackageManifest::new(
        dir.iter().map(|s| (*s).to_string()).collect(),
        PackageManifestFile {
            name: name.to_string(),
            version: version.to_string(),
            dependency_groups,
            extra_fields: serde_json::Map::new(),
        },
    )
}

fn refs(paths: &[&str]) -> Vec<TypescriptProjectReference> {
    paths
        .iter()
        .map(|p| TypescriptProjectReference { path: (*p).to_string() })
        .collect()
}

fn parent(dir: &[&str], references: &[&str]) -> TypescriptParentProjectReference {
    TypescriptParentProjectReference {
        directory: dir.iter().map(|s| (*s).to_string()).collect(),
        contents: TypescriptParentProjectReferenceFile { files: Vec::new(), references: refs(references) },
    }
}

fn config(dir: &[&str], references: Option<&[&str]>) -> TypescriptConfig {
    TypescriptConfig {
        directory: dir.iter().map(|s| (*s).to_string()).collect(),
        references: references.map(refs),
    }
}

fn happy_index() -> MonorepoIndex {
    MonorepoIndex::new(vec![
        link_package(&["packages", "a"], "a", "1.0.0", &[]),
        link_package(&["packages", "b"], "b", "1.0.0", &[("a", "1.0.0")]),
    ])
    .unwrap()
}

#[test]
fn link_happy_path_should_not_error() {
    let index = happy_index();
    let parents = vec![parent(&[], &["packages"]), parent(&["packages"], &["a", "b"])];
    let configs = vec![
        config(&["packages", "a"], None),
        config(&["packages", "b"], Some(&["../a"])),
    ];
    assert!(link::lint(&index, &parents, &configs).is_ok());
}

#[test]
fn link_should_detect_missing_project_references() {
    let index = happy_index();
    let parents = vec![parent(&[], &[]), parent(&["packages"], &["a", "b"])];
    let configs = vec![
        config(&["packages", "a"], None),
        config(&["packages", "b"], Some(&["../a"])),
    ];
    let err = link::lint(&index, &parents, &configs).unwrap_err();
    match err.kind {
        typescript_tools::link::LinkLintErrorKind::ProjectReferencesOutOfDate(all) => {
            assert!(!all.is_empty());
        },
        _ => panic!("expected an out-of-date project references report"),
    }
}

#[test]
fn link_should_correct_incorrect_project_references() {
    let index = happy_index();
    let parents = vec![parent(&[], &["stale"]), parent(&["packages"], &["b", "a"])];
    let configs = vec![
        config(&["packages", "a"], Some(&["../b"])),
        config(&["packages", "b"], None),
    ];
    assert!(link::lint(&index, &parents, &configs).is_err());

    let writes = link::modify(&index, &parents, &configs);
    let repaired_parents: Vec<TypescriptParentProjectReference> = parents
        .into_iter()
        .zip(writes.parents.into_iter())
        .map(|(old, w)| w.unwrap_or(old))
        .collect();
    let repaired_configs: Vec<TypescriptConfig> = configs
        .into_iter()
        .zip(writes.packages.into_iter())
        .map(|(old, w)| w.unwrap_or(old))
        .collect();

    assert!(link::lint(&index, &repaired_parents, &repaired_configs).is_ok());
}

#[test]
fn parent_reference_files_are_sorted_and_deduplicated() {
    // two packages under pkg/, discovered in either order, give the parent
    // reference file at pkg/ exactly ["a", "b"]
    let one = MonorepoIndex::new(vec![
        link_package(&["pkg", "a"], "a", "1.0.0", &[]),
        link_package(&["pkg", "b"], "b", "1.0.0", &[]),
    ])
    .unwrap();
    let other = MonorepoIndex::new(vec![
        link_package(&["pkg", "b"], "b", "1.0.0", &[]),
        link_package(&["pkg", "a"], "a", "1.0.0", &[]),
    ])
    .unwrap();
    for index in [one, other] {
        let out_of_date = link::parent_out_of_date(&index, &parent(&["pkg"], &[])).unwrap();
        let paths: Vec<String> = out_of_date
            .desired_references
            .iter()
            .map(|r| r.path.clone())
            .collect();
        assert_eq!(paths, vec!["a".to_string(), "b".to_string()]);
    }
}

#[test]
fn package_references_use_relative_paths() {
    let index = happy_index();
    let configs = vec![config(&["packages", "b"], None)];
    let writes = link::link_package_dependencies(&index, &configs);
    assert_eq!(writes.len(), 1);
    let write = writes[0].as_ref().unwrap();
    let paths: Vec<String> = write
        .references
        .as_ref()
        .unwrap()
        .iter()
        .map(|r| r.path.clone())
        .collect();
    assert_eq!(paths, vec!["../a".to_string()]);
}

#[test]
fn modify_twice_is_a_no_op() {
    let index = happy_index();
    let parents = vec![parent(&[], &[]), parent(&["packages"], &[])];
    let configs = vec![
        config(&["packages", "a"], Some(&["bogus"])),
        config(&["packages", "b"], None),
    ];
    let writes = link::modify(&index, &parents, &configs);
    let parents2: Vec<TypescriptParentProjectReference> = parents
        .into_iter()
        .zip(writes.parents.into_iter())
        .map(|(old, w)| w.unwrap_or(old))
        .collect();
    let configs2: Vec<TypescriptConfig> = configs
        .into_iter()
        .zip(writes.packages.into_iter())
        .map(|(old, w)| w.unwrap_or(old))
        .collect();
    let again = link::modify(&index, &parents2, &configs2);
    assert!(again.parents.iter().all(|w| w.is_none()));
    assert!(again.packages.iter().all(|w| w.is_none()));
}
