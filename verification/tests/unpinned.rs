use typescript_tools::unpinned_dependencies::UnpinnedDependency;
use typescript_tools::unpinned_dependencies::UnpinnedMonorepoDependencies;
use typescript_tools::unpinned_dependencies::UnpinnedPackageDependencies;

#[test]
fn should_display_all_data() {
    let unpinned = UnpinnedMonorepoDependencies(vec![UnpinnedPackageDependencies(
        String::from("packages/a/package.json"),
        vec![
            UnpinnedDependency {
                name: "one".into(),
                actual: "0.0.0".into(),
                expected: "2.0.0".into(),
            },
            UnpinnedDependency {
                name: "two".into(),
                actual: "0.0.0".into(),
                expected: "2.0.0".into(),
            },
        ],
    )]);

    let expected = r#"
File contains unpinned dependency versions: "packages/a/package.json"
	dependency: one	expected: 2.0.0	got: 0.0.0
	dependency: two	expected: 2.0.0	got: 0.0.0
"#
    .trim_start();
    let actual = unpinned.render();
    assert_eq!(expected, actual);
}

#[test]
fn render_of_empty_report_is_empty() {
    let unpinned = UnpinnedMonorepoDependencies(Vec::new());
    assert!(unpinned.is_empty());
    assert_eq!(unpinned.render(), "");
}
