use nomosize::aggregate::{collect_versions, PackageWithAllVersions};
use nomosize::discover::{classify, traverse, EntryKind, ScanFailure};
use nomosize::package::{get_package_info, read_manifest, MetadataError, Package};
use nomosize::rank::{merged_disk_usage, sort_by_rank, total_disk_usage, SortOrder};
use nomosize::tree::{calc_disk_usage, DirNode, ManifestSource};

fn manifest(name: &str, version: &str) -> ManifestSource {
    ManifestSource::Parsed { name: Some(name.to_string()), version: Some(version.to_string()) }
}

fn dir(name: &str, path: &str, files: Vec<u64>, manifest: ManifestSource, children: Vec<DirNode>) -> DirNode {
    DirNode {
        name: name.to_string(),
        path: path.to_string(),
        file_sizes: files,
        manifest,
        children,
    }
}

fn plain(name: &str, path: &str, children: Vec<DirNode>) -> DirNode {
    dir(name, path, vec![], ManifestSource::Missing, children)
}

fn scan(root: &DirNode) -> (Vec<Package>, Vec<ScanFailure>) {
    let mut packages = Vec::new();
    let mut failures = Vec::new();
    traverse(root, &mut packages, &mut failures);
    (packages, failures)
}

fn package(name: &str, version: &str, path: &str, disk_usage: u64) -> Package {
    Package {
        name: name.to_string(),
        version: version.to_string(),
        path: path.to_string(),
        disk_usage,
    }
}

fn names(ps: &[Package]) -> Vec<String> {
    ps.iter().map(|p| p.name.clone()).collect()
}

#[test]
fn no_node_modules_yields_nothing() {
    let root = plain("app", "/app", vec![
        plain("src", "/app/src", vec![]),
        dir("lib", "/app/lib", vec![10], manifest("lib", "1.0.0"), vec![]),
    ]);
    let (packages, failures) = scan(&root);
    assert!(packages.is_empty());
    assert!(failures.is_empty());
}

#[test]
fn empty_node_modules_yields_nothing() {
    let root = plain("app", "/app", vec![plain("node_modules", "/app/node_modules", vec![])]);
    let (packages, failures) = scan(&root);
    assert!(packages.is_empty());
    assert!(failures.is_empty());
}

#[test]
fn valid_manifest_gives_fields_and_exact_size() {
    let pkg = dir(
        "left-pad",
        "/app/node_modules/left-pad",
        vec![100, 250],
        manifest("left-pad", "1.3.0"),
        vec![],
    );
    let root = plain("app", "/app", vec![plain("node_modules", "/app/node_modules", vec![pkg])]);
    let (packages, failures) = scan(&root);
    assert!(failures.is_empty());
    assert_eq!(packages.len(), 1);
    assert_eq!(packages[0].name, "left-pad");
    assert_eq!(packages[0].version, "1.3.0");
    assert_eq!(packages[0].path, "/app/node_modules/left-pad");
    assert_eq!(packages[0].disk_usage, 350);
}

#[test]
fn disk_usage_counts_every_depth() {
    let d = plain("a", "/a", vec![
        dir("b", "/a/b", vec![5, 7], ManifestSource::Missing, vec![plain("c", "/a/b/c", vec![])]),
        dir("d", "/a/d", vec![1], ManifestSource::Missing, vec![
            dir("e", "/a/d/e", vec![1000], ManifestSource::Missing, vec![]),
        ]),
    ]);
    assert_eq!(calc_disk_usage(&d), 1013);
}

#[test]
fn disk_usage_stops_at_largest_value() {
    let d = dir("a", "/a", vec![u64::MAX, 1], ManifestSource::Missing, vec![
        dir("b", "/a/b", vec![u64::MAX], ManifestSource::Missing, vec![]),
    ]);
    assert_eq!(calc_disk_usage(&d), u64::MAX);
}

#[test]
fn bin_dir_is_never_a_package() {
    let bin = dir(".bin", "/app/node_modules/.bin", vec![3], manifest("bin", "1.0.0"), vec![
        dir("tool", "/app/node_modules/.bin/tool", vec![4], manifest("tool", "2.0.0"), vec![]),
    ]);
    let root = plain("app", "/app", vec![plain("node_modules", "/app/node_modules", vec![bin])]);
    let (packages, failures) = scan(&root);
    assert!(packages.is_empty());
    assert!(failures.is_empty());
}

#[test]
fn scoped_package_gives_one_record() {
    let pkg = dir("core", "/app/node_modules/@babel/core", vec![40], manifest("@babel/core", "7.0.0"), vec![]);
    let scope = dir("@babel", "/app/node_modules/@babel", vec![], manifest("ignored", "0.0.1"), vec![pkg]);
    let root = plain("app", "/app", vec![plain("node_modules", "/app/node_modules", vec![scope])]);
    let (packages, failures) = scan(&root);
    assert!(failures.is_empty());
    assert_eq!(packages.len(), 1);
    assert_eq!(packages[0].name, "@babel/core");
    assert_eq!(packages[0].path, "/app/node_modules/@babel/core");
    assert_eq!(packages[0].disk_usage, 40);
}

#[test]
fn nested_package_gives_two_records() {
    let inner = dir("b", "/app/node_modules/a/node_modules/b", vec![20], manifest("b", "2.0.0"), vec![]);
    let outer = dir("a", "/app/node_modules/a", vec![10], manifest("a", "1.0.0"), vec![
        plain("node_modules", "/app/node_modules/a/node_modules", vec![inner]),
    ]);
    let root = plain("app", "/app", vec![plain("node_modules", "/app/node_modules", vec![outer])]);
    let (packages, failures) = scan(&root);
    assert!(failures.is_empty());
    assert_eq!(names(&packages), vec!["a".to_string(), "b".to_string()]);
    assert_eq!(packages[0].disk_usage, 30);
    assert_eq!(packages[1].disk_usage, 20);
    assert_eq!(packages[1].path, "/app/node_modules/a/node_modules/b");
}

#[test]
fn discovery_order_is_depth_first() {
    let inner = dir("x", "/r/node_modules/a/node_modules/x", vec![1], manifest("x", "1.0.0"), vec![]);
    let a = dir("a", "/r/node_modules/a", vec![1], manifest("a", "1.0.0"), vec![
        plain("node_modules", "/r/node_modules/a/node_modules", vec![inner]),
    ]);
    let b = dir("b", "/r/node_modules/b", vec![1], manifest("b", "1.0.0"), vec![]);
    let root = plain("r", "/r", vec![plain("node_modules", "/r/node_modules", vec![a, b])]);
    let (packages, _) = scan(&root);
    assert_eq!(names(&packages), vec!["a".to_string(), "x".to_string(), "b".to_string()]);
}

#[test]
fn missing_version_is_excluded_and_earlier_records_stay() {
    let good = dir("a", "/r/node_modules/a", vec![5], manifest("a", "1.0.0"), vec![]);
    let bad = dir(
        "b",
        "/r/node_modules/b",
        vec![6],
        ManifestSource::Parsed { name: Some("b".to_string()), version: None },
        vec![],
    );
    let root = plain("r", "/r", vec![plain("node_modules", "/r/node_modules", vec![good, bad])]);
    let (packages, failures) = scan(&root);
    assert_eq!(packages.len(), 1);
    assert_eq!(packages[0].name, "a");
    assert_eq!(packages[0].disk_usage, 5);
    assert_eq!(failures.len(), 1);
    assert_eq!(failures[0].path, "/r/node_modules/b");
    assert_eq!(failures[0].error, MetadataError::ParseError);
}

#[test]
fn manifest_errors() {
    assert_eq!(read_manifest(&ManifestSource::Missing), Err(MetadataError::FileNotFound));
    assert_eq!(read_manifest(&ManifestSource::Malformed), Err(MetadataError::ParseError));
    assert_eq!(read_manifest(&manifest("", "1.0.0")), Err(MetadataError::ParseError));
    assert_eq!(read_manifest(&manifest("a", "")), Err(MetadataError::ParseError));
    let no_name = ManifestSource::Parsed { name: None, version: Some("1.0.0".to_string()) };
    assert_eq!(read_manifest(&no_name), Err(MetadataError::ParseError));
    assert_eq!(read_manifest(&manifest("a", "1.0.0")), Ok(("a".to_string(), "1.0.0".to_string())));
}

#[test]
fn package_info_of_missing_manifest() {
    let d = plain("a", "/a", vec![]);
    assert!(matches!(get_package_info(&d), Err(MetadataError::FileNotFound)));
    let m = dir("m", "/m", vec![1], ManifestSource::Malformed, vec![]);
    assert!(matches!(get_package_info(&m), Err(MetadataError::ParseError)));
}

#[test]
fn failed_candidates_are_reported() {
    let nm = plain("node_modules", "/r/node_modules", vec![
        plain("a", "/r/node_modules/a", vec![]),
        plain("@s", "/r/node_modules/@s", vec![dir("p", "/r/node_modules/@s/p", vec![], ManifestSource::Malformed, vec![])]),
    ]);
    let root = plain("r", "/r", vec![nm]);
    let (packages, failures) = scan(&root);
    assert!(packages.is_empty());
    assert_eq!(failures.len(), 2);
    assert_eq!(failures[0].path, "/r/node_modules/a");
    assert_eq!(failures[0].error, MetadataError::FileNotFound);
    assert_eq!(failures[1].path, "/r/node_modules/@s/p");
    assert_eq!(failures[1].error, MetadataError::ParseError);
}

#[test]
fn classification_of_each_kind() {
    let c = |v: &[&str]| classify(&v.iter().map(|s| s.to_string()).collect::<Vec<_>>());
    assert_eq!(c(&["@types"]), EntryKind::ScopeGroup);
    assert_eq!(c(&[".bin"]), EntryKind::BinDir);
    assert_eq!(c(&["lodash"]), EntryKind::TopLevelCandidate);
    assert_eq!(c(&["lodash", "fp"]), EntryKind::InteriorSkip);
    assert_eq!(c(&["@types", "node"]), EntryKind::ScopedCandidate);
    assert_eq!(c(&[".bin", "tool"]), EntryKind::InteriorSkip);
    assert_eq!(c(&[""]), EntryKind::TopLevelCandidate);
}

#[test]
fn merge_two_versions() {
    let ps = vec![
        package("left-pad", "1.0.0", "/r/node_modules/left-pad", 10),
        package("other", "3.0.0", "/r/node_modules/other", 7),
        package("left-pad", "1.1.0", "/r/node_modules/x/node_modules/left-pad", 20),
    ];
    let groups = collect_versions(&ps);
    assert_eq!(groups.len(), 2);
    let lp = &groups[0];
    assert_eq!(lp.name, "left-pad");
    assert_eq!(lp.versions, vec!["1.0.0".to_string(), "1.1.0".to_string()]);
    assert_eq!(
        lp.paths,
        vec!["/r/node_modules/left-pad".to_string(), "/r/node_modules/x/node_modules/left-pad".to_string()]
    );
    assert_eq!(lp.disk_usage, 30);
    assert_eq!(groups[1].name, "other");
    assert_eq!(groups[1].versions, vec!["3.0.0".to_string()]);
    assert_eq!(groups[1].disk_usage, 7);
}

#[test]
fn merge_of_nothing_is_empty() {
    assert!(collect_versions(&[]).is_empty());
}

#[test]
fn merge_is_case_sensitive() {
    let ps = vec![package("A", "1", "/a", 1), package("a", "1", "/b", 2)];
    let groups = collect_versions(&ps);
    assert_eq!(groups.len(), 2);
}

fn group(name: &str, versions: usize, disk_usage: u64) -> PackageWithAllVersions {
    PackageWithAllVersions {
        name: name.to_string(),
        versions: (0..versions).map(|i| format!("{}.0.0", i)).collect(),
        paths: (0..versions).map(|i| format!("/p{}", i)).collect(),
        disk_usage,
    }
}

#[test]
fn sort_by_size_puts_largest_first() {
    let mut gs = vec![group("a", 3, 10), group("b", 1, 50), group("c", 2, 30)];
    sort_by_rank(&mut gs, SortOrder::Size);
    let order: Vec<&str> = gs.iter().map(|g| g.name.as_str()).collect();
    assert_eq!(order, vec!["b", "c", "a"]);
}

#[test]
fn sort_by_versions_puts_most_versions_first() {
    let mut gs = vec![group("a", 3, 10), group("b", 1, 50), group("c", 4, 30)];
    sort_by_rank(&mut gs, SortOrder::Versions);
    let order: Vec<&str> = gs.iter().map(|g| g.name.as_str()).collect();
    assert_eq!(order, vec!["c", "a", "b"]);
}

#[test]
fn sort_keeps_order_of_ties() {
    let mut ps = vec![package("a", "1", "/a", 5), package("b", "1", "/b", 9), package("c", "1", "/c", 5)];
    sort_by_rank(&mut ps, SortOrder::Size);
    assert_eq!(names(&ps), vec!["b".to_string(), "a".to_string(), "c".to_string()]);
}

#[test]
fn totals() {
    let ps = vec![package("a", "1", "/a", 5), package("b", "1", "/b", 9)];
    assert_eq!(total_disk_usage(&ps), 14);
    assert_eq!(total_disk_usage(&ps[..1]), 5);
    let gs = vec![group("a", 1, u64::MAX), group("b", 1, 1)];
    assert_eq!(merged_disk_usage(&gs), u64::MAX);
    assert_eq!(merged_disk_usage(&gs[1..]), 1);
}
