//! The manifest adapters, exercised on concrete documents.

use depviz::errors::GraphError;
use depviz::langs::rust::{
    DependencyEntry, DependencySpec, ManifestDoc, ManifestEntry, ManifestStore, PackageRecord,
    RustConfiguration, WorkspaceRecord,
};
use depviz::langs::{ConfigParser, LanguagesConfiguration, SourceTree};
use depviz::model::TargetKind;

fn entry(name: &str, spec: DependencySpec) -> DependencyEntry {
    DependencyEntry { name: name.to_string(), requirement: spec }
}

fn package_doc(
    name: &str,
    version: &str,
    has_library: bool,
    inherits_version: bool,
    deps: Vec<DependencyEntry>,
    dev: Vec<DependencyEntry>,
    build: Vec<DependencyEntry>,
) -> ManifestDoc {
    ManifestDoc {
        package: Some(PackageRecord {
            name: name.to_string(),
            version: version.to_string(),
            has_library,
            inherits_version,
        }),
        dependencies: deps,
        dev_dependencies: dev,
        build_dependencies: build,
        workspace: None,
    }
}

fn store(entries: Vec<(&str, ManifestDoc)>) -> ManifestStore {
    ManifestStore {
        entries: entries
            .into_iter()
            .map(|(p, doc)| ManifestEntry { path: p.to_string(), doc })
            .collect(),
    }
}

#[test]
fn binary_without_library_output() {
    let doc = package_doc("app", "0.1.0", false, false, vec![], vec![], vec![]);
    let t = RustConfiguration::build_target_from_package(&doc);
    assert_eq!(t.kind, TargetKind::Binary);
    assert_eq!(t.name, "app");
    assert_eq!(t.version, "0.1.0");
}

#[test]
fn library_with_library_output() {
    let doc = package_doc("libx", "2.0.0", true, false, vec![], vec![], vec![]);
    let t = RustConfiguration::build_target_from_package(&doc);
    assert_eq!(t.kind, TargetKind::Library);
}

#[test]
fn inherited_version_is_empty() {
    let doc = package_doc("member", "9.9.9", false, true, vec![], vec![], vec![]);
    let t = RustConfiguration::build_target_from_package(&doc);
    assert_eq!(t.version, "");
}

#[test]
fn tables_merge_in_order_and_keep_duplicates() {
    let doc = package_doc(
        "app",
        "0.1.0",
        false,
        false,
        vec![entry("serde", DependencySpec::Simple("1.0".to_string()))],
        vec![entry("serde", DependencySpec::Simple("1.0".to_string()))],
        vec![entry("cc", DependencySpec::Simple("1.1".to_string()))],
    );
    let t = RustConfiguration::build_target_from_package(&doc);
    let deps = t.dependencies.as_ref().unwrap();
    assert_eq!(deps.len(), 3);
    assert_eq!(deps[0].name, "serde");
    assert_eq!(deps[1].name, "serde");
    assert_eq!(deps[2].name, "cc");
}

#[test]
fn scenario_path_and_registry_dependencies() {
    let doc = package_doc(
        "app",
        "0.1.0",
        false,
        false,
        vec![
            entry(
                "libcore",
                DependencySpec::Detailed { version: None, rev: None, is_path: true },
            ),
            entry("serde", DependencySpec::Simple("1.0".to_string())),
        ],
        vec![],
        vec![],
    );
    let t = RustConfiguration::build_target_from_package(&doc);
    assert_eq!(t.kind, TargetKind::Binary);
    let deps = t.dependencies.as_ref().unwrap();
    assert_eq!(deps.len(), 2);
    assert_eq!(deps[0].name, "libcore");
    assert_eq!(deps[0].kind, TargetKind::Library);
    assert_eq!(deps[0].version, "");
    assert_eq!(deps[1].name, "serde");
    assert_eq!(deps[1].kind, TargetKind::Crate);
    assert_eq!(deps[1].version, "1.0");
}

#[test]
fn detailed_version_falls_back_to_revision() {
    let doc = package_doc(
        "app",
        "0.1.0",
        false,
        false,
        vec![entry(
            "gitdep",
            DependencySpec::Detailed {
                version: None,
                rev: Some("abc123".to_string()),
                is_path: false,
            },
        )],
        vec![],
        vec![],
    );
    let t = RustConfiguration::build_target_from_package(&doc);
    let deps = t.dependencies.as_ref().unwrap();
    assert_eq!(deps[0].version, "abc123");
}

fn workspace_doc(members: Vec<&str>, version: &str, shared: Vec<DependencyEntry>) -> ManifestDoc {
    ManifestDoc {
        package: None,
        dependencies: vec![],
        dev_dependencies: vec![],
        build_dependencies: vec![],
        workspace: Some(WorkspaceRecord {
            members: members.into_iter().map(|m| m.to_string()).collect(),
            version: version.to_string(),
            dependencies: shared,
        }),
    }
}

#[test]
fn workspace_overwrites_member_versions() {
    let ws = workspace_doc(vec!["a", "b"], "3.0.0", vec![]);
    let a = package_doc("a", "0.1.0", false, false, vec![], vec![], vec![]);
    let b = package_doc("b", "0.2.0", true, false, vec![], vec![], vec![]);
    let st = store(vec![
        ("ws/Cargo.toml", ws),
        ("ws/a/Cargo.toml", a),
        ("ws/b/Cargo.toml", b),
    ]);
    let ts = RustConfiguration::parse_store(&st, &"ws/Cargo.toml".to_string()).unwrap();
    assert_eq!(ts.len(), 2);
    assert_eq!(ts[0].name, "a");
    assert_eq!(ts[0].version, "3.0.0");
    assert_eq!(ts[1].name, "b");
    assert_eq!(ts[1].version, "3.0.0");
}

#[test]
fn scenario_shared_dependency_resolves_for_both_members() {
    let shared = vec![entry("tokio", DependencySpec::Simple("1.38".to_string()))];
    let ws = workspace_doc(vec!["m1", "m2"], "1.0.0", shared);
    let m1 = package_doc(
        "m1",
        "0.1.0",
        false,
        false,
        vec![entry("tokio", DependencySpec::Inherited)],
        vec![],
        vec![],
    );
    let m2 = package_doc(
        "m2",
        "0.1.0",
        true,
        false,
        vec![entry("tokio", DependencySpec::Inherited)],
        vec![],
        vec![],
    );
    let st = store(vec![
        ("ws/Cargo.toml", ws),
        ("ws/m1/Cargo.toml", m1),
        ("ws/m2/Cargo.toml", m2),
    ]);
    let ts = RustConfiguration::parse_store(&st, &"ws/Cargo.toml".to_string()).unwrap();
    assert_eq!(ts.len(), 2);
    for t in &ts {
        let deps = t.dependencies.as_ref().unwrap();
        assert_eq!(deps[0].name, "tokio");
        assert_eq!(deps[0].version, "1.38");
    }
}

#[test]
fn library_path_dependency_falls_back_to_workspace_version() {
    let ws = workspace_doc(vec!["m"], "2.5.0", vec![]);
    let m = package_doc(
        "m",
        "0.1.0",
        false,
        false,
        vec![entry(
            "helper",
            DependencySpec::Detailed { version: None, rev: None, is_path: true },
        )],
        vec![],
        vec![],
    );
    let st = store(vec![("ws/Cargo.toml", ws), ("ws/m/Cargo.toml", m)]);
    let ts = RustConfiguration::parse_store(&st, &"ws/Cargo.toml".to_string()).unwrap();
    let deps = ts[0].dependencies.as_ref().unwrap();
    assert_eq!(deps[0].version, "2.5.0");
}

#[test]
fn unresolvable_dependency_version_stays_empty() {
    let ws = workspace_doc(vec!["m"], "2.5.0", vec![]);
    let m = package_doc(
        "m",
        "0.1.0",
        false,
        false,
        vec![entry("mystery", DependencySpec::Inherited)],
        vec![],
        vec![],
    );
    let st = store(vec![("ws/Cargo.toml", ws), ("ws/m/Cargo.toml", m)]);
    let ts = RustConfiguration::parse_store(&st, &"ws/Cargo.toml".to_string()).unwrap();
    let deps = ts[0].dependencies.as_ref().unwrap();
    assert_eq!(deps[0].version, "");
}

#[test]
fn missing_workspace_is_an_error() {
    let doc = ManifestDoc {
        package: None,
        dependencies: vec![],
        dev_dependencies: vec![],
        build_dependencies: vec![],
        workspace: None,
    };
    let st = store(vec![("x/Cargo.toml", doc)]);
    let r = RustConfiguration::parse_store(&st, &"x/Cargo.toml".to_string());
    assert!(matches!(r, Err(GraphError::MissingWorkspace)));
}

#[test]
fn missing_member_manifest_is_a_filesystem_error() {
    let ws = workspace_doc(vec!["gone"], "1.0.0", vec![]);
    let st = store(vec![("ws/Cargo.toml", ws)]);
    let r = RustConfiguration::parse_store(&st, &"ws/Cargo.toml".to_string());
    assert!(matches!(r, Err(GraphError::FilesystemError(p)) if p == "ws/gone/Cargo.toml"));
}

#[test]
fn ancestor_chain_reports_a_cycle() {
    // a member chain that leads back to a manifest already being walked is
    // reported, not re-entered
    let ws = workspace_doc(vec!["sub"], "1.0.0", vec![]);
    let st = store(vec![("ws/Cargo.toml", ws)]);
    let trail = vec!["ws/Cargo.toml".to_string()];
    let r = RustConfiguration::parse_at(&st, &"ws/Cargo.toml".to_string(), &trail);
    assert!(matches!(r, Err(GraphError::CyclicWorkspace(p)) if p == "ws/Cargo.toml"));
}

#[test]
fn nested_workspaces_inherit_the_outermost_version() {
    let outer = workspace_doc(vec!["mid"], "7.0.0", vec![]);
    let mid = workspace_doc(vec!["leaf"], "5.0.0", vec![]);
    let leaf = package_doc("leaf", "0.0.1", true, false, vec![], vec![], vec![]);
    let st = store(vec![
        ("r/Cargo.toml", outer),
        ("r/mid/Cargo.toml", mid),
        ("r/mid/leaf/Cargo.toml", leaf),
    ]);
    let ts = RustConfiguration::parse_store(&st, &"r/Cargo.toml".to_string()).unwrap();
    assert_eq!(ts.len(), 1);
    assert_eq!(ts[0].name, "leaf");
    assert_eq!(ts[0].version, "7.0.0");
}

#[test]
fn selector_picks_manifest_adapter() {
    let lang = LanguagesConfiguration::for_path(&"proj/Cargo.toml".to_string()).unwrap();
    assert!(matches!(lang, LanguagesConfiguration::Rust(_)));
    assert!(lang.matches(&"proj/Cargo.toml".to_string()));
}

#[test]
fn selector_picks_solution_adapter() {
    let lang = LanguagesConfiguration::for_path(&"proj/thing.sln".to_string()).unwrap();
    assert!(matches!(lang, LanguagesConfiguration::CSharp(_)));
}

#[test]
fn selector_rejects_unknown_input() {
    let r = LanguagesConfiguration::for_path(&"proj/build.gradle".to_string());
    assert!(matches!(r, Err(GraphError::UnsupportedInput)));
}

#[test]
fn selector_needs_the_whole_file_name() {
    let r = LanguagesConfiguration::for_path(&"proj/NotCargo.toml".to_string());
    assert!(matches!(r, Err(GraphError::UnsupportedInput)));
}

#[test]
fn parse_through_the_source_tree() {
    let doc = package_doc("solo", "1.2.3", true, false, vec![], vec![], vec![]);
    let sources = SourceTree {
        manifests: store(vec![("solo/Cargo.toml", doc)]),
        solutions: vec![],
    };
    let lang = LanguagesConfiguration::for_path(&"solo/Cargo.toml".to_string()).unwrap();
    let ts = lang.parse(&sources, &"solo/Cargo.toml".to_string()).unwrap();
    assert_eq!(ts.len(), 1);
    assert_eq!(ts[0].name, "solo");
    assert_eq!(ts[0].height, 0);
}
