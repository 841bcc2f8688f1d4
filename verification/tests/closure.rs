//! The closure filter, driven through a whole parse request.

use depviz::args::{Args, FormatInt};
use depviz::errors::GraphError;
use depviz::langs::rust::{
    DependencyEntry, DependencySpec, ManifestDoc, ManifestEntry, ManifestStore, PackageRecord,
    WorkspaceRecord,
};
use depviz::langs::SourceTree;
use depviz::model::TargetKind;

fn dep(name: &str) -> DependencyEntry {
    DependencyEntry {
        name: name.to_string(),
        requirement: DependencySpec::Detailed { version: None, rev: None, is_path: true },
    }
}

fn member(name: &str, deps: Vec<DependencyEntry>) -> ManifestDoc {
    ManifestDoc {
        package: Some(PackageRecord {
            name: name.to_string(),
            version: "0.1.0".to_string(),
            has_library: true,
            inherits_version: false,
        }),
        dependencies: deps,
        dev_dependencies: vec![],
        build_dependencies: vec![],
        workspace: None,
    }
}

/// A workspace of five libraries: a -> b -> c, d -> a, e alone.
fn sources() -> SourceTree {
    let ws = ManifestDoc {
        package: None,
        dependencies: vec![],
        dev_dependencies: vec![],
        build_dependencies: vec![],
        workspace: Some(WorkspaceRecord {
            members: vec![
                "a".to_string(),
                "b".to_string(),
                "c".to_string(),
                "d".to_string(),
                "e".to_string(),
            ],
            version: "1.0.0".to_string(),
            dependencies: vec![],
        }),
    };
    let entries = vec![
        ManifestEntry { path: "ws/Cargo.toml".to_string(), doc: ws },
        ManifestEntry { path: "ws/a/Cargo.toml".to_string(), doc: member("a", vec![dep("b")]) },
        ManifestEntry { path: "ws/b/Cargo.toml".to_string(), doc: member("b", vec![dep("c")]) },
        ManifestEntry { path: "ws/c/Cargo.toml".to_string(), doc: member("c", vec![]) },
        ManifestEntry { path: "ws/d/Cargo.toml".to_string(), doc: member("d", vec![dep("a")]) },
        ManifestEntry { path: "ws/e/Cargo.toml".to_string(), doc: member("e", vec![]) },
    ];
    SourceTree { manifests: ManifestStore { entries }, solutions: vec![] }
}

fn request(top_level: Vec<&str>) -> Args {
    Args {
        output: None,
        format: FormatInt::Svg,
        debug: true,
        path: "ws/Cargo.toml".to_string(),
        top_level: top_level.into_iter().map(|s| s.to_string()).collect(),
    }
}

#[test]
fn zero_roots_pass_the_list_through_unchanged() {
    let all = request(vec![]).parse_input(&sources()).unwrap();
    let names: Vec<&str> = all.iter().map(|t| t.name.as_str()).collect();
    assert_eq!(names, vec!["a", "b", "c", "d", "e"]);
}

#[test]
fn one_root_keeps_exactly_the_reachable_targets() {
    let kept = request(vec!["a"]).parse_input(&sources()).unwrap();
    let names: Vec<&str> = kept.iter().map(|t| t.name.as_str()).collect();
    assert_eq!(names, vec!["a", "b", "c"]);
}

#[test]
fn roots_head_the_result_in_request_order() {
    let kept = request(vec!["e", "c"]).parse_input(&sources()).unwrap();
    let names: Vec<&str> = kept.iter().map(|t| t.name.as_str()).collect();
    assert_eq!(names, vec!["e", "c"]);
}

#[test]
fn unreachable_targets_are_never_included() {
    let kept = request(vec!["b"]).parse_input(&sources()).unwrap();
    let names: Vec<&str> = kept.iter().map(|t| t.name.as_str()).collect();
    assert_eq!(names, vec!["b", "c"]);
    assert!(!names.contains(&"d"));
    assert!(!names.contains(&"e"));
}

#[test]
fn missing_root_fails_with_target_not_found() {
    let r = request(vec!["nosuch"]).parse_input(&sources());
    assert!(matches!(r, Err(GraphError::TargetNotFound(n)) if n == "nosuch"));
}

#[test]
fn dependency_loops_terminate() {
    // a pair of targets pointing at each other is walked once each
    let ws = ManifestDoc {
        package: None,
        dependencies: vec![],
        dev_dependencies: vec![],
        build_dependencies: vec![],
        workspace: Some(WorkspaceRecord {
            members: vec!["x".to_string(), "y".to_string()],
            version: "1.0.0".to_string(),
            dependencies: vec![],
        }),
    };
    let entries = vec![
        ManifestEntry { path: "ws/Cargo.toml".to_string(), doc: ws },
        ManifestEntry { path: "ws/x/Cargo.toml".to_string(), doc: member("x", vec![dep("y")]) },
        ManifestEntry { path: "ws/y/Cargo.toml".to_string(), doc: member("y", vec![dep("x")]) },
    ];
    let sources = SourceTree { manifests: ManifestStore { entries }, solutions: vec![] };
    let kept = request(vec!["x"]).parse_input(&sources).unwrap();
    let names: Vec<&str> = kept.iter().map(|t| t.name.as_str()).collect();
    assert_eq!(names, vec!["x", "y"]);
}

#[test]
fn unsupported_path_is_rejected_before_parsing() {
    let mut req = request(vec![]);
    req.path = "ws/pom.xml".to_string();
    let r = req.parse_input(&sources());
    assert!(matches!(r, Err(GraphError::UnsupportedInput)));
}

#[test]
fn kept_targets_keep_their_kinds_and_versions() {
    let kept = request(vec!["a"]).parse_input(&sources()).unwrap();
    for t in &kept {
        assert_eq!(t.kind, TargetKind::Library);
        assert_eq!(t.version, "1.0.0");
    }
}
