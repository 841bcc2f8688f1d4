//! Small units of the model and the path helpers.

use depviz::model::{Dep, Target, TargetKind};
use depviz::paths::{extension_is, final_component_is, has_prefix, join, parent_of};

#[test]
fn new_targets_start_unlayered_and_edgeless() {
    let t = Target::new("x".to_string(), TargetKind::Library, "1.0".to_string());
    assert_eq!(t.height, 0);
    assert!(t.dependencies.is_none());
}

#[test]
fn adding_dependencies_appends() {
    let mut t = Target::new("x".to_string(), TargetKind::Library, "1.0".to_string());
    t.add_dependencies(vec![Dep {
        name: "a".to_string(),
        kind: TargetKind::Library,
        version: String::new(),
    }]);
    t.add_dependencies(vec![Dep {
        name: "b".to_string(),
        kind: TargetKind::Crate,
        version: "2".to_string(),
    }]);
    let deps = t.dependencies.as_ref().unwrap();
    assert_eq!(deps.len(), 2);
    assert_eq!(deps[0].name, "a");
    assert_eq!(deps[1].name, "b");
}

#[test]
fn target_equality_ignores_heights_and_edges() {
    let mut a = Target::new("x".to_string(), TargetKind::Library, "1.0".to_string());
    let b = Target::new("x".to_string(), TargetKind::Library, "1.0".to_string());
    a.height = 4;
    a.add_dependencies(vec![]);
    assert!(a == b);
    let c = Target::new("x".to_string(), TargetKind::Library, "2.0".to_string());
    assert!(!(a == c));
}

#[test]
fn edges_match_by_name_and_kind_only() {
    let t = Target::new("x".to_string(), TargetKind::Library, "1.0".to_string());
    let hit = Dep { name: "x".to_string(), kind: TargetKind::Library, version: "9".to_string() };
    let miss = Dep { name: "x".to_string(), kind: TargetKind::Binary, version: "1.0".to_string() };
    assert!(t.matches_dep(&hit));
    assert!(!t.matches_dep(&miss));
}

#[test]
fn duplicate_copies_everything() {
    let mut t = Target::new("x".to_string(), TargetKind::Binary, "1.0".to_string());
    t.height = 3;
    t.add_dependencies(vec![Dep {
        name: "a".to_string(),
        kind: TargetKind::Library,
        version: "2".to_string(),
    }]);
    let c = t.duplicate();
    assert_eq!(c.name, "x");
    assert_eq!(c.height, 3);
    assert_eq!(c.dependencies.as_ref().unwrap()[0].name, "a");
}

#[test]
fn path_helpers() {
    assert_eq!(parent_of(&"a/b/c.txt".to_string()), "a/b");
    assert_eq!(parent_of(&"plain".to_string()), "");
    assert_eq!(join(&"a/b".to_string(), "c"), "a/b/c");
    assert!(has_prefix(&"a/b/c".to_string(), &"a/b".to_string()));
    assert!(!has_prefix(&"a".to_string(), &"a/b".to_string()));
    assert!(final_component_is(&"x/Cargo.toml".to_string(), "Cargo.toml"));
    assert!(final_component_is(&"Cargo.toml".to_string(), "Cargo.toml"));
    assert!(!final_component_is(&"x/NotCargo.toml".to_string(), "Cargo.toml"));
    assert!(extension_is(&"x/app.sln".to_string(), "sln"));
    assert!(!extension_is(&"x/.sln".to_string(), "sln"));
    assert!(!extension_is(&"x/appsln".to_string(), "sln"));
}
