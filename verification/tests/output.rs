//! The textual dump and the output-format table.

use depviz::args::FormatInt;
use depviz::model::{decimal_string, Dep, Target, TargetKind};

#[test]
fn decimal_strings_are_exact() {
    assert_eq!(decimal_string(0), "0");
    assert_eq!(decimal_string(7), "7");
    assert_eq!(decimal_string(10), "10");
    assert_eq!(decimal_string(305), "305");
}

#[test]
fn dump_of_a_leaf_target() {
    let t = Target::new("solo".to_string(), TargetKind::Binary, "1.0".to_string());
    assert_eq!(t.render(), "(0) bin solo 1.0\n");
}

#[test]
fn dump_lists_dependencies_with_a_colon() {
    let mut t = Target::new("app".to_string(), TargetKind::Binary, "1.0".to_string());
    t.height = 2;
    t.add_dependencies(vec![
        Dep { name: "libx".to_string(), kind: TargetKind::Library, version: String::new() },
        Dep { name: "serde".to_string(), kind: TargetKind::Crate, version: "1.0".to_string() },
    ]);
    assert_eq!(t.render(), "(2) bin app 1.0:\n |- lib  libx\n |-  serde\n");
}

#[test]
fn empty_dependency_list_still_prints_the_colon() {
    let mut t = Target::new("app".to_string(), TargetKind::Library, "".to_string());
    t.add_dependencies(vec![]);
    assert_eq!(t.render(), "(0) lib app :\n");
}

#[test]
fn kind_markers() {
    assert_eq!(TargetKind::Binary.render(), "bin ");
    assert_eq!(TargetKind::Library.render(), "lib ");
    assert_eq!(TargetKind::Crate.render(), "");
}

#[test]
fn backend_formats() {
    assert!(FormatInt::Svg.is_backend_supported());
    assert!(FormatInt::Png.is_backend_supported());
    assert!(FormatInt::Dot.is_backend_supported());
    assert!(!FormatInt::Webp.is_backend_supported());
    assert!(!FormatInt::X11.is_backend_supported());
}
