//! The layering engine and the height-ordered output.

use depviz::layering::{sort_by_height, update_height};
use depviz::model::{Dep, Target, TargetKind};

fn target(name: &str, kind: TargetKind, deps: Option<Vec<(&str, TargetKind)>>) -> Target {
    let mut t = Target::new(name.to_string(), kind, "1.0.0".to_string());
    if let Some(ds) = deps {
        t.add_dependencies(
            ds.into_iter()
                .map(|(n, k)| Dep { name: n.to_string(), kind: k, version: String::new() })
                .collect(),
        );
    }
    t
}

fn heights(ts: &[Target]) -> Vec<(String, usize)> {
    ts.iter().map(|t| (t.name.clone(), t.height)).collect()
}

#[test]
fn leaves_stay_at_height_zero() {
    let mut ts = vec![target("leaf", TargetKind::Library, None)];
    update_height(&mut ts);
    assert_eq!(ts[0].height, 0);
}

#[test]
fn empty_dependency_list_stays_at_height_zero() {
    let mut ts = vec![target("hollow", TargetKind::Library, Some(vec![]))];
    update_height(&mut ts);
    assert_eq!(ts[0].height, 0);
}

#[test]
fn direct_dependent_of_a_leaf_gets_height_one() {
    let mut ts = vec![
        target("app", TargetKind::Binary, Some(vec![("lib", TargetKind::Library)])),
        target("lib", TargetKind::Library, None),
    ];
    update_height(&mut ts);
    assert_eq!(heights(&ts), vec![("app".to_string(), 1), ("lib".to_string(), 0)]);
}

#[test]
fn scenario_app_over_resolvable_leaves() {
    let mut ts = vec![
        target(
            "app",
            TargetKind::Binary,
            Some(vec![("libcore", TargetKind::Library), ("serde", TargetKind::Crate)]),
        ),
        target("libcore", TargetKind::Library, None),
        target("serde", TargetKind::Crate, None),
    ];
    update_height(&mut ts);
    assert_eq!(ts[0].height, 1);
    assert_eq!(ts[1].height, 0);
    assert_eq!(ts[2].height, 0);
}

#[test]
fn chain_of_three_layers() {
    let mut ts = vec![
        target("top", TargetKind::Binary, Some(vec![("mid", TargetKind::Library)])),
        target("mid", TargetKind::Library, Some(vec![("base", TargetKind::Library)])),
        target("base", TargetKind::Library, None),
    ];
    update_height(&mut ts);
    assert_eq!(
        heights(&ts),
        vec![("top".to_string(), 2), ("mid".to_string(), 1), ("base".to_string(), 0)]
    );
}

#[test]
fn first_match_wins_over_deeper_chains() {
    // mixed depends on a leaf and on a height-one target: it is pinned at
    // the first round it qualifies, not at one past its deepest chain
    let mut ts = vec![
        target(
            "mixed",
            TargetKind::Binary,
            Some(vec![("base", TargetKind::Library), ("mid", TargetKind::Library)]),
        ),
        target("mid", TargetKind::Library, Some(vec![("base", TargetKind::Library)])),
        target("base", TargetKind::Library, None),
    ];
    update_height(&mut ts);
    assert_eq!(ts[0].height, 1);
    assert_eq!(ts[1].height, 1);
}

#[test]
fn edges_match_kind_as_well_as_name() {
    // the dependency names a binary, but only a library of that name exists
    let mut ts = vec![
        target("app", TargetKind::Binary, Some(vec![("twin", TargetKind::Binary)])),
        target("twin", TargetKind::Library, None),
    ];
    update_height(&mut ts);
    assert_eq!(ts[0].height, 0);
}

#[test]
fn layering_is_idempotent_on_its_own_output() {
    let mut ts = vec![
        target("top", TargetKind::Binary, Some(vec![("mid", TargetKind::Library)])),
        target("mid", TargetKind::Library, Some(vec![("base", TargetKind::Library)])),
        target("base", TargetKind::Library, None),
        target("loose", TargetKind::Crate, Some(vec![("nowhere", TargetKind::Library)])),
    ];
    update_height(&mut ts);
    let first = heights(&ts);
    update_height(&mut ts);
    assert_eq!(heights(&ts), first);
}

#[test]
fn sorting_orders_by_ascending_height() {
    let mut ts = vec![
        target("top", TargetKind::Binary, Some(vec![("mid", TargetKind::Library)])),
        target("mid", TargetKind::Library, Some(vec![("base", TargetKind::Library)])),
        target("base", TargetKind::Library, None),
    ];
    update_height(&mut ts);
    sort_by_height(&mut ts);
    let hs: Vec<usize> = ts.iter().map(|t| t.height).collect();
    assert_eq!(hs, vec![0, 1, 2]);
    assert_eq!(ts.len(), 3);
    assert!(ts.iter().any(|t| t.name == "top"));
    assert!(ts.iter().any(|t| t.name == "mid"));
    assert!(ts.iter().any(|t| t.name == "base"));
}

#[test]
fn cyclic_edges_do_not_hang_the_layering() {
    let mut ts = vec![
        target("seed", TargetKind::Library, None),
        target(
            "x",
            TargetKind::Library,
            Some(vec![("y", TargetKind::Library), ("seed", TargetKind::Library)]),
        ),
        target(
            "y",
            TargetKind::Library,
            Some(vec![("x", TargetKind::Library), ("seed", TargetKind::Library)]),
        ),
    ];
    update_height(&mut ts);
    assert_eq!(ts[1].height, 1);
    assert_eq!(ts[2].height, 1);
}
