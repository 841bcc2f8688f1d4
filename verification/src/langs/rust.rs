//! The package-manifest adapter. It consumes manifest documents whose
//! fields have already been extracted from the raw key/value format and
//! normalizes them into target records.
//!
//! A document is either in single-package mode (a package record is
//! present: exactly one target is produced) or in workspace mode (member
//! manifests are looked up in the supplied store and normalized in turn,
//! then post-processed with the workspace's shared defaults).

use vstd::prelude::*;
use vstd::set_lib::{lemma_int_range, lemma_len_subset, set_int_range};

use crate::errors::{parse_result_model, GraphError, GraphErrorModel};
use crate::model::{Dep, DepModel, Target, TargetKind, TargetModel};
use crate::paths::{join, parent_of, spec_join, spec_parent};

verus! {

/// The package record of a manifest: name, declared version, whether the
/// package declares a library output, and whether its version is inherited
/// from an enclosing workspace.
pub struct PackageRecord {
    pub name: String,
    pub version: String,
    pub has_library: bool,
    pub inherits_version: bool,
}

/// How a manifest names one dependency: a plain version string, a marker
/// that the entry is inherited from a workspace default, or a detailed
/// record with optional version and revision fields and a flag for a local
/// filesystem path.
pub enum DependencySpec {
    Simple(String),
    Inherited,
    Detailed { version: Option<String>, rev: Option<String>, is_path: bool },
}

/// One row of a dependency table.
pub struct DependencyEntry {
    pub name: String,
    pub requirement: DependencySpec,
}

/// The workspace record of a manifest: member paths (relative to the
/// workspace root), the shared default version (the empty string when none
/// is declared), and the shared dependency table.
pub struct WorkspaceRecord {
    pub members: Vec<String>,
    pub version: String,
    pub dependencies: Vec<DependencyEntry>,
}

/// A manifest document with its fields already extracted: an optional
/// package record, the three dependency tables, and an optional workspace
/// record.
pub struct ManifestDoc {
    pub package: Option<PackageRecord>,
    pub dependencies: Vec<DependencyEntry>,
    pub dev_dependencies: Vec<DependencyEntry>,
    pub build_dependencies: Vec<DependencyEntry>,
    pub workspace: Option<WorkspaceRecord>,
}

/// A manifest document filed under the path it was read from.
pub struct ManifestEntry {
    pub path: String,
    pub doc: ManifestDoc,
}

/// Every manifest document available to one parse call, keyed by path.
pub struct ManifestStore {
    pub entries: Vec<ManifestEntry>,
}

/// Mathematical image of a [`PackageRecord`].
pub ghost struct PackageModel {
    pub name: Seq<char>,
    pub version: Seq<char>,
    pub has_library: bool,
    pub inherits_version: bool,
}

/// Mathematical image of a [`DependencySpec`].
pub ghost enum DependencySpecModel {
    Simple(Seq<char>),
    Inherited,
    Detailed { version: Option<Seq<char>>, rev: Option<Seq<char>>, is_path: bool },
}

/// Mathematical image of a [`DependencyEntry`].
pub ghost struct DependencyEntryModel {
    pub name: Seq<char>,
    pub requirement: DependencySpecModel,
}

/// Mathematical image of a [`WorkspaceRecord`].
pub ghost struct WorkspaceModel {
    pub members: Seq<Seq<char>>,
    pub version: Seq<char>,
    pub dependencies: Seq<DependencyEntryModel>,
}

/// Mathematical image of a [`ManifestDoc`].
pub ghost struct ManifestDocModel {
    pub package: Option<PackageModel>,
    pub dependencies: Seq<DependencyEntryModel>,
    pub dev_dependencies: Seq<DependencyEntryModel>,
    pub build_dependencies: Seq<DependencyEntryModel>,
    pub workspace: Option<WorkspaceModel>,
}

/// Mathematical image of a [`ManifestEntry`].
pub ghost struct ManifestEntryModel {
    pub path: Seq<char>,
    pub doc: ManifestDocModel,
}

impl View for PackageRecord {
    type V = PackageModel;

    open spec fn view(&self) -> PackageModel {
        PackageModel {
            name: self.name@,
            version: self.version@,
            has_library: self.has_library,
            inherits_version: self.inherits_version,
        }
    }
}

impl DeepView for PackageRecord {
    type V = PackageModel;

    open spec fn deep_view(&self) -> PackageModel {
        self@
    }
}

impl View for DependencySpec {
    type V = DependencySpecModel;

    open spec fn view(&self) -> DependencySpecModel {
        match self {
            DependencySpec::Simple(v) => DependencySpecModel::Simple(v@),
            DependencySpec::Inherited => DependencySpecModel::Inherited,
            DependencySpec::Detailed { version, rev, is_path } => DependencySpecModel::Detailed {
                version: version.deep_view(),
                rev: rev.deep_view(),
                is_path: *is_path,
            },
        }
    }
}

impl DeepView for DependencySpec {
    type V = DependencySpecModel;

    open spec fn deep_view(&self) -> DependencySpecModel {
        self@
    }
}

impl View for DependencyEntry {
    type V = DependencyEntryModel;

    open spec fn view(&self) -> DependencyEntryModel {
        DependencyEntryModel { name: self.name@, requirement: self.requirement@ }
    }
}

impl DeepView for DependencyEntry {
    type V = DependencyEntryModel;

    open spec fn deep_view(&self) -> DependencyEntryModel {
        self@
    }
}

impl View for WorkspaceRecord {
    type V = WorkspaceModel;

    open spec fn view(&self) -> WorkspaceModel {
        WorkspaceModel {
            members: self.members.deep_view(),
            version: self.version@,
            dependencies: self.dependencies.deep_view(),
        }
    }
}

impl DeepView for WorkspaceRecord {
    type V = WorkspaceModel;

    open spec fn deep_view(&self) -> WorkspaceModel {
        self@
    }
}

impl View for ManifestDoc {
    type V = ManifestDocModel;

    open spec fn view(&self) -> ManifestDocModel {
        ManifestDocModel {
            package: self.package.deep_view(),
            dependencies: self.dependencies.deep_view(),
            dev_dependencies: self.dev_dependencies.deep_view(),
            build_dependencies: self.build_dependencies.deep_view(),
            workspace: self.workspace.deep_view(),
        }
    }
}

impl DeepView for ManifestDoc {
    type V = ManifestDocModel;

    open spec fn deep_view(&self) -> ManifestDocModel {
        self@
    }
}

impl View for ManifestEntry {
    type V = ManifestEntryModel;

    open spec fn view(&self) -> ManifestEntryModel {
        ManifestEntryModel { path: self.path@, doc: self.doc@ }
    }
}

impl DeepView for ManifestEntry {
    type V = ManifestEntryModel;

    open spec fn deep_view(&self) -> ManifestEntryModel {
        self@
    }
}

impl View for ManifestStore {
    type V = Seq<ManifestEntryModel>;

    open spec fn view(&self) -> Seq<ManifestEntryModel> {
        self.entries.deep_view()
    }
}

/// How one dependency table row is classified: an external registry package
/// by default, a library when the row points at a local filesystem path; the
/// version text is taken from the row itself, the empty string when the row
/// is inherited or names no version.
pub open spec fn spec_dep_of_entry(e: DependencyEntryModel) -> DepModel {
    match e.requirement {
        DependencySpecModel::Simple(v) => DepModel {
            name: e.name,
            kind: TargetKind::Crate,
            version: v,
        },
        DependencySpecModel::Inherited => DepModel {
            name: e.name,
            kind: TargetKind::Crate,
            version: Seq::empty(),
        },
        DependencySpecModel::Detailed { version, rev, is_path } => DepModel {
            name: e.name,
            kind: if is_path {
                TargetKind::Library
            } else {
                TargetKind::Crate
            },
            version: match version {
                Some(v) => v,
                None => match rev {
                    Some(r) => r,
                    None => Seq::empty(),
                },
            },
        },
    }
}

/// The ordinary, development and build tables of a document, in that order.
pub open spec fn spec_merged_tables(doc: ManifestDocModel) -> Seq<DependencyEntryModel> {
    doc.dependencies + doc.dev_dependencies + doc.build_dependencies
}

/// The one target of a single-package document.
pub open spec fn spec_package_target(doc: ManifestDocModel) -> TargetModel
    recommends
        doc.package is Some,
{
    match doc.package {
        Some(p) => TargetModel {
            name: p.name,
            kind: if p.has_library {
                TargetKind::Library
            } else {
                TargetKind::Binary
            },
            version: if p.inherits_version {
                Seq::empty()
            } else {
                p.version
            },
            dependencies: Some(
                spec_merged_tables(doc).map_values(|e: DependencyEntryModel| spec_dep_of_entry(e)),
            ),
            height: 0,
        },
        None => TargetModel {
            name: Seq::empty(),
            kind: TargetKind::Binary,
            version: Seq::empty(),
            dependencies: None,
            height: 0,
        },
    }
}

/// One classified dependency edge from one table row.
fn dep_of_entry(e: &DependencyEntry) -> (d: Dep)
    ensures
        d@ == spec_dep_of_entry(e@),
{
    match &e.requirement {
        DependencySpec::Simple(v) => Dep {
            name: e.name.clone(),
            kind: TargetKind::Crate,
            version: v.clone(),
        },
        DependencySpec::Inherited => Dep {
            name: e.name.clone(),
            kind: TargetKind::Crate,
            version: String::new(),
        },
        DependencySpec::Detailed { version, rev, is_path } => {
            let ver = match version {
                Some(v) => v.clone(),
                None => match rev {
                    Some(r) => r.clone(),
                    None => String::new(),
                },
            };
            Dep {
                name: e.name.clone(),
                kind: if *is_path {
                    TargetKind::Library
                } else {
                    TargetKind::Crate
                },
                version: ver,
            }
        },
    }
}

/// Classify every row of one table and append the edges.
fn push_deps(deps: &mut Vec<Dep>, entries: &Vec<DependencyEntry>)
    ensures
        final(deps).deep_view() == old(deps).deep_view() + entries.deep_view().map_values(
            |e: DependencyEntryModel| spec_dep_of_entry(e),
        ),
{
    let ghost table = entries.deep_view();
    let mut i: usize = 0;
    while i < entries.len()
        invariant
            i <= entries.len(),
            table == entries.deep_view(),
            deps.deep_view() == old(deps).deep_view() + table.subrange(0, i as int).map_values(
                |e: DependencyEntryModel| spec_dep_of_entry(e),
            ),
        decreases entries.len() - i,
    {
        let ghost prev = deps.deep_view();
        let d = dep_of_entry(&entries[i]);
        deps.push(d);
        proof {
            assert(deps.deep_view() =~= prev + seq![spec_dep_of_entry(table[i as int])]);
            assert(table.subrange(0, i as int + 1).map_values(
                |e: DependencyEntryModel| spec_dep_of_entry(e),
            ) =~= table.subrange(0, i as int).map_values(
                |e: DependencyEntryModel| spec_dep_of_entry(e),
            ) + seq![spec_dep_of_entry(table[i as int])]);
            assert(deps.deep_view() =~= old(deps).deep_view() + table.subrange(
                0,
                i as int + 1,
            ).map_values(|e: DependencyEntryModel| spec_dep_of_entry(e)));
        }
        i = i + 1;
    }
    proof {
        assert(table.subrange(0, table.len() as int) =~= table);
    }
}

/// Index of the first row named `name` in a dependency table, scanning from
/// position `i`.
pub open spec fn spec_find_entry_from(
    entries: Seq<DependencyEntryModel>,
    name: Seq<char>,
    i: int,
) -> Option<int>
    decreases entries.len() - i,
{
    if i < 0 || i >= entries.len() {
        None
    } else if entries[i].name == name {
        Some(i)
    } else {
        spec_find_entry_from(entries, name, i + 1)
    }
}

/// The version a shared dependency table row supplies: its plain string,
/// the workspace default when the row is itself inherited, or a detailed
/// row's version field (the empty string when that field is absent).
pub open spec fn spec_shared_version(e: DependencyEntryModel, ws_version: Seq<char>) -> Seq<char> {
    match e.requirement {
        DependencySpecModel::Simple(v) => v,
        DependencySpecModel::Inherited => ws_version,
        DependencySpecModel::Detailed { version, .. } => match version {
            Some(v) => v,
            None => Seq::empty(),
        },
    }
}

/// Resolve one dependency edge against a workspace: an edge that already
/// records a version is left alone; an empty one takes the version of the
/// shared table row of the same name when there is one, falls back to the
/// workspace default when the edge is a library path, and otherwise stays
/// empty.
pub open spec fn spec_resolve_dep(d: DepModel, ws: WorkspaceModel) -> DepModel {
    if d.version.len() != 0 {
        d
    } else {
        match spec_find_entry_from(ws.dependencies, d.name, 0) {
            Some(i) => DepModel { version: spec_shared_version(ws.dependencies[i], ws.version), ..d },
            None => if d.kind is Library {
                DepModel { version: ws.version, ..d }
            } else {
                d
            },
        }
    }
}

/// Post-process one member target: its version is overwritten with the
/// workspace default, and every dependency edge is resolved against the
/// shared table.
pub open spec fn spec_apply_workspace(t: TargetModel, ws: WorkspaceModel) -> TargetModel {
    TargetModel {
        version: ws.version,
        dependencies: match t.dependencies {
            Some(ds) => Some(ds.map_values(|d: DepModel| spec_resolve_dep(d, ws))),
            None => None,
        },
        ..t
    }
}

/// Index of the first document filed under `path`, scanning from position
/// `i`.
pub open spec fn spec_lookup_from(
    store: Seq<ManifestEntryModel>,
    path: Seq<char>,
    i: int,
) -> Option<int>
    decreases store.len() - i,
{
    if i < 0 || i >= store.len() {
        None
    } else if store[i].path == path {
        Some(i)
    } else {
        spec_lookup_from(store, path, i + 1)
    }
}

/// How many further manifests a parse that has already walked `trail` may
/// still visit before every stored path has been seen once.
pub open spec fn remaining_fuel(store: Seq<ManifestEntryModel>, trail: Seq<Seq<char>>) -> nat {
    if store.len() >= trail.len() {
        (store.len() - trail.len()) as nat
    } else {
        0
    }
}

/// The targets of the manifest filed under `path`, with `trail` the chain
/// of ancestor workspace manifests already being parsed. A path on the
/// trail closes a member cycle and is an error; a path missing from the
/// store is an error; a single-package document yields its one target; a
/// document with neither package nor workspace record is an error; and a
/// workspace document yields its members' targets, each post-processed with
/// the workspace defaults. `fuel` bounds the member recursion; one unit is
/// spent per workspace level.
pub open spec fn spec_parse_manifest(
    store: Seq<ManifestEntryModel>,
    path: Seq<char>,
    trail: Seq<Seq<char>>,
    fuel: nat,
) -> Result<Seq<TargetModel>, GraphErrorModel>
    decreases fuel, 0int, 0int,
{
    if trail.contains(path) {
        Err(GraphErrorModel::CyclicWorkspace(path))
    } else {
        match spec_lookup_from(store, path, 0) {
            None => Err(GraphErrorModel::FilesystemError(path)),
            Some(i) => {
                let doc = store[i].doc;
                if doc.package is Some {
                    Ok(seq![spec_package_target(doc)])
                } else {
                    match doc.workspace {
                        None => Err(GraphErrorModel::MissingWorkspace),
                        Some(ws) => if fuel == 0 {
                            Err(GraphErrorModel::CyclicWorkspace(path))
                        } else {
                            spec_parse_members(
                                store,
                                ws,
                                spec_parent(path),
                                0,
                                trail.push(path),
                                (fuel - 1) as nat,
                            )
                        },
                    }
                }
            },
        }
    }
}

/// The targets of the workspace members from position `j` on: each member
/// manifest, looked up under `root/member/Cargo.toml`, contributes its
/// targets post-processed with the workspace defaults; the first error
/// aborts the walk.
pub open spec fn spec_parse_members(
    store: Seq<ManifestEntryModel>,
    ws: WorkspaceModel,
    root: Seq<char>,
    j: int,
    trail: Seq<Seq<char>>,
    fuel: nat,
) -> Result<Seq<TargetModel>, GraphErrorModel>
    decreases fuel, 1int, ws.members.len() - j,
{
    if j < 0 || j >= ws.members.len() {
        Ok(Seq::empty())
    } else {
        let mpath = spec_join(spec_join(root, ws.members[j]), "Cargo.toml"@);
        match spec_parse_manifest(store, mpath, trail, fuel) {
            Err(e) => Err(e),
            Ok(ts) => match spec_parse_members(store, ws, root, j + 1, trail, fuel) {
                Err(e) => Err(e),
                Ok(rest) => Ok(ts.map_values(|t: TargetModel| spec_apply_workspace(t, ws)) + rest),
            },
        }
    }
}

/// Every trail entry names a stored manifest, and no manifest is on the
/// trail twice.
pub open spec fn trail_wf(store: Seq<ManifestEntryModel>, trail: Seq<Seq<char>>) -> bool {
    &&& trail.no_duplicates()
    &&& forall|k: int|
        0 <= k < trail.len() ==> spec_lookup_from(store, #[trigger] trail[k], 0) is Some
}

proof fn lemma_lookup_from_props(store: Seq<ManifestEntryModel>, path: Seq<char>, i: int)
    requires
        0 <= i,
    ensures
        spec_lookup_from(store, path, i) matches Some(j) ==> i <= j < store.len() && store[j].path
            == path,
    decreases store.len() - i,
{
    if i < store.len() {
        lemma_lookup_from_props(store, path, i + 1);
    }
}

/// A duplicate-free trail of stored paths can never be longer than the
/// store itself.
proof fn lemma_trail_capacity(store: Seq<ManifestEntryModel>, trail: Seq<Seq<char>>)
    requires
        trail_wf(store, trail),
    ensures
        trail.len() <= store.len(),
{
    let idxs = Seq::new(
        trail.len(),
        |k: int|
            match spec_lookup_from(store, trail[k], 0) {
                Some(j) => j,
                None => 0,
            },
    );
    assert forall|a: int, b: int| 0 <= a < trail.len() && 0 <= b < trail.len() && a != b implies idxs[a]
        != idxs[b] by {
        lemma_lookup_from_props(store, trail[a], 0);
        lemma_lookup_from_props(store, trail[b], 0);
    }
    assert(idxs.no_duplicates());
    idxs.unique_seq_to_set();
    assert forall|x: int| idxs.to_set().contains(x) implies set_int_range(
        0,
        store.len() as int,
    ).contains(x) by {
        let k = choose|k: int| 0 <= k < idxs.len() && idxs[k] == x;
        lemma_lookup_from_props(store, trail[k], 0);
    }
    lemma_int_range(0, store.len() as int);
    lemma_len_subset(idxs.to_set(), set_int_range(0, store.len() as int));
}

/// Every target of a successful member walk carries the workspace's shared
/// default version.
proof fn lemma_members_version(
    store: Seq<ManifestEntryModel>,
    ws: WorkspaceModel,
    root: Seq<char>,
    j: int,
    trail: Seq<Seq<char>>,
    fuel: nat,
)
    requires
        j >= 0,
    ensures
        spec_parse_members(store, ws, root, j, trail, fuel) matches Ok(ts) ==> forall|k: int|
            0 <= k < ts.len() ==> #[trigger] ts[k].version == ws.version,
    decreases ws.members.len() - j,
{
    if j < ws.members.len() {
        lemma_members_version(store, ws, root, j + 1, trail, fuel);
    }
}

/// Index of the first shared table row named `name`.
fn find_shared(entries: &Vec<DependencyEntry>, name: &String) -> (r: Option<usize>)
    ensures
        match r {
            Some(i) => i < entries.len() && spec_find_entry_from(entries.deep_view(), name@, 0)
                == Some(i as int),
            None => spec_find_entry_from(entries.deep_view(), name@, 0) is None,
        },
{
    let mut k: usize = 0;
    while k < entries.len()
        invariant
            k <= entries.len(),
            spec_find_entry_from(entries.deep_view(), name@, 0) == spec_find_entry_from(
                entries.deep_view(),
                name@,
                k as int,
            ),
        decreases entries.len() - k,
    {
        if entries[k].name == *name {
            return Some(k);
        }
        k = k + 1;
    }
    None
}

/// Resolve one dependency edge against the workspace's shared table.
fn resolve_dep(d: &Dep, ws: &WorkspaceRecord) -> (r: Dep)
    ensures
        r@ == spec_resolve_dep(d@, ws@),
{
    if !d.version.as_str().is_empty() {
        return Dep { name: d.name.clone(), kind: d.kind, version: d.version.clone() };
    }
    match find_shared(&ws.dependencies, &d.name) {
        Some(i) => {
            let version = match &ws.dependencies[i].requirement {
                DependencySpec::Simple(v) => v.clone(),
                DependencySpec::Inherited => ws.version.clone(),
                DependencySpec::Detailed { version, .. } => match version {
                    Some(v) => v.clone(),
                    None => String::new(),
                },
            };
            Dep { name: d.name.clone(), kind: d.kind, version }
        },
        None => {
            if d.kind == TargetKind::Library {
                Dep { name: d.name.clone(), kind: d.kind, version: ws.version.clone() }
            } else {
                Dep { name: d.name.clone(), kind: d.kind, version: d.version.clone() }
            }
        },
    }
}

/// Post-process one produced member target with the workspace defaults:
/// overwrite its version with the shared default and resolve every edge
/// whose recorded version is still empty.
pub fn apply_workspace_defaults(t: &mut Target, ws: &WorkspaceRecord)
    ensures
        final(t)@ == spec_apply_workspace(old(t)@, ws@),
        final(t)@.version == ws@.version,
{
    t.version = ws.version.clone();
    let taken = t.dependencies.take();
    match taken {
        None => {
            assert(t@ =~= spec_apply_workspace(old(t)@, ws@));
        },
        Some(ds) => {
            let mut resolved: Vec<Dep> = Vec::new();
            let mut k: usize = 0;
            while k < ds.len()
                invariant
                    k <= ds.len(),
                    resolved.deep_view() =~= ds.deep_view().subrange(0, k as int).map_values(
                        |d: DepModel| spec_resolve_dep(d, ws@),
                    ),
                decreases ds.len() - k,
            {
                let ghost prev = resolved.deep_view();
                let nd = resolve_dep(&ds[k], ws);
                resolved.push(nd);
                proof {
                    assert(resolved.deep_view() =~= prev + seq![
                        spec_resolve_dep(ds.deep_view()[k as int], ws@),
                    ]);
                    assert(ds.deep_view().subrange(0, k as int + 1).map_values(
                        |d: DepModel| spec_resolve_dep(d, ws@),
                    ) =~= ds.deep_view().subrange(0, k as int).map_values(
                        |d: DepModel| spec_resolve_dep(d, ws@),
                    ) + seq![spec_resolve_dep(ds.deep_view()[k as int], ws@)]);
                }
                k = k + 1;
            }
            t.dependencies = Some(resolved);
            proof {
                assert(ds.deep_view().subrange(0, ds.len() as int) =~= ds.deep_view());
                assert(t@ =~= spec_apply_workspace(old(t)@, ws@));
            }
        },
    }
}

/// Post-process every member target with the workspace defaults.
fn apply_workspace_all(ts: &Vec<Target>, ws: &WorkspaceRecord) -> (r: Vec<Target>)
    ensures
        r.deep_view() == ts.deep_view().map_values(
            |t: TargetModel| spec_apply_workspace(t, ws@),
        ),
{
    let ghost orig = ts.deep_view();
    let mut r: Vec<Target> = Vec::new();
    let mut k: usize = 0;
    while k < ts.len()
        invariant
            k <= ts.len(),
            orig == ts.deep_view(),
            r.deep_view() =~= orig.subrange(0, k as int).map_values(
                |t: TargetModel| spec_apply_workspace(t, ws@),
            ),
        decreases ts.len() - k,
    {
        let ghost prev = r.deep_view();
        let mut t = ts[k].duplicate();
        apply_workspace_defaults(&mut t, ws);
        r.push(t);
        proof {
            assert(r.deep_view() =~= prev.push(spec_apply_workspace(orig[k as int], ws@)));
            assert(r.deep_view() =~= orig.subrange(0, k as int + 1).map_values(
                |t: TargetModel| spec_apply_workspace(t, ws@),
            ));
        }
        k = k + 1;
    }
    proof {
        assert(orig.subrange(0, orig.len() as int) =~= orig);
        assert(r.deep_view() =~= orig.map_values(|t: TargetModel| spec_apply_workspace(t, ws@)));
    }
    r
}

/// Whether `path` already stands on the trail of ancestor manifests.
fn trail_contains(trail: &Vec<String>, path: &String) -> (r: bool)
    ensures
        r == trail.deep_view().contains(path@),
{
    let mut k: usize = 0;
    while k < trail.len()
        invariant
            k <= trail.len(),
            forall|j: int| 0 <= j < k ==> trail.deep_view()[j] != path@,
        decreases trail.len() - k,
    {
        if trail[k] == *path {
            assert(trail.deep_view()[k as int] == path@);
            return true;
        }
        k = k + 1;
    }
    false
}

/// A copy of the trail with the same paths.
fn clone_paths(v: &Vec<String>) -> (r: Vec<String>)
    ensures
        r.deep_view() == v.deep_view(),
{
    let mut r: Vec<String> = Vec::new();
    let mut k: usize = 0;
    while k < v.len()
        invariant
            k <= v.len(),
            r.deep_view() =~= v.deep_view().subrange(0, k as int),
        decreases v.len() - k,
    {
        let ghost prev = r.deep_view();
        r.push(v[k].clone());
        proof {
            assert(r.deep_view() =~= prev.push(v.deep_view()[k as int]));
            assert(r.deep_view() =~= v.deep_view().subrange(0, k as int + 1));
        }
        k = k + 1;
    }
    proof {
        assert(v.deep_view().subrange(0, v.len() as int) =~= v.deep_view());
    }
    r
}

/// Index of the first stored document filed under `path`.
fn lookup_doc(store: &ManifestStore, path: &String) -> (r: Option<usize>)
    ensures
        match r {
            Some(i) => i < store.entries.len() && spec_lookup_from(store@, path@, 0) == Some(
                i as int,
            ),
            None => spec_lookup_from(store@, path@, 0) is None,
        },
{
    let mut k: usize = 0;
    while k < store.entries.len()
        invariant
            k <= store.entries.len(),
            spec_lookup_from(store@, path@, 0) == spec_lookup_from(store@, path@, k as int),
        decreases store.entries.len() - k,
    {
        if store.entries[k].path == *path {
            return Some(k);
        }
        k = k + 1;
    }
    None
}

/// The tag of the package-manifest adapter.
#[derive(Debug, Clone, Copy)]
pub struct RustConfiguration {}

impl RustConfiguration {
    /// Normalize a single-package document into its one target: Binary when
    /// no library output is declared, Library otherwise; the empty version
    /// when the package inherits its version from a workspace; and the
    /// classified union of the three dependency tables, in table order,
    /// duplicates kept.
    pub fn build_target_from_package(doc: &ManifestDoc) -> (t: Target)
        requires
            doc@.package is Some,
        ensures
            t@ == spec_package_target(doc@),
            (match doc@.package {
                Some(p) => t@.kind == (if p.has_library {
                    TargetKind::Library
                } else {
                    TargetKind::Binary
                }),
                None => false,
            }),
            t@.dependencies == Some(
                spec_merged_tables(doc@).map_values(
                    |e: DependencyEntryModel| spec_dep_of_entry(e),
                ),
            ),
    {
        let p = doc.package.as_ref().unwrap();
        let kind = if p.has_library {
            TargetKind::Library
        } else {
            TargetKind::Binary
        };
        let version = if p.inherits_version {
            String::new()
        } else {
            p.version.clone()
        };
        let mut t = Target::new(p.name.clone(), kind, version);
        let mut deps: Vec<Dep> = Vec::new();
        push_deps(&mut deps, &doc.dependencies);
        push_deps(&mut deps, &doc.dev_dependencies);
        push_deps(&mut deps, &doc.build_dependencies);
        t.add_dependencies(deps);
        proof {
            // the three appended tables concatenate in table order
            assert(t@.dependencies == Some(
                spec_merged_tables(doc@).map_values(
                    |e: DependencyEntryModel| spec_dep_of_entry(e),
                ),
            )) by {
                assert((doc@.dependencies + doc@.dev_dependencies).map_values(
                    |e: DependencyEntryModel| spec_dep_of_entry(e),
                ) =~= doc@.dependencies.map_values(|e: DependencyEntryModel| spec_dep_of_entry(e))
                    + doc@.dev_dependencies.map_values(
                    |e: DependencyEntryModel| spec_dep_of_entry(e),
                ));
                assert(spec_merged_tables(doc@).map_values(
                    |e: DependencyEntryModel| spec_dep_of_entry(e),
                ) =~= (doc@.dependencies + doc@.dev_dependencies).map_values(
                    |e: DependencyEntryModel| spec_dep_of_entry(e),
                ) + doc@.build_dependencies.map_values(
                    |e: DependencyEntryModel| spec_dep_of_entry(e),
                ));
                assert(Seq::<DepModel>::empty() + doc@.dependencies.map_values(
                    |e: DependencyEntryModel| spec_dep_of_entry(e),
                ) =~= doc@.dependencies.map_values(|e: DependencyEntryModel| spec_dep_of_entry(e)));
            }
        }
        t
    }

    /// Normalize the manifest filed under `path`, with `trail` the chain of
    /// ancestor workspace manifests already being walked: the cycle guard
    /// that turns a member chain leading back into an ancestor into a
    /// reported error.
    pub fn parse_at(store: &ManifestStore, path: &String, trail: &Vec<String>) -> (r: Result<
        Vec<Target>,
        GraphError,
    >)
        requires
            trail_wf(store@, trail.deep_view()),
        ensures
            parse_result_model(&r) == spec_parse_manifest(
                store@,
                path@,
                trail.deep_view(),
                remaining_fuel(store@, trail.deep_view()),
            ),
        decreases store@.len() - trail.deep_view().len(), 0int,
    {
        proof {
            lemma_trail_capacity(store@, trail.deep_view());
        }
        if trail_contains(trail, path) {
            return Err(GraphError::CyclicWorkspace(path.clone()));
        }
        match lookup_doc(store, path) {
            None => Err(GraphError::FilesystemError(path.clone())),
            Some(i) => {
                let doc = &store.entries[i].doc;
                if doc.package.is_some() {
                    let t = Self::build_target_from_package(doc);
                    let mut one: Vec<Target> = Vec::new();
                    one.push(t);
                    proof {
                        assert(one.deep_view() =~= seq![spec_package_target(doc@)]);
                    }
                    Ok(one)
                } else {
                    let mut trail2 = clone_paths(trail);
                    trail2.push(path.clone());
                    proof {
                        let tv = trail.deep_view();
                        let tv2 = trail2.deep_view();
                        assert(tv2 =~= tv.push(path@));
                        assert forall|a: int, b: int|
                            0 <= a < tv2.len() && 0 <= b < tv2.len() && a != b implies tv2[a]
                            != tv2[b] by {
                            if a == tv.len() && tv2[a] == tv2[b] {
                                assert(tv.contains(path@));
                            }
                            if b == tv.len() && tv2[a] == tv2[b] {
                                assert(tv.contains(path@));
                            }
                        }
                        assert(tv2.no_duplicates());
                        assert(trail_wf(store@, tv2));
                        lemma_trail_capacity(store@, tv2);
                        assert(remaining_fuel(store@, tv2) == remaining_fuel(store@, tv) - 1);
                    }
                    Self::build_targets_from_workspace(store, path, doc, &trail2)
                }
            },
        }
    }

    /// Normalize a workspace document: walk its member manifests in order,
    /// normalize each, and post-process every produced target with the
    /// workspace's shared defaults. `trail` already carries this manifest's
    /// own path. Fails when the document has no workspace record; a
    /// successful walk hands every target the shared default version.
    pub fn build_targets_from_workspace(
        store: &ManifestStore,
        path: &String,
        doc: &ManifestDoc,
        trail: &Vec<String>,
    ) -> (r: Result<Vec<Target>, GraphError>)
        requires
            trail_wf(store@, trail.deep_view()),
        ensures
            (match doc@.workspace {
                None => parse_result_model(&r) == Err::<Seq<TargetModel>, GraphErrorModel>(
                    GraphErrorModel::MissingWorkspace,
                ),
                Some(ws) => parse_result_model(&r) == spec_parse_members(
                    store@,
                    ws,
                    spec_parent(path@),
                    0,
                    trail.deep_view(),
                    remaining_fuel(store@, trail.deep_view()),
                ),
            }),
            (doc@.workspace matches Some(ws) ==> (r matches Ok(ts) ==> forall|k: int|
                0 <= k < ts.deep_view().len() ==> #[trigger] ts.deep_view()[k].version
                    == ws.version)),
        decreases store@.len() - trail.deep_view().len(), 1int,
    {
        match &doc.workspace {
            None => Err(GraphError::MissingWorkspace),
            Some(ws) => {
                let root = parent_of(path);
                let ghost fuel = remaining_fuel(store@, trail.deep_view());
                let mut targets: Vec<Target> = Vec::new();
                let mut j: usize = 0;
                while j < ws.members.len()
                    invariant
                        j <= ws.members.len(),
                        doc@.workspace == Some(ws@),
                        trail_wf(store@, trail.deep_view()),
                        fuel == remaining_fuel(store@, trail.deep_view()),
                        root@ == spec_parent(path@),
                        spec_parse_members(
                            store@,
                            ws@,
                            spec_parent(path@),
                            0,
                            trail.deep_view(),
                            fuel,
                        ) == (match spec_parse_members(
                            store@,
                            ws@,
                            spec_parent(path@),
                            j as int,
                            trail.deep_view(),
                            fuel,
                        ) {
                            Ok(rest) => Ok::<Seq<TargetModel>, GraphErrorModel>(
                                targets.deep_view() + rest,
                            ),
                            Err(e) => Err::<Seq<TargetModel>, GraphErrorModel>(e),
                        }),
                    decreases ws.members.len() - j,
                {
                    let mpath = join(&join(&root, ws.members[j].as_str()), "Cargo.toml");
                    let sub = Self::parse_at(store, &mpath, trail);
                    match sub {
                        Err(e) => {
                            proof {
                                assert(mpath@ == spec_join(
                                    spec_join(spec_parent(path@), ws@.members[j as int]),
                                    "Cargo.toml"@,
                                ));
                                assert(spec_parse_members(
                                    store@,
                                    ws@,
                                    spec_parent(path@),
                                    j as int,
                                    trail.deep_view(),
                                    fuel,
                                ) == Err::<Seq<TargetModel>, GraphErrorModel>(e@));
                            }
                            return Err(e);
                        },
                        Ok(ts) => {
                            let ghost prev = targets.deep_view();
                            let mut applied = apply_workspace_all(&ts, ws);
                            targets.append(&mut applied);
                            proof {
                                assert(targets.deep_view() =~= prev + ts.deep_view().map_values(
                                    |t: TargetModel| spec_apply_workspace(t, ws@),
                                ));
                                assert forall|rest: Seq<TargetModel>|
                                    true implies (prev + (ts.deep_view().map_values(
                                    |t: TargetModel| spec_apply_workspace(t, ws@),
                                ) + rest)) =~= (targets.deep_view() + rest) by {}
                            }
                        },
                    }
                    j = j + 1;
                }
                proof {
                    assert(targets.deep_view() + Seq::<TargetModel>::empty() =~= targets.deep_view());
                    lemma_members_version(
                        store@,
                        ws@,
                        spec_parent(path@),
                        0,
                        trail.deep_view(),
                        fuel,
                    );
                }
                Ok(targets)
            },
        }
    }

    /// Normalize the manifest filed under `path` against `store`, with a
    /// fresh trail.
    pub fn parse_store(store: &ManifestStore, path: &String) -> (r: Result<Vec<Target>, GraphError>)
        ensures
            parse_result_model(&r) == spec_parse_manifest(
                store@,
                path@,
                Seq::empty(),
                remaining_fuel(store@, Seq::empty()),
            ),
    {
        let trail: Vec<String> = Vec::new();
        proof {
            assert(trail.deep_view() =~= Seq::<Seq<char>>::empty());
        }
        Self::parse_at(store, path, &trail)
    }
}

} // verus!
