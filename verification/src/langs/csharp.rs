//! The solution adapter. A solution document names an ordered list of
//! projects; each project's descriptor is an element stream that has already
//! been tokenized from its XML text. The adapter turns every project into a
//! target whose dependency edges first carry canonical absolute paths and
//! are then rewritten to declared project names where the referenced project
//! belongs to the same solution.

use vstd::prelude::*;

use crate::errors::{parse_result_model, GraphError, GraphErrorModel};
use crate::model::{Dep, DepModel, Target, TargetKind, TargetModel};
use crate::paths::{
    join, parent_of, spec_has_prefix, spec_join, spec_parent, spec_swap_chars, swap_chars,
};

verus! {

/// One project of a solution: its declared name and the path-or-identifier
/// string under which the solution lists it.
pub struct ProjectRecord {
    pub name: String,
    pub path_or_uri: String,
}

/// One attribute of an XML start element, by local name.
pub struct XmlAttribute {
    pub name: String,
    pub value: String,
}

/// One token of a project descriptor's element stream.
pub enum XmlPiece {
    Start { name: String, attributes: Vec<XmlAttribute> },
    Text(String),
    End,
    Other,
}

/// The tokenized element stream of one project descriptor, filed under the
/// path it was read from.
pub struct ProjectFileEntry {
    pub path: String,
    pub pieces: Vec<XmlPiece>,
}

/// One canonicalization fact: the path as assembled from the descriptor,
/// and its canonical absolute form with symlinks and relative steps
/// resolved.
pub struct CanonicalEntry {
    pub path: String,
    pub canonical: String,
}

/// Everything one solution parse consumes: the canonical directory of the
/// solution file, the solution file's text, the tokenized project
/// descriptors, and the canonicalization facts for reference paths.
pub struct SolutionDoc {
    pub root: String,
    pub text: String,
    pub files: Vec<ProjectFileEntry>,
    pub canonical: Vec<CanonicalEntry>,
}

/// Mathematical image of a [`ProjectRecord`].
pub ghost struct ProjectRecordModel {
    pub name: Seq<char>,
    pub path_or_uri: Seq<char>,
}

/// Mathematical image of an [`XmlAttribute`].
pub ghost struct XmlAttributeModel {
    pub name: Seq<char>,
    pub value: Seq<char>,
}

/// Mathematical image of an [`XmlPiece`].
pub ghost enum XmlPieceModel {
    Start { name: Seq<char>, attributes: Seq<XmlAttributeModel> },
    Text(Seq<char>),
    End,
    Other,
}

/// Mathematical image of a [`ProjectFileEntry`].
pub ghost struct ProjectFileEntryModel {
    pub path: Seq<char>,
    pub pieces: Seq<XmlPieceModel>,
}

/// Mathematical image of a [`CanonicalEntry`].
pub ghost struct CanonicalEntryModel {
    pub path: Seq<char>,
    pub canonical: Seq<char>,
}

/// Mathematical image of a [`SolutionDoc`].
pub ghost struct SolutionDocModel {
    pub root: Seq<char>,
    pub text: Seq<char>,
    pub files: Seq<ProjectFileEntryModel>,
    pub canonical: Seq<CanonicalEntryModel>,
}

impl View for ProjectRecord {
    type V = ProjectRecordModel;

    open spec fn view(&self) -> ProjectRecordModel {
        ProjectRecordModel { name: self.name@, path_or_uri: self.path_or_uri@ }
    }
}

impl DeepView for ProjectRecord {
    type V = ProjectRecordModel;

    open spec fn deep_view(&self) -> ProjectRecordModel {
        self@
    }
}

impl View for XmlAttribute {
    type V = XmlAttributeModel;

    open spec fn view(&self) -> XmlAttributeModel {
        XmlAttributeModel { name: self.name@, value: self.value@ }
    }
}

impl DeepView for XmlAttribute {
    type V = XmlAttributeModel;

    open spec fn deep_view(&self) -> XmlAttributeModel {
        self@
    }
}

impl View for XmlPiece {
    type V = XmlPieceModel;

    open spec fn view(&self) -> XmlPieceModel {
        match self {
            XmlPiece::Start { name, attributes } => XmlPieceModel::Start {
                name: name@,
                attributes: attributes.deep_view(),
            },
            XmlPiece::Text(t) => XmlPieceModel::Text(t@),
            XmlPiece::End => XmlPieceModel::End,
            XmlPiece::Other => XmlPieceModel::Other,
        }
    }
}

impl DeepView for XmlPiece {
    type V = XmlPieceModel;

    open spec fn deep_view(&self) -> XmlPieceModel {
        self@
    }
}

impl View for ProjectFileEntry {
    type V = ProjectFileEntryModel;

    open spec fn view(&self) -> ProjectFileEntryModel {
        ProjectFileEntryModel { path: self.path@, pieces: self.pieces.deep_view() }
    }
}

impl DeepView for ProjectFileEntry {
    type V = ProjectFileEntryModel;

    open spec fn deep_view(&self) -> ProjectFileEntryModel {
        self@
    }
}

impl View for CanonicalEntry {
    type V = CanonicalEntryModel;

    open spec fn view(&self) -> CanonicalEntryModel {
        CanonicalEntryModel { path: self.path@, canonical: self.canonical@ }
    }
}

impl DeepView for CanonicalEntry {
    type V = CanonicalEntryModel;

    open spec fn deep_view(&self) -> CanonicalEntryModel {
        self@
    }
}

impl View for SolutionDoc {
    type V = SolutionDocModel;

    open spec fn view(&self) -> SolutionDocModel {
        SolutionDocModel {
            root: self.root@,
            text: self.text@,
            files: self.files.deep_view(),
            canonical: self.canonical.deep_view(),
        }
    }
}

/// The `(name, path-or-identifier)` pairs of the projects a solution
/// document lists (solution folders left out), as a function of the
/// document's text; for a text that is not a well-formed solution document,
/// the parser's error message, itself a function of the text alone.
pub uninterp spec fn solution_projects_of(text: Seq<char>) -> Result<
    Seq<(Seq<char>, Seq<char>)>,
    Seq<char>,
>;

/// Relies on `solp::parse_str` and `solp::api::Solution::iterate_projects`:
/// parsing is a pure function of the solution text, and `iterate_projects`
/// yields the solution's project records (without solution folders) with
/// their declared names and path-or-identifier strings.
#[verifier::external_body]
fn parse_solution_projects(text: &str) -> (r: Result<Vec<ProjectRecord>, String>)
    ensures
        match r {
            Ok(ps) => solution_projects_of(text@) == Ok::<_, Seq<char>>(
                ps.deep_view().map_values(|p: ProjectRecordModel| (p.name, p.path_or_uri)),
            ),
            Err(m) => solution_projects_of(text@) == Err::<Seq<(Seq<char>, Seq<char>)>, _>(m@),
        },
{
    match solp::parse_str(text) {
        Ok(solution) => Ok(
            solution.iterate_projects().map(
                |p| ProjectRecord {
                    name: p.name.to_string(),
                    path_or_uri: p.path_or_uri.to_string(),
                },
            ).collect(),
        ),
        Err(e) => Err(e.to_string()),
    }
}

/// Index of the first attribute with local name `name`, scanning from `i`.
pub open spec fn spec_find_attr_from(
    attrs: Seq<XmlAttributeModel>,
    name: Seq<char>,
    i: int,
) -> Option<int>
    decreases attrs.len() - i,
{
    if i < 0 || i >= attrs.len() {
        None
    } else if attrs[i].name == name {
        Some(i)
    } else {
        spec_find_attr_from(attrs, name, i + 1)
    }
}

/// Index of the first canonicalization fact for `path`, scanning from `i`.
pub open spec fn spec_canon_from(
    entries: Seq<CanonicalEntryModel>,
    path: Seq<char>,
    i: int,
) -> Option<int>
    decreases entries.len() - i,
{
    if i < 0 || i >= entries.len() {
        None
    } else if entries[i].path == path {
        Some(i)
    } else {
        spec_canon_from(entries, path, i + 1)
    }
}

/// Index of the first descriptor filed under `path`, scanning from `i`.
pub open spec fn spec_file_from(
    files: Seq<ProjectFileEntryModel>,
    path: Seq<char>,
    i: int,
) -> Option<int>
    decreases files.len() - i,
{
    if i < 0 || i >= files.len() {
        None
    } else if files[i].path == path {
        Some(i)
    } else {
        spec_file_from(files, path, i + 1)
    }
}

/// The walk of a descriptor's element stream from position `i` on, carrying
/// the name of the element being read, the build-output kind seen so far,
/// and the canonical reference paths collected so far. A `Project` element
/// whose `Sdk` attribute names the web-application SDK makes the output a
/// binary, as does an `OutputType` field reading `Exe`; every
/// `ProjectReference` element's `Include` attribute is resolved against the
/// project's directory and canonicalized, and a path with no
/// canonicalization fact is an error.
pub open spec fn spec_walk_pieces(
    pieces: Seq<XmlPieceModel>,
    i: int,
    current: Seq<char>,
    kind: TargetKind,
    refs: Seq<Seq<char>>,
    dir: Seq<char>,
    canon: Seq<CanonicalEntryModel>,
) -> Result<(TargetKind, Seq<Seq<char>>), GraphErrorModel>
    decreases pieces.len() - i,
{
    if i < 0 || i >= pieces.len() {
        Ok((kind, refs))
    } else {
        match pieces[i] {
            XmlPieceModel::Start { name, attributes } => {
                if name == "Project"@ {
                    let kind2 = match spec_find_attr_from(attributes, "Sdk"@, 0) {
                        Some(a) => if attributes[a].value == "Microsoft.NET.Sdk.Web"@ {
                            TargetKind::Binary
                        } else {
                            kind
                        },
                        None => kind,
                    };
                    spec_walk_pieces(pieces, i + 1, name, kind2, refs, dir, canon)
                } else if name == "ProjectReference"@ {
                    match spec_find_attr_from(attributes, "Include"@, 0) {
                        Some(a) => {
                            let raw = spec_join(
                                dir,
                                spec_swap_chars(attributes[a].value, '\\', '/'),
                            );
                            match spec_canon_from(canon, raw, 0) {
                                Some(c) => spec_walk_pieces(
                                    pieces,
                                    i + 1,
                                    name,
                                    kind,
                                    refs.push(canon[c].canonical),
                                    dir,
                                    canon,
                                ),
                                None => Err(GraphErrorModel::FilesystemError(raw)),
                            }
                        },
                        None => spec_walk_pieces(pieces, i + 1, name, kind, refs, dir, canon),
                    }
                } else {
                    spec_walk_pieces(pieces, i + 1, name, kind, refs, dir, canon)
                }
            },
            XmlPieceModel::Text(chars) => {
                let kind2 = if current == "OutputType"@ && chars == "Exe"@ {
                    TargetKind::Binary
                } else {
                    kind
                };
                spec_walk_pieces(pieces, i + 1, current, kind2, refs, dir, canon)
            },
            XmlPieceModel::End => spec_walk_pieces(
                pieces,
                i + 1,
                Seq::empty(),
                kind,
                refs,
                dir,
                canon,
            ),
            XmlPieceModel::Other => spec_walk_pieces(pieces, i + 1, current, kind, refs, dir, canon),
        }
    }
}

/// The target one project descriptor yields: the project's declared name,
/// the walked build-output kind (library unless the stream says otherwise),
/// an empty version, and one library edge per canonical reference path.
pub open spec fn spec_project_target(
    name: Seq<char>,
    pieces: Seq<XmlPieceModel>,
    dir: Seq<char>,
    canon: Seq<CanonicalEntryModel>,
) -> Result<TargetModel, GraphErrorModel> {
    match spec_walk_pieces(pieces, 0, Seq::empty(), TargetKind::Library, Seq::empty(), dir, canon) {
        Err(e) => Err(e),
        Ok((kind, refs)) => Ok(
            TargetModel {
                name: name,
                kind: kind,
                version: Seq::empty(),
                dependencies: Some(
                    refs.map_values(
                        |n: Seq<char>| DepModel {
                            name: n,
                            kind: TargetKind::Library,
                            version: Seq::empty(),
                        },
                    ),
                ),
                height: 0,
            },
        ),
    }
}

/// Index of the first project whose path-or-identifier equals `uri`,
/// scanning from `i`.
pub open spec fn spec_project_by_uri(
    projects: Seq<(Seq<char>, Seq<char>)>,
    uri: Seq<char>,
    i: int,
) -> Option<int>
    decreases projects.len() - i,
{
    if i < 0 || i >= projects.len() {
        None
    } else if projects[i].1 == uri {
        Some(i)
    } else {
        spec_project_by_uri(projects, uri, i + 1)
    }
}

/// Rewrite one edge after all projects are known: when the recorded
/// canonical path lies under the solution root, strip the root and its
/// separator, turn the separators back into the solution convention, and
/// look the result up among the projects' path-or-identifier strings; a hit
/// replaces the edge's name with the project's declared name, a miss keeps
/// the path-derived name as an unresolved external reference.
pub open spec fn spec_rewrite_dep(
    d: DepModel,
    root: Seq<char>,
    projects: Seq<(Seq<char>, Seq<char>)>,
) -> DepModel {
    if spec_has_prefix(d.name, root + seq!['/']) {
        let rel = d.name.subrange(root.len() as int + 1, d.name.len() as int);
        let uri = spec_swap_chars(rel, '/', '\\');
        match spec_project_by_uri(projects, uri, 0) {
            Some(i) => DepModel { name: projects[i].0, ..d },
            None => d,
        }
    } else {
        d
    }
}

/// Rewrite every edge of one produced target.
pub open spec fn spec_rewrite_target(
    t: TargetModel,
    root: Seq<char>,
    projects: Seq<(Seq<char>, Seq<char>)>,
) -> TargetModel {
    TargetModel {
        dependencies: match t.dependencies {
            Some(ds) => Some(
                ds.map_values(|d: DepModel| spec_rewrite_dep(d, root, projects)),
            ),
            None => None,
        },
        ..t
    }
}

/// The targets of the solution's projects from position `j` on: each
/// project's descriptor is looked up under the solution root, walked into a
/// target, and its edges rewritten; the first error aborts the walk.
pub open spec fn spec_solution_from(
    projects: Seq<(Seq<char>, Seq<char>)>,
    j: int,
    doc: SolutionDocModel,
) -> Result<Seq<TargetModel>, GraphErrorModel>
    decreases projects.len() - j,
{
    if j < 0 || j >= projects.len() {
        Ok(Seq::empty())
    } else {
        let ppath = spec_join(doc.root, spec_swap_chars(projects[j].1, '\\', '/'));
        match spec_file_from(doc.files, ppath, 0) {
            None => Err(GraphErrorModel::FilesystemError(ppath)),
            Some(fi) => match spec_project_target(
                projects[j].0,
                doc.files[fi].pieces,
                spec_parent(ppath),
                doc.canonical,
            ) {
                Err(e) => Err(e),
                Ok(t) => match spec_solution_from(projects, j + 1, doc) {
                    Err(e) => Err(e),
                    Ok(rest) => Ok(seq![spec_rewrite_target(t, doc.root, projects)] + rest),
                },
            },
        }
    }
}

/// The `(name, path-or-identifier)` pairs of a project list.
pub open spec fn project_tuples(ps: Seq<ProjectRecordModel>) -> Seq<(Seq<char>, Seq<char>)> {
    ps.map_values(|p: ProjectRecordModel| (p.name, p.path_or_uri))
}

/// Index of the first attribute with local name `name`.
fn find_attr(attrs: &Vec<XmlAttribute>, name: &String) -> (r: Option<usize>)
    ensures
        match r {
            Some(i) => i < attrs.len() && spec_find_attr_from(attrs.deep_view(), name@, 0) == Some(
                i as int,
            ),
            None => spec_find_attr_from(attrs.deep_view(), name@, 0) is None,
        },
{
    let mut k: usize = 0;
    while k < attrs.len()
        invariant
            k <= attrs.len(),
            spec_find_attr_from(attrs.deep_view(), name@, 0) == spec_find_attr_from(
                attrs.deep_view(),
                name@,
                k as int,
            ),
        decreases attrs.len() - k,
    {
        if attrs[k].name == *name {
            return Some(k);
        }
        k = k + 1;
    }
    None
}

/// Index of the first canonicalization fact for `path`.
fn canon_lookup(entries: &Vec<CanonicalEntry>, path: &String) -> (r: Option<usize>)
    ensures
        match r {
            Some(i) => i < entries.len() && spec_canon_from(entries.deep_view(), path@, 0) == Some(
                i as int,
            ),
            None => spec_canon_from(entries.deep_view(), path@, 0) is None,
        },
{
    let mut k: usize = 0;
    while k < entries.len()
        invariant
            k <= entries.len(),
            spec_canon_from(entries.deep_view(), path@, 0) == spec_canon_from(
                entries.deep_view(),
                path@,
                k as int,
            ),
        decreases entries.len() - k,
    {
        if entries[k].path == *path {
            return Some(k);
        }
        k = k + 1;
    }
    None
}

/// Index of the first tokenized descriptor filed under `path`.
fn file_lookup(files: &Vec<ProjectFileEntry>, path: &String) -> (r: Option<usize>)
    ensures
        match r {
            Some(i) => i < files.len() && spec_file_from(files.deep_view(), path@, 0) == Some(
                i as int,
            ),
            None => spec_file_from(files.deep_view(), path@, 0) is None,
        },
{
    let mut k: usize = 0;
    while k < files.len()
        invariant
            k <= files.len(),
            spec_file_from(files.deep_view(), path@, 0) == spec_file_from(
                files.deep_view(),
                path@,
                k as int,
            ),
        decreases files.len() - k,
    {
        if files[k].path == *path {
            return Some(k);
        }
        k = k + 1;
    }
    None
}

/// Index of the first project listed under the path-or-identifier `uri`.
fn project_by_uri(projects: &Vec<ProjectRecord>, uri: &String) -> (r: Option<usize>)
    ensures
        match r {
            Some(i) => i < projects.len() && spec_project_by_uri(
                project_tuples(projects.deep_view()),
                uri@,
                0,
            ) == Some(i as int),
            None => spec_project_by_uri(project_tuples(projects.deep_view()), uri@, 0) is None,
        },
{
    let mut k: usize = 0;
    while k < projects.len()
        invariant
            k <= projects.len(),
            spec_project_by_uri(project_tuples(projects.deep_view()), uri@, 0)
                == spec_project_by_uri(project_tuples(projects.deep_view()), uri@, k as int),
        decreases projects.len() - k,
    {
        if projects[k].path_or_uri == *uri {
            return Some(k);
        }
        k = k + 1;
    }
    None
}

/// Turn one project descriptor's element stream into a target: the declared
/// project name, the walked build-output kind, an empty version, and one
/// library edge per canonicalized project reference.
pub fn from_project_into_target(
    project: &ProjectRecord,
    pieces: &Vec<XmlPiece>,
    dir: &String,
    canonical: &Vec<CanonicalEntry>,
) -> (r: Result<Target, GraphError>)
    ensures
        match r {
            Ok(t) => spec_project_target(
                project@.name,
                pieces.deep_view(),
                dir@,
                canonical.deep_view(),
            ) == Ok::<TargetModel, GraphErrorModel>(t@),
            Err(e) => spec_project_target(
                project@.name,
                pieces.deep_view(),
                dir@,
                canonical.deep_view(),
            ) == Err::<TargetModel, GraphErrorModel>(e@),
        },
{
    let ghost pv = pieces.deep_view();
    let ghost dirv = dir@;
    let ghost canonv = canonical.deep_view();
    let mut current: String = String::new();
    let mut kind = TargetKind::Library;
    let mut refs: Vec<String> = Vec::new();
    proof {
        assert(current@ =~= Seq::<char>::empty());
        assert(refs.deep_view() =~= Seq::<Seq<char>>::empty());
    }
    let mut i: usize = 0;
    while i < pieces.len()
        invariant
            i <= pieces.len(),
            pv == pieces.deep_view(),
            dirv == dir@,
            canonv == canonical.deep_view(),
            spec_walk_pieces(pv, 0, Seq::empty(), TargetKind::Library, Seq::empty(), dirv, canonv)
                == spec_walk_pieces(pv, i as int, current@, kind, refs.deep_view(), dirv, canonv),
        decreases pieces.len() - i,
    {
        let ghost pre_current = current@;
        let ghost pre_kind = kind;
        let ghost pre_refs = refs.deep_view();
        match &pieces[i] {
            XmlPiece::Start { name, attributes } => {
                let pat_project: String = "Project".to_owned();
                let pat_projref: String = "ProjectReference".to_owned();
                if *name == pat_project {
                    let pat_sdk: String = "Sdk".to_owned();
                    let pat_web: String = "Microsoft.NET.Sdk.Web".to_owned();
                    match find_attr(attributes, &pat_sdk) {
                        Some(a) => {
                            if attributes[a].value == pat_web {
                                kind = TargetKind::Binary;
                            }
                        },
                        None => {},
                    }
                    current = name.clone();
                } else if *name == pat_projref {
                    let pat_include: String = "Include".to_owned();
                    match find_attr(attributes, &pat_include) {
                        Some(a) => {
                            proof {
                                reveal_strlit("/");
                                assert("/"@ =~= seq!['/']);
                            }
                            let fixed = swap_chars(&attributes[a].value, '\\', '/', "/");
                            let raw = join(dir, fixed.as_str());
                            match canon_lookup(canonical, &raw) {
                                Some(c) => {
                                    let ghost pre = refs.deep_view();
                                    refs.push(canonical[c].canonical.clone());
                                    proof {
                                        assert(refs.deep_view() =~= pre.push(
                                            canonv[c as int].canonical,
                                        ));
                                    }
                                },
                                None => {
                                    return Err(GraphError::FilesystemError(raw));
                                },
                            }
                        },
                        None => {},
                    }
                    current = name.clone();
                } else {
                    current = name.clone();
                }
            },
            XmlPiece::Text(chars) => {
                let pat_outputtype: String = "OutputType".to_owned();
                let pat_exe: String = "Exe".to_owned();
                if current == pat_outputtype && *chars == pat_exe {
                    kind = TargetKind::Binary;
                }
            },
            XmlPiece::End => {
                current = String::new();
            },
            XmlPiece::Other => {},
        }
        proof {
            assert(spec_walk_pieces(pv, i as int, pre_current, pre_kind, pre_refs, dirv, canonv)
                == spec_walk_pieces(
                pv,
                i as int + 1,
                current@,
                kind,
                refs.deep_view(),
                dirv,
                canonv,
            ));
        }
        i = i + 1;
    }
    let mut t = Target::new(project.name.clone(), kind, String::new());
    let mut deps: Vec<Dep> = Vec::new();
    let mut k: usize = 0;
    while k < refs.len()
        invariant
            k <= refs.len(),
            deps.deep_view() =~= refs.deep_view().subrange(0, k as int).map_values(
                |n: Seq<char>| DepModel {
                    name: n,
                    kind: TargetKind::Library,
                    version: Seq::empty(),
                },
            ),
        decreases refs.len() - k,
    {
        let ghost prev = deps.deep_view();
        deps.push(Dep { name: refs[k].clone(), kind: TargetKind::Library, version: String::new() });
        proof {
            assert(deps.deep_view() =~= prev.push(
                DepModel {
                    name: refs.deep_view()[k as int],
                    kind: TargetKind::Library,
                    version: Seq::empty(),
                },
            ));
            assert(deps.deep_view() =~= refs.deep_view().subrange(0, k as int + 1).map_values(
                |n: Seq<char>| DepModel {
                    name: n,
                    kind: TargetKind::Library,
                    version: Seq::empty(),
                },
            ));
        }
        k = k + 1;
    }
    t.add_dependencies(deps);
    proof {
        assert(refs.deep_view().subrange(0, refs.len() as int) =~= refs.deep_view());
        assert(Seq::<DepModel>::empty() + refs.deep_view().map_values(
            |n: Seq<char>| DepModel { name: n, kind: TargetKind::Library, version: Seq::empty() },
        ) =~= refs.deep_view().map_values(
            |n: Seq<char>| DepModel { name: n, kind: TargetKind::Library, version: Seq::empty() },
        ));
    }
    Ok(t)
}

/// Rewrite one edge against the solution's project list.
fn rewrite_dep(d: &Dep, root: &String, projects: &Vec<ProjectRecord>) -> (r: Dep)
    ensures
        r@ == spec_rewrite_dep(d@, root@, project_tuples(projects.deep_view())),
{
    let mut pre = root.clone();
    pre.append("/");
    proof {
        reveal_strlit("/");
        assert(pre@ =~= root@ + seq!['/']);
    }
    if crate::paths::has_prefix(&d.name, &pre) {
        let root_len = root.as_str().unicode_len();
        let name_len = d.name.as_str().unicode_len();
        let rel = d.name.as_str().substring_char(root_len + 1, name_len).to_owned();
        proof {
            reveal_strlit("\\");
            assert("\\"@ =~= seq!['\\']);
        }
        let uri = swap_chars(&rel, '/', '\\', "\\");
        match project_by_uri(projects, &uri) {
            Some(i) => Dep {
                name: projects[i].name.clone(),
                kind: d.kind,
                version: d.version.clone(),
            },
            None => d.duplicate(),
        }
    } else {
        d.duplicate()
    }
}

/// Rewrite every edge of one produced target against the project list.
pub fn rewrite_deps(t: &mut Target, root: &String, projects: &Vec<ProjectRecord>)
    ensures
        final(t)@ == spec_rewrite_target(old(t)@, root@, project_tuples(projects.deep_view())),
{
    let taken = t.dependencies.take();
    match taken {
        None => {
            assert(t@ =~= spec_rewrite_target(
                old(t)@,
                root@,
                project_tuples(projects.deep_view()),
            ));
        },
        Some(ds) => {
            let mut rewritten: Vec<Dep> = Vec::new();
            let mut k: usize = 0;
            while k < ds.len()
                invariant
                    k <= ds.len(),
                    rewritten.deep_view() =~= ds.deep_view().subrange(0, k as int).map_values(
                        |d: DepModel| spec_rewrite_dep(
                            d,
                            root@,
                            project_tuples(projects.deep_view()),
                        ),
                    ),
                decreases ds.len() - k,
            {
                let ghost prev = rewritten.deep_view();
                let nd = rewrite_dep(&ds[k], root, projects);
                rewritten.push(nd);
                proof {
                    assert(rewritten.deep_view() =~= prev.push(
                        spec_rewrite_dep(
                            ds.deep_view()[k as int],
                            root@,
                            project_tuples(projects.deep_view()),
                        ),
                    ));
                    assert(rewritten.deep_view() =~= ds.deep_view().subrange(
                        0,
                        k as int + 1,
                    ).map_values(
                        |d: DepModel| spec_rewrite_dep(
                            d,
                            root@,
                            project_tuples(projects.deep_view()),
                        ),
                    ));
                }
                k = k + 1;
            }
            t.dependencies = Some(rewritten);
            proof {
                assert(ds.deep_view().subrange(0, ds.len() as int) =~= ds.deep_view());
                assert(t@ =~= spec_rewrite_target(
                    old(t)@,
                    root@,
                    project_tuples(projects.deep_view()),
                ));
            }
        },
    }
}

/// What a whole solution parse returns: the walked and rewritten targets of
/// every project, or the first error; a text that is no well-formed solution
/// document fails with the parser's message.
pub open spec fn spec_solution_targets(doc: SolutionDocModel) -> Result<
    Seq<TargetModel>,
    GraphErrorModel,
> {
    match solution_projects_of(doc.text) {
        Err(m) => Err(GraphErrorModel::MalformedManifest(m)),
        Ok(ps) => spec_solution_from(ps, 0, doc),
    }
}

/// The tag of the solution adapter.
#[derive(Debug, Clone, Copy)]
pub struct CSharpConfiguration {}

impl CSharpConfiguration {
    /// Normalize a solution document: parse its project list, walk every
    /// project's element stream into a target, and rewrite the recorded
    /// canonical reference paths to declared project names where the
    /// referenced project belongs to the solution.
    pub fn parse_solution(doc: &SolutionDoc) -> (r: Result<Vec<Target>, GraphError>)
        ensures
            parse_result_model(&r) == spec_solution_targets(doc@),
    {
        let projects = match parse_solution_projects(doc.text.as_str()) {
            Ok(ps) => ps,
            Err(m) => {
                return Err(GraphError::MalformedManifest(m));
            },
        };
        let ghost tuples = project_tuples(projects.deep_view());
        let mut targets: Vec<Target> = Vec::new();
        let mut j: usize = 0;
        while j < projects.len()
            invariant
                j <= projects.len(),
                tuples == project_tuples(projects.deep_view()),
                solution_projects_of(doc@.text) == Ok::<_, Seq<char>>(tuples),
                spec_solution_from(tuples, 0, doc@) == (match spec_solution_from(
                    tuples,
                    j as int,
                    doc@,
                ) {
                    Ok(rest) => Ok::<Seq<TargetModel>, GraphErrorModel>(targets.deep_view() + rest),
                    Err(e) => Err::<Seq<TargetModel>, GraphErrorModel>(e),
                }),
            decreases projects.len() - j,
        {
            proof {
                reveal_strlit("/");
                assert("/"@ =~= seq!['/']);
                assert(tuples[j as int].1 == projects.deep_view()[j as int].path_or_uri);
            }
            let fixed = swap_chars(&projects[j].path_or_uri, '\\', '/', "/");
            let ppath = join(&doc.root, fixed.as_str());
            match file_lookup(&doc.files, &ppath) {
                None => {
                    proof {
                        assert(spec_solution_from(tuples, j as int, doc@)
                            == Err::<Seq<TargetModel>, GraphErrorModel>(
                            GraphErrorModel::FilesystemError(ppath@),
                        ));
                    }
                    return Err(GraphError::FilesystemError(ppath));
                },
                Some(fi) => {
                    let dir = parent_of(&ppath);
                    match from_project_into_target(
                        &projects[j],
                        &doc.files[fi].pieces,
                        &dir,
                        &doc.canonical,
                    ) {
                        Err(e) => {
                            return Err(e);
                        },
                        Ok(t) => {
                            let mut t = t;
                            rewrite_deps(&mut t, &doc.root, &projects);
                            let ghost produced = t@;
                            let ghost prev = targets.deep_view();
                            targets.push(t);
                            proof {
                                assert(targets.deep_view() =~= prev + seq![produced]);
                                assert forall|rest: Seq<TargetModel>| true implies (prev + (seq![
                                    produced,
                                ] + rest)) =~= (targets.deep_view() + rest) by {}
                            }
                        },
                    }
                },
            }
            j = j + 1;
        }
        proof {
            assert(targets.deep_view() + Seq::<TargetModel>::empty() =~= targets.deep_view());
        }
        Ok(targets)
    }
}

} // verus!
