//! The manifest adapters and the selector that picks one by input path.
//!
//! The adapter set is closed: a tagged union over the package-manifest
//! adapter and the solution adapter, with one dispatch point. Recognition
//! goes by the file name alone, never by content.

pub mod csharp;
pub mod rust;

use vstd::prelude::*;

use crate::errors::{parse_result_model, GraphError, GraphErrorModel};
use crate::langs::csharp::{spec_solution_targets, CSharpConfiguration, SolutionDoc, SolutionDocModel};
use crate::langs::rust::{
    remaining_fuel, spec_parse_manifest, ManifestEntryModel, ManifestStore, RustConfiguration,
};
use crate::model::{Target, TargetModel};
use crate::paths::{
    extension_is, final_component_is, spec_extension_is, spec_final_component_is,
};

verus! {

/// A solution document filed under the path of its solution file.
pub struct SolutionEntry {
    pub path: String,
    pub doc: SolutionDoc,
}

/// Mathematical image of a [`SolutionEntry`].
pub ghost struct SolutionEntryModel {
    pub path: Seq<char>,
    pub doc: SolutionDocModel,
}

impl View for SolutionEntry {
    type V = SolutionEntryModel;

    open spec fn view(&self) -> SolutionEntryModel {
        SolutionEntryModel { path: self.path@, doc: self.doc@ }
    }
}

impl DeepView for SolutionEntry {
    type V = SolutionEntryModel;

    open spec fn deep_view(&self) -> SolutionEntryModel {
        self@
    }
}

/// Every document one run may read, keyed by path: the manifest store for
/// the package-manifest adapter and the solution documents for the solution
/// adapter.
pub struct SourceTree {
    pub manifests: ManifestStore,
    pub solutions: Vec<SolutionEntry>,
}

/// Mathematical image of a [`SourceTree`].
pub ghost struct SourceTreeModel {
    pub manifests: Seq<ManifestEntryModel>,
    pub solutions: Seq<SolutionEntryModel>,
}

impl View for SourceTree {
    type V = SourceTreeModel;

    open spec fn view(&self) -> SourceTreeModel {
        SourceTreeModel { manifests: self.manifests@, solutions: self.solutions.deep_view() }
    }
}

/// Index of the first solution document filed under `path`, scanning from
/// `i`.
pub open spec fn spec_solution_lookup(
    solutions: Seq<SolutionEntryModel>,
    path: Seq<char>,
    i: int,
) -> Option<int>
    decreases solutions.len() - i,
{
    if i < 0 || i >= solutions.len() {
        None
    } else if solutions[i].path == path {
        Some(i)
    } else {
        spec_solution_lookup(solutions, path, i + 1)
    }
}

/// An adapter: a recognition predicate over input paths, and a parse from
/// the supplied documents to normalized targets. Both carry their exact
/// mathematical statement, so the dispatching enumeration forwards the full
/// contract of whichever adapter it wraps.
pub trait ConfigParser: Sized {
    /// Which input paths this adapter recognizes.
    spec fn spec_matches(&self, path: Seq<char>) -> bool;

    /// What a parse of `path` against `sources` returns.
    spec fn spec_parse(&self, sources: SourceTreeModel, path: Seq<char>) -> Result<
        Seq<TargetModel>,
        GraphErrorModel,
    >;

    /// Whether this adapter recognizes `path`.
    fn matches(&self, path: &String) -> (r: bool)
        ensures
            r == self.spec_matches(path@),
    ;

    /// Normalize the documents behind `path` into targets.
    fn parse(&self, sources: &SourceTree, path: &String) -> (r: Result<Vec<Target>, GraphError>)
        ensures
            parse_result_model(&r) == self.spec_parse(sources@, path@),
    ;
}

impl ConfigParser for RustConfiguration {
    open spec fn spec_matches(&self, path: Seq<char>) -> bool {
        spec_final_component_is(path, "Cargo.toml"@)
    }

    open spec fn spec_parse(&self, sources: SourceTreeModel, path: Seq<char>) -> Result<
        Seq<TargetModel>,
        GraphErrorModel,
    > {
        spec_parse_manifest(
            sources.manifests,
            path,
            Seq::empty(),
            remaining_fuel(sources.manifests, Seq::empty()),
        )
    }

    fn matches(&self, path: &String) -> (r: bool) {
        final_component_is(path, "Cargo.toml")
    }

    fn parse(&self, sources: &SourceTree, path: &String) -> (r: Result<Vec<Target>, GraphError>) {
        RustConfiguration::parse_store(&sources.manifests, path)
    }
}

impl ConfigParser for CSharpConfiguration {
    open spec fn spec_matches(&self, path: Seq<char>) -> bool {
        spec_extension_is(path, "sln"@)
    }

    open spec fn spec_parse(&self, sources: SourceTreeModel, path: Seq<char>) -> Result<
        Seq<TargetModel>,
        GraphErrorModel,
    > {
        match spec_solution_lookup(sources.solutions, path, 0) {
            None => Err(GraphErrorModel::FilesystemError(path)),
            Some(i) => spec_solution_targets(sources.solutions[i].doc),
        }
    }

    fn matches(&self, path: &String) -> (r: bool) {
        extension_is(path, "sln")
    }

    fn parse(&self, sources: &SourceTree, path: &String) -> (r: Result<Vec<Target>, GraphError>) {
        let mut k: usize = 0;
        while k < sources.solutions.len()
            invariant
                k <= sources.solutions.len(),
                spec_solution_lookup(sources@.solutions, path@, 0) == spec_solution_lookup(
                    sources@.solutions,
                    path@,
                    k as int,
                ),
            decreases sources.solutions.len() - k,
        {
            if sources.solutions[k].path == *path {
                return CSharpConfiguration::parse_solution(&sources.solutions[k].doc);
            }
            k = k + 1;
        }
        Err(GraphError::FilesystemError(path.clone()))
    }
}

/// The closed set of adapters.
#[derive(Debug, Clone, Copy)]
pub enum LanguagesConfiguration {
    Rust(RustConfiguration),
    CSharp(CSharpConfiguration),
}

impl Default for LanguagesConfiguration {
    /// The package-manifest adapter is the default.
    fn default() -> (r: Self)
        ensures
            r is Rust,
    {
        LanguagesConfiguration::Rust(RustConfiguration {  })
    }
}

impl ConfigParser for LanguagesConfiguration {
    open spec fn spec_matches(&self, path: Seq<char>) -> bool {
        match self {
            LanguagesConfiguration::Rust(c) => c.spec_matches(path),
            LanguagesConfiguration::CSharp(c) => c.spec_matches(path),
        }
    }

    open spec fn spec_parse(&self, sources: SourceTreeModel, path: Seq<char>) -> Result<
        Seq<TargetModel>,
        GraphErrorModel,
    > {
        match self {
            LanguagesConfiguration::Rust(c) => c.spec_parse(sources, path),
            LanguagesConfiguration::CSharp(c) => c.spec_parse(sources, path),
        }
    }

    fn matches(&self, path: &String) -> (r: bool) {
        match self {
            LanguagesConfiguration::Rust(c) => c.matches(path),
            LanguagesConfiguration::CSharp(c) => c.matches(path),
        }
    }

    fn parse(&self, sources: &SourceTree, path: &String) -> (r: Result<Vec<Target>, GraphError>) {
        match self {
            LanguagesConfiguration::CSharp(c) => c.parse(sources, path),
            LanguagesConfiguration::Rust(c) => c.parse(sources, path),
        }
    }
}

/// The adapter the selector chooses for `path`: the package-manifest
/// adapter for a manifest file name, else the solution adapter for a
/// solution-file extension, else no adapter at all.
pub open spec fn spec_select(path: Seq<char>) -> Result<LanguagesConfiguration, GraphErrorModel> {
    if spec_final_component_is(path, "Cargo.toml"@) {
        Ok(LanguagesConfiguration::Rust(RustConfiguration {  }))
    } else if spec_extension_is(path, "sln"@) {
        Ok(LanguagesConfiguration::CSharp(CSharpConfiguration {  }))
    } else {
        Err(GraphErrorModel::UnsupportedInput)
    }
}

impl LanguagesConfiguration {
    /// Choose the single adapter whose recognition predicate matches
    /// `path`, in the fixed order of the closed adapter set; no match is an
    /// error.
    pub fn for_path(path: &String) -> (r: Result<LanguagesConfiguration, GraphError>)
        ensures
            (match r {
                Ok(lang) => spec_select(path@) == Ok::<LanguagesConfiguration, GraphErrorModel>(
                    lang,
                ) && lang.spec_matches(path@),
                Err(e) => spec_select(path@) == Err::<LanguagesConfiguration, GraphErrorModel>(e@),
            }),
    {
        let rust_adapter = LanguagesConfiguration::Rust(RustConfiguration {  });
        if rust_adapter.matches(path) {
            return Ok(rust_adapter);
        }
        let csharp_adapter = LanguagesConfiguration::CSharp(CSharpConfiguration {  });
        if csharp_adapter.matches(path) {
            return Ok(csharp_adapter);
        }
        Err(GraphError::UnsupportedInput)
    }
}

} // verus!
