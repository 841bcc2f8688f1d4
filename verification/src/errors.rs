//! The error kinds of the library. Every failure aborts the run; nothing is
//! retried, and no partial result is handed out.

use vstd::prelude::*;

use crate::model::{Target, TargetModel};

verus! {

/// Why a parse or a graph preparation failed.
#[derive(Debug, Clone)]
pub enum GraphError {
    /// No adapter recognizes the given input path.
    UnsupportedInput,
    /// The underlying structured document could not be parsed; the payload
    /// carries the parser's own message.
    MalformedManifest(String),
    /// Workspace mode was entered but the document has neither a package
    /// nor a workspace record.
    MissingWorkspace,
    /// A requested top-level name has no matching target; the payload names
    /// it.
    TargetNotFound(String),
    /// A referenced document or path is missing from the supplied sources;
    /// the payload names the path.
    FilesystemError(String),
    /// A chain of workspace members leads back to an ancestor manifest; the
    /// payload names the manifest where the chain closed.
    CyclicWorkspace(String),
    /// The rendering backend cannot produce the requested output format.
    UnsupportedRenderFormat,
}

/// Mathematical image of a [`GraphError`].
pub ghost enum GraphErrorModel {
    UnsupportedInput,
    MalformedManifest(Seq<char>),
    MissingWorkspace,
    TargetNotFound(Seq<char>),
    FilesystemError(Seq<char>),
    CyclicWorkspace(Seq<char>),
    UnsupportedRenderFormat,
}

impl View for GraphError {
    type V = GraphErrorModel;

    open spec fn view(&self) -> GraphErrorModel {
        match self {
            GraphError::UnsupportedInput => GraphErrorModel::UnsupportedInput,
            GraphError::MalformedManifest(m) => GraphErrorModel::MalformedManifest(m@),
            GraphError::MissingWorkspace => GraphErrorModel::MissingWorkspace,
            GraphError::TargetNotFound(n) => GraphErrorModel::TargetNotFound(n@),
            GraphError::FilesystemError(p) => GraphErrorModel::FilesystemError(p@),
            GraphError::CyclicWorkspace(p) => GraphErrorModel::CyclicWorkspace(p@),
            GraphError::UnsupportedRenderFormat => GraphErrorModel::UnsupportedRenderFormat,
        }
    }
}

impl DeepView for GraphError {
    type V = GraphErrorModel;

    open spec fn deep_view(&self) -> GraphErrorModel {
        self@
    }
}

/// The mathematical image of a parse result.
pub open spec fn parse_result_model(r: &Result<Vec<Target>, GraphError>) -> Result<
    Seq<TargetModel>,
    GraphErrorModel,
> {
    match r {
        Ok(ts) => Ok(ts.deep_view()),
        Err(e) => Err(e@),
    }
}

} // verus!
