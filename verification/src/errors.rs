//! The error taxonomy of the reconciliation engine. Fatal conditions are
//! values of [`EngineError`]; best-effort conditions surface as warnings
//! collected by the engine, not as errors.

use vstd::prelude::*;

verus! {

/// A fatal error while processing a source tree or one of its stacks.
#[derive(Debug)]
pub enum EngineError {
    /// A manifest failed to parse as the expected structured format.
    Parse,
    /// A transformed document could not be serialized back to text.
    Emit,
    /// The source tree has no stack-declaration manifest.
    StacksManifestMissing,
    /// Volumes are declared but the shared-storage configuration manifest
    /// is absent.
    NfsConfigMissing,
    /// A declared stack's directory holds no manifest file under any of
    /// the conventional names.
    ComposeFileMissing { stack: String },
}

impl EngineError {
    /// A human-readable description naming the resource involved.
    pub fn describe(&self) -> (r: String)
        ensures
            self is ComposeFileMissing ==> r@ == "no compose manifest found in stack directory: "@
                + self->ComposeFileMissing_stack@,
    {
        match self {
            EngineError::Parse => "manifest failed to parse".to_owned(),
            EngineError::Emit => "transformed manifest could not be serialized".to_owned(),
            EngineError::StacksManifestMissing => "stacks.yaml not found in repository".to_owned(),
            EngineError::NfsConfigMissing => "nfs.yaml not found in repository".to_owned(),
            EngineError::ComposeFileMissing { stack } => {
                let mut m = "no compose manifest found in stack directory: ".to_owned();
                m.append(stack.as_str());
                m
            },
        }
    }
}

} // verus!
