//! The pipeline's error taxonomy.
//!
//! Every error is fatal at the pipeline level: a failure is a
//! deterministic developer-facing defect, not a transient fault, so
//! nothing is retried and no unit is committed past a failure.
use vstd::prelude::*;

verus! {

/// One fatal pipeline failure.
#[derive(Debug, PartialEq, Eq)]
pub enum PipelineError {
    /// The workspace could not be located, a unit name is not a valid
    /// identifier or collides with another, or a fixed dependency path
    /// could not be resolved.
    Configuration,
    /// A source file could not be read or an artifact could not be
    /// written.
    Io,
    /// The style check failed; holds its captured standard output.
    Format(Vec<u8>),
    /// The compiler exited nonzero; holds its captured standard error.
    Build(Vec<u8>),
    /// A compiled module could not be parsed.
    PostProcess,
}

impl PipelineError {
    /// A short stable name of the error's kind.
    pub fn kind_name(&self) -> (r: &'static str)
        ensures
            (self is Configuration) ==> r@ == "configuration"@,
            (self is Io) ==> r@ == "io"@,
            (self is Format) ==> r@ == "format"@,
            (self is Build) ==> r@ == "build"@,
            (self is PostProcess) ==> r@ == "post-process"@,
    {
        match self {
            PipelineError::Configuration => "configuration",
            PipelineError::Io => "io",
            PipelineError::Format(_) => "format",
            PipelineError::Build(_) => "build",
            PipelineError::PostProcess => "post-process",
        }
    }
}

} // verus!
