use vstd::prelude::*;

verus! {

/// The ways in which a benchmarking pipeline can fail.
#[derive(Clone, Copy, Debug, PartialEq, Eq, Structural)]
pub enum ErrorKind {
    /// The sampler could not fill every bin within its attempt budget.
    CorpusGenerationExhausted,
    /// A result file could not be created or written.
    OutputUnavailable,
    /// A stored row does not parse as (integer, value).
    MalformedRecord,
    /// Rendering was asked for without a single data point.
    NoData,
    /// The results directory could not be created.
    DirectoryUnavailable,
    /// A configuration, or a corpus handed to a run, does not describe a
    /// corpus of the configured size.
    InvalidConfiguration,
    /// A group's mean is not a positive finite number, so it has no
    /// logarithm to chart.
    UndefinedLogarithm,
}

} // verus!
