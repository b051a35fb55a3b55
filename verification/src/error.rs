use vstd::prelude::*;

verus! {

/// The fatal error kinds of the pipeline. None is recoverable: each one means
/// a configuration or model-shape mismatch found once per run.
#[derive(Clone, Copy, Debug, PartialEq, Eq, Structural)]
pub enum YoloError {
    /// Neither an explicit class count nor a usable name list was available,
    /// they disagree, a threshold list cannot cover the classes, or model
    /// metadata could not be read as the expected shape.
    Configuration,
    /// The task string names no known task kind.
    UnsupportedTask,
    /// Mask coefficients cannot be combined with the prototype tensor because
    /// their dimensions disagree.
    Shape,
}

impl YoloError {
    /// A short description of the error, for callers that print it.
    pub fn describe(&self) -> (r: &'static str)
        ensures
            *self is Configuration ==> r@ == "invalid or missing configuration"@,
            *self is UnsupportedTask ==> r@ == "unsupported task kind"@,
            *self is Shape ==> r@ == "mask prototype shape mismatch"@,
    {
        match self {
            YoloError::Configuration => "invalid or missing configuration",
            YoloError::UnsupportedTask => "unsupported task kind",
            YoloError::Shape => "mask prototype shape mismatch",
        }
    }
}

} // verus!
