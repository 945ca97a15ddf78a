use vstd::prelude::*;

verus! {

/// The two failures the trial core can raise. Wrong keystrokes are not
/// errors: they are silently ignored by the engine.
#[derive(Clone, Copy, Debug, PartialEq, Eq, Structural)]
pub enum TrialError {
    /// Normalization was asked to stretch an empty passage to a nonzero
    /// length; repetition of nothing is undefined.
    EmptySource,
    /// A completed trial had zero elapsed time, so no speed can be reported.
    DegenerateTiming,
}

} // verus!
