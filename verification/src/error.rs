//! What can be wrong with a configuration.
use vstd::prelude::*;
use vstd::string::*;

verus! {

/// A configuration that cannot be rendered.
#[derive(Clone, Copy, Debug, PartialEq, Eq, Structural)]
pub enum ConfigError {
    /// The fractal's name is none of the recognized ones.
    UnknownFractal,
    /// The resolution is zero or negative.
    ResolutionNotPositive,
    /// The real axis ends before it starts, or one of its bounds is a NaN.
    RealBoundsInverted,
    /// The imaginary axis ends before it starts, or one of its bounds is a
    /// NaN.
    ComplexBoundsInverted,
}

impl ConfigError {
    /// The message of the error.
    pub open spec fn message_text(self) -> Seq<char> {
        match self {
            ConfigError::UnknownFractal => "Unknown fractal"@,
            ConfigError::ResolutionNotPositive => "Invalid resolution: it must be at least 1"@,
            ConfigError::RealBoundsInverted => "Invalid viewport: real_end is below real_start"@,
            ConfigError::ComplexBoundsInverted => "Invalid viewport: complex_end is below complex_start"@,
        }
    }

    /// The message of the error.
    pub fn message(self) -> (text: String)
        ensures
            text@ == self.message_text(),
    {
        match self {
            ConfigError::UnknownFractal => String::from_str("Unknown fractal"),
            ConfigError::ResolutionNotPositive => String::from_str(
                "Invalid resolution: it must be at least 1",
            ),
            ConfigError::RealBoundsInverted => String::from_str(
                "Invalid viewport: real_end is below real_start",
            ),
            ConfigError::ComplexBoundsInverted => String::from_str(
                "Invalid viewport: complex_end is below complex_start",
            ),
        }
    }
}

} // verus!
