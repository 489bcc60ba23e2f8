use vstd::prelude::*;

verus! {

/// The failures the pipeline can report. Any stage failure aborts the whole
/// run: a caller gets either a complete result or exactly one of these.
#[derive(Debug, Clone, PartialEq, Eq, Structural)]
pub enum AnalysisError {
    /// The input bytes do not parse as an image.
    Decode,
    /// The processed image has a zero width or height.
    EmptyImage,
    /// Encoding the visualization into compressed bytes failed.
    Encoding,
    /// The requested palette size is zero or exceeds the representable
    /// cluster-id width.
    PaletteSize,
}

impl AnalysisError {
    /// A short human-readable description of the failure.
    pub fn message(&self) -> (r: &'static str)
        ensures
            self is Decode ==> r@ == "input bytes do not decode as an image"@,
            self is EmptyImage ==> r@ == "processed image is empty"@,
            self is Encoding ==> r@ == "could not encode the visualization"@,
            self is PaletteSize ==> r@ == "palette size must be between 1 and 256"@,
    {
        match self {
            AnalysisError::Decode => "input bytes do not decode as an image",
            AnalysisError::EmptyImage => "processed image is empty",
            AnalysisError::Encoding => "could not encode the visualization",
            AnalysisError::PaletteSize => "palette size must be between 1 and 256",
        }
    }
}

} // verus!
