use vstd::prelude::*;

verus! {

/// Marks the types that may travel through the pipeline as one sample.
///
/// The pipeline moves samples and never looks inside one, so every plain
/// copyable value that may cross a thread boundary qualifies. What a
/// sample means (a normalized float, a 16-bit PCM value) is decided by
/// whoever produces and consumes the stream.
pub trait SampleFormat: Copy + Send + Sync {
}

impl<T: Copy + Send + Sync> SampleFormat for T {
}

/// Signed 16-bit linear PCM, the fixed-point sample representation.
pub type FormatPCM16 = i16;

} // verus!
