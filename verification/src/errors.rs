use vstd::prelude::*;

verus! {

/// A failure of one transcoding run. Every error is terminal for the file
/// being converted: no partial output is ever produced.
#[derive(Clone, Copy, Debug, PartialEq, Eq, Structural)]
pub enum TranscodeError {
    /// The compressed input stream is invalid or truncated.
    DecodeError,
    /// A data row is not valid UTF-8 text. `row` is the 0-based index of the
    /// row, counted without the header.
    NonUtf8Error { row: usize },
    /// A data row is shorter than the span of the fixed-width layout. `row`
    /// is the 0-based index of the row, counted without the header; `len` is
    /// the observed byte length.
    MalformedRecordError { row: usize, len: usize },
    /// Finalizing the compressed output stream failed. The pipeline
    /// compresses into memory, where writes cannot fail, so it never raises
    /// this; the variant stands in the taxonomy for sinks that can.
    CompressionError,
}

} // verus!
