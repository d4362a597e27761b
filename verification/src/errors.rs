//! Error kinds of the pipeline; every failure is fatal for the run.

use vstd::prelude::*;

verus! {

/// Why a pipeline stage gave up.
#[derive(Clone, Copy, Debug, PartialEq, Eq, Structural)]
pub enum PipelineError {
    /// A required header is missing, a DKIM tag is missing, or a field
    /// exceeds its fixed capacity.
    Encoding,
    /// The DNS record holds no usable key material, or the selector or
    /// domain needed to locate it is absent.
    KeyResolution,
    /// The reassembled PEM block does not parse into a public key.
    KeyFormat,
    /// The `b=` tag does not decode as base64.
    SignatureDecode,
    /// An expected substring was not found while computing a byte offset.
    Indexing,
}

impl PipelineError {
    /// A short name for the error, for reports outside the library.
    pub fn name(&self) -> (r: &'static str)
        ensures
            r@ == match *self {
                PipelineError::Encoding => "encoding error"@,
                PipelineError::KeyResolution => "key-resolution error"@,
                PipelineError::KeyFormat => "key-format error"@,
                PipelineError::SignatureDecode => "signature-decode error"@,
                PipelineError::Indexing => "indexing error"@,
            },
    {
        match *self {
            PipelineError::Encoding => "encoding error",
            PipelineError::KeyResolution => "key-resolution error",
            PipelineError::KeyFormat => "key-format error",
            PipelineError::SignatureDecode => "signature-decode error",
            PipelineError::Indexing => "indexing error",
        }
    }
}

} // verus!
