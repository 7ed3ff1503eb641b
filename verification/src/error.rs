//! The library's error type. Outside errors are carried as their rendered text.
use vstd::prelude::*;

verus! {

/// Why loading or running a tagger or encoder failed.
#[derive(Debug, Clone, PartialEq, Eq)]
pub enum InferError {
    /// The model directory lacks the files the model needs.
    ModelNotDownloaded(String),
    /// ONNX Runtime reported an error.
    Ort(String),
    /// The image could not be decoded.
    Image(String),
    /// The CSV vocabulary could not be read.
    Csv(String),
    /// A file could not be read.
    Io(String),
    /// A JSON document could not be parsed.
    Json(String),
    /// The tokenizer reported an error.
    Tokenizer(String),
    /// A model output or model input did not have the expected shape.
    InvalidModelOutput(String),
    /// The request describes a recipe this build cannot reproduce exactly.
    UnsupportedProfile(String),
    /// The tag vocabulary is malformed or exceeds a cap.
    TagMetadata(String),
}

} // verus!
