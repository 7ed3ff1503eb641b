//! HailoRT status codes, tensor shapes and generation states, as the device
//! bindings report them.
use vstd::prelude::*;
use crate::text::{cat, decimal, u64_text};

verus! {

/// `hailo_status` of a call that succeeded.
pub const HAILO_SUCCESS: i32 = 0;

/// `hailo_status` of a call given an invalid argument.
pub const HAILO_INVALID_ARGUMENT: i32 = 2;

/// `hailo_status` of a call given too small a buffer.
pub const HAILO_INSUFFICIENT_BUFFER: i32 = 5;

/// `hailo_format_type` of 8-bit unsigned tensors.
pub const HAILO_FORMAT_TYPE_UINT8: u64 = 1;

/// `hailo_format_type` of 16-bit unsigned tensors.
pub const HAILO_FORMAT_TYPE_UINT16: u64 = 2;

/// `hailo_format_type` of 32-bit float tensors.
pub const HAILO_FORMAT_TYPE_FLOAT32: u64 = 3;

/// Why a HailoRT operation failed.
#[derive(Debug, Clone, PartialEq, Eq)]
pub enum HailoRtError {
    /// A HailoRT call returned a status other than success.
    Status { context: String, code: i32 },
    /// A path handed to HailoRT contains a NUL byte.
    Nul(String),
    /// HailoRT metadata did not have the expected shape.
    InvalidMetadata(String),
    /// A generative model was requested while a different one is resident.
    GenAiConflict { requested: String, loaded: String },
}

/// The decimal text of a signed status code.
pub open spec fn signed_decimal(code: int) -> Seq<char> {
    if code < 0 {
        seq!['-'] + decimal((-code) as nat)
    } else {
        decimal(code as nat)
    }
}

fn i32_text(code: i32) -> (r: String)
    ensures
        r@ == signed_decimal(code as int),
{
    if code < 0 {
        let magnitude: u64 = (0i64 - code as i64) as u64;
        let digits = u64_text(magnitude);
        proof {
            reveal_strlit("-");
        }
        cat("-", digits.as_str())
    } else {
        u64_text(code as u64)
    }
}

/// The text of an error.
pub open spec fn hailo_message(e: HailoRtError) -> Seq<char> {
    match e {
        HailoRtError::Status { context, code } => "HailoRT "@ + context@ + " failed with status "@ + signed_decimal(code as int),
        HailoRtError::Nul(p) => "HailoRT path contains a nul byte: "@ + p@,
        HailoRtError::InvalidMetadata(m) => "invalid HailoRT metadata: "@ + m@,
        HailoRtError::GenAiConflict { requested, loaded } => "HailoRT GenAI model "@ + requested@ + " requested while "@
            + loaded@ + " is resident"@,
    }
}

impl HailoRtError {
    /// The error for a call named `context` that returned `code`.
    pub fn status(context: &str, code: i32) -> (r: HailoRtError)
        ensures
            r matches HailoRtError::Status { context: c, code: k } && c@ == context@ && k == code,
    {
        HailoRtError::Status { context: String::from_str(context), code }
    }

    /// The HailoRT status code, for the errors that carry one.
    pub fn status_code(&self) -> (r: Option<i32>)
        ensures
            match self {
                HailoRtError::Status { code, .. } => r == Some(*code),
                _ => r is None,
            },
    {
        match self {
            HailoRtError::Status { code, .. } => Some(*code),
            _ => None,
        }
    }

    /// The error's message.
    pub fn message(&self) -> (r: String)
        ensures
            r@ == hailo_message(*self),
    {
        proof {
            reveal_strlit("HailoRT ");
            reveal_strlit(" failed with status ");
            reveal_strlit("HailoRT path contains a nul byte: ");
            reveal_strlit("invalid HailoRT metadata: ");
            reveal_strlit("HailoRT GenAI model ");
            reveal_strlit(" requested while ");
            reveal_strlit(" is resident");
        }
        match self {
            HailoRtError::Status { context, code } => {
                let c = i32_text(*code);
                let r = cat(cat(cat("HailoRT ", context.as_str()).as_str(), " failed with status ").as_str(), c.as_str());
                proof {
                    assert(r@ =~= "HailoRT "@ + context@ + " failed with status "@ + signed_decimal(*code as int));
                }
                r
            },
            HailoRtError::Nul(p) => {
                let r = cat("HailoRT path contains a nul byte: ", p.as_str());
                proof {
                    assert(r@ =~= "HailoRT path contains a nul byte: "@ + p@);
                }
                r
            },
            HailoRtError::InvalidMetadata(m) => {
                let r = cat("invalid HailoRT metadata: ", m.as_str());
                proof {
                    assert(r@ =~= "invalid HailoRT metadata: "@ + m@);
                }
                r
            },
            HailoRtError::GenAiConflict { requested, loaded } => {
                let r = cat(
                    cat(cat(cat("HailoRT GenAI model ", requested.as_str()).as_str(), " requested while ").as_str(), loaded.as_str()).as_str(),
                    " is resident",
                );
                proof {
                    assert(r@ =~= "HailoRT GenAI model "@ + requested@ + " requested while "@ + loaded@ + " is resident"@);
                }
                r
            },
        }
    }
}

/// `Ok` for `HAILO_SUCCESS`, else the status error for `context`.
pub fn check_status(context: &str, code: i32) -> (r: Result<(), HailoRtError>)
    ensures
        r is Ok <==> code == HAILO_SUCCESS,
        r matches Err(e) ==> e matches HailoRtError::Status { context: c, code: k } && c@ == context@ && k == code,
{
    if code == HAILO_SUCCESS {
        Ok(())
    } else {
        Err(HailoRtError::status(context, code))
    }
}

/// A vstream's `[height, width, features]` shape.
#[derive(Debug, Clone, PartialEq, Eq)]
pub struct TensorShape {
    dimensions: [usize; 3],
}

impl TensorShape {
    /// The dimensions, in `[height, width, features]` order.
    pub closed spec fn spec_dimensions(&self) -> Seq<usize> {
        self.dimensions@
    }

    /// There are always three dimensions.
    pub proof fn lemma_three_dimensions(&self)
        ensures
            self.spec_dimensions().len() == 3,
    {
    }

    /// The number of elements: the product of the dimensions.
    pub open spec fn spec_element_count(&self) -> int {
        self.spec_dimensions()[0] * self.spec_dimensions()[1] * self.spec_dimensions()[2]
    }

    pub fn new(dimensions: [usize; 3]) -> (r: TensorShape)
        ensures
            r.spec_dimensions() == dimensions@,
    {
        TensorShape { dimensions }
    }

    /// The shape HailoRT reports as `(height, width, features)`.
    pub fn from_hailo(height: u32, width: u32, features: u32) -> (r: TensorShape)
        ensures
            r.spec_dimensions() == seq![height as usize, width as usize, features as usize],
    {
        let r = TensorShape::new([height as usize, width as usize, features as usize]);
        proof {
            assert(r.spec_dimensions() =~= seq![height as usize, width as usize, features as usize]);
        }
        r
    }

    /// The product of the dimensions, multiplied in order; each partial
    /// product must fit in `usize`.
    pub fn element_count(&self) -> (r: usize)
        requires
            self.spec_dimensions()[0] * self.spec_dimensions()[1] <= usize::MAX,
            self.spec_element_count() <= usize::MAX,
        ensures
            r == self.spec_element_count(),
    {
        let ab = self.dimensions[0] * self.dimensions[1];
        ab * self.dimensions[2]
    }

    pub fn dimensions(&self) -> (r: [usize; 3])
        ensures
            r@ == self.spec_dimensions(),
    {
        self.dimensions
    }
}

/// Where a text generation stands after a read.
#[derive(Debug, Clone, PartialEq, Eq)]
pub enum CompletionStatus {
    Generating,
    MaxTokensReached,
    LogicalEndOfGeneration,
    Aborted,
}

impl CompletionStatus {
    /// The status for HailoRT's raw value: 0, 1 and 2 name the first three;
    /// every other value means the generation was aborted.
    pub fn from_raw(value: i32) -> (r: CompletionStatus)
        ensures
            value == 0 ==> r is Generating,
            value == 1 ==> r is MaxTokensReached,
            value == 2 ==> r is LogicalEndOfGeneration,
            !(0 <= value <= 2) ==> r is Aborted,
    {
        match value {
            0 => CompletionStatus::Generating,
            1 => CompletionStatus::MaxTokensReached,
            2 => CompletionStatus::LogicalEndOfGeneration,
            _ => CompletionStatus::Aborted,
        }
    }

    /// More tokens may still be read.
    pub fn is_generating(&self) -> (r: bool)
        ensures
            r == (self is Generating),
    {
        match self {
            CompletionStatus::Generating => true,
            _ => false,
        }
    }
}

/// What the CLIP and YOLO checks read of one vstream.
#[derive(Debug, Clone, PartialEq, Eq)]
pub struct VStreamSummary {
    pub name: String,
    /// `[height, width, features]`.
    pub shape: [usize; 3],
    pub format_type: u64,
    /// Bytes of one frame.
    pub frame_size: usize,
}

/// Values in a CLIP image embedding.
pub const CLIP_EMBEDDING_DIMENSION: usize = 512;

/// A CLIP image HEF is usable: it has an input, exactly one output, and that
/// output is 512 `uint8` values.
pub open spec fn clip_image_metadata_ok(inputs: Seq<VStreamSummary>, outputs: Seq<VStreamSummary>) -> bool {
    &&& inputs.len() > 0
    &&& outputs.len() == 1
    &&& outputs[0].format_type == HAILO_FORMAT_TYPE_UINT8
    &&& outputs[0].frame_size == CLIP_EMBEDDING_DIMENSION
}

/// `r` is the metadata error with this text.
pub open spec fn metadata_error(r: Result<(), HailoRtError>, message: Seq<char>) -> bool {
    r matches Err(HailoRtError::InvalidMetadata(m)) && m@ == message
}

fn invalid_metadata(message: &str) -> (r: HailoRtError)
    ensures
        r matches HailoRtError::InvalidMetadata(m) && m@ == message@,
{
    HailoRtError::InvalidMetadata(String::from_str(message))
}

/// Check a CLIP image HEF's vstreams (see `clip_image_metadata_ok`).
pub fn check_clip_image_metadata(inputs: &Vec<VStreamSummary>, outputs: &Vec<VStreamSummary>) -> (r: Result<
    (),
    HailoRtError,
>)
    ensures
        r is Ok <==> clip_image_metadata_ok(inputs@, outputs@),
        inputs@.len() == 0 ==> metadata_error(r, "missing CLIP image input"@),
        inputs@.len() > 0 && outputs@.len() != 1 ==> metadata_error(
            r,
            "CLIP image HEF must expose exactly one output vstream"@,
        ),
        inputs@.len() > 0 && outputs@.len() == 1 && outputs@[0].format_type != HAILO_FORMAT_TYPE_UINT8
            ==> metadata_error(r, "CLIP image output must use uint8 quantization"@),
        inputs@.len() > 0 && outputs@.len() == 1 && outputs@[0].format_type == HAILO_FORMAT_TYPE_UINT8
            && outputs@[0].frame_size != CLIP_EMBEDDING_DIMENSION ==> metadata_error(
            r,
            "CLIP image output must contain exactly 512 values"@,
        ),
{
    if inputs.len() == 0 {
        return Err(invalid_metadata("missing CLIP image input"));
    }
    if outputs.len() != 1 {
        return Err(invalid_metadata("CLIP image HEF must expose exactly one output vstream"));
    }
    if outputs[0].format_type != HAILO_FORMAT_TYPE_UINT8 {
        return Err(invalid_metadata("CLIP image output must use uint8 quantization"));
    }
    if outputs[0].frame_size != CLIP_EMBEDDING_DIMENSION {
        return Err(invalid_metadata("CLIP image output must contain exactly 512 values"));
    }
    Ok(())
}

/// A YOLO HEF is usable: exactly one input vstream and at least one output.
pub fn check_yolo_metadata(inputs: &Vec<VStreamSummary>, outputs: &Vec<VStreamSummary>) -> (r: Result<(), HailoRtError>)
    ensures
        r is Ok <==> (inputs@.len() == 1 && outputs@.len() > 0),
        inputs@.len() != 1 ==> metadata_error(r, "YOLO HEF must expose exactly one input vstream"@),
        inputs@.len() == 1 && outputs@.len() == 0 ==> metadata_error(
            r,
            "YOLO HEF must expose at least one output vstream"@,
        ),
{
    if inputs.len() != 1 {
        return Err(invalid_metadata("YOLO HEF must expose exactly one input vstream"));
    }
    if outputs.len() == 0 {
        return Err(invalid_metadata("YOLO HEF must expose at least one output vstream"));
    }
    Ok(())
}

/// An input buffer must be exactly the first input vstream's frame size.
pub fn validate_input_len(inputs: &Vec<VStreamSummary>, input_len: usize) -> (r: Result<(), HailoRtError>)
    ensures
        r is Ok <==> (inputs@.len() > 0 && inputs@[0].frame_size == input_len),
        inputs@.len() == 0 ==> metadata_error(r, "missing YOLO input"@),
        inputs@.len() > 0 && inputs@[0].frame_size != input_len ==> metadata_error(r, "input buffer size mismatch"@),
{
    if inputs.len() == 0 {
        return Err(invalid_metadata("missing YOLO input"));
    }
    if inputs[0].frame_size != input_len {
        return Err(invalid_metadata("input buffer size mismatch"));
    }
    Ok(())
}

/// A CLIP embedding must hold exactly 512 values.
pub fn check_clip_embedding_len(len: usize) -> (r: Result<(), HailoRtError>)
    ensures
        r is Ok <==> len == CLIP_EMBEDDING_DIMENSION,
        len != CLIP_EMBEDDING_DIMENSION ==> metadata_error(r, "CLIP image output must contain exactly 512 values"@),
{
    if len != CLIP_EMBEDDING_DIMENSION {
        return Err(invalid_metadata("CLIP image output must contain exactly 512 values"));
    }
    Ok(())
}

} // verus!
