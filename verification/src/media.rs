//! Base64 media payloads: the image frame budget and the WAV checks that run
//! before any sample is converted. Sample arithmetic (downmix, resampling,
//! pixel decoding) is floating point and is left to the caller; the lengths
//! it must produce are fixed here.
use vstd::prelude::*;
use vstd::utf8::encode_utf8;
use crate::text::{cat, text_is};
use crate::requests::{ApiRejection, rejected, validate_frame_len};

verus! {

/// What the `base64` crate's standard engine (`+/` alphabet, `=` padding
/// required) decodes `text` to, or the `Display` text of the error it
/// reports.
pub uninterp spec fn base64_standard_decode(text: Seq<char>) -> Result<Seq<u8>, Seq<char>>;

/// `base64::engine::general_purpose::STANDARD.decode(text)`, its error
/// rendered with `Display`.
/// Trusted: the outcome is `base64_standard_decode` of the text.
#[verifier::external_body]
fn base64_decode(text: &str) -> (r: Result<Vec<u8>, String>)
    ensures
        match r {
            Ok(v) => base64_standard_decode(text@) == Ok::<Seq<u8>, Seq<char>>(v@),
            Err(e) => base64_standard_decode(text@) == Err::<Seq<u8>, Seq<char>>(e@),
        },
{
    base64::Engine::decode(&base64::engine::general_purpose::STANDARD, text).map_err(|e| e.to_string())
}

/// Largest accepted base64 text of one image frame, in bytes.
pub const MAX_FRAME_BASE64_BYTES: usize = 8388608;

/// Largest decoded image size one request may spend over all its frames.
pub const MAX_TOTAL_DECODED_IMAGE_BYTES: u64 = 67108864;

/// Largest decoded image width or height.
pub const MAX_DECODED_IMAGE_DIMENSION: u32 = 4096;

/// The encoded bytes of one image frame, before the image decoder runs: the
/// frame must be within `MAX_FRAME_BASE64_BYTES`, the request's decode budget
/// must not be spent, and the text must be valid base64.
pub fn frame_bytes(frame_base64: &str, remaining_budget: u64) -> (r: Result<Vec<u8>, String>)
    ensures
        r is Ok <==> (encode_utf8(frame_base64@).len() <= MAX_FRAME_BASE64_BYTES && remaining_budget > 0
            && base64_standard_decode(frame_base64@) is Ok),
        r matches Ok(v) ==> base64_standard_decode(frame_base64@) == Ok::<Seq<u8>, Seq<char>>(v@),
        encode_utf8(frame_base64@).len() > MAX_FRAME_BASE64_BYTES ==> (r matches Err(m) && m@
            == "frame exceeds 8388608 base64 bytes"@),
        encode_utf8(frame_base64@).len() <= MAX_FRAME_BASE64_BYTES && remaining_budget == 0 ==> (r matches Err(m) && m@
            == "request-level decoded image budget exhausted"@),
        encode_utf8(frame_base64@).len() <= MAX_FRAME_BASE64_BYTES && remaining_budget > 0 ==> (
        base64_standard_decode(frame_base64@) matches Err(t) ==> (r matches Err(m) && m@ == "invalid base64 frame: "@
            + t)),
{
    if frame_base64.as_bytes().len() > MAX_FRAME_BASE64_BYTES {
        return Err(String::from_str("frame exceeds 8388608 base64 bytes"));
    }
    if remaining_budget == 0 {
        return Err(String::from_str("request-level decoded image budget exhausted"));
    }
    match base64_decode(frame_base64) {
        Ok(v) => Ok(v),
        Err(t) => Err(cat("invalid base64 frame: ", t.as_str())),
    }
}

/// The raw bytes of a base64 YOLO input tensor; text that is not valid
/// base64 is refused with 400 `hailort_yolo_detect_failed`.
pub fn yolo_input_bytes(input_base64: &str) -> (r: Result<Vec<u8>, ApiRejection>)
    ensures
        match base64_standard_decode(input_base64@) {
            Ok(b) => r matches Ok(v) && v@ == b,
            Err(t) => r matches Err(e) && rejected(e, 400, "hailort_yolo_detect_failed", "invalid input_base64: "@ + t),
        },
{
    match base64_decode(input_base64) {
        Ok(v) => Ok(v),
        Err(t) => {
            Err(
                ApiRejection {
                    status: 400,
                    code: String::from_str("hailort_yolo_detect_failed"),
                    message: cat("invalid input_base64: ", t.as_str()),
                },
            )
        },
    }
}

/// A YOLO request's input tensor: text longer than `MAX_FRAME_BASE64_BYTES`
/// bytes is refused with 413 `hailort_yolo_detect_input_too_large` before
/// any decoding; shorter text is decoded as `yolo_input_bytes` does.
pub fn prepare_yolo_input(input_base64: &str) -> (r: Result<Vec<u8>, ApiRejection>)
    ensures
        encode_utf8(input_base64@).len() > MAX_FRAME_BASE64_BYTES ==> (r matches Err(e) && rejected(
            e,
            413,
            "hailort_yolo_detect_input_too_large",
            "input_base64"@ + " exceeds 8388608 bytes"@,
        )),
        encode_utf8(input_base64@).len() <= MAX_FRAME_BASE64_BYTES ==> match base64_standard_decode(input_base64@) {
            Ok(b) => r matches Ok(v) && v@ == b,
            Err(t) => r matches Err(e) && rejected(e, 400, "hailort_yolo_detect_failed", "invalid input_base64: "@ + t),
        },
{
    match validate_frame_len(input_base64, "hailort_yolo_detect_input_too_large", "input_base64") {
        Some(e) => Err(e),
        None => yolo_input_bytes(input_base64),
    }
}

/// The decode budget left after a frame that decoded to `decoded_bytes`
/// bytes; it stops at zero.
pub fn spend_decode_budget(remaining_budget: u64, decoded_bytes: u64) -> (r: u64)
    ensures
        r == (if decoded_bytes <= remaining_budget {
            remaining_budget - decoded_bytes
        } else {
            0
        }),
{
    if decoded_bytes <= remaining_budget {
        remaining_budget - decoded_bytes
    } else {
        0
    }
}

/// Largest accepted base64 text of one WAV payload, in bytes.
pub const MAX_AUDIO_BASE64_BYTES: usize = 33554432;

/// Sample rate the speech model takes.
pub const TARGET_SAMPLE_RATE: u32 = 16000;

/// Most samples of decoded 16 kHz audio: ten minutes.
pub const MAX_AUDIO_SAMPLES: usize = 9600000;

/// Why a WAV payload was refused.
#[derive(Debug, Clone, PartialEq, Eq)]
pub enum WavDecodeError {
    /// The base64 text is longer than `MAX_AUDIO_BASE64_BYTES`.
    TooLarge,
    /// The text is not valid base64.
    InvalidBase64,
    /// Not a readable 16-bit integer or 32-bit float PCM WAV.
    UnsupportedFormat,
    /// The audio is longer than `MAX_AUDIO_SAMPLES` at 16 kHz.
    TooLong,
    /// No complete frame of samples.
    Empty,
}

/// A WAV header: channels, sample rate, bits per sample, and whether the
/// samples are floats; `None` when `hound` cannot open the bytes.
pub uninterp spec fn wav_spec_of(bytes: Seq<u8>) -> Option<(u16, u32, u16, bool)>;

/// The duration in frames that `hound` reports for readable WAV bytes.
pub uninterp spec fn wav_duration_of(bytes: Seq<u8>) -> u32;

/// The interleaved 16-bit samples `hound` reads, or `None` on a read error.
pub uninterp spec fn wav_i16_samples_of(bytes: Seq<u8>) -> Option<Seq<i16>>;

#[verifier::external_type_specification]
#[verifier::external_body]
pub struct ExHoundError(hound::Error);

/// `hound::WavReader::new` over the bytes, then `spec()`.
/// Trusted: the outcome is `wav_spec_of` of the bytes; an opened file has at
/// least one channel (the reader refuses zero channels).
#[verifier::external_body]
fn wav_spec(bytes: &Vec<u8>) -> (r: Result<(u16, u32, u16, bool), hound::Error>)
    ensures
        match r {
            Ok(s) => wav_spec_of(bytes@) == Some(s) && s.0 > 0,
            Err(_) => wav_spec_of(bytes@) is None,
        },
{
    let reader = hound::WavReader::new(std::io::Cursor::new(bytes.as_slice()))?;
    let spec = reader.spec();
    let is_float = match spec.sample_format {
        hound::SampleFormat::Float => true,
        hound::SampleFormat::Int => false,
    };
    Ok((spec.channels, spec.sample_rate, spec.bits_per_sample, is_float))
}

/// `hound::WavReader::new` over the bytes, then `duration()`.
/// Trusted: the result is `wav_duration_of` of the bytes.
#[verifier::external_body]
fn wav_duration(bytes: &Vec<u8>) -> (r: u32)
    requires
        wav_spec_of(bytes@) is Some,
    ensures
        r == wav_duration_of(bytes@),
{
    match hound::WavReader::new(std::io::Cursor::new(bytes.as_slice())) {
        Ok(reader) => reader.duration(),
        Err(_) => 0,
    }
}

/// `hound::WavReader::new` over the bytes, then every `samples::<i16>()`.
/// Trusted: the outcome is `wav_i16_samples_of` of the bytes.
#[verifier::external_body]
fn wav_i16_samples(bytes: &Vec<u8>) -> (r: Result<Vec<i16>, hound::Error>)
    requires
        wav_spec_of(bytes@) is Some,
    ensures
        match r {
            Ok(v) => wav_i16_samples_of(bytes@) == Some(v@),
            Err(_) => wav_i16_samples_of(bytes@) is None,
        },
{
    let mut reader = hound::WavReader::new(std::io::Cursor::new(bytes.as_slice()))?;
    reader.samples::<i16>().collect()
}

/// The number of samples `duration_frames` frames at `sample_rate` make at
/// 16 kHz, rounded up.
pub open spec fn projected_len(duration_frames: u32, sample_rate: u32) -> int {
    (duration_frames * 16000 + sample_rate - 1) / (sample_rate as int)
}

/// The length of linear resampling from `from_rate` to `to_rate`: the input
/// as it is when the rates agree, else `ceil(len * to_rate / from_rate)`.
pub open spec fn resampled_len(len: nat, from_rate: nat, to_rate: nat) -> nat {
    if len == 0 {
        0
    } else if from_rate == to_rate {
        len
    } else {
        ((len * to_rate + from_rate - 1) / (from_rate as int)) as nat
    }
}

/// The length that linear resampling of `len` samples from `from_rate` to
/// `to_rate` produces.
pub fn resampled_length(len: usize, from_rate: u32, to_rate: u32) -> (r: u128)
    requires
        from_rate > 0,
    ensures
        r == resampled_len(len as nat, from_rate as nat, to_rate as nat),
{
    if len == 0 {
        return 0;
    }
    if from_rate == to_rate {
        return len as u128;
    }
    proof {
        assert((len as u128) * (to_rate as u128) <= 0xFFFF_FFFF_FFFF_FFFFu128 * 0xFFFF_FFFFu128) by (nonlinear_arith)
            requires
                len <= 0xFFFF_FFFF_FFFF_FFFFu128,
                to_rate <= 0xFFFF_FFFFu32,
        ;
    }
    let total: u128 = (len as u128) * (to_rate as u128);
    (total + (from_rate as u128) - 1) / (from_rate as u128)
}

/// A checked WAV payload: 16-bit integer samples, read; or 32-bit float
/// samples, left in the WAV bytes for the caller to read and then pass to
/// `check_pcm_frames`.
#[derive(Debug, Clone, PartialEq, Eq)]
pub enum WavPcm {
    Int16 { channels: u16, sample_rate: u32, frames: usize, samples: Vec<i16> },
    Float32 { channels: u16, sample_rate: u32, wav: Vec<u8> },
}

/// The PCM header checks a payload passes or fails, in order: the text's
/// size, base64, a readable WAV with channels and a sample rate, 16-bit
/// integer or 32-bit float samples, and the length projected from the header.
pub open spec fn wav_header_outcome(text: Seq<char>) -> Result<(), WavDecodeError> {
    if encode_utf8(text).len() > MAX_AUDIO_BASE64_BYTES {
        Err(WavDecodeError::TooLarge)
    } else {
        match base64_standard_decode(text) {
            Err(_) => Err(WavDecodeError::InvalidBase64),
            Ok(bytes) => match wav_spec_of(bytes) {
                None => Err(WavDecodeError::UnsupportedFormat),
                Some(s) => if s.0 == 0 || s.1 == 0 || !((!s.3 && s.2 == 16) || (s.3 && s.2 == 32)) {
                    Err(WavDecodeError::UnsupportedFormat)
                } else if projected_len(wav_duration_of(bytes), s.1) > MAX_AUDIO_SAMPLES {
                    Err(WavDecodeError::TooLong)
                } else {
                    Ok(())
                },
            },
        }
    }
}

/// The frame checks on `count` interleaved samples: at least one complete
/// frame, and no more than `MAX_AUDIO_SAMPLES` once resampled to 16 kHz.
pub open spec fn frames_outcome(count: nat, channels: u16, sample_rate: u32) -> Result<nat, WavDecodeError> {
    let frames = count / (channels as nat);
    if frames == 0 {
        Err(WavDecodeError::Empty)
    } else if resampled_len(frames, sample_rate as nat, 16000) > MAX_AUDIO_SAMPLES {
        Err(WavDecodeError::TooLong)
    } else {
        Ok(frames)
    }
}

/// Accepted audio is never empty and never longer than `MAX_AUDIO_SAMPLES`
/// once resampled to 16 kHz.
pub proof fn law_accepted_audio_length(count: nat, channels: u16, sample_rate: u32)
    requires
        channels > 0,
        sample_rate > 0,
    ensures
        frames_outcome(count, channels, sample_rate) matches Ok(f) ==> 1 <= resampled_len(
            f,
            sample_rate as nat,
            16000,
        ) <= MAX_AUDIO_SAMPLES,
{
    let frames = count / (channels as nat);
    if frames > 0 && (sample_rate as nat) != 16000 {
        let sr = sample_rate as int;
        assert((frames * 16000 + sr - 1) / sr >= 1) by (nonlinear_arith)
            requires
                frames >= 1,
                sr >= 1,
        ;
    }
}

/// The complete frames of `sample_count` interleaved samples over `channels`
/// channels, refused when there is none (`Empty`) or when resampling them to
/// 16 kHz would pass `MAX_AUDIO_SAMPLES` (`TooLong`).
pub fn check_pcm_frames(sample_count: usize, channels: u16, sample_rate: u32) -> (r: Result<usize, WavDecodeError>)
    requires
        channels > 0,
        sample_rate > 0,
    ensures
        match frames_outcome(sample_count as nat, channels, sample_rate) {
            Ok(f) => r == Ok::<usize, WavDecodeError>(f as usize),
            Err(e) => r matches Err(x) && x == e,
        },
{
    let frames = sample_count / (channels as usize);
    if frames == 0 {
        return Err(WavDecodeError::Empty);
    }
    let out_len = resampled_length(frames, sample_rate, TARGET_SAMPLE_RATE);
    if out_len > MAX_AUDIO_SAMPLES as u128 {
        return Err(WavDecodeError::TooLong);
    }
    Ok(frames)
}

/// The frames of a float WAV (see `WavPcm::Float32`) once its samples were
/// read: `sample_count` is `None` when a sample could not be read. A read
/// error, or a header with no channel or a zero sample rate, is
/// `UnsupportedFormat`; otherwise the frames are checked as
/// `check_pcm_frames` does.
pub fn float_pcm_frames(channels: u16, sample_rate: u32, sample_count: Option<usize>) -> (r: Result<usize, WavDecodeError>)
    ensures
        channels == 0 || sample_rate == 0 ==> r matches Err(WavDecodeError::UnsupportedFormat),
        channels > 0 && sample_rate > 0 ==> match sample_count {
            None => r matches Err(WavDecodeError::UnsupportedFormat),
            Some(n) => match frames_outcome(n as nat, channels, sample_rate) {
                Ok(f) => r == Ok::<usize, WavDecodeError>(f as usize),
                Err(e) => r matches Err(x) && x == e,
            },
        },
{
    if channels == 0 || sample_rate == 0 {
        return Err(WavDecodeError::UnsupportedFormat);
    }
    match sample_count {
        None => Err(WavDecodeError::UnsupportedFormat),
        Some(n) => check_pcm_frames(n, channels, sample_rate),
    }
}

/// Check a base64 WAV payload (see `wav_header_outcome`); 16-bit samples are
/// read and their frames checked (see `check_pcm_frames`), a sample read
/// error being `UnsupportedFormat`.
pub fn decode_base64_wav(audio_base64: &str) -> (r: Result<WavPcm, WavDecodeError>)
    ensures
        wav_header_outcome(audio_base64@) matches Err(e) ==> (r matches Err(x) && x == e),
        wav_header_outcome(audio_base64@) is Ok ==> {
            let bytes = base64_standard_decode(audio_base64@)->Ok_0;
            let s = wav_spec_of(bytes).unwrap();
            if s.3 {
                r matches Ok(WavPcm::Float32 { channels, sample_rate, wav }) && channels == s.0 && sample_rate == s.1
                    && wav@ == bytes
            } else {
                match wav_i16_samples_of(bytes) {
                    None => r matches Err(WavDecodeError::UnsupportedFormat),
                    Some(v) => match frames_outcome(v.len(), s.0, s.1) {
                        Err(e) => r matches Err(x) && x == e,
                        Ok(f) => r matches Ok(WavPcm::Int16 { channels, sample_rate, frames, samples }) && channels
                            == s.0 && sample_rate == s.1 && frames == f && samples@ == v,
                    },
                }
            }
        },
{
    if audio_base64.as_bytes().len() > MAX_AUDIO_BASE64_BYTES {
        return Err(WavDecodeError::TooLarge);
    }
    let bytes = match base64_decode(audio_base64) {
        Ok(b) => b,
        Err(_) => {
            return Err(WavDecodeError::InvalidBase64);
        },
    };
    let (channels, sample_rate, bits, is_float) = match wav_spec(&bytes) {
        Ok(s) => s,
        Err(_) => {
            return Err(WavDecodeError::UnsupportedFormat);
        },
    };
    if channels == 0 || sample_rate == 0 {
        return Err(WavDecodeError::UnsupportedFormat);
    }
    if !((!is_float && bits == 16) || (is_float && bits == 32)) {
        return Err(WavDecodeError::UnsupportedFormat);
    }
    let duration = wav_duration(&bytes);
    let scaled: u64 = (duration as u64) * 16000;
    let projected: u64 = (scaled + (sample_rate as u64) - 1) / (sample_rate as u64);
    if projected > MAX_AUDIO_SAMPLES as u64 {
        return Err(WavDecodeError::TooLong);
    }
    if is_float {
        return Ok(WavPcm::Float32 { channels, sample_rate, wav: bytes });
    }
    let samples = match wav_i16_samples(&bytes) {
        Ok(v) => v,
        Err(_) => {
            return Err(WavDecodeError::UnsupportedFormat);
        },
    };
    let frames = check_pcm_frames(samples.len(), channels, sample_rate)?;
    Ok(WavPcm::Int16 { channels, sample_rate, frames, samples })
}

/// The response to a refused WAV payload.
pub fn wav_error_rejection(e: &WavDecodeError) -> (r: ApiRejection)
    ensures
        match e {
            WavDecodeError::TooLarge => rejected(r, 413, "audio_too_large", "audio_base64 exceeds 33554432 bytes"@),
            WavDecodeError::InvalidBase64 => rejected(r, 400, "invalid_audio_base64", "audio_base64 is not valid base64"@),
            WavDecodeError::UnsupportedFormat => rejected(
                r,
                400,
                "unsupported_wav_format",
                "audio_base64 must contain a 16-bit PCM or 32-bit float WAV"@,
            ),
            WavDecodeError::TooLong => rejected(r, 413, "audio_too_long", "decoded audio exceeds 9600000 samples"@),
            WavDecodeError::Empty => rejected(r, 400, "audio_empty", "decoded audio contains no samples"@),
        },
{
    let (status, code, message): (u16, &str, &str) = match e {
        WavDecodeError::TooLarge => (413, "audio_too_large", "audio_base64 exceeds 33554432 bytes"),
        WavDecodeError::InvalidBase64 => (400, "invalid_audio_base64", "audio_base64 is not valid base64"),
        WavDecodeError::UnsupportedFormat => (
            400,
            "unsupported_wav_format",
            "audio_base64 must contain a 16-bit PCM or 32-bit float WAV",
        ),
        WavDecodeError::TooLong => (413, "audio_too_long", "decoded audio exceeds 9600000 samples"),
        WavDecodeError::Empty => (400, "audio_empty", "decoded audio contains no samples"),
    };
    ApiRejection { status, code: String::from_str(code), message: String::from_str(message) }
}

/// A transcription request must carry audio: an empty `audio_base64` is
/// refused (400 `audio_required`) before any decoding.
pub fn check_audio_present(audio_base64: &str) -> (r: Option<ApiRejection>)
    ensures
        r is Some <==> audio_base64@.len() == 0,
        r matches Some(x) ==> rejected(x, 400, "audio_required", "audio_base64 is required"@),
{
    if audio_base64.is_empty() {
        return Some(
            ApiRejection {
                status: 400,
                code: String::from_str("audio_required"),
                message: String::from_str("audio_base64 is required"),
            },
        );
    }
    None
}

/// What the speech model is asked to do.
#[derive(Debug, Clone, PartialEq, Eq)]
pub enum Speech2TextTask {
    Transcribe,
    Translate,
}

/// The task a transcription request names: `transcribe` when absent,
/// `transcribe` or `translate` otherwise, anything else refused (400
/// `invalid_task`).
pub fn parse_s2t_task(task: Option<&str>) -> (r: Result<Speech2TextTask, ApiRejection>)
    ensures
        match task {
            None => r matches Ok(Speech2TextTask::Transcribe),
            Some(t) => if t@ == "transcribe"@ {
                r matches Ok(Speech2TextTask::Transcribe)
            } else if t@ == "translate"@ {
                r matches Ok(Speech2TextTask::Translate)
            } else {
                r matches Err(x) && rejected(x, 400, "invalid_task", "task must be transcribe or translate"@)
            },
        },
{
    let name = match task {
        Some(t) => t,
        None => {
            return Ok(Speech2TextTask::Transcribe);
        },
    };
    if text_is(name, "transcribe") {
        Ok(Speech2TextTask::Transcribe)
    } else if text_is(name, "translate") {
        Ok(Speech2TextTask::Translate)
    } else {
        Err(
            ApiRejection {
                status: 400,
                code: String::from_str("invalid_task"),
                message: String::from_str("task must be transcribe or translate"),
            },
        )
    }
}

} // verus!
